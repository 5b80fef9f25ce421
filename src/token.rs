use vstd::prelude::*;
use vstd::string::StrSliceExecFns;

verus! {

/// The kind of a token.
#[derive(Clone, Copy, Debug, PartialEq, Eq, Structural)]
pub enum TokenType {
    Unknown,
    Eof,
    Newline,
    Number,
    Ident,
    String,
    // Reserved words.
    Label,
    GoTo,
    Print,
    Input,
    Let,
    If,
    Then,
    EndIf,
    While,
    Repeat,
    EndWhile,
    // Operators.
    Eq,
    Plus,
    Minus,
    Asterisk,
    Slash,
    EqEq,
    NotEq,
    Lt,
    LtEq,
    Gt,
    GtEq,
}

/// The reserved word spelled by `s`, or `Unknown` when `s` spells none.
/// The match is exact and case-sensitive.
pub open spec fn keyword_kind(s: Seq<char>) -> TokenType {
    if s == "LABEL"@ {
        TokenType::Label
    } else if s == "GOTO"@ {
        TokenType::GoTo
    } else if s == "PRINT"@ {
        TokenType::Print
    } else if s == "INPUT"@ {
        TokenType::Input
    } else if s == "LET"@ {
        TokenType::Let
    } else if s == "IF"@ {
        TokenType::If
    } else if s == "THEN"@ {
        TokenType::Then
    } else if s == "ENDIF"@ {
        TokenType::EndIf
    } else if s == "WHILE"@ {
        TokenType::While
    } else if s == "REPEAT"@ {
        TokenType::Repeat
    } else if s == "ENDWHILE"@ {
        TokenType::EndWhile
    } else {
        TokenType::Unknown
    }
}

/// A classified piece of source text.
#[derive(Debug)]
pub struct Token {
    pub text: String,
    pub kind: TokenType,
}

/// Whether two strings hold the same characters.
pub fn same_text(a: &str, b: &str) -> (r: bool)
    ensures
        r == (a@ == b@),
{
    let n = a.unicode_len();
    if n != b.unicode_len() {
        return false;
    }
    let mut i: usize = 0;
    while i < n
        invariant
            n == a@.len(),
            n == b@.len(),
            i <= n,
            a@.subrange(0, i as int) == b@.subrange(0, i as int),
        decreases n - i,
    {
        if a.get_char(i) != b.get_char(i) {
            return false;
        }
        assert(a@.subrange(0, i + 1) == a@.subrange(0, i as int).push(a@[i as int]));
        assert(b@.subrange(0, i + 1) == b@.subrange(0, i as int).push(b@[i as int]));
        i = i + 1;
    }
    assert(a@ == a@.subrange(0, n as int));
    assert(b@ == b@.subrange(0, n as int));
    true
}

impl Token {
    pub fn new(text: String, kind: TokenType) -> (r: Token)
        ensures
            r.text == text,
            r.kind == kind,
    {
        Token { text, kind }
    }

    /// The reserved-word kind of `text`, or `Unknown` when it is no reserved word.
    pub fn check_if_keyword(text: &str) -> (r: TokenType)
        ensures
            r == keyword_kind(text@),
    {
        if same_text(text, "LABEL") {
            TokenType::Label
        } else if same_text(text, "GOTO") {
            TokenType::GoTo
        } else if same_text(text, "PRINT") {
            TokenType::Print
        } else if same_text(text, "INPUT") {
            TokenType::Input
        } else if same_text(text, "LET") {
            TokenType::Let
        } else if same_text(text, "IF") {
            TokenType::If
        } else if same_text(text, "THEN") {
            TokenType::Then
        } else if same_text(text, "ENDIF") {
            TokenType::EndIf
        } else if same_text(text, "WHILE") {
            TokenType::While
        } else if same_text(text, "REPEAT") {
            TokenType::Repeat
        } else if same_text(text, "ENDWHILE") {
            TokenType::EndWhile
        } else {
            TokenType::Unknown
        }
    }
}

} // verus!
