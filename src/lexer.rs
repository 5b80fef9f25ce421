use vstd::prelude::*;

use crate::error::CompileError;
use crate::token::{keyword_kind, Token, TokenType};

verus! {

/// The character at `i`, or `'\0'` outside the text.
pub open spec fn char_at(src: Seq<char>, i: int) -> char {
    if 0 <= i < src.len() {
        src[i]
    } else {
        '\0'
    }
}

pub open spec fn is_blank(c: char) -> bool {
    c == ' ' || c == '\t' || c == '\r'
}

pub open spec fn is_digit(c: char) -> bool {
    '0' <= c && c <= '9'
}

pub open spec fn is_letter(c: char) -> bool {
    ('a' <= c && c <= 'z') || ('A' <= c && c <= 'Z')
}

pub open spec fn is_alnum(c: char) -> bool {
    is_letter(c) || is_digit(c)
}

/// Characters that may not stand inside a string literal.
pub open spec fn is_banned_in_string(c: char) -> bool {
    c == '\r' || c == '\n' || c == '\t' || c == '\\' || c == '%'
}

/// The first position at or after `i` that holds no blank.
pub open spec fn skip_blanks(src: Seq<char>, i: int) -> int
    decreases src.len() - i,
{
    if 0 <= i < src.len() && is_blank(src[i]) {
        skip_blanks(src, i + 1)
    } else {
        i
    }
}

/// The first position at or after `i` that holds a newline, or the end.
pub open spec fn line_end(src: Seq<char>, i: int) -> int
    decreases src.len() - i,
{
    if 0 <= i < src.len() && src[i] != '\n' {
        line_end(src, i + 1)
    } else {
        i
    }
}

/// The end of the run of digits that starts at `i`.
pub open spec fn digits_end(src: Seq<char>, i: int) -> int
    decreases src.len() - i,
{
    if 0 <= i < src.len() && is_digit(src[i]) {
        digits_end(src, i + 1)
    } else {
        i
    }
}

/// The end of the run of letters and digits that starts at `i`.
pub open spec fn alnum_end(src: Seq<char>, i: int) -> int
    decreases src.len() - i,
{
    if 0 <= i < src.len() && is_alnum(src[i]) {
        alnum_end(src, i + 1)
    } else {
        i
    }
}

/// The first position at or after `i` that closes a string literal, holds a
/// character banned from one, or is the end.
pub open spec fn string_end(src: Seq<char>, i: int) -> int
    decreases src.len() - i,
{
    if 0 <= i < src.len() && src[i] != '"' && !is_banned_in_string(src[i]) {
        string_end(src, i + 1)
    } else {
        i
    }
}

/// Where the next token starts: after blanks and after a comment.
pub open spec fn token_start(src: Seq<char>, pos: int) -> int {
    let j = skip_blanks(src, pos);
    if char_at(src, j) == '#' {
        line_end(src, j)
    } else {
        j
    }
}

/// A one- or two-character operator: `c` alone, or `c` followed by `=`.
pub open spec fn with_optional_eq(
    src: Seq<char>,
    s: int,
    single: TokenType,
    double: TokenType,
) -> Result<(TokenType, Seq<char>, int), CompileError> {
    if char_at(src, s + 1) == '=' {
        Ok((double, seq![src[s], '='], s + 2))
    } else {
        Ok((single, seq![src[s]], s + 1))
    }
}

/// The token that the text `src` yields from position `pos` on: its kind,
/// its text and the position after it; or the lexical error met there.
pub open spec fn lex(src: Seq<char>, pos: int) -> Result<(TokenType, Seq<char>, int), CompileError> {
    let s = token_start(src, pos);
    let c = char_at(src, s);
    if s >= src.len() {
        Ok((TokenType::Eof, Seq::empty(), s))
    } else if c == '+' {
        Ok((TokenType::Plus, seq![c], s + 1))
    } else if c == '-' {
        Ok((TokenType::Minus, seq![c], s + 1))
    } else if c == '*' {
        Ok((TokenType::Asterisk, seq![c], s + 1))
    } else if c == '/' {
        Ok((TokenType::Slash, seq![c], s + 1))
    } else if c == '"' {
        let e = string_end(src, s + 1);
        if char_at(src, e) == '"' {
            Ok((TokenType::String, src.subrange(s + 1, e), e + 1))
        } else {
            Err(CompileError::IllegalCharacter(char_at(src, e)))
        }
    } else if c == '!' {
        if char_at(src, s + 1) == '=' {
            Ok((TokenType::NotEq, seq!['!', '='], s + 2))
        } else {
            Err(CompileError::UnexpectedCharacter(char_at(src, s + 1)))
        }
    } else if c == '=' {
        with_optional_eq(src, s, TokenType::Eq, TokenType::EqEq)
    } else if c == '>' {
        with_optional_eq(src, s, TokenType::Gt, TokenType::GtEq)
    } else if c == '<' {
        with_optional_eq(src, s, TokenType::Lt, TokenType::LtEq)
    } else if is_digit(c) {
        let e1 = digits_end(src, s);
        if char_at(src, e1) == '.' {
            if is_digit(char_at(src, e1 + 1)) {
                let e2 = digits_end(src, e1 + 1);
                Ok((TokenType::Number, src.subrange(s, e2), e2))
            } else {
                Err(CompileError::IllegalCharacter(char_at(src, e1 + 1)))
            }
        } else {
            Ok((TokenType::Number, src.subrange(s, e1), e1))
        }
    } else if is_letter(c) {
        let e = alnum_end(src, s);
        let text = src.subrange(s, e);
        if keyword_kind(text) == TokenType::Unknown {
            Ok((TokenType::Ident, text, e))
        } else {
            Ok((keyword_kind(text), text, e))
        }
    } else if c == '\n' {
        Ok((TokenType::Newline, seq![c], s + 1))
    } else {
        Err(CompileError::UnexpectedCharacter(c))
    }
}

fn digit(c: char) -> (r: bool)
    ensures
        r == is_digit(c),
{
    '0' <= c && c <= '9'
}

fn letter(c: char) -> (r: bool)
    ensures
        r == is_letter(c),
{
    ('a' <= c && c <= 'z') || ('A' <= c && c <= 'Z')
}

fn banned_in_string(c: char) -> (r: bool)
    ensures
        r == is_banned_in_string(c),
{
    c == '\r' || c == '\n' || c == '\t' || c == '\\' || c == '%'
}

/// Relies on `str::chars`: it yields the characters of the string in order.
#[verifier::external_body]
fn chars_of(s: &str) -> (r: Vec<char>)
    ensures
        r@ == s@,
{
    s.chars().collect()
}

/// Relies on `String: FromIterator<char>`: the string holds the characters
/// in order.
#[verifier::external_body]
fn string_of(cs: Vec<char>) -> (r: String)
    ensures
        r@ == cs@,
{
    cs.into_iter().collect()
}

/// Turns source text into tokens, one per call of `get_token`.
pub struct Lexer {
    source: Vec<char>,
    pub cur_char: char,
    cur_pos: usize,
}

impl Lexer {
    /// The text being tokenized: the source with one newline appended.
    pub closed spec fn src(&self) -> Seq<char> {
        self.source@
    }

    /// The position of the current character.
    pub closed spec fn pos(&self) -> int {
        self.cur_pos as int
    }

    pub closed spec fn wf(&self) -> bool {
        &&& self.source@.len() < usize::MAX
        &&& self.cur_pos <= self.source@.len()
        &&& self.cur_char == char_at(self.source@, self.cur_pos as int)
    }

    pub fn new(source: String) -> (r: Self)
        requires
            source@.len() < usize::MAX - 1,
        ensures
            r.wf(),
            r.src() == source@.push('\n'),
            r.src().len() < usize::MAX,
            r.pos() == 0,
    {
        let mut chars = chars_of(source.as_str());
        chars.push('\n');
        Lexer { source: chars, cur_char: '\n', cur_pos: 0 }.with_first_char()
    }

    fn with_first_char(self) -> (r: Self)
        requires
            self.source@.len() < usize::MAX,
            self.source@.len() > 0,
            self.cur_pos == 0,
        ensures
            r.wf(),
            r.source@ == self.source@,
            r.cur_pos == 0,
    {
        let c = self.source[0];
        Lexer { source: self.source, cur_char: c, cur_pos: 0 }
    }

    /// Moves to the next character; at the end of the text it stays there.
    pub fn next_char(&mut self)
        requires
            old(self).wf(),
        ensures
            final(self).wf(),
            final(self).src() == old(self).src(),
            final(self).pos() == if old(self).pos() < old(self).src().len() {
                old(self).pos() + 1
            } else {
                old(self).pos()
            },
    {
        if self.cur_pos < self.source.len() {
            self.cur_pos = self.cur_pos + 1;
        }
        if self.cur_pos < self.source.len() {
            self.cur_char = self.source[self.cur_pos];
        } else {
            self.cur_char = '\0';
        }
    }

    /// The character after the current one, without moving.
    pub fn peek(&self) -> (r: char)
        requires
            self.wf(),
        ensures
            r == char_at(self.src(), self.pos() + 1),
    {
        if self.cur_pos + 1 < self.source.len() {
            self.source[self.cur_pos + 1]
        } else {
            '\0'
        }
    }

    /// Skips spaces, tabs and carriage returns, but not newlines, which end
    /// statements.
    pub fn skip_whitespace(&mut self)
        requires
            old(self).wf(),
        ensures
            final(self).wf(),
            final(self).src() == old(self).src(),
            final(self).pos() == skip_blanks(old(self).src(), old(self).pos()),
            final(self).pos() >= old(self).pos(),
    {
        while self.cur_char == ' ' || self.cur_char == '\t' || self.cur_char == '\r'
            invariant
                self.wf(),
                self.src() == old(self).src(),
                skip_blanks(self.src(), self.pos()) == skip_blanks(old(self).src(), old(self).pos()),
                self.pos() >= old(self).pos(),
            decreases self.src().len() - self.pos(),
        {
            self.next_char();
        }
    }

    /// Skips a comment, up to but not including the newline that ends it.
    pub fn skip_comment(&mut self)
        requires
            old(self).wf(),
        ensures
            final(self).wf(),
            final(self).src() == old(self).src(),
            final(self).pos() == if char_at(old(self).src(), old(self).pos()) == '#' {
                line_end(old(self).src(), old(self).pos())
            } else {
                old(self).pos()
            },
            final(self).pos() >= old(self).pos(),
    {
        if self.cur_char == '#' {
            while self.cur_pos < self.source.len() && self.cur_char != '\n'
                invariant
                    self.wf(),
                    self.src() == old(self).src(),
                    line_end(self.src(), self.pos()) == line_end(old(self).src(), old(self).pos()),
                self.pos() >= old(self).pos(),
                decreases self.src().len() - self.pos(),
            {
                self.next_char();
            }
        }
    }
    /// The text between two positions.
    fn text_between(&self, start: usize, end: usize) -> (r: String)
        requires
            self.wf(),
            start <= end <= self.src().len(),
        ensures
            r@ == self.src().subrange(start as int, end as int),
    {
        let mut cs: Vec<char> = Vec::new();
        let mut i: usize = start;
        while i < end
            invariant
                self.wf(),
                start <= i <= end <= self.src().len(),
                cs@ == self.src().subrange(start as int, i as int),
            decreases end - i,
        {
            cs.push(self.source[i]);
            assert(cs@ =~= self.src().subrange(start as int, i + 1));
            i = i + 1;
        }
        string_of(cs)
    }

    /// Moves past the current character and returns a token of `kind` whose
    /// text runs from `start` to here.
    fn finish(&mut self, start: usize, kind: TokenType) -> (r: Token)
        requires
            old(self).wf(),
            start <= old(self).pos() < old(self).src().len(),
        ensures
            final(self).wf(),
            final(self).src() == old(self).src(),
            final(self).pos() == old(self).pos() + 1,
            r.kind == kind,
            r.text@ == old(self).src().subrange(start as int, old(self).pos() + 1),
    {
        let text = self.text_between(start, self.cur_pos + 1);
        self.next_char();
        Token::new(text, kind)
    }

    /// The next token, or the lexical error met at it.
    #[verifier::rlimit(40)]
    pub fn get_token(&mut self) -> (r: Result<Token, CompileError>)
        requires
            old(self).wf(),
        ensures
            final(self).wf(),
            final(self).src() == old(self).src(),
            0 <= final(self).pos() <= final(self).src().len(),
            r matches Err(e) ==> (e is IllegalCharacter || e is UnexpectedCharacter),
            match r {
                Ok(t) => lex(old(self).src(), old(self).pos()) == Ok::<_, CompileError>(
                    (t.kind, t.text@, final(self).pos()),
                ),
                Err(e) => lex(old(self).src(), old(self).pos()) == Err::<(TokenType, Seq<char>, int), _>(e),
            },
            r is Ok ==> old(self).pos() <= final(self).pos(),
            r is Ok && r->Ok_0.kind == TokenType::Eof ==> final(self).pos() == final(self).src().len(),
            r is Ok && r->Ok_0.kind != TokenType::Eof ==> final(self).pos() > old(self).pos(),
            old(self).pos() == old(self).src().len() ==> (r is Ok && r->Ok_0.kind == TokenType::Eof),
    {
        self.skip_whitespace();
        self.skip_comment();
        let ghost src = self.src();
        let s = self.cur_pos;
        assert(s == token_start(src, old(self).pos()));
        if s >= self.source.len() {
            return Ok(Token::new(String::new(), TokenType::Eof));
        }
        let c = self.cur_char;
        assert(c == src[s as int]);
        if c == '+' {
            let t = self.finish(s, TokenType::Plus);
            assert(t.text@ =~= seq![c]);
            Ok(t)
        } else if c == '-' {
            let t = self.finish(s, TokenType::Minus);
            assert(t.text@ =~= seq![c]);
            Ok(t)
        } else if c == '*' {
            let t = self.finish(s, TokenType::Asterisk);
            assert(t.text@ =~= seq![c]);
            Ok(t)
        } else if c == '/' {
            let t = self.finish(s, TokenType::Slash);
            assert(t.text@ =~= seq![c]);
            Ok(t)
        } else if c == '"' {
            self.next_char();
            while self.cur_pos < self.source.len() && self.cur_char != '"' && !banned_in_string(
                self.cur_char,
            )
                invariant
                    self.wf(),
                    self.src() == src,
                    s < self.pos(),
                    string_end(src, self.pos()) == string_end(src, s + 1),
                decreases src.len() - self.pos(),
            {
                self.next_char();
            }
            if self.cur_char == '"' {
                let text = self.text_between(s + 1, self.cur_pos);
                self.next_char();
                Ok(Token::new(text, TokenType::String))
            } else {
                Err(CompileError::IllegalCharacter(self.cur_char))
            }
        } else if c == '!' {
            if self.peek() == '=' {
                self.next_char();
                let t = self.finish(s, TokenType::NotEq);
                assert(t.text@ =~= seq!['!', '=']);
                Ok(t)
            } else {
                Err(CompileError::UnexpectedCharacter(self.peek()))
            }
        } else if c == '=' || c == '>' || c == '<' {
            let (single, double) = if c == '=' {
                (TokenType::Eq, TokenType::EqEq)
            } else if c == '>' {
                (TokenType::Gt, TokenType::GtEq)
            } else {
                (TokenType::Lt, TokenType::LtEq)
            };
            if self.peek() == '=' {
                self.next_char();
                let t = self.finish(s, double);
                assert(t.text@ =~= seq![c, '=']);
                Ok(t)
            } else {
                let t = self.finish(s, single);
                assert(t.text@ =~= seq![c]);
                Ok(t)
            }
        } else if digit(c) {
            while digit(self.peek())
                invariant
                    self.wf(),
                    self.src() == src,
                    s <= self.pos() < src.len(),
                    digits_end(src, self.pos() + 1) == digits_end(src, s as int),
                decreases src.len() - self.pos(),
            {
                self.next_char();
            }
            if self.peek() == '.' {
                self.next_char();
                let ghost e1 = self.pos();
                if !digit(self.peek()) {
                    return Err(CompileError::IllegalCharacter(self.peek()));
                }
                while digit(self.peek())
                    invariant
                        self.wf(),
                        self.src() == src,
                        e1 <= self.pos() < src.len(),
                        digits_end(src, self.pos() + 1) == digits_end(src, e1 + 1),
                    decreases src.len() - self.pos(),
                {
                    self.next_char();
                }
            }
            Ok(self.finish(s, TokenType::Number))
        } else if letter(c) {
            while digit(self.peek()) || letter(self.peek())
                invariant
                    self.wf(),
                    self.src() == src,
                    s <= self.pos() < src.len(),
                    alnum_end(src, self.pos() + 1) == alnum_end(src, s as int),
                decreases src.len() - self.pos(),
            {
                self.next_char();
            }
            let mut t = self.finish(s, TokenType::Ident);
            let keyword = Token::check_if_keyword(t.text.as_str());
            if keyword != TokenType::Unknown {
                t.kind = keyword;
            }
            Ok(t)
        } else if c == '\n' {
            let t = self.finish(s, TokenType::Newline);
            assert(t.text@ =~= seq![c]);
            Ok(t)
        } else {
            Err(CompileError::UnexpectedCharacter(c))
        }
    }
}

proof fn lemma_skip_blanks(src: Seq<char>, i: int)
    requires
        0 <= i <= src.len(),
    ensures
        i <= skip_blanks(src, i) <= src.len(),
        forall|k: int| i <= k < skip_blanks(src, i) ==> is_blank(#[trigger] src[k]),
    decreases src.len() - i,
{
    if i < src.len() && is_blank(src[i]) {
        lemma_skip_blanks(src, i + 1);
    }
}

proof fn lemma_line_end(src: Seq<char>, i: int)
    requires
        0 <= i <= src.len(),
    ensures
        i <= line_end(src, i) <= src.len(),
        forall|k: int| i <= k < line_end(src, i) ==> #[trigger] src[k] != '\n',
    decreases src.len() - i,
{
    if i < src.len() && src[i] != '\n' {
        lemma_line_end(src, i + 1);
    }
}

proof fn lemma_digits_end(src: Seq<char>, i: int)
    requires
        0 <= i <= src.len(),
    ensures
        i <= digits_end(src, i) <= src.len(),
    decreases src.len() - i,
{
    if i < src.len() && is_digit(src[i]) {
        lemma_digits_end(src, i + 1);
    }
}

proof fn lemma_alnum_end(src: Seq<char>, i: int)
    requires
        0 <= i <= src.len(),
    ensures
        i <= alnum_end(src, i) <= src.len(),
    decreases src.len() - i,
{
    if i < src.len() && is_alnum(src[i]) {
        lemma_alnum_end(src, i + 1);
    }
}

proof fn lemma_string_end(src: Seq<char>, i: int)
    requires
        0 <= i <= src.len(),
    ensures
        i <= string_end(src, i) <= src.len(),
    decreases src.len() - i,
{
    if i < src.len() && src[i] != '"' && !is_banned_in_string(src[i]) {
        lemma_string_end(src, i + 1);
    }
}

/// Tokens are pieces of the source: each token's text is the text where it
/// stands (a string literal's without its quotes), and what lies before it
/// is a run of blanks, then perhaps a comment running up to a newline.
pub proof fn lemma_token_text_from_source(src: Seq<char>, pos: int)
    requires
        0 <= pos <= src.len(),
        lex(src, pos) is Ok,
    ensures
        ({
            let k = lex(src, pos)->Ok_0.0;
            let t = lex(src, pos)->Ok_0.1;
            let p = lex(src, pos)->Ok_0.2;
            let j = skip_blanks(src, pos);
            let s = token_start(src, pos);
            &&& pos <= j <= s <= p <= src.len()
            &&& forall|i: int| pos <= i < j ==> is_blank(#[trigger] src[i])
            &&& s == j || (src[j] == '#' && forall|i: int| j <= i < s ==> #[trigger] src[i] != '\n')
            &&& k == TokenType::String ==> src[s] == '"' && src[p - 1] == '"' && t == src.subrange(
                s + 1,
                p - 1,
            )
            &&& k != TokenType::String ==> t == src.subrange(s, p)
        }),
{
    let j = skip_blanks(src, pos);
    lemma_skip_blanks(src, pos);
    if char_at(src, j) == '#' {
        lemma_line_end(src, j);
    }
    let s = token_start(src, pos);
    if s < src.len() {
        let c = src[s];
        assert(src.subrange(s, s + 1) =~= seq![c]);
        if s + 2 <= src.len() {
            assert(src.subrange(s, s + 2) =~= seq![c, src[s + 1]]);
        }
        if c == '"' {
            lemma_string_end(src, s + 1);
        } else if is_digit(c) {
            lemma_digits_end(src, s);
            let e1 = digits_end(src, s);
            if char_at(src, e1) == '.' {
                lemma_digits_end(src, e1 + 1);
            }
        } else if is_letter(c) {
            lemma_alnum_end(src, s);
        }
    } else {
        assert(src.subrange(s, s) =~= Seq::<char>::empty());
    }
}

} // verus!
