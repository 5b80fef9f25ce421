use vstd::prelude::*;

use crate::error::CompileError;
use crate::lexer::lex;
use crate::token::TokenType;

verus! {

/// Where a parse stands in the text: the position of the lexer and the two
/// tokens of lookahead.
pub struct Cursor {
    pub pos: int,
    pub cur_kind: TokenType,
    pub cur_text: Seq<char>,
    pub peek_kind: TokenType,
    pub peek_text: Seq<char>,
}

/// Why a parse fails, with texts as sequences of characters.
pub enum Fault {
    Lexical(CompileError),
    Expected(TokenType, TokenType),
    UndeclaredVariable(Seq<char>),
    UnexpectedToken(Seq<char>),
    MissingComparison(Seq<char>),
    InvalidStatement(Seq<char>),
    DuplicateLabel(Seq<char>),
    UndeclaredLabel(Seq<Seq<char>>),
    /// A step that consumed nothing; the parser never meets it.
    Stalled,
}

/// The characters of each string.
pub open spec fn names(v: Seq<String>) -> Seq<Seq<char>> {
    v.map_values(|s: String| s@)
}

/// The error `e` reports the fault `f`.
pub open spec fn shows(e: CompileError, f: Fault) -> bool {
    match f {
        Fault::Lexical(l) => e == l,
        Fault::Expected(x, y) => e == CompileError::ExpectedToken { expected: x, found: y },
        Fault::UndeclaredVariable(n) => e matches CompileError::UndeclaredVariable(s) && s@ == n,
        Fault::UnexpectedToken(n) => e matches CompileError::UnexpectedToken(s) && s@ == n,
        Fault::MissingComparison(n) => e matches CompileError::MissingComparison(s) && s@ == n,
        Fault::InvalidStatement(n) => e matches CompileError::InvalidStatement(s) && s@ == n,
        Fault::DuplicateLabel(n) => e matches CompileError::DuplicateLabel(s) && s@ == n,
        Fault::UndeclaredLabel(ns) => e matches CompileError::UndeclaredLabel(v) && names(v@) == ns,
        Fault::Stalled => false,
    }
}

/// The outcome of parsing a piece of an expression: where the parse ends and
/// the text it emits.
pub type Parsed = Result<(Cursor, Seq<char>), Fault>;

/// A measure of the input left; every token consumed lowers it.
pub open spec fn cursor_rank(src: Seq<char>, c: Cursor) -> nat {
    if c.pos <= src.len() {
        (2 * (src.len() - c.pos) + (if c.cur_kind != TokenType::Eof {
            1int
        } else {
            0int
        }) + (if c.peek_kind != TokenType::Eof {
            1int
        } else {
            0int
        })) as nat
    } else {
        0
    }
}

/// The lookahead moved by one token.
pub open spec fn step(src: Seq<char>, c: Cursor) -> Result<Cursor, Fault> {
    match lex(src, c.pos) {
        Ok((k, t, p)) => Ok(
            Cursor {
                pos: p,
                cur_kind: c.peek_kind,
                cur_text: c.peek_text,
                peek_kind: k,
                peek_text: t,
            },
        ),
        Err(e) => Err(Fault::Lexical(e)),
    }
}

/// `text` emitted before what `r` emits.
pub open spec fn after(text: Seq<char>, r: Parsed) -> Parsed {
    match r {
        Ok((c, t)) => Ok((c, text + t)),
        Err(f) => Err(f),
    }
}

/// The current token is emitted as it is and consumed.
pub open spec fn take(src: Seq<char>, c: Cursor) -> Parsed {
    match step(src, c) {
        Ok(c2) => Ok((c2, c.cur_text)),
        Err(f) => Err(f),
    }
}

/// primary ::= number | ident, where the variable must be declared.
pub open spec fn primary_spec(src: Seq<char>, syms: Seq<Seq<char>>, c: Cursor) -> Parsed {
    if c.cur_kind == TokenType::Number || (c.cur_kind == TokenType::Ident && syms.contains(
        c.cur_text,
    )) {
        take(src, c)
    } else if c.cur_kind == TokenType::Ident {
        Err(Fault::UndeclaredVariable(c.cur_text))
    } else {
        Err(Fault::UnexpectedToken(c.cur_text))
    }
}

/// unary ::= ["+" | "-"] primary
pub open spec fn unary_spec(src: Seq<char>, syms: Seq<Seq<char>>, c: Cursor) -> Parsed {
    if c.cur_kind == TokenType::Plus || c.cur_kind == TokenType::Minus {
        match step(src, c) {
            Ok(c2) => after(c.cur_text, primary_spec(src, syms, c2)),
            Err(f) => Err(f),
        }
    } else {
        primary_spec(src, syms, c)
    }
}

pub open spec fn is_mul_op(k: TokenType) -> bool {
    k == TokenType::Asterisk || k == TokenType::Slash
}

pub open spec fn is_add_op(k: TokenType) -> bool {
    k == TokenType::Plus || k == TokenType::Minus
}

pub open spec fn is_comparison(k: TokenType) -> bool {
    k == TokenType::Gt || k == TokenType::GtEq || k == TokenType::Lt || k == TokenType::LtEq
        || k == TokenType::EqEq || k == TokenType::NotEq
}

/// {("*" | "/") unary}
pub open spec fn term_rest(src: Seq<char>, syms: Seq<Seq<char>>, c: Cursor) -> Parsed
    decreases cursor_rank(src, c),
{
    if is_mul_op(c.cur_kind) {
        match step(src, c) {
            Ok(c2) => match unary_spec(src, syms, c2) {
                Ok((c3, t)) => if cursor_rank(src, c3) < cursor_rank(src, c) {
                    after(c.cur_text + t, term_rest(src, syms, c3))
                } else {
                    Err(Fault::Stalled)
                },
                Err(f) => Err(f),
            },
            Err(f) => Err(f),
        }
    } else {
        Ok((c, Seq::empty()))
    }
}

/// term ::= unary {("*" | "/") unary}
pub open spec fn term_spec(src: Seq<char>, syms: Seq<Seq<char>>, c: Cursor) -> Parsed {
    match unary_spec(src, syms, c) {
        Ok((c2, t)) => after(t, term_rest(src, syms, c2)),
        Err(f) => Err(f),
    }
}

/// {("+" | "-") term}
pub open spec fn expression_rest(src: Seq<char>, syms: Seq<Seq<char>>, c: Cursor) -> Parsed
    decreases cursor_rank(src, c),
{
    if is_add_op(c.cur_kind) {
        match step(src, c) {
            Ok(c2) => match term_spec(src, syms, c2) {
                Ok((c3, t)) => if cursor_rank(src, c3) < cursor_rank(src, c) {
                    after(c.cur_text + t, expression_rest(src, syms, c3))
                } else {
                    Err(Fault::Stalled)
                },
                Err(f) => Err(f),
            },
            Err(f) => Err(f),
        }
    } else {
        Ok((c, Seq::empty()))
    }
}

/// expression ::= term {("+" | "-") term}
pub open spec fn expression_spec(src: Seq<char>, syms: Seq<Seq<char>>, c: Cursor) -> Parsed {
    match term_spec(src, syms, c) {
        Ok((c2, t)) => after(t, expression_rest(src, syms, c2)),
        Err(f) => Err(f),
    }
}

/// {comparisonOp expression}
pub open spec fn comparison_rest(src: Seq<char>, syms: Seq<Seq<char>>, c: Cursor) -> Parsed
    decreases cursor_rank(src, c),
{
    if is_comparison(c.cur_kind) {
        match step(src, c) {
            Ok(c2) => match expression_spec(src, syms, c2) {
                Ok((c3, t)) => if cursor_rank(src, c3) < cursor_rank(src, c) {
                    after(c.cur_text + t, comparison_rest(src, syms, c3))
                } else {
                    Err(Fault::Stalled)
                },
                Err(f) => Err(f),
            },
            Err(f) => Err(f),
        }
    } else {
        Ok((c, Seq::empty()))
    }
}

/// comparison ::= expression comparisonOp expression {comparisonOp expression}
pub open spec fn comparison_spec(src: Seq<char>, syms: Seq<Seq<char>>, c: Cursor) -> Parsed {
    match expression_spec(src, syms, c) {
        Ok((c2, t)) => if is_comparison(c2.cur_kind) {
            after(t, comparison_rest(src, syms, c2))
        } else {
            Err(Fault::MissingComparison(c2.cur_text))
        },
        Err(f) => Err(f),
    }
}

/// Everything a parse has built so far: where it stands, the variables and
/// labels it has met, and the output it has emitted.
pub struct State {
    pub cursor: Cursor,
    pub symbols: Seq<Seq<char>>,
    pub declared: Seq<Seq<char>>,
    pub referenced: Seq<Seq<char>>,
    pub header: Seq<char>,
    pub code: Seq<char>,
}

pub type Outcome = Result<State, Fault>;

/// `v` with `n` added unless it holds it already.
pub open spec fn with_name(v: Seq<Seq<char>>, n: Seq<char>) -> Seq<Seq<char>> {
    if v.contains(n) {
        v
    } else {
        v.push(n)
    }
}

/// The labels of `refs` that `declared` lacks, in the order of `refs`.
pub open spec fn missing_labels(refs: Seq<Seq<char>>, declared: Seq<Seq<char>>) -> Seq<Seq<char>> {
    refs.filter(|l: Seq<char>| !declared.contains(l))
}

pub open spec fn st_rank(src: Seq<char>, st: State) -> nat {
    cursor_rank(src, st.cursor)
}

pub open spec fn st_step(src: Seq<char>, st: State) -> Outcome {
    match step(src, st.cursor) {
        Ok(c) => Ok(State { cursor: c, ..st }),
        Err(f) => Err(f),
    }
}

/// Consumes the current token, which must be of `kind`.
pub open spec fn expect(src: Seq<char>, st: State, kind: TokenType) -> Outcome {
    if st.cursor.cur_kind != kind {
        Err(Fault::Expected(kind, st.cursor.cur_kind))
    } else {
        st_step(src, st)
    }
}

pub open spec fn emit(st: State, t: Seq<char>) -> State {
    State { code: st.code + t, ..st }
}

pub open spec fn emit_line(st: State, t: Seq<char>) -> State {
    State { code: st.code + t + seq!['\n'], ..st }
}

/// The state after an expression-level parse `r` that started at `st`.
pub open spec fn with_parsed(st: State, r: Parsed) -> Outcome {
    match r {
        Ok((c, t)) => Ok(State { cursor: c, code: st.code + t, ..st }),
        Err(f) => Err(f),
    }
}

/// {newline}
pub open spec fn newlines(src: Seq<char>, st: State) -> Outcome
    decreases st_rank(src, st),
{
    if st.cursor.cur_kind == TokenType::Newline {
        match st_step(src, st) {
            Ok(st2) => if st_rank(src, st2) < st_rank(src, st) {
                newlines(src, st2)
            } else {
                Err(Fault::Stalled)
            },
            Err(f) => Err(f),
        }
    } else {
        Ok(st)
    }
}

/// nl ::= newline {newline}
pub open spec fn nl_spec(src: Seq<char>, st: State) -> Outcome {
    match expect(src, st, TokenType::Newline) {
        Ok(st2) => newlines(src, st2),
        Err(f) => Err(f),
    }
}

/// "PRINT" (string | expression), without the final newlines.
pub open spec fn print_spec(src: Seq<char>, st: State) -> Outcome {
    match st_step(src, st) {
        Ok(st1) => if st1.cursor.cur_kind == TokenType::String {
            st_step(
                src,
                emit_line(st1, "printf(\""@ + st1.cursor.cur_text + "\\n\");"@),
            )
        } else {
            let st2 = emit(st1, "printf(\"%.2f\\n\", (float)("@);
            match with_parsed(st2, expression_spec(src, st2.symbols, st2.cursor)) {
                Ok(st3) => Ok(emit_line(st3, "));"@)),
                Err(f) => Err(f),
            }
        },
        Err(f) => Err(f),
    }
}

/// "LABEL" ident, without the final newlines.
pub open spec fn label_spec(src: Seq<char>, st: State) -> Outcome {
    match st_step(src, st) {
        Ok(st1) => {
            let t = st1.cursor.cur_text;
            if st1.declared.contains(t) {
                Err(Fault::DuplicateLabel(t))
            } else {
                expect(
                    src,
                    emit_line(emit(State { declared: st1.declared.push(t), ..st1 }, t), ":"@),
                    TokenType::Ident,
                )
            }
        },
        Err(f) => Err(f),
    }
}

/// "GOTO" ident, without the final newlines.
pub open spec fn goto_spec(src: Seq<char>, st: State) -> Outcome {
    match st_step(src, st) {
        Ok(st1) => {
            let t = st1.cursor.cur_text;
            let st2 = State { referenced: with_name(st1.referenced, t), ..st1 };
            expect(src, emit_line(emit(emit(st2, "goto "@), t), ";"@), TokenType::Ident)
        },
        Err(f) => Err(f),
    }
}

/// The current token's text declared as a variable unless it is one.
pub open spec fn declare(st: State) -> State {
    let t = st.cursor.cur_text;
    if st.symbols.contains(t) {
        st
    } else {
        State { symbols: st.symbols.push(t), header: st.header + ("float "@ + t + ";"@) + seq!['\n'], ..st }
    }
}

/// "LET" ident "=" expression, without the final newlines.
pub open spec fn let_spec(src: Seq<char>, st: State) -> Outcome {
    match st_step(src, st) {
        Ok(st1) => {
            let st2 = emit(emit(declare(st1), st1.cursor.cur_text), " = "@);
            match expect(src, st2, TokenType::Ident) {
                Ok(st3) => match expect(src, st3, TokenType::Eq) {
                    Ok(st4) => match with_parsed(st4, expression_spec(src, st4.symbols, st4.cursor)) {
                        Ok(st5) => Ok(emit_line(st5, ";"@)),
                        Err(f) => Err(f),
                    },
                    Err(f) => Err(f),
                },
                Err(f) => Err(f),
            }
        },
        Err(f) => Err(f),
    }
}

/// "INPUT" ident, without the final newlines.
pub open spec fn input_spec(src: Seq<char>, st: State) -> Outcome {
    match st_step(src, st) {
        Ok(st1) => {
            let t = st1.cursor.cur_text;
            let st2 = emit_line(declare(st1), "if(0 == scanf(\"%f\", &"@ + t + ")) {"@);
            let st3 = emit_line(emit(st2, t), " = 0;"@);
            let st4 = emit_line(emit_line(emit(st3, "scanf(\"%"@), "*s\");"@), "}"@);
            expect(src, st4, TokenType::Ident)
        },
        Err(f) => Err(f),
    }
}

/// The head of "IF" and "WHILE": the keyword, the condition, the word
/// `middle` and the newlines after it.
pub open spec fn block_head(src: Seq<char>, st: State, opener: Seq<char>, middle: TokenType) -> Outcome {
    match st_step(src, st) {
        Ok(st1) => {
            let st2 = emit(st1, opener);
            match with_parsed(st2, comparison_spec(src, st2.symbols, st2.cursor)) {
                Ok(st3) => match expect(src, st3, middle) {
                    Ok(st4) => match nl_spec(src, st4) {
                        Ok(st5) => Ok(emit_line(st5, "){"@)),
                        Err(f) => Err(f),
                    },
                    Err(f) => Err(f),
                },
                Err(f) => Err(f),
            }
        },
        Err(f) => Err(f),
    }
}

/// The statements of a block, up to the word `end`.
pub open spec fn body_spec(src: Seq<char>, st: State, end: TokenType) -> Outcome
    decreases st_rank(src, st), 2nat,
{
    if st.cursor.cur_kind == end {
        Ok(st)
    } else {
        match statement_spec(src, st) {
            Ok(st2) => if st_rank(src, st2) < st_rank(src, st) {
                body_spec(src, st2, end)
            } else {
                Err(Fault::Stalled)
            },
            Err(f) => Err(f),
        }
    }
}

/// "IF" or "WHILE" up to its end word, without the final newlines.
pub open spec fn block_spec(
    src: Seq<char>,
    st: State,
    opener: Seq<char>,
    middle: TokenType,
    end: TokenType,
) -> Outcome
    decreases st_rank(src, st), 0nat,
{
    match block_head(src, st, opener, middle) {
        Ok(st5) => if st_rank(src, st5) < st_rank(src, st) {
            match body_spec(src, st5, end) {
                Ok(st6) => match expect(src, st6, end) {
                    Ok(st7) => Ok(emit_line(st7, "}"@)),
                    Err(f) => Err(f),
                },
                Err(f) => Err(f),
            }
        } else {
            Err(Fault::Stalled)
        },
        Err(f) => Err(f),
    }
}

/// One statement with the newlines that end it.
pub open spec fn statement_spec(src: Seq<char>, st: State) -> Outcome
    decreases st_rank(src, st), 1nat,
{
    let k = st.cursor.cur_kind;
    let body = if k == TokenType::Print {
        print_spec(src, st)
    } else if k == TokenType::If {
        block_spec(src, st, "if("@, TokenType::Then, TokenType::EndIf)
    } else if k == TokenType::While {
        block_spec(src, st, "while("@, TokenType::Repeat, TokenType::EndWhile)
    } else if k == TokenType::Label {
        label_spec(src, st)
    } else if k == TokenType::GoTo {
        goto_spec(src, st)
    } else if k == TokenType::Let {
        let_spec(src, st)
    } else if k == TokenType::Input {
        input_spec(src, st)
    } else {
        Err(Fault::InvalidStatement(st.cursor.cur_text))
    };
    match body {
        Ok(st2) => nl_spec(src, st2),
        Err(f) => Err(f),
    }
}

/// {statement}, up to the end of the input.
pub open spec fn statements_spec(src: Seq<char>, st: State) -> Outcome
    decreases st_rank(src, st),
{
    if st.cursor.cur_kind == TokenType::Eof {
        Ok(st)
    } else {
        match statement_spec(src, st) {
            Ok(st2) => if st_rank(src, st2) < st_rank(src, st) {
                statements_spec(src, st2)
            } else {
                Err(Fault::Stalled)
            },
            Err(f) => Err(f),
        }
    }
}

/// program ::= {newline} {statement}, wrapped in a C `main`, followed by the
/// check that every label a `GOTO` names is declared.
pub open spec fn program_spec(src: Seq<char>, st: State) -> Outcome {
    let st1 = State {
        header: st.header + "#include <stdio.h>"@ + seq!['\n'] + "int main(void){"@ + seq!['\n'],
        ..st
    };
    match newlines(src, st1) {
        Ok(st2) => match statements_spec(src, st2) {
            Ok(st3) => {
                let st4 = emit_line(emit_line(st3, "return 0;"@), "}"@);
                let missing = missing_labels(st4.referenced, st4.declared);
                if missing.len() == 0 {
                    Ok(st4)
                } else {
                    Err(Fault::UndeclaredLabel(missing))
                }
            },
            Err(f) => Err(f),
        },
        Err(f) => Err(f),
    }
}

/// The output that compiling `source` gives, or why it fails. A newline is
/// appended to the source before it is read.
pub open spec fn compile_spec(source: Seq<char>) -> Result<Seq<char>, Fault> {
    let src = source.push('\n');
    match lex(src, 0) {
        Ok((k1, t1, p1)) => match lex(src, p1) {
            Ok((k2, t2, p2)) => {
                let st = State {
                    cursor: Cursor { pos: p2, cur_kind: k1, cur_text: t1, peek_kind: k2, peek_text: t2 },
                    symbols: Seq::empty(),
                    declared: Seq::empty(),
                    referenced: Seq::empty(),
                    header: Seq::empty(),
                    code: Seq::empty(),
                };
                match program_spec(src, st) {
                    Ok(st2) => Ok(st2.header + st2.code),
                    Err(f) => Err(f),
                }
            },
            Err(e) => Err(Fault::Lexical(e)),
        },
        Err(e) => Err(Fault::Lexical(e)),
    }
}

} // verus!
