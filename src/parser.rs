use vstd::prelude::*;
use vstd::string::StringExecFns;

use crate::emitter::Emitter;
use crate::error::CompileError;
use crate::grammar::{
    after, block_head, block_spec, body_spec, comparison_rest, comparison_spec, compile_spec,
    cursor_rank, declare, expect, expression_rest, expression_spec, goto_spec, input_spec,
    is_comparison, label_spec, let_spec, missing_labels, names, newlines, nl_spec, primary_spec,
    print_spec, program_spec, shows, statement_spec, statements_spec, st_step, step, term_rest,
    term_spec, unary_spec, with_name, Cursor, Fault, Outcome, Parsed, State,
};
use crate::lexer::{lex, Lexer};
use crate::token::{Token, TokenType};

verus! {

/// `a` is a prefix of `b`.
pub open spec fn prefix<T>(a: Seq<T>, b: Seq<T>) -> bool {
    a.len() <= b.len() && forall|i: int|
        #![trigger a[i]]
        #![trigger b[i]]
        0 <= i < a.len() ==> a[i] == b[i]
}

/// `t` is the end of `s`.
pub open spec fn ends_with(s: Seq<char>, t: Seq<char>) -> bool {
    t.len() <= s.len() && s.subrange(s.len() - t.len(), s.len() as int) == t
}

pub open spec fn is_statement_start(k: TokenType) -> bool {
    k == TokenType::Print || k == TokenType::If || k == TokenType::While || k == TokenType::Label
        || k == TokenType::GoTo || k == TokenType::Let || k == TokenType::Input
}

/// The declarations open every program with.
pub open spec fn prologue() -> Seq<char> {
    "#include <stdio.h>"@ + seq!['\n'] + "int main(void){"@ + seq!['\n']
}

/// The statements close every program with.
pub open spec fn epilogue() -> Seq<char> {
    "return 0;"@ + seq!['\n'] + "}"@ + seq!['\n']
}

proof fn lemma_after_after(a: Seq<char>, b: Seq<char>, r: Parsed)
    ensures
        after(a, after(b, r)) == after(a + b, r),
{
    if let Ok((c, t)) = r {
        assert(a + (b + t) =~= (a + b) + t);
    }
}

/// `r` is no complaint about undeclared labels.
pub open spec fn not_label_error(r: Result<(), CompileError>) -> bool {
    !(r matches Err(CompileError::UndeclaredLabel(_)))
}

/// `names_vec` holds `name`.
fn contains_name(names_vec: &Vec<String>, name: &String) -> (r: bool)
    ensures
        r == names(names_vec@).contains(name@),
{
    let mut i: usize = 0;
    while i < names_vec.len()
        invariant
            i <= names_vec@.len(),
            forall|j: int| 0 <= j < i ==> names(names_vec@)[j] != name@,
        decreases names_vec@.len() - i,
    {
        if names_vec[i] == *name {
            assert(names(names_vec@)[i as int] == name@);
            return true;
        }
        i = i + 1;
    }
    false
}

/// Adds `name` to `v` unless it is there already.
fn insert_name(v: &mut Vec<String>, name: &String)
    ensures
        names(final(v)@) == with_name(names(old(v)@), name@),
{
    if !contains_name(v, name) {
        v.push(name.clone());
        assert(names(v@) =~= names(old(v)@).push(name@));
    }
}

/// Three strings one after another.
fn joined(a: &str, b: &str, c: &str) -> (r: String)
    ensures
        r@ == a@ + b@ + c@,
{
    let mut s = String::new();
    s.append(a);
    s.append(b);
    s.append(c);
    assert(s@ =~= a@ + b@ + c@);
    s
}

/// Checks the token stream against the grammar and the semantic rules, and
/// drives the emitter as it recognizes each construct.
pub struct Parser {
    lexer: Lexer,
    emitter: Emitter,
    cur_token: Token,
    peek_token: Token,
    symbols: Vec<String>,
    labels_declared: Vec<String>,
    labels_gotoed: Vec<String>,
}

impl Parser {
    pub closed spec fn src(&self) -> Seq<char> {
        self.lexer.src()
    }

    /// Where the lexer stands: the text before it has been read.
    pub closed spec fn pos(&self) -> int {
        self.lexer.pos()
    }

    pub closed spec fn cur_kind(&self) -> TokenType {
        self.cur_token.kind
    }

    pub closed spec fn cur_text(&self) -> Seq<char> {
        self.cur_token.text@
    }

    pub closed spec fn peek_kind(&self) -> TokenType {
        self.peek_token.kind
    }

    pub closed spec fn peek_text(&self) -> Seq<char> {
        self.peek_token.text@
    }

    /// The variables declared so far.
    pub closed spec fn symbols(&self) -> Seq<Seq<char>> {
        names(self.symbols@)
    }

    /// The labels declared so far, in order of declaration.
    pub closed spec fn declared(&self) -> Seq<Seq<char>> {
        names(self.labels_declared@)
    }

    /// The labels that a `GOTO` has named so far, in order of first reference.
    pub closed spec fn referenced(&self) -> Seq<Seq<char>> {
        names(self.labels_gotoed@)
    }

    pub closed spec fn em(&self) -> Emitter {
        self.emitter
    }

    pub open spec fn header(&self) -> Seq<char> {
        self.em().header_text()
    }

    pub open spec fn code(&self) -> Seq<char> {
        self.em().code_text()
    }

    pub closed spec fn wf(&self) -> bool {
        &&& self.lexer.wf()
        &&& 0 <= self.lexer.pos() <= self.lexer.src().len()
        &&& self.cur_token.kind == TokenType::Eof ==> self.peek_token.kind == TokenType::Eof
        &&& self.peek_token.kind == TokenType::Eof ==> self.lexer.pos() == self.lexer.src().len()
    }

    /// A measure of the work left; every token consumed lowers it.
    pub open spec fn rank(&self) -> nat {
        cursor_rank(self.src(), self.cursor())
    }

    /// The position and the lookahead.
    pub closed spec fn cursor(&self) -> Cursor {
        Cursor {
            pos: self.lexer.pos(),
            cur_kind: self.cur_token.kind,
            cur_text: self.cur_token.text@,
            peek_kind: self.peek_token.kind,
            peek_text: self.peek_token.text@,
        }
    }

    /// Everything the parse has built so far.
    pub closed spec fn state(&self) -> State {
        State {
            cursor: self.cursor(),
            symbols: self.symbols(),
            declared: self.declared(),
            referenced: self.referenced(),
            header: self.header(),
            code: self.code(),
        }
    }

    /// A call that ended in `next` and returned `r` did what `o` says: on
    /// success it reached the state of `o`; on failure it reported its fault.
    pub open spec fn reached(next: Parser, r: Result<(), CompileError>, o: Outcome) -> bool {
        match o {
            Ok(st) => r is Ok && next.state() == st,
            Err(f) => r matches Err(e) && shows(e, f),
        }
    }

    /// The call that took `prev` to `next` and returned `r` did what `s` says:
    /// on success it stopped where `s` ends and emitted what `s` emits; on
    /// failure it reported the fault of `s`.
    pub open spec fn parsed(prev: Parser, next: Parser, r: Result<(), CompileError>, s: Parsed) -> bool {
        match s {
            Ok((c, t)) => r is Ok && next.cursor() == c && next.code() == prev.code() + t,
            Err(f) => r matches Err(e) && shows(e, f),
        }
    }

    /// Everything `self` holds extends what `prev` held: the same source, and
    /// the tables and the output only added to.
    pub open spec fn grown_from(&self, prev: Parser) -> bool {
        &&& self.src() == prev.src()
        &&& self.em().path() == prev.em().path()
        &&& prefix(prev.symbols(), self.symbols())
        &&& prefix(prev.declared(), self.declared())
        &&& prefix(prev.referenced(), self.referenced())
        &&& prefix(prev.header(), self.header())
        &&& prefix(prev.code(), self.code())
    }

    /// `next` holds what `prev` held, with the lookahead moved by one token.
    pub open spec fn advanced(prev: Parser, next: Parser) -> bool {
        &&& next.cur_kind() == prev.peek_kind()
        &&& next.cur_text() == prev.peek_text()
        &&& lex(prev.src(), prev.pos()) == Ok::<_, CompileError>(
            (next.peek_kind(), next.peek_text(), next.pos()),
        )
        &&& next.src() == prev.src()
        &&& next.symbols() == prev.symbols()
        &&& next.declared() == prev.declared()
        &&& next.referenced() == prev.referenced()
    }

    /// An expression was read: the tables and the declarations stay as they
    /// were, and the statements are only added to.
    pub open spec fn expr_frame(prev: Parser, next: Parser) -> bool {
        &&& next.src() == prev.src()
        &&& next.em().path() == prev.em().path()
        &&& next.symbols() == prev.symbols()
        &&& next.declared() == prev.declared()
        &&& next.referenced() == prev.referenced()
        &&& next.header() == prev.header()
        &&& prefix(prev.code(), next.code())
    }

    proof fn lemma_expr_frame_trans(a: Parser, b: Parser, c: Parser)
        requires
            Self::expr_frame(a, b),
            Self::expr_frame(b, c),
        ensures
            Self::expr_frame(a, c),
    {
    }

    proof fn lemma_grown_trans(a: Parser, b: Parser, c: Parser)
        requires
            c.grown_from(b),
            b.grown_from(a),
        ensures
            c.grown_from(a),
    {
    }

    /// Nothing but the lexer and the lookahead may differ.
    pub open spec fn same_tables(prev: Parser, next: Parser) -> bool {
        &&& next.src() == prev.src()
        &&& next.em() == prev.em()
        &&& next.symbols() == prev.symbols()
        &&& next.declared() == prev.declared()
        &&& next.referenced() == prev.referenced()
    }

    /// A parser over `lexer` that writes to `emitter`, with its first two
    /// tokens read.
    pub fn new(lexer: Lexer, emitter: Emitter) -> (r: Result<Self, CompileError>)
        requires
            lexer.wf(),
            0 <= lexer.pos() <= lexer.src().len(),
        ensures
            match r {
                Ok(p) => {
                    &&& p.wf()
                    &&& p.src() == lexer.src()
                    &&& p.em() == emitter
                    &&& p.symbols().len() == 0
                    &&& p.declared().len() == 0
                    &&& p.referenced().len() == 0
                    &&& lex(lexer.src(), lexer.pos()) is Ok
                    &&& lex(lexer.src(), lexer.pos())->Ok_0.0 == p.cur_kind()
                    &&& lex(lexer.src(), lexer.pos())->Ok_0.1 == p.cur_text()
                    &&& lex(lexer.src(), lex(lexer.src(), lexer.pos())->Ok_0.2) == Ok::<
                        _,
                        CompileError,
                    >((p.peek_kind(), p.peek_text(), p.pos()))
                },
                Err(e) => match lex(lexer.src(), lexer.pos()) {
                    Ok((_, _, p1)) => lex(lexer.src(), p1) == Err::<(TokenType, Seq<char>, int), _>(e),
                    Err(e1) => e1 == e,
                },
            },
    {
        let ghost old_lexer = lexer;
        let mut lexer = lexer;
        let first = lexer.get_token()?;
        let ghost mid = lexer.pos();
        let second = lexer.get_token()?;
        assert(lex(old_lexer.src(), old_lexer.pos()) == Ok::<_, CompileError>(
            (first.kind, first.text@, mid),
        ));
        let p = Parser {
            lexer,
            emitter,
            cur_token: first,
            peek_token: second,
            symbols: Vec::new(),
            labels_declared: Vec::new(),
            labels_gotoed: Vec::new(),
        };
        assert(p.wf());
        assert(lex(old_lexer.src(), mid) == Ok::<_, CompileError>(
            (p.peek_kind(), p.peek_text(), p.pos()),
        ));
        assert(p.symbols() =~= Seq::<Seq<char>>::empty());
        assert(p.declared() =~= Seq::<Seq<char>>::empty());
        assert(p.referenced() =~= Seq::<Seq<char>>::empty());
        Ok(p)
    }

    /// Whether the current token is of `kind`.
    pub fn check_token(&self, kind: TokenType) -> (r: bool)
        ensures
            r == (self.cur_kind() == kind),
    {
        kind == self.cur_token.kind
    }

    /// Whether the next token is of `kind`.
    pub fn check_peek(&self, kind: TokenType) -> (r: bool)
        ensures
            r == (self.peek_kind() == kind),
    {
        kind == self.peek_token.kind
    }

    /// Moves the lookahead by one token.
    pub fn next_token(&mut self) -> (r: Result<(), CompileError>)
        requires
            old(self).wf(),
        ensures
            Self::reached(*final(self), r, st_step(old(self).src(), old(self).state())),
            not_label_error(r),
            Self::same_tables(*old(self), *final(self)),
            match r {
                Ok(_) => Self::advanced(*old(self), *final(self)),
                Err(e) => lex(old(self).src(), old(self).pos()) == Err::<
                    (TokenType, Seq<char>, int),
                    _,
                >(e),
            },
            r is Ok ==> final(self).wf() && final(self).rank() <= old(self).rank(),
            r is Ok && old(self).cur_kind() != TokenType::Eof ==> final(self).rank() < old(
                self,
            ).rank(),
            r is Ok ==> step(old(self).src(), old(self).cursor()) == Ok::<_, Fault>(
                final(self).cursor(),
            ),
            r matches Err(e) ==> step(old(self).src(), old(self).cursor()) == Err::<Cursor, _>(
                Fault::Lexical(e),
            ),
    {
        let mut t = self.lexer.get_token()?;
        std::mem::swap(&mut self.peek_token, &mut t);
        self.cur_token = t;
        Ok(())
    }

    /// Moves past the current token, which must be of `kind`.
    pub fn match_token(&mut self, kind: TokenType) -> (r: Result<(), CompileError>)
        requires
            old(self).wf(),
        ensures
            Self::reached(*final(self), r, expect(old(self).src(), old(self).state(), kind)),
            not_label_error(r),
            Self::same_tables(*old(self), *final(self)),
            match r {
                Ok(_) => old(self).cur_kind() == kind && Self::advanced(*old(self), *final(self)),
                Err(e) => if old(self).cur_kind() != kind {
                    e == CompileError::ExpectedToken { expected: kind, found: old(self).cur_kind() }
                } else {
                    lex(old(self).src(), old(self).pos()) == Err::<(TokenType, Seq<char>, int), _>(
                        e,
                    )
                },
            },
            r is Ok ==> final(self).wf() && final(self).rank() <= old(self).rank(),
            r is Ok && kind != TokenType::Eof ==> final(self).rank() < old(self).rank(),
    {
        if !self.check_token(kind) {
            return Err(CompileError::ExpectedToken { expected: kind, found: self.cur_token.kind });
        }
        self.next_token()
    }

    /// Whether the current token is a comparison operator.
    pub fn is_comparison_operator(&self) -> (r: bool)
        ensures
            r == is_comparison(self.cur_kind()),
    {
        self.check_token(TokenType::Gt) || self.check_token(TokenType::GtEq) || self.check_token(
            TokenType::Lt,
        ) || self.check_token(TokenType::LtEq) || self.check_token(TokenType::EqEq)
            || self.check_token(TokenType::NotEq)
    }

    /// nl ::= newline {newline}
    pub fn nl(&mut self) -> (r: Result<(), CompileError>)
        requires
            old(self).wf(),
        ensures
            Self::reached(*final(self), r, nl_spec(old(self).src(), old(self).state())),
            not_label_error(r),
            Self::same_tables(*old(self), *final(self)),
            old(self).cur_kind() != TokenType::Newline ==> r == Err::<(), _>(
                CompileError::ExpectedToken {
                    expected: TokenType::Newline,
                    found: old(self).cur_kind(),
                },
            ),
            r is Ok ==> {
                &&& final(self).wf()
                &&& final(self).rank() < old(self).rank()
                &&& final(self).cur_kind() != TokenType::Newline
            },
    {
        self.match_token(TokenType::Newline)?;
        while self.check_token(TokenType::Newline)
            invariant
                self.wf(),
                self.rank() < old(self).rank(),
                Self::same_tables(*old(self), *self),
                old(self).cur_kind() == TokenType::Newline,
                nl_spec(old(self).src(), old(self).state()) == newlines(self.src(), self.state()),
            decreases self.rank(),
        {
            self.next_token()?;
        }
        Ok(())
    }
    /// primary ::= number | ident
    ///
    /// A variable may be read only once a `LET` or `INPUT` has declared it.
    pub fn primary(&mut self) -> (r: Result<(), CompileError>)
        requires
            old(self).wf(),
        ensures
            not_label_error(r),
            Self::expr_frame(*old(self), *final(self)),
            Self::parsed(
                *old(self),
                *final(self),
                r,
                primary_spec(old(self).src(), old(self).symbols(), old(self).cursor()),
            ),
            old(self).cur_kind() == TokenType::Ident && !old(self).symbols().contains(
                old(self).cur_text(),
            ) ==> (r matches Err(CompileError::UndeclaredVariable(n)) && n@ == old(
                self,
            ).cur_text()),
            r is Ok ==> final(self).wf() && final(self).rank() < old(self).rank(),
    {
        if self.check_token(TokenType::Number) {
            self.emitter.emit(self.cur_token.text.as_str());
            self.next_token()
        } else if self.check_token(TokenType::Ident) {
            if !contains_name(&self.symbols, &self.cur_token.text) {
                return Err(CompileError::UndeclaredVariable(self.cur_token.text.clone()));
            }
            self.emitter.emit(self.cur_token.text.as_str());
            self.next_token()
        } else {
            Err(CompileError::UnexpectedToken(self.cur_token.text.clone()))
        }
    }

    /// unary ::= ["+" | "-"] primary
    pub fn unary(&mut self) -> (r: Result<(), CompileError>)
        requires
            old(self).wf(),
        ensures
            not_label_error(r),
            Self::expr_frame(*old(self), *final(self)),
            Self::parsed(
                *old(self),
                *final(self),
                r,
                unary_spec(old(self).src(), old(self).symbols(), old(self).cursor()),
            ),
            r is Ok ==> final(self).wf() && final(self).rank() < old(self).rank(),
    {
        if self.check_token(TokenType::Plus) || self.check_token(TokenType::Minus) {
            self.emitter.emit(self.cur_token.text.as_str());
            self.next_token()?;
            let ghost mid = *self;
            let r = self.primary();
            proof {
                Self::lemma_expr_frame_trans(*old(self), mid, *self);
                if r is Ok {
                    let t = primary_spec(mid.src(), mid.symbols(), mid.cursor())->Ok_0.1;
                    assert(mid.code() == old(self).code() + old(self).cur_text());
                    assert(self.code() =~= old(self).code() + (old(self).cur_text() + t));
                }
            }
            r
        } else {
            self.primary()
        }
    }

    /// term ::= unary {("*" | "/") unary}
    pub fn term(&mut self) -> (r: Result<(), CompileError>)
        requires
            old(self).wf(),
        ensures
            not_label_error(r),
            Self::expr_frame(*old(self), *final(self)),
            Self::parsed(
                *old(self),
                *final(self),
                r,
                term_spec(old(self).src(), old(self).symbols(), old(self).cursor()),
            ),
            r is Ok ==> final(self).wf() && final(self).rank() < old(self).rank(),
    {
        let ghost src = self.src();
        let ghost syms = self.symbols();
        self.unary()?;
        let ghost mut acc = unary_spec(src, syms, old(self).cursor())->Ok_0.1;
        while self.check_token(TokenType::Asterisk) || self.check_token(TokenType::Slash)
            invariant
                self.wf(),
                self.rank() < old(self).rank(),
                Self::expr_frame(*old(self), *self),
                src == self.src(),
                syms == self.symbols(),
                self.code() == old(self).code() + acc,
                term_spec(src, syms, old(self).cursor()) == after(
                    acc,
                    term_rest(src, syms, self.cursor()),
                ),
            decreases self.rank(),
        {
            let ghost before = *self;
            self.emitter.emit(self.cur_token.text.as_str());
            self.next_token()?;
            let ghost mid = *self;
            let r = self.unary();
            proof {
                Self::lemma_expr_frame_trans(before, mid, *self);
                Self::lemma_expr_frame_trans(*old(self), before, *self);
                if r is Ok {
                    let t = unary_spec(src, syms, mid.cursor())->Ok_0.1;
                    lemma_after_after(acc, before.cur_text() + t, term_rest(src, syms, self.cursor()));
                    assert(self.code() =~= old(self).code() + (acc + (before.cur_text() + t)));
                    acc = acc + (before.cur_text() + t);
                }
            }
            r?;
        }
        Ok(())
    }

    /// expression ::= term {("+" | "-") term}
    pub fn expression(&mut self) -> (r: Result<(), CompileError>)
        requires
            old(self).wf(),
        ensures
            not_label_error(r),
            Self::expr_frame(*old(self), *final(self)),
            Self::parsed(
                *old(self),
                *final(self),
                r,
                expression_spec(old(self).src(), old(self).symbols(), old(self).cursor()),
            ),
            r is Ok ==> final(self).wf() && final(self).rank() < old(self).rank(),
    {
        let ghost src = self.src();
        let ghost syms = self.symbols();
        self.term()?;
        let ghost mut acc = term_spec(src, syms, old(self).cursor())->Ok_0.1;
        while self.check_token(TokenType::Plus) || self.check_token(TokenType::Minus)
            invariant
                self.wf(),
                self.rank() < old(self).rank(),
                Self::expr_frame(*old(self), *self),
                src == self.src(),
                syms == self.symbols(),
                self.code() == old(self).code() + acc,
                expression_spec(src, syms, old(self).cursor()) == after(
                    acc,
                    expression_rest(src, syms, self.cursor()),
                ),
            decreases self.rank(),
        {
            let ghost before = *self;
            self.emitter.emit(self.cur_token.text.as_str());
            self.next_token()?;
            let ghost mid = *self;
            let r = self.term();
            proof {
                Self::lemma_expr_frame_trans(before, mid, *self);
                Self::lemma_expr_frame_trans(*old(self), before, *self);
                if r is Ok {
                    let t = term_spec(src, syms, mid.cursor())->Ok_0.1;
                    lemma_after_after(
                        acc,
                        before.cur_text() + t,
                        expression_rest(src, syms, self.cursor()),
                    );
                    assert(self.code() =~= old(self).code() + (acc + (before.cur_text() + t)));
                    acc = acc + (before.cur_text() + t);
                }
            }
            r?;
        }
        Ok(())
    }

    /// comparison ::= expression comparisonOp expression {comparisonOp expression}
    pub fn comparison(&mut self) -> (r: Result<(), CompileError>)
        requires
            old(self).wf(),
        ensures
            not_label_error(r),
            Self::expr_frame(*old(self), *final(self)),
            Self::parsed(
                *old(self),
                *final(self),
                r,
                comparison_spec(old(self).src(), old(self).symbols(), old(self).cursor()),
            ),
            r is Ok ==> final(self).wf() && final(self).rank() < old(self).rank(),
    {
        let ghost src = self.src();
        let ghost syms = self.symbols();
        self.expression()?;
        if !self.is_comparison_operator() {
            return Err(CompileError::MissingComparison(self.cur_token.text.clone()));
        }
        let ghost mut acc = expression_spec(src, syms, old(self).cursor())->Ok_0.1;
        while self.is_comparison_operator()
            invariant
                self.wf(),
                self.rank() < old(self).rank(),
                Self::expr_frame(*old(self), *self),
                src == self.src(),
                syms == self.symbols(),
                self.code() == old(self).code() + acc,
                comparison_spec(src, syms, old(self).cursor()) == after(
                    acc,
                    comparison_rest(src, syms, self.cursor()),
                ),
            decreases self.rank(),
        {
            let ghost before = *self;
            self.emitter.emit(self.cur_token.text.as_str());
            self.next_token()?;
            let ghost mid = *self;
            let r = self.expression();
            proof {
                Self::lemma_expr_frame_trans(before, mid, *self);
                Self::lemma_expr_frame_trans(*old(self), before, *self);
                if r is Ok {
                    let t = expression_spec(src, syms, mid.cursor())->Ok_0.1;
                    lemma_after_after(
                        acc,
                        before.cur_text() + t,
                        comparison_rest(src, syms, self.cursor()),
                    );
                    assert(self.code() =~= old(self).code() + (acc + (before.cur_text() + t)));
                    acc = acc + (before.cur_text() + t);
                }
            }
            r?;
        }
        Ok(())
    }

    /// `PRINT` followed by a string literal or an expression.
    fn print_statement(&mut self) -> (r: Result<(), CompileError>)
        requires
            old(self).wf(),
            old(self).cur_kind() == TokenType::Print,
        ensures
            Self::reached(*final(self), r, print_spec(old(self).src(), old(self).state())),
            not_label_error(r),
            Self::expr_frame(*old(self), *final(self)),
            r is Ok ==> final(self).wf() && final(self).rank() < old(self).rank(),
            r is Ok && old(self).peek_kind() == TokenType::String ==> final(self).code() == old(
                self,
            ).code() + "printf(\""@ + old(self).peek_text() + "\\n\");"@ + seq!['\n'],
            r is Ok && old(self).peek_kind() != TokenType::String ==> prefix(
                old(self).code() + "printf(\"%.2f\\n\", (float)("@,
                final(self).code(),
            ),
    {
        self.next_token()?;
        if self.check_token(TokenType::String) {
            let line = joined("printf(\"", self.cur_token.text.as_str(), "\\n\");");
            self.emitter.emit_line(line.as_str());
            self.next_token()
        } else {
            self.emitter.emit("printf(\"%.2f\\n\", (float)(");
            let ghost mid = *self;
            self.expression()?;
            self.emitter.emit_line("));");
            proof {
                assert(prefix(mid.code(), self.code()));
            }
            Ok(())
        }
    }

    /// `IF` and `WHILE`: a condition, the word `middle`, newlines, a body of
    /// statements and the word `end`.
    #[verifier::rlimit(60)]
    fn block_statement(&mut self, opener: &str, middle: TokenType, end: TokenType) -> (r: Result<
        (),
        CompileError,
    >)
        requires
            old(self).wf(),
            old(self).cur_kind() != TokenType::Eof,
            end != TokenType::Eof,
            middle != TokenType::Eof,
        ensures
            Self::reached(
                *final(self),
                r,
                block_spec(old(self).src(), old(self).state(), opener@, middle, end),
            ),
            not_label_error(r),
            final(self).grown_from(*old(self)),
            r is Ok ==> final(self).wf() && final(self).rank() < old(self).rank(),
            r is Ok ==> prefix(old(self).code() + opener@, final(self).code()),
        decreases old(self).rank(), 0nat,
    {
        let ghost src = self.src();
        let ghost st0 = self.state();
        self.next_token()?;
        self.emitter.emit(opener);
        let ghost opened = *self;
        self.comparison()?;
        self.match_token(middle)?;
        self.nl()?;
        self.emitter.emit_line("){");
        let ghost head = self.state();
        proof {
            assert(self.grown_from(opened));
            assert(block_head(src, st0, opener@, middle) == Ok::<State, Fault>(head));
            assert(cursor_rank(src, head.cursor) < cursor_rank(src, st0.cursor));
        }
        while !self.check_token(end)
            invariant
                self.wf(),
                self.rank() < old(self).rank(),
                self.grown_from(opened),
                opened.grown_from(*old(self)),
                opened.code() == old(self).code() + opener@,
                src == self.src(),
                body_spec(src, head, end) == body_spec(src, self.state(), end),
                st0 == old(self).state(),
                src == old(self).src(),
                block_head(src, st0, opener@, middle) == Ok::<State, Fault>(head),
                cursor_rank(src, head.cursor) < cursor_rank(src, st0.cursor),
            decreases self.rank(),
        {
            let ghost before = *self;
            let r = self.statement();
            proof {
                Self::lemma_grown_trans(opened, before, *self);
                Self::lemma_grown_trans(*old(self), opened, *self);
            }
            r?;
        }
        let ghost body = *self;
        self.match_token(end)?;
        self.emitter.emit_line("}");
        proof {
            assert(self.grown_from(body));
            Self::lemma_grown_trans(opened, body, *self);
            Self::lemma_grown_trans(*old(self), opened, *self);
        }
        Ok(())
    }

    /// `LABEL name`: declares a jump target, which must be new.
    fn label_statement(&mut self) -> (r: Result<(), CompileError>)
        requires
            old(self).wf(),
            old(self).cur_kind() == TokenType::Label,
        ensures
            Self::reached(*final(self), r, label_spec(old(self).src(), old(self).state())),
            not_label_error(r),
            final(self).grown_from(*old(self)),
            r is Ok ==> final(self).wf() && final(self).rank() < old(self).rank(),
            ({
                let t = old(self).peek_text();
                &&& lex(old(self).src(), old(self).pos()) is Ok && old(self).declared().contains(t)
                    ==> (r matches Err(CompileError::DuplicateLabel(n)) && n@ == t)
                &&& r is Ok ==> {
                    &&& old(self).peek_kind() == TokenType::Ident
                    &&& !old(self).declared().contains(t)
                    &&& final(self).declared() == old(self).declared().push(t)
                    &&& final(self).referenced() == old(self).referenced()
                    &&& final(self).symbols() == old(self).symbols()
                    &&& final(self).header() == old(self).header()
                    &&& final(self).code() == old(self).code() + t + ":"@ + seq!['\n']
                }
            }),
    {
        self.next_token()?;
        if contains_name(&self.labels_declared, &self.cur_token.text) {
            return Err(CompileError::DuplicateLabel(self.cur_token.text.clone()));
        }
        let ghost before = self.labels_declared@;
        self.labels_declared.push(self.cur_token.text.clone());
        assert(names(self.labels_declared@) =~= names(before).push(self.cur_token.text@));
        self.emitter.emit(self.cur_token.text.as_str());
        self.emitter.emit_line(":");
        self.match_token(TokenType::Ident)
    }

    /// `GOTO name`: a jump, whose target is checked at the end of the program.
    fn goto_statement(&mut self) -> (r: Result<(), CompileError>)
        requires
            old(self).wf(),
            old(self).cur_kind() == TokenType::GoTo,
        ensures
            Self::reached(*final(self), r, goto_spec(old(self).src(), old(self).state())),
            not_label_error(r),
            final(self).grown_from(*old(self)),
            r is Ok ==> final(self).wf() && final(self).rank() < old(self).rank(),
            r is Ok ==> {
                let t = old(self).peek_text();
                &&& old(self).peek_kind() == TokenType::Ident
                &&& final(self).referenced() == with_name(old(self).referenced(), t)
                &&& final(self).declared() == old(self).declared()
                &&& final(self).symbols() == old(self).symbols()
                &&& final(self).header() == old(self).header()
                &&& final(self).code() == old(self).code() + "goto "@ + t + ";"@ + seq!['\n']
            },
    {
        self.next_token()?;
        insert_name(&mut self.labels_gotoed, &self.cur_token.text);
        self.emitter.emit("goto ");
        self.emitter.emit(self.cur_token.text.as_str());
        self.emitter.emit_line(";");
        self.match_token(TokenType::Ident)
    }

    /// Declares the current token's text as a variable unless it is one.
    fn declare_current(&mut self)
        requires
            old(self).wf(),
        ensures
            final(self).state() == declare(old(self).state()),
            final(self).wf(),
            final(self).rank() == old(self).rank(),
            final(self).src() == old(self).src(),
            final(self).pos() == old(self).pos(),
            final(self).cur_kind() == old(self).cur_kind(),
            final(self).cur_text() == old(self).cur_text(),
            final(self).peek_kind() == old(self).peek_kind(),
            final(self).peek_text() == old(self).peek_text(),
            final(self).em().path() == old(self).em().path(),
            final(self).declared() == old(self).declared(),
            final(self).referenced() == old(self).referenced(),
            final(self).code() == old(self).code(),
            final(self).symbols() == with_name(old(self).symbols(), old(self).cur_text()),
            final(self).header() == if old(self).symbols().contains(old(self).cur_text()) {
                old(self).header()
            } else {
                old(self).header() + "float "@ + old(self).cur_text() + ";"@ + seq!['\n']
            },
    {
        if !contains_name(&self.symbols, &self.cur_token.text) {
            let ghost before = self.symbols@;
            self.symbols.push(self.cur_token.text.clone());
            assert(names(self.symbols@) =~= names(before).push(self.cur_token.text@));
            let line = joined("float ", self.cur_token.text.as_str(), ";");
            self.emitter.header_line(line.as_str());
        }
    }

    /// `LET name = expression`: declares `name` on its first assignment.
    fn let_statement(&mut self) -> (r: Result<(), CompileError>)
        requires
            old(self).wf(),
            old(self).cur_kind() == TokenType::Let,
        ensures
            Self::reached(*final(self), r, let_spec(old(self).src(), old(self).state())),
            not_label_error(r),
            final(self).grown_from(*old(self)),
            r is Ok ==> final(self).wf() && final(self).rank() < old(self).rank(),
            r is Ok ==> {
                let t = old(self).peek_text();
                &&& old(self).peek_kind() == TokenType::Ident
                &&& final(self).symbols() == with_name(old(self).symbols(), t)
                &&& final(self).header() == if old(self).symbols().contains(t) {
                    old(self).header()
                } else {
                    old(self).header() + "float "@ + t + ";"@ + seq!['\n']
                }
                &&& final(self).declared() == old(self).declared()
                &&& final(self).referenced() == old(self).referenced()
                &&& prefix(old(self).code() + t + " = "@, final(self).code())
            },
    {
        self.next_token()?;
        self.declare_current();
        self.emitter.emit(self.cur_token.text.as_str());
        self.emitter.emit(" = ");
        let ghost assigned = *self;
        self.match_token(TokenType::Ident)?;
        self.match_token(TokenType::Eq)?;
        self.expression()?;
        self.emitter.emit_line(";");
        proof {
            assert(prefix(assigned.code(), self.code()));
        }
        Ok(())
    }

    /// `INPUT name`: reads a number into `name`, declaring it if needed; input
    /// that is no number sets it to zero and is skipped.
    fn input_statement(&mut self) -> (r: Result<(), CompileError>)
        requires
            old(self).wf(),
            old(self).cur_kind() == TokenType::Input,
        ensures
            Self::reached(*final(self), r, input_spec(old(self).src(), old(self).state())),
            not_label_error(r),
            final(self).grown_from(*old(self)),
            r is Ok ==> final(self).wf() && final(self).rank() < old(self).rank(),
            r is Ok ==> {
                let t = old(self).peek_text();
                &&& old(self).peek_kind() == TokenType::Ident
                &&& final(self).symbols() == with_name(old(self).symbols(), t)
                &&& final(self).header() == if old(self).symbols().contains(t) {
                    old(self).header()
                } else {
                    old(self).header() + "float "@ + t + ";"@ + seq!['\n']
                }
                &&& final(self).declared() == old(self).declared()
                &&& final(self).referenced() == old(self).referenced()
                &&& final(self).code() == old(self).code() + "if(0 == scanf(\"%f\", &"@ + t
                    + ")) {"@ + seq!['\n'] + t + " = 0;"@ + seq!['\n'] + "scanf(\"%"@
                    + "*s\");"@ + seq!['\n'] + "}"@ + seq!['\n']
            },
    {
        self.next_token()?;
        self.declare_current();
        let line = joined("if(0 == scanf(\"%f\", &", self.cur_token.text.as_str(), ")) {");
        self.emitter.emit_line(line.as_str());
        self.emitter.emit(self.cur_token.text.as_str());
        self.emitter.emit_line(" = 0;");
        self.emitter.emit("scanf(\"%");
        self.emitter.emit_line("*s\");");
        self.emitter.emit_line("}");
        self.match_token(TokenType::Ident)
    }

    /// statement ::= "PRINT" (string | expression) nl
    ///             | "IF" comparison "THEN" nl {statement} "ENDIF" nl
    ///             | "WHILE" comparison "REPEAT" nl {statement} "ENDWHILE" nl
    ///             | "LABEL" ident nl
    ///             | "GOTO" ident nl
    ///             | "LET" ident "=" expression nl
    ///             | "INPUT" ident nl
    pub fn statement(&mut self) -> (r: Result<(), CompileError>)
        requires
            old(self).wf(),
        ensures
            Self::reached(*final(self), r, statement_spec(old(self).src(), old(self).state())),
            not_label_error(r),
            final(self).grown_from(*old(self)),
            r is Ok ==> {
                &&& final(self).wf()
                &&& final(self).rank() < old(self).rank()
                &&& final(self).cur_kind() != TokenType::Newline
            },
            ({
                let k = old(self).cur_kind();
                let t = old(self).peek_text();
                &&& !is_statement_start(k) ==> (r matches Err(CompileError::InvalidStatement(n))
                    && n@ == old(self).cur_text())
                &&& k == TokenType::Label && lex(old(self).src(), old(self).pos()) is Ok
                    && old(self).declared().contains(t) ==> (r matches Err(
                    CompileError::DuplicateLabel(n),
                ) && n@ == t)
                &&& k == TokenType::Label && r is Ok ==> {
                    &&& old(self).peek_kind() == TokenType::Ident
                    &&& final(self).declared() == old(self).declared().push(t)
                    &&& final(self).referenced() == old(self).referenced()
                    &&& final(self).symbols() == old(self).symbols()
                    &&& final(self).header() == old(self).header()
                    &&& final(self).code() == old(self).code() + t + ":"@ + seq!['\n']
                }
                &&& k == TokenType::GoTo && r is Ok ==> {
                    &&& old(self).peek_kind() == TokenType::Ident
                    &&& final(self).referenced() == with_name(old(self).referenced(), t)
                    &&& final(self).declared() == old(self).declared()
                    &&& final(self).symbols() == old(self).symbols()
                    &&& final(self).header() == old(self).header()
                    &&& final(self).code() == old(self).code() + "goto "@ + t + ";"@ + seq!['\n']
                }
                &&& (k == TokenType::Let || k == TokenType::Input) && r is Ok ==> {
                    &&& old(self).peek_kind() == TokenType::Ident
                    &&& final(self).symbols() == with_name(old(self).symbols(), t)
                    &&& final(self).header() == if old(self).symbols().contains(t) {
                        old(self).header()
                    } else {
                        old(self).header() + "float "@ + t + ";"@ + seq!['\n']
                    }
                    &&& final(self).declared() == old(self).declared()
                    &&& final(self).referenced() == old(self).referenced()
                }
                &&& k == TokenType::Print && r is Ok && old(self).peek_kind() == TokenType::String
                    ==> final(self).code() == old(self).code() + "printf(\""@ + t + "\\n\");"@
                    + seq!['\n']
            }),
        decreases old(self).rank(), 1nat,
    {
        let ghost start = *self;
        if self.check_token(TokenType::Print) {
            self.print_statement()?;
        } else if self.check_token(TokenType::If) {
            self.block_statement("if(", TokenType::Then, TokenType::EndIf)?;
        } else if self.check_token(TokenType::While) {
            self.block_statement("while(", TokenType::Repeat, TokenType::EndWhile)?;
        } else if self.check_token(TokenType::Label) {
            self.label_statement()?;
        } else if self.check_token(TokenType::GoTo) {
            self.goto_statement()?;
        } else if self.check_token(TokenType::Let) {
            self.let_statement()?;
        } else if self.check_token(TokenType::Input) {
            self.input_statement()?;
        } else {
            return Err(CompileError::InvalidStatement(self.cur_token.text.clone()));
        }
        let ghost done = *self;
        let r = self.nl();
        proof {
            Self::lemma_grown_trans(start, done, *self);
        }
        r
    }

    /// Checks that every label named by a `GOTO` is declared.
    pub fn check_labels(&self) -> (r: Result<(), CompileError>)
        ensures
            missing_labels(self.referenced(), self.declared()).len() == 0 ==> r is Ok,
            missing_labels(self.referenced(), self.declared()).len() > 0 ==> (r matches Err(
                CompileError::UndeclaredLabel(v),
            ) && names(v@) == missing_labels(self.referenced(), self.declared())),
    {
        let ghost refs = self.referenced();
        let ghost decl = self.declared();
        let mut missing: Vec<String> = Vec::new();
        let mut i: usize = 0;
        while i < self.labels_gotoed.len()
            invariant
                i <= self.labels_gotoed@.len(),
                refs == self.referenced(),
                decl == self.declared(),
                refs.len() == self.labels_gotoed@.len(),
                names(missing@) == missing_labels(refs.subrange(0, i as int), decl),
            decreases self.labels_gotoed@.len() - i,
        {
            let ghost before = missing@;
            let found = contains_name(&self.labels_declared, &self.labels_gotoed[i]);
            if !found {
                missing.push(self.labels_gotoed[i].clone());
            }
            proof {
                reveal(Seq::filter);
                let sub = refs.subrange(0, i + 1);
                assert(sub.drop_last() =~= refs.subrange(0, i as int));
                assert(sub.last() == refs[i as int]);
                assert(refs[i as int] == self.labels_gotoed@[i as int]@);
                assert(decl == names(self.labels_declared@));
                assert(found == decl.contains(refs[i as int]));
                if !found {
                    assert(names(missing@) =~= names(before).push(refs[i as int]));
                } else {
                    assert(names(missing@) =~= names(before));
                }
                assert(names(missing@) == missing_labels(sub, decl));
            }
            i = i + 1;
        }
        assert(refs.subrange(0, i as int) =~= refs);
        if missing.len() == 0 {
            Ok(())
        } else {
            Err(CompileError::UndeclaredLabel(missing))
        }
    }

    /// {newline}
    fn skip_newlines(&mut self) -> (r: Result<(), CompileError>)
        requires
            old(self).wf(),
        ensures
            not_label_error(r),
            Self::reached(*final(self), r, newlines(old(self).src(), old(self).state())),
            Self::same_tables(*old(self), *final(self)),
            r is Ok ==> final(self).wf(),
    {
        while self.check_token(TokenType::Newline)
            invariant
                self.wf(),
                Self::same_tables(*old(self), *self),
                newlines(old(self).src(), old(self).state()) == newlines(self.src(), self.state()),
            decreases self.rank(),
        {
            self.next_token()?;
        }
        Ok(())
    }

    /// {statement}, up to the end of the input.
    fn statements(&mut self) -> (r: Result<(), CompileError>)
        requires
            old(self).wf(),
        ensures
            not_label_error(r),
            Self::reached(*final(self), r, statements_spec(old(self).src(), old(self).state())),
            final(self).grown_from(*old(self)),
            r is Ok ==> final(self).wf() && final(self).cur_kind() == TokenType::Eof,
    {
        while !self.check_token(TokenType::Eof)
            invariant
                self.wf(),
                self.src() == old(self).src(),
                statements_spec(old(self).src(), old(self).state()) == statements_spec(
                    self.src(),
                    self.state(),
                ),
                self.grown_from(*old(self)),
            decreases self.rank(),
        {
            let ghost before = *self;
            let r = self.statement();
            proof {
                Self::lemma_grown_trans(*old(self), before, *self);
            }
            r?;
        }
        Ok(())
    }

    /// program ::= {newline} {statement}
    ///
    /// Wraps the statements in a C `main`, then checks that every label a
    /// `GOTO` names is declared somewhere in the program.
    pub fn program(&mut self) -> (r: Result<(), CompileError>)
        requires
            old(self).wf(),
        ensures
            Self::reached(*final(self), r, program_spec(old(self).src(), old(self).state())),
            final(self).grown_from(*old(self)),
            r is Ok ==> {
                &&& final(self).cur_kind() == TokenType::Eof
                &&& prefix(old(self).header() + prologue(), final(self).header())
                &&& ends_with(final(self).code(), epilogue())
                &&& forall|l: Seq<char>| #[trigger]
                    final(self).referenced().contains(l) ==> final(self).declared().contains(l)
            },
            r matches Err(CompileError::UndeclaredLabel(v)) ==> {
                let missing = missing_labels(final(self).referenced(), final(self).declared());
                &&& final(self).cur_kind() == TokenType::Eof
                &&& missing.len() > 0
                &&& names(v@) == missing
            },
    {
        self.emitter.header_line("#include <stdio.h>");
        self.emitter.header_line("int main(void){");
        let ghost opened = *self;
        assert(opened.header() == old(self).header() + prologue());
        assert(opened.state() == State {
            header: old(self).header() + "#include <stdio.h>"@ + seq!['\n'] + "int main(void){"@
                + seq!['\n'],
            ..old(self).state()
        });
        self.skip_newlines()?;
        let ghost skipped = *self;
        self.statements()?;
        proof {
            Self::lemma_grown_trans(opened, skipped, *self);
            Self::lemma_grown_trans(*old(self), opened, *self);
        }
        let ghost body = *self;
        self.emitter.emit_line("return 0;");
        self.emitter.emit_line("}");
        proof {
            assert(self.code() == body.code() + epilogue());
            assert(self.code().subrange(body.code().len() as int, self.code().len() as int)
                =~= epilogue());
            assert(self.grown_from(body));
            Self::lemma_grown_trans(opened, body, *self);
            Self::lemma_grown_trans(*old(self), opened, *self);
        }
        let r = self.check_labels();
        proof {
            if r is Ok {
                assert forall|l: Seq<char>| #[trigger]
                    self.referenced().contains(l) implies self.declared().contains(l) by {
                    if !self.declared().contains(l) {
                        lemma_undeclared_label_is_missing(self.referenced(), self.declared(), l);
                    }
                }
            }
        }
        r
    }

    /// The emitter, which holds the output so far.
    pub fn emitter(&self) -> (r: &Emitter)
        ensures
            *r == self.em(),
    {
        &self.emitter
    }
}

/// `r` is what compiling `source` gives: the output of `compile_spec`, or an
/// error that reports its fault.
pub open spec fn compiled(source: Seq<char>, r: Result<String, CompileError>) -> bool {
    match compile_spec(source) {
        Ok(out) => r is Ok && r->Ok_0@ == out,
        Err(f) => r matches Err(e) && shows(e, f),
    }
}

/// Compiling depends on the source text alone: two runs on the same text
/// either both succeed with byte-identical output or both fail.
pub proof fn lemma_compile_deterministic(
    source: Seq<char>,
    r1: Result<String, CompileError>,
    r2: Result<String, CompileError>,
)
    requires
        compiled(source, r1),
        compiled(source, r2),
    ensures
        r1 is Ok <==> r2 is Ok,
        r1 is Ok ==> r1->Ok_0@ == r2->Ok_0@,
{
}

/// Compiles `source` (a newline is appended to it) into C text: the
/// declarations followed by the statements.
#[verifier::rlimit(60)]
pub fn compile(source: String) -> (r: Result<String, CompileError>)
    requires
        source@.len() < usize::MAX - 1,
    ensures
        compiled(source@, r),
        r is Ok ==> prefix(prologue(), r->Ok_0@) && ends_with(r->Ok_0@, epilogue()),
{
    let lexer = Lexer::new(source);
    let emitter = Emitter::new(String::new());
    let ghost src = lexer.src();
    let mut parser = Parser::new(lexer, emitter)?;
    let ghost start = parser;
    proof {
        assert(start.symbols() =~= Seq::<Seq<char>>::empty());
        assert(start.declared() =~= Seq::<Seq<char>>::empty());
        assert(start.referenced() =~= Seq::<Seq<char>>::empty());
        assert(start.state() == State {
            cursor: start.cursor(),
            symbols: Seq::empty(),
            declared: Seq::empty(),
            referenced: Seq::empty(),
            header: Seq::empty(),
            code: Seq::empty(),
        });
    }
    parser.program()?;
    let out = parser.emitter().output();
    proof {
        let h = parser.header();
        let c = parser.code();
        assert(start.header() == Seq::<char>::empty());
        assert(Seq::<char>::empty() + prologue() =~= prologue());
        assert((h + c).subrange(h.len() + c.len() - epilogue().len(), (h + c).len() as int)
            =~= c.subrange(c.len() - epilogue().len(), c.len() as int));
    }
    Ok(out)
}

/// What a prefix holds, the longer sequence holds too.
proof fn lemma_prefix_contains<T>(a: Seq<T>, b: Seq<T>, x: T)
    requires
        prefix(a, b),
        a.contains(x),
    ensures
        b.contains(x),
{
    let i = choose|i: int| 0 <= i < a.len() && a[i] == x;
    assert(b[i] == x);
}

/// A declared label stays declared through every later statement, so a
/// second `LABEL` of the same name, however far after the first, meets it.
pub proof fn lemma_declared_label_stays(earlier: Parser, later: Parser, x: Seq<char>)
    requires
        later.grown_from(earlier),
        earlier.declared().contains(x),
    ensures
        later.declared().contains(x),
{
    lemma_prefix_contains(earlier.declared(), later.declared(), x);
}

/// A label named by a `GOTO` stays referenced through every later statement.
pub proof fn lemma_referenced_label_stays(earlier: Parser, later: Parser, y: Seq<char>)
    requires
        later.grown_from(earlier),
        earlier.referenced().contains(y),
    ensures
        later.referenced().contains(y),
{
    lemma_prefix_contains(earlier.referenced(), later.referenced(), y);
}

/// A referenced label that no `LABEL` declares is reported missing, wherever
/// the `GOTO` stands relative to the other statements.
pub proof fn lemma_undeclared_label_is_missing(
    refs: Seq<Seq<char>>,
    declared: Seq<Seq<char>>,
    y: Seq<char>,
)
    requires
        refs.contains(y),
        !declared.contains(y),
    ensures
        missing_labels(refs, declared).contains(y),
        missing_labels(refs, declared).len() > 0,
{
    let i = choose|i: int| 0 <= i < refs.len() && refs[i] == y;
    refs.lemma_filter_contains(|l: Seq<char>| !declared.contains(l), i);
}

} // verus!
