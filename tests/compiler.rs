use tinybasic::emitter::Emitter;
use tinybasic::error::CompileError;
use tinybasic::lexer::Lexer;
use tinybasic::parser::{compile, Parser};
use tinybasic::token::{Token, TokenType};

const PROLOGUE: &str = "#include <stdio.h>\nint main(void){\n";
const EPILOGUE: &str = "return 0;\n}\n";

fn expected(decls: &str, code: &str) -> String {
    format!("{}{}{}{}", PROLOGUE, decls, code, EPILOGUE)
}

fn tokens(source: &str) -> Vec<(TokenType, String)> {
    let mut lexer = Lexer::new(source.to_string());
    let mut out = Vec::new();
    loop {
        let t = lexer.get_token().unwrap();
        let kind = t.kind;
        out.push((kind, t.text));
        if kind == TokenType::Eof {
            return out;
        }
    }
}

#[test]
fn let_then_print_declares_and_prints() {
    let out = compile("LET a = 5\nPRINT a\n".to_string()).unwrap();
    assert_eq!(
        out,
        expected("float a;\n", "a = 5;\nprintf(\"%.2f\\n\", (float)(a));\n")
    );
}

#[test]
fn print_of_undeclared_variable_fails() {
    let r = compile("PRINT a\n".to_string());
    assert_eq!(r, Err(CompileError::UndeclaredVariable("a".to_string())));
}

#[test]
fn if_block_with_string_print() {
    let out = compile("IF 1 > 0 THEN\nPRINT \"hi\"\nENDIF\n".to_string()).unwrap();
    assert_eq!(out, expected("", "if(1>0){\nprintf(\"hi\\n\");\n}\n"));
}

#[test]
fn second_label_of_same_name_fails() {
    let r = compile("LABEL L\nGOTO L\nLABEL L\n".to_string());
    assert_eq!(r, Err(CompileError::DuplicateLabel("L".to_string())));
}

#[test]
fn goto_missing_label_fails_at_end() {
    let r = compile("GOTO MISSING\n".to_string());
    assert_eq!(r, Err(CompileError::UndeclaredLabel(vec!["MISSING".to_string()])));
}

#[test]
fn decimal_point_without_digit_fails() {
    let r = compile("LET x = 1.\n".to_string());
    assert_eq!(r, Err(CompileError::IllegalCharacter('\n')));
}

#[test]
fn same_input_gives_same_output() {
    let src = "INPUT n\nLET i = 0\nWHILE i < n REPEAT\nPRINT i * 2\nLET i = i + 1\nENDWHILE\n";
    let a = compile(src.to_string()).unwrap();
    let b = compile(src.to_string()).unwrap();
    assert_eq!(a, b);
}

#[test]
fn duplicate_label_after_other_statements() {
    let r = compile("LABEL X\nLET a = 1\nPRINT a\nGOTO X\nLABEL X\n".to_string());
    assert_eq!(r, Err(CompileError::DuplicateLabel("X".to_string())));
}

#[test]
fn label_named_before_goto_still_needs_declaring() {
    let r = compile("PRINT \"Y\"\nGOTO Y\n".to_string());
    assert_eq!(r, Err(CompileError::UndeclaredLabel(vec!["Y".to_string()])));
}

#[test]
fn forward_goto_is_allowed() {
    let out = compile("GOTO L\nLABEL L\n".to_string()).unwrap();
    assert_eq!(out, expected("", "goto L;\nL:\n"));
}

#[test]
fn undeclared_labels_reported_once_each_in_order() {
    let r = compile("GOTO B\nGOTO A\nGOTO B\nLABEL C\n".to_string());
    assert_eq!(
        r,
        Err(CompileError::UndeclaredLabel(vec!["B".to_string(), "A".to_string()]))
    );
}

#[test]
fn while_loop_and_input() {
    let out = compile("INPUT n\nWHILE n > 0 REPEAT\nLET n = n - 1\nENDWHILE\n".to_string()).unwrap();
    let code = [
        "if(0 == scanf(\"%f\", &n)) {\n",
        "n = 0;\n",
        "scanf(\"%*s\");\n",
        "}\n",
        "while(n>0){\n",
        "n = n-1;\n",
        "}\n",
    ]
    .join("");
    assert_eq!(out, expected("float n;\n", &code));
}

#[test]
fn variable_declared_once() {
    let out = compile("LET a = 1\nLET a = -a * 2 / 3\n".to_string()).unwrap();
    assert_eq!(out, expected("float a;\n", "a = 1;\na = -a*2/3;\n"));
}

#[test]
fn comparison_chain_and_all_operators() {
    let out = compile("LET a = 1\nIF a == 1 != 0 THEN\nENDIF\nIF +a <= 2 >= 1 < 3 THEN\nENDIF\n".to_string())
        .unwrap();
    assert_eq!(
        out,
        expected("float a;\n", "a = 1;\nif(a==1!=0){\n}\nif(+a<=2>=1<3){\n}\n")
    );
}

#[test]
fn empty_program() {
    assert_eq!(compile(String::new()).unwrap(), expected("", ""));
    assert_eq!(compile("\n\n# only a comment\n".to_string()).unwrap(), expected("", ""));
}

#[test]
fn condition_without_comparison_fails() {
    let r = compile("IF 1 THEN\nENDIF\n".to_string());
    assert_eq!(r, Err(CompileError::MissingComparison("THEN".to_string())));
}

#[test]
fn statement_must_start_with_keyword() {
    let r = compile("THEN\n".to_string());
    assert_eq!(r, Err(CompileError::InvalidStatement("THEN".to_string())));
}

#[test]
fn missing_equals_in_let() {
    let r = compile("LET a 5\n".to_string());
    assert_eq!(
        r,
        Err(CompileError::ExpectedToken { expected: TokenType::Eq, found: TokenType::Number })
    );
}

#[test]
fn missing_newline_after_statement() {
    let r = compile("LET a = 1 PRINT a\n".to_string());
    assert_eq!(
        r,
        Err(CompileError::ExpectedToken { expected: TokenType::Newline, found: TokenType::Print })
    );
}

#[test]
fn primary_must_be_number_or_variable() {
    let r = compile("PRINT *\n".to_string());
    assert_eq!(r, Err(CompileError::UnexpectedToken("*".to_string())));
}

#[test]
fn bang_without_equals_fails() {
    let r = compile("IF 1 !x THEN\nENDIF\n".to_string());
    assert_eq!(r, Err(CompileError::UnexpectedCharacter('x')));
}

#[test]
fn unknown_character_fails() {
    let r = compile("LET a = 1 $\n".to_string());
    assert_eq!(r, Err(CompileError::UnexpectedCharacter('$')));
}

#[test]
fn percent_in_string_fails() {
    let r = compile("PRINT \"50%\"\n".to_string());
    assert_eq!(r, Err(CompileError::IllegalCharacter('%')));
}

#[test]
fn backslash_in_string_fails() {
    let r = compile("PRINT \"a\\b\"\n".to_string());
    assert_eq!(r, Err(CompileError::IllegalCharacter('\\')));
}

#[test]
fn unterminated_string_fails_at_newline() {
    let r = compile("PRINT \"abc\n".to_string());
    assert_eq!(r, Err(CompileError::IllegalCharacter('\n')));
}

#[test]
fn tokens_of_a_line() {
    let toks = tokens("LET foo2 = 12.5+x # note\n\"a b\" != == <= >= < > = - * /");
    let expect: Vec<(TokenType, &str)> = vec![
        (TokenType::Let, "LET"),
        (TokenType::Ident, "foo2"),
        (TokenType::Eq, "="),
        (TokenType::Number, "12.5"),
        (TokenType::Plus, "+"),
        (TokenType::Ident, "x"),
        (TokenType::Newline, "\n"),
        (TokenType::String, "a b"),
        (TokenType::NotEq, "!="),
        (TokenType::EqEq, "=="),
        (TokenType::LtEq, "<="),
        (TokenType::GtEq, ">="),
        (TokenType::Lt, "<"),
        (TokenType::Gt, ">"),
        (TokenType::Eq, "="),
        (TokenType::Minus, "-"),
        (TokenType::Asterisk, "*"),
        (TokenType::Slash, "/"),
        (TokenType::Newline, "\n"),
        (TokenType::Eof, ""),
    ];
    let got: Vec<(TokenType, &str)> = toks.iter().map(|(k, t)| (*k, t.as_str())).collect();
    assert_eq!(got, expect);
}

#[test]
fn keywords_are_case_sensitive() {
    assert_eq!(Token::check_if_keyword("WHILE"), TokenType::While);
    assert_eq!(Token::check_if_keyword("ENDWHILE"), TokenType::EndWhile);
    assert_eq!(Token::check_if_keyword("while"), TokenType::Unknown);
    assert_eq!(Token::check_if_keyword("WHILES"), TokenType::Unknown);
    let toks = tokens("print");
    assert_eq!(toks[0], (TokenType::Ident, "print".to_string()));
}

#[test]
fn end_of_input_repeats() {
    let mut lexer = Lexer::new("7".to_string());
    assert_eq!(lexer.get_token().unwrap().kind, TokenType::Number);
    assert_eq!(lexer.get_token().unwrap().kind, TokenType::Newline);
    assert_eq!(lexer.get_token().unwrap().kind, TokenType::Eof);
    assert_eq!(lexer.get_token().unwrap().kind, TokenType::Eof);
}

#[test]
fn lexer_peek_and_skip() {
    let mut lexer = Lexer::new("  \t# c\nX".to_string());
    assert_eq!(lexer.cur_char, ' ');
    assert_eq!(lexer.peek(), ' ');
    lexer.skip_whitespace();
    assert_eq!(lexer.cur_char, '#');
    lexer.skip_comment();
    assert_eq!(lexer.cur_char, '\n');
    lexer.next_char();
    assert_eq!(lexer.cur_char, 'X');
}

#[test]
fn emitter_collects_header_then_code() {
    let mut e = Emitter::new("out.c".to_string());
    e.emit("a");
    e.emit_line("b");
    e.header_line("h");
    assert_eq!(e.output(), "h\nab\n");
    assert_eq!(e.full_path(), "out.c");
}

#[test]
fn parser_steps_through_tokens() {
    let lexer = Lexer::new("LET a = 1".to_string());
    let mut p = Parser::new(lexer, Emitter::new(String::new())).unwrap();
    assert!(p.check_token(TokenType::Let));
    assert!(p.check_peek(TokenType::Ident));
    assert!(!p.is_comparison_operator());
    assert_eq!(
        p.match_token(TokenType::Print),
        Err(CompileError::ExpectedToken { expected: TokenType::Print, found: TokenType::Let })
    );
    p.match_token(TokenType::Let).unwrap();
    assert!(p.check_token(TokenType::Ident));
    p.next_token().unwrap();
    assert!(p.check_token(TokenType::Eq));
    p.next_token().unwrap();
    p.expression().unwrap();
    assert!(p.check_token(TokenType::Newline));
    p.nl().unwrap();
    assert!(p.check_token(TokenType::Eof));
    assert_eq!(p.emitter().output(), "1");
}

#[test]
fn statement_and_program_by_hand() {
    let lexer = Lexer::new("LET a = 2\nGOTO Q".to_string());
    let mut p = Parser::new(lexer, Emitter::new(String::new())).unwrap();
    p.statement().unwrap();
    assert_eq!(p.emitter().output(), "float a;\na = 2;\n");
    assert_eq!(
        p.program(),
        Err(CompileError::UndeclaredLabel(vec!["Q".to_string()]))
    );
    assert_eq!(p.check_labels(), Err(CompileError::UndeclaredLabel(vec!["Q".to_string()])));
}

#[test]
fn comparison_and_primary_directly() {
    let lexer = Lexer::new("1 < 2".to_string());
    let mut p = Parser::new(lexer, Emitter::new(String::new())).unwrap();
    p.comparison().unwrap();
    assert_eq!(p.emitter().output(), "1<2");
    let lexer = Lexer::new("b".to_string());
    let mut p = Parser::new(lexer, Emitter::new(String::new())).unwrap();
    assert_eq!(p.primary(), Err(CompileError::UndeclaredVariable("b".to_string())));
    let lexer = Lexer::new("-3*4".to_string());
    let mut p = Parser::new(lexer, Emitter::new(String::new())).unwrap();
    p.term().unwrap();
    assert_eq!(p.emitter().output(), "-3*4");
    let lexer = Lexer::new("+5".to_string());
    let mut p = Parser::new(lexer, Emitter::new(String::new())).unwrap();
    p.unary().unwrap();
    assert_eq!(p.emitter().output(), "+5");
}

#[test]
fn token_new_keeps_fields() {
    let t = Token::new("x".to_string(), TokenType::Ident);
    assert_eq!(t.text, "x");
    assert_eq!(t.kind, TokenType::Ident);
}

#[test]
fn token_texts_rebuild_the_source_without_blanks_and_comments() {
    let toks = tokens("LET  a=1 # set a\n\tPRINT \"x y\"\n");
    let rebuilt: String = toks
        .iter()
        .map(|(k, t)| if *k == TokenType::String { format!("\"{}\"", t) } else { t.clone() })
        .collect();
    assert_eq!(rebuilt, "LETa=1\nPRINT\"x y\"\n\n");
}
