use compiler::ast::{
    DecoratedItem, Expr, Function, FunctionDecl, Item, Param, Program, Stmt, Type,
};
use compiler::lexer::{LexError, Lexer, TokenType};
use compiler::parser::Parser;
use compiler::semantic_analyzer::SemanticAnalyzer;

fn scan_all(source: &str) -> Result<Vec<TokenType>, LexError> {
    let mut lexer = Lexer::new(source);
    let mut tokens = Vec::new();
    loop {
        match lexer.scan_token() {
            Ok(Some(token)) => tokens.push(token),
            Ok(None) => return Ok(tokens),
            Err(e) => return Err(e),
        }
    }
}

fn tokens_of(source: &str) -> Vec<TokenType> {
    match scan_all(source) {
        Ok(tokens) => tokens,
        Err(e) => panic!("{}", e.message()),
    }
}

fn parse_error_text(source: &str) -> String {
    let tokens = tokens_of(source);
    match Parser::new(tokens.clone()).parse_program() {
        Ok(_) => panic!("expected a syntax error"),
        Err(e) => e.message(&tokens),
    }
}

fn program_of(source: &str) -> Program {
    let tokens = tokens_of(source);
    match Parser::new(tokens.clone()).parse_program() {
        Ok(program) => program,
        Err(e) => panic!("{}", e.message(&tokens)),
    }
}

fn analysis_of(source: &str) -> Result<compiler::ast::DecoratedProgram, Vec<String>> {
    SemanticAnalyzer::new().analyze(&program_of(source))
}

fn ident(s: &str) -> TokenType {
    TokenType::Identifier(s.to_string())
}

#[test]
fn scanning_after_the_end_keeps_reporting_the_end() {
    let mut lexer = Lexer::new("int  ");
    assert_eq!(lexer.scan_token(), Ok(Some(TokenType::Int)));
    assert_eq!(lexer.scan_token(), Ok(None));
    assert_eq!(lexer.scan_token(), Ok(None));
    assert_eq!(lexer.scan_token(), Ok(None));
}

#[test]
fn leading_whitespace_does_not_change_the_tokens() {
    assert_eq!(tokens_of(" \t\n  x = 1;"), tokens_of("x = 1;"));
}

#[test]
fn unicode_whitespace_separates_tokens() {
    assert_eq!(tokens_of("int\u{00A0}a"), vec![TokenType::Int, ident("a")]);
    assert_eq!(tokens_of("a\u{2003}b"), vec![ident("a"), ident("b")]);
}

#[test]
fn unicode_letters_and_digits_continue_an_identifier() {
    assert_eq!(tokens_of("caf\u{e9}2 x"), vec![ident("caf\u{e9}2"), ident("x")]);
    assert_eq!(tokens_of("a\u{0663}"), vec![ident("a\u{0663}")]);
}

#[test]
fn directive_name_includes_unicode_letters() {
    assert_eq!(scan_all("#include\u{e9}"), Err(LexError::UnsupportedDirective));
    assert_eq!(scan_all("#include x"), Ok(vec![TokenType::Include, ident("x")]));
    assert_eq!(scan_all("#define"), Ok(vec![TokenType::Define]));
}

#[test]
fn string_and_char_literals_keep_their_characters() {
    assert_eq!(
        tokens_of("\"h\u{e9}llo\\n\" 'x' '\\t'"),
        vec![
            TokenType::StringLiteral("h\u{e9}llo\n".to_string()),
            TokenType::CharLiteral('x'),
            TokenType::CharLiteral('\t'),
        ]
    );
}

#[test]
fn each_lexical_error_is_reported() {
    assert_eq!(scan_all("a $ b"), Err(LexError::UnexpectedCharacter('$')));
    assert_eq!(scan_all("a ! b"), Err(LexError::ExpectedEqualsAfterBang));
    assert_eq!(scan_all("a & b"), Err(LexError::ExpectedSecondAmpersand));
    assert_eq!(scan_all("\"abc"), Err(LexError::UnterminatedStringLiteral));
    assert_eq!(scan_all("'"), Err(LexError::UnterminatedCharLiteral));
    assert_eq!(scan_all("'ab'"), Err(LexError::ExpectedClosingQuote));
    assert_eq!(scan_all("/* open"), Err(LexError::UnterminatedBlockComment));
    assert_eq!(scan_all("#pragma"), Err(LexError::UnsupportedDirective));
}

#[test]
fn lexical_error_messages() {
    assert_eq!(
        LexError::UnexpectedCharacter('$').message(),
        "Syntax error: unexpected character '$'.\n"
    );
    assert_eq!(
        LexError::ExpectedEqualsAfterBang.message(),
        "Syntax error: expected '=' after the '!'.\n"
    );
}

#[test]
fn integer_literal_too_large_for_i32_reads_as_zero() {
    assert_eq!(tokens_of("2147483647"), vec![TokenType::IntegerLiteral(2147483647)]);
    assert_eq!(tokens_of("2147483648"), vec![TokenType::IntegerLiteral(0)]);
}

#[test]
fn syntax_error_message_names_the_token_found() {
    assert_eq!(
        parse_error_text("int main() { return 0 }"),
        "Syntax error: expected ';' after return statement, found Some(ClosedBracket).\n"
    );
    assert_eq!(
        parse_error_text("int main() { return 'a' 'b'; }"),
        "Syntax error: expected ';' after return statement, found Some(CharLiteral('b')).\n"
    );
    assert_eq!(
        parse_error_text("int main() { x = 1 \"q\\\"\"; }"),
        "Syntax error: expected ';' after expression, found Some(StringLiteral(\"q\\\"\")).\n"
    );
}

#[test]
fn syntax_error_at_end_of_input_finds_none() {
    assert_eq!(
        parse_error_text("int main(int a"),
        "Syntax error: expected ')' after function parameters, found None.\n"
    );
    assert_eq!(
        parse_error_text("int main() { return (1 ; }"),
        "Syntax error: expected ')' but found Some(Semicolon).\n"
    );
}

#[test]
fn syntax_error_in_switch_body_names_the_bare_token() {
    assert_eq!(
        parse_error_text("int main() { switch (x) { y = 1; } }"),
        "Syntax error: expected 'case', 'default', or '}' in switch body, found Identifier(\"y\").\n"
    );
}

#[test]
fn successful_parse_reads_every_token() {
    let program = program_of("int f() { return 1; } int g(int a) { return a; }");
    assert_eq!(program.items.len(), 2);
}

#[test]
fn declaring_a_name_three_times_reports_two_redeclarations() {
    let errs = analysis_of("int main() { int a; int a; int a; return 0; }").unwrap_err();
    assert_eq!(
        errs,
        vec![
            "Redeclaration of 'a' in same scope".to_string(),
            "Redeclaration of 'a' in same scope".to_string(),
        ]
    );
}

#[test]
fn a_declared_name_is_found_with_its_type() {
    assert!(analysis_of("char f() { char c; return c; }").is_ok());
    let errs = analysis_of("int f() { char c; return c; }").unwrap_err();
    assert_eq!(errs, vec!["Return type mismatch: expected Int, found Char".to_string()]);
}

#[test]
fn names_declared_in_a_block_or_for_are_gone_after_it() {
    let errs = analysis_of("int main() { { int a; } for (int b = 0; b < 1; b++) {} a = b; return 0; }")
        .unwrap_err();
    assert_eq!(
        errs,
        vec![
            "Undeclared identifier 'a'".to_string(),
            "Undeclared identifier 'b'".to_string(),
        ]
    );
}

#[test]
fn diagnostics_come_in_source_order() {
    let errs = analysis_of("int main() { x = 1; break; continue; return y; }").unwrap_err();
    assert_eq!(
        errs,
        vec![
            "Undeclared identifier 'x'".to_string(),
            "'break' used outside of a loop or switch".to_string(),
            "'continue' used outside of a loop".to_string(),
            "Undeclared identifier 'y'".to_string(),
        ]
    );
}

#[test]
fn a_function_missing_a_return_fails_the_whole_program() {
    let errs = analysis_of("int f() { int a; } int main() { return 0; }").unwrap_err();
    assert_eq!(errs, vec!["Function 'f' may not return a value on all paths".to_string()]);
}

#[test]
fn decorated_program_keeps_the_items_and_statements() {
    let source = "int add(int a, int b) { int c; c = a + b; return c; } int main() { return add(1, 2); }";
    let program = program_of(source);
    let decorated = SemanticAnalyzer::new().analyze(&program).unwrap();
    assert_eq!(decorated.items.len(), program.items.len());
    for (d, item) in decorated.items.iter().zip(program.items.iter()) {
        match (d, item) {
            (DecoratedItem::Function(df), Item::Function(f)) => {
                assert_eq!(&df.function, f);
                let stmts: Vec<&Stmt> = df.body.iter().map(|s| &s.stmt).collect();
                let expected: Vec<&Stmt> = f.body.iter().collect();
                assert_eq!(stmts, expected);
            }
            _ => panic!("items differ"),
        }
    }
    match &decorated.items[0] {
        DecoratedItem::Function(df) => {
            assert_eq!(df.body[0].inferred_type, None);
            assert_eq!(df.body[1].inferred_type, Some(Type::Int));
            assert_eq!(df.body[2].inferred_type, Some(Type::Int));
        }
        DecoratedItem::FunctionDecl(_) => panic!("expected a function"),
    }
    assert_eq!(
        decorated.symbol_table,
        vec![("add".to_string(), Type::Int), ("main".to_string(), Type::Int)]
    );
}

#[test]
fn inferred_type_of_a_call_is_the_return_type() {
    let decorated = analysis_of("char g() { return 'x'; } int main() { g(); return 0; }").unwrap();
    match &decorated.items[1] {
        DecoratedItem::Function(df) => assert_eq!(df.body[0].inferred_type, Some(Type::Char)),
        DecoratedItem::FunctionDecl(_) => panic!("expected a function"),
    }
}

#[test]
fn function_declaration_is_callable_and_kept() {
    let program = Program {
        items: vec![
            Item::FunctionDecl(FunctionDecl {
                ret_type: Type::Char,
                name: "get".to_string(),
                params: vec![Param { param_type: Type::Int, name: "n".to_string() }],
            }),
            Item::Function(Function {
                ret_type: Type::Char,
                name: "main".to_string(),
                params: vec![],
                body: vec![Stmt::ReturnStmt(Some(Expr::FunCall {
                    callee: "get".to_string(),
                    args: vec![Expr::IntegerLit(3)],
                }))],
            }),
        ],
    };
    let decorated = SemanticAnalyzer::new().analyze(&program).unwrap();
    match &decorated.items[0] {
        DecoratedItem::FunctionDecl(d) => assert_eq!(d.name, "get"),
        DecoratedItem::Function(_) => panic!("expected a declaration"),
    }
    assert_eq!(
        decorated.symbol_table,
        vec![("get".to_string(), Type::Char), ("main".to_string(), Type::Char)]
    );
}

#[test]
fn declaration_then_definition_of_a_function_is_a_redeclaration() {
    let mut program = program_of("int f() { return 1; }");
    program.items.insert(
        0,
        Item::FunctionDecl(FunctionDecl { ret_type: Type::Int, name: "f".to_string(), params: vec![] }),
    );
    let errs = SemanticAnalyzer::new().analyze(&program).unwrap_err();
    assert_eq!(errs, vec!["Redeclaration of 'f' in same scope".to_string()]);
}

#[test]
fn arity_message_counts_in_decimal() {
    let source = "int f(int a, int b, int c, int d, int e, int g, int h, int i, int j, int k, int l, int m) { return a; }
                  int main() { return f(); }";
    let errs = analysis_of(source).unwrap_err();
    assert_eq!(errs, vec!["Function 'f' expects 12 argument(s), found 0".to_string()]);
}

#[test]
fn argument_message_numbers_from_one() {
    let source = "int f(int a, int b, int c, int d, int e, int g, int h, int i, int j, int k) { return a; }
                  int main() { return f(1, 2, 3, 4, 5, 6, 7, 8, 9, 'x', 11); }";
    let errs = analysis_of(source).unwrap_err();
    assert_eq!(
        errs,
        vec![
            "Function 'f' expects 10 argument(s), found 11".to_string(),
            "Argument 10 of 'f' expected type Int, found Char".to_string(),
        ]
    );
}

#[test]
fn string_typed_expressions_are_checked() {
    let errs = analysis_of("int main() { return \"s\"; }").unwrap_err();
    assert_eq!(errs, vec!["Return type mismatch: expected Int, found String".to_string()]);
}

#[test]
fn analyzer_can_be_reused() {
    let mut analyzer = SemanticAnalyzer::new();
    assert!(analyzer.analyze(&program_of("int main() { return x; }")).is_err());
    assert!(analyzer.analyze(&program_of("int main() { return 0; }")).is_ok());
}

#[test]
fn only_whitespace_and_comments_give_no_token() {
    assert_eq!(scan_all("  // line\n /* block */ \t// to the end"), Ok(vec![]));
    assert_eq!(scan_all(" /* block */ x"), Ok(vec![ident("x")]));
}

#[test]
fn a_lexer_at_the_end_stays_unchanged() {
    let mut lexer = Lexer::new("a /* c */ ");
    assert_eq!(lexer.scan_token(), Ok(Some(ident("a"))));
    assert_eq!(lexer.scan_token(), Ok(None));
    let before = lexer.clone();
    assert_eq!(lexer.scan_token(), Ok(None));
    assert_eq!(lexer, before);
}

#[test]
fn cloned_syntax_trees_are_equal() {
    let program = program_of(
        "int f(int a) { switch (a) { case 1: return f(a - 1); default: break; } for (; a < 1;) {} return 0; }",
    );
    assert_eq!(program.clone(), program);
    let decorated = SemanticAnalyzer::new().analyze(&program).unwrap_or_else(|_| panic!("analysis failed"));
    assert_eq!(decorated.clone(), decorated);
}

#[test]
fn token_text_in_diagnostics_matches_debug_for_ascii() {
    let sources = [
        "int main() { return 0 \"a\u{1}\u{7f}\\\"b\\\\\" ; }",
        "int main() { return 0 '\u{1b}' ; }",
        "int main() { return 0 '\\'' ; }",
        "int main() { return 0 x_1 ; }",
        "int main() { return 0 2147483647 ; }",
        "int main() { return 0 { ; }",
    ];
    for source in sources.iter() {
        let tokens = tokens_of(source);
        match Parser::new(tokens.clone()).parse_program() {
            Ok(_) => panic!("expected a syntax error"),
            Err(e) => assert_eq!(
                e.message(&tokens),
                format!(
                    "Syntax error: expected ';' after return statement, found {:?}.\n",
                    tokens.get(e.position)
                )
            ),
        }
    }
}
