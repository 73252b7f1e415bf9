use compiler::lexer::{Lexer, TokenType};

fn tokenize(source: &str) -> Vec<TokenType> {
    let mut lexer = Lexer::new(source);
    let mut tokens = Vec::new();
    loop {
        match lexer.scan_token() {
            Ok(Some(token)) => tokens.push(token),
            Ok(None) => break,
            Err(e) => panic!("{}", e.message()),
        }
    }
    tokens
}

fn op(s: &str) -> TokenType {
    TokenType::Operator(s.to_string())
}

#[test]
fn line_comment_produces_no_tokens() {
    assert_eq!(tokenize("// this is a comment"), vec![]);
}

#[test]
fn block_comment_produces_no_tokens() {
    assert_eq!(tokenize("/* this is a comment */"), vec![]);
}

#[test]
fn comment_is_skipped_between_real_tokens() {
    assert_eq!(
        tokenize("int a; // comment\n int b;"),
        vec![
            TokenType::Int,
            TokenType::Identifier("a".to_string()),
            TokenType::Semicolon,
            TokenType::Int,
            TokenType::Identifier("b".to_string()),
            TokenType::Semicolon,
        ]
    );
}

#[test]
fn int_declaration_with_assignment() {
    assert_eq!(
        tokenize("int a = 10;"),
        vec![
            TokenType::Int,
            TokenType::Identifier("a".to_string()),
            op("="),
            TokenType::IntegerLiteral(10),
            TokenType::Semicolon,
        ]
    );
}

#[test]
fn char_declaration_with_assignment() {
    assert_eq!(
        tokenize("char b = 'a';"),
        vec![
            TokenType::Char,
            TokenType::Identifier("b".to_string()),
            op("="),
            TokenType::CharLiteral('a'),
            TokenType::Semicolon,
        ]
    );
}

#[test]
fn char_literal_with_escape_sequence() {
    assert_eq!(tokenize("'\\n'"), vec![TokenType::CharLiteral('\n')]);
}

#[test]
fn for_loop_header() {
    assert_eq!(
        tokenize("for (int i = 0; i < 10; i++)"),
        vec![
            TokenType::For,
            TokenType::OpenParentheses,
            TokenType::Int,
            TokenType::Identifier("i".to_string()),
            op("="),
            TokenType::IntegerLiteral(0),
            TokenType::Semicolon,
            TokenType::Identifier("i".to_string()),
            op("<"),
            TokenType::IntegerLiteral(10),
            TokenType::Semicolon,
            TokenType::Identifier("i".to_string()),
            op("++"),
            TokenType::ClosedParentheses,
        ]
    );
}

#[test]
fn while_loop_with_decrement() {
    assert_eq!(
        tokenize("while (i > 0) { i-- }"),
        vec![
            TokenType::While,
            TokenType::OpenParentheses,
            TokenType::Identifier("i".to_string()),
            op(">"),
            TokenType::IntegerLiteral(0),
            TokenType::ClosedParentheses,
            TokenType::OpenBracket,
            TokenType::Identifier("i".to_string()),
            op("--"),
            TokenType::ClosedBracket,
        ]
    );
}

#[test]
fn keyword_return() {
    assert_eq!(tokenize("return"), vec![TokenType::Return]);
}

#[test]
fn keyword_if() {
    assert_eq!(tokenize("if"), vec![TokenType::If]);
}

#[test]
fn keyword_else() {
    assert_eq!(tokenize("else"), vec![TokenType::Else]);
}

#[test]
fn keyword_do() {
    assert_eq!(tokenize("do"), vec![TokenType::Do]);
}

#[test]
fn keyword_switch() {
    assert_eq!(tokenize("switch"), vec![TokenType::Switch]);
}

#[test]
fn keyword_default() {
    assert_eq!(tokenize("default"), vec![TokenType::DefaultCase]);
}

#[test]
fn directive_include() {
    assert_eq!(tokenize("#include"), vec![TokenType::Include]);
}

#[test]
fn directive_define() {
    assert_eq!(tokenize("#define"), vec![TokenType::Define]);
}

#[test]
fn string_literal() {
    assert_eq!(
        tokenize("\"hello\""),
        vec![TokenType::StringLiteral("hello".to_string())]
    );
}

#[test]
fn string_literal_with_escape_sequence() {
    assert_eq!(
        tokenize("\"a\\nb\""),
        vec![TokenType::StringLiteral("a\nb".to_string())]
    );
}

#[test]
fn identifier_alone() {
    assert_eq!(
        tokenize("my_var1"),
        vec![TokenType::Identifier("my_var1".to_string())]
    );
}

#[test]
fn open_and_closed_parentheses() {
    assert_eq!(
        tokenize("()"),
        vec![TokenType::OpenParentheses, TokenType::ClosedParentheses]
    );
}

#[test]
fn open_and_closed_bracket() {
    assert_eq!(
        tokenize("{}"),
        vec![TokenType::OpenBracket, TokenType::ClosedBracket]
    );
}

#[test]
fn semicolon() {
    assert_eq!(tokenize(";"), vec![TokenType::Semicolon]);
}

#[test]
fn operator_modulo() {
    assert_eq!(tokenize("%"), vec![op("%")]);
}

#[test]
fn operator_equality() {
    assert_eq!(tokenize("=="), vec![op("==")]);
}

#[test]
fn operator_inequality() {
    assert_eq!(tokenize("!="), vec![op("!=")]);
}

#[test]
fn operator_logical_and() {
    assert_eq!(tokenize("&&"), vec![op("&&")]);
}

#[test]
fn operator_division() {
    assert_eq!(tokenize("/"), vec![op("/")]);
}

#[test]
fn operator_less_or_equal() {
    assert_eq!(tokenize("<="), vec![op("<=")]);
}

#[test]
fn operator_greater_or_equal() {
    assert_eq!(tokenize(">="), vec![op(">=")]);
}

#[test]
fn operator_plus() {
    assert_eq!(tokenize("+"), vec![op("+")]);
}

#[test]
fn operator_minus() {
    assert_eq!(tokenize("-"), vec![op("-")]);
}

#[test]
#[should_panic(expected = "unexpected character")]
fn unexpected_character_panics() {
    tokenize("@");
}

#[test]
#[should_panic(expected = "expected '=' after the '!'")]
fn lone_bang_panics() {
    tokenize("!a");
}

#[test]
#[should_panic(expected = "expected a second '&' after the first one")]
fn lone_ampersand_panics() {
    tokenize("&a");
}

#[test]
#[should_panic(expected = "unterminated string literal")]
fn unterminated_string_literal_panics() {
    tokenize("\"hello");
}

#[test]
#[should_panic(expected = "expected closing '")]
fn unterminated_char_literal_panics() {
    tokenize("'a");
}

#[test]
#[should_panic(expected = "unterminated char literal")]
fn empty_char_literal_panics() {
    tokenize("'");
}

#[test]
#[should_panic(expected = "expected closing '")]
fn char_literal_missing_closing_quote_panics() {
    tokenize("'ab'");
}

#[test]
#[should_panic(expected = "Unterminated multiline comment")]
fn unterminated_block_comment_panics() {
    tokenize("/* this comment never ends");
}

#[test]
#[should_panic(expected = "directive is not supported")]
fn unsupported_directive_panics() {
    tokenize("#pragma");
}
