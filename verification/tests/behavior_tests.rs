use lexer::lexer::Lexer;
use lexer::token::LexError;
use lexer::token::Token;

#[test]
fn whitespace_only_input_yields_eof() {
    let result = Lexer::new(" \t\r\n  ".chars().collect()).get_tokens().unwrap();
    assert_eq!(result, vec![Token::Eof]);
}

#[test]
fn number_with_two_dots_is_reported() {
    let err = Lexer::new("a=45+69.2.3".chars().collect())
        .get_tokens()
        .unwrap_err();
    match &err {
        LexError::InvalidNumberLiteral(s) => assert_eq!(s, "69.2.3"),
    }
    assert_eq!(err.literal_text().as_str(), "69.2.3");
}

#[test]
fn lone_dot_is_reported() {
    let err = Lexer::new(".".chars().collect()).get_tokens().unwrap_err();
    assert_eq!(err, LexError::InvalidNumberLiteral(".".to_string()));
}

#[test]
fn trailing_dot_still_parses() {
    let result = Lexer::new("45.".chars().collect()).get_tokens().unwrap();
    assert_eq!(
        result,
        vec![Token::Number("45.".to_string()), Token::Eof]
    );
    match &result[0] {
        Token::Number(s) => assert!((s.parse::<f32>().unwrap() - 45f32).abs() < 1e-5),
        _ => panic!("numeric token expected"),
    }
}

#[test]
fn leading_dot_still_parses() {
    let result = Lexer::new(".5".chars().collect()).get_tokens().unwrap();
    assert_eq!(result, vec![Token::Number(".5".to_string()), Token::Eof]);
}

#[test]
fn comment_without_newline_yields_eof() {
    let result = Lexer::new("# just a comment".chars().collect())
        .get_tokens()
        .unwrap();
    assert_eq!(result, vec![Token::Eof]);
}

#[test]
fn comment_ends_at_carriage_return() {
    let result = Lexer::new("# skipped\rdef".chars().collect())
        .get_tokens()
        .unwrap();
    assert_eq!(result, vec![Token::Def, Token::Eof]);
}

#[test]
fn lone_unclassified_character_becomes_misc() {
    let result = Lexer::new("$".chars().collect()).get_tokens().unwrap();
    assert_eq!(result, vec![Token::Misc('$'), Token::Eof]);
}

#[test]
fn keyword_prefix_stays_an_identifier() {
    let result = Lexer::new("define".chars().collect()).get_tokens().unwrap();
    assert_eq!(
        result,
        vec![Token::Identifier("define".to_string()), Token::Eof]
    );
}

#[test]
fn end_of_stream_is_idempotent() {
    let mut lx = Lexer::new("a".chars().collect());
    assert_eq!(lx.get_tok().unwrap(), Token::Identifier("a".to_string()));
    assert_eq!(lx.get_tok().unwrap(), Token::Eof);
    assert_eq!(lx.get_tok().unwrap(), Token::Eof);
    assert_eq!(lx.get_tok().unwrap(), Token::Eof);
}

#[test]
fn def_hello_lexes_to_the_last_character() {
    let result = Lexer::new("def hello()".chars().collect()).get_tokens().unwrap();
    assert_eq!(
        result,
        vec![
            Token::Def,
            Token::Identifier("hello".to_string()),
            Token::LParen,
            Token::RParen,
            Token::Eof,
        ]
    );
}

#[test]
fn extern_hello_lexes_to_the_last_character() {
    let result = Lexer::new("extern hello".chars().collect()).get_tokens().unwrap();
    assert_eq!(
        result,
        vec![
            Token::Extern,
            Token::Identifier("hello".to_string()),
            Token::Eof,
        ]
    );
}

#[test]
fn math_expression_lexes_to_the_last_character() {
    let result = Lexer::new("a=(b+c)-d*e/(f+$)".chars().collect())
        .get_tokens()
        .unwrap();
    let expected = vec![
        Token::Identifier("a".to_string()),
        Token::Eq,
        Token::LParen,
        Token::Identifier("b".to_string()),
        Token::Add,
        Token::Identifier("c".to_string()),
        Token::RParen,
        Token::Sub,
        Token::Identifier("d".to_string()),
        Token::Mult,
        Token::Identifier("e".to_string()),
        Token::Div,
        Token::LParen,
        Token::Identifier("f".to_string()),
        Token::Add,
        Token::Misc('$'),
        Token::RParen,
        Token::Eof,
    ];
    assert_eq!(result, expected);
}

#[test]
fn numbers_lex_to_the_last_character() {
    let result = Lexer::new("a=45+69.2".chars().collect()).get_tokens().unwrap();
    assert_eq!(
        result,
        vec![
            Token::Identifier("a".to_string()),
            Token::Eq,
            Token::Number("45".to_string()),
            Token::Add,
            Token::Number("69.2".to_string()),
            Token::Eof,
        ]
    );
    match &result[4] {
        Token::Number(s) => assert!((s.parse::<f32>().unwrap() - 69.2f32).abs() < 1e-5),
        _ => panic!("numeric token expected"),
    }
}

#[test]
fn bare_double_dotted_number_is_fatal() {
    let err = Lexer::new("45+69.2.3".chars().collect()).get_tokens().unwrap_err();
    assert_eq!(err, LexError::InvalidNumberLiteral("69.2.3".to_string()));
}

#[test]
fn all_symbols_classify() {
    let result = Lexer::new("+-*/()=".chars().collect()).get_tokens().unwrap();
    assert_eq!(
        result,
        vec![
            Token::Add,
            Token::Sub,
            Token::Mult,
            Token::Div,
            Token::LParen,
            Token::RParen,
            Token::Eq,
            Token::Eof,
        ]
    );
}
