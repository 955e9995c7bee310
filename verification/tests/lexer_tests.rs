use lexer::lexer::Lexer;
use lexer::token::Token;

#[test]
fn lexer_builds() {
    let _result = Lexer::new("a".chars().collect());
}

#[test]
fn lexer_reads_eof() {
    let result = Lexer::new("".chars().collect()).get_tokens().unwrap();
    assert_eq!(result, vec![Token::Eof])
}

#[test]
fn lexer_reads_space_eof() {
    let result = Lexer::new(" ".chars().collect()).get_tokens().unwrap();
    assert_eq!(result, vec![Token::Eof])
}

#[test]
fn lexer_reads_def() {
    let program: Vec<char> = r###"
            def hello()
        "###
    .chars()
    .collect();
    let result = Lexer::new(program).get_tokens().unwrap();
    let expected = vec![
        Token::Def,
        Token::Identifier("hello".to_string()),
        Token::LParen,
        Token::RParen,
        Token::Eof,
    ];
    assert_eq!(result, expected)
}

#[test]
fn lexer_reads_extern() {
    let program: Vec<char> = r###"
                extern hello
            "###
    .chars()
    .collect();
    let result = Lexer::new(program).get_tokens().unwrap();
    let expected = vec![
        Token::Extern,
        Token::Identifier("hello".to_string()),
        Token::Eof,
    ];
    assert_eq!(result, expected)
}

#[test]
fn lexer_skips_comment() {
    let program: Vec<char> = r###"
            extern hello
            # skip me!
            def goodbye()
        "###
    .chars()
    .collect();
    let result = Lexer::new(program).get_tokens().unwrap();
    let expected = vec![
        Token::Extern,
        Token::Identifier("hello".to_string()),
        Token::Def,
        Token::Identifier("goodbye".to_string()),
        Token::LParen,
        Token::RParen,
        Token::Eof,
    ];
    assert_eq!(result, expected)
}

#[test]
fn lexer_reads_math() {
    let program: Vec<char> = r###"
            a=(b+c)-d*e/(f+$)
        "###
    .chars()
    .collect();

    let result = Lexer::new(program).get_tokens().unwrap();
    let expected = vec![
        Token::Identifier('a'.to_string()),
        Token::Eq,
        Token::LParen,
        Token::Identifier('b'.to_string()),
        Token::Add,
        Token::Identifier('c'.to_string()),
        Token::RParen,
        Token::Sub,
        Token::Identifier('d'.to_string()),
        Token::Mult,
        Token::Identifier('e'.to_string()),
        Token::Div,
        Token::LParen,
        Token::Identifier('f'.to_string()),
        Token::Add,
        Token::Misc('$'),
        Token::RParen,
        Token::Eof,
    ];
    assert_eq!(result, expected)
}

#[test]
fn lexer_reads_def_and_impl() {
    let program: Vec<char> = r###"
            def hello()
            a=b+c
        "###
    .chars()
    .collect();
    let result = Lexer::new(program).get_tokens().unwrap();
    let expected = vec![
        Token::Def,
        Token::Identifier("hello".to_string()),
        Token::LParen,
        Token::RParen,
        Token::Identifier("a".to_string()),
        Token::Eq,
        Token::Identifier("b".to_string()),
        Token::Add,
        Token::Identifier("c".to_string()),
        Token::Eof,
    ];
    assert_eq!(result, expected)
}

#[test]
fn lexer_reads_numbers() {
    let program: Vec<char> = r###"
            def hello()
            a=45+69.2
        "###
    .chars()
    .collect();
    let result = Lexer::new(program).get_tokens().unwrap();
    let expected = vec![
        Token::Def,
        Token::Identifier("hello".to_string()),
        Token::LParen,
        Token::RParen,
        Token::Identifier("a".to_string()),
        Token::Eq,
        Token::Number("45".to_string()),
        Token::Add,
        Token::Number("69.2".to_string()),
        Token::Eof,
    ];
    assert_eq!(result, expected);
    match (&result[6], &result[8]) {
        (Token::Number(a), Token::Number(b)) => {
            assert!((a.parse::<f32>().unwrap() - 45f32).abs() < 1e-5);
            assert!((b.parse::<f32>().unwrap() - 69.2f32).abs() < 1e-5);
        }
        _ => panic!("numeric tokens expected"),
    }
}

#[test]
#[should_panic]
fn lexer_hates_weird_numbers() {
    let program: Vec<char> = r###"
            def hello()
            a=45+69.2.3
        "###
    .chars()
    .collect();
    let _ = Lexer::new(program).get_tokens().unwrap();
}
