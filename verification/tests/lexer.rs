use picasso::lexer::{build_lexer, TokenType};

fn kinds_and_texts(source: &str) -> Vec<(TokenType, String)> {
    build_lexer(source).tokens.iter().map(|t| (t.token, t.literal.clone())).collect()
}

#[test]
fn words_numbers_and_operators() {
    let tokens = kinds_and_texts("x := 5 // five\nfn 1.5 == ..");
    let expected = vec![
        (TokenType::Identifier, "x".to_string()),
        (TokenType::Colon, ":".to_string()),
        (TokenType::Assign, "=".to_string()),
        (TokenType::Integer, "5".to_string()),
        (TokenType::Function, "fn".to_string()),
        (TokenType::Float, "1.5".to_string()),
        (TokenType::Equals, "==".to_string()),
        (TokenType::Range, "..".to_string()),
        (TokenType::Eof, String::new()),
    ];
    assert_eq!(tokens, expected);
}

#[test]
fn strings_run_to_the_closing_quote() {
    let tokens = kinds_and_texts("\"a b\" 2. \"open");
    let expected = vec![
        (TokenType::String, "a b".to_string()),
        (TokenType::Integer, "2".to_string()),
        (TokenType::Dot, ".".to_string()),
        (TokenType::String, "open".to_string()),
        (TokenType::Eof, String::new()),
    ];
    assert_eq!(tokens, expected);
}
