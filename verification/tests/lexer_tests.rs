use crusty::lexer::{Lexer, Token, TokenType};

#[test]
fn test_single_characters() {
    let input = "(){};,=";
    let mut lexer = Lexer::new(input.to_string());
    let tokens = lexer.lex();
    let expected_tokens = vec![
        Token { token_type: TokenType::LPAREN, literal: "(".to_string() },
        Token { token_type: TokenType::RPAREN, literal: ")".to_string() },
        Token { token_type: TokenType::LBRACE, literal: "{".to_string() },
        Token { token_type: TokenType::RBRACE, literal: "}".to_string() },
        Token { token_type: TokenType::SEMICOLON, literal: ";".to_string() },
        Token { token_type: TokenType::COMMA, literal: ",".to_string() },
        Token { token_type: TokenType::EQ, literal: "=".to_string() },
    ];
    assert_eq!(tokens, expected_tokens);
}

#[test]
fn test_keywords_and_identifiers() {
    let input = "return int myVar";
    let mut lexer = Lexer::new(input.to_string());
    let tokens = lexer.lex();
    let expected_tokens = vec![
        Token { token_type: TokenType::RETURN, literal: "return".to_string() },
        Token { token_type: TokenType::INT, literal: "int".to_string() },
        Token { token_type: TokenType::IDENT, literal: "myVar".to_string() },
    ];
    assert_eq!(tokens, expected_tokens);
}

#[test]
fn test_integer_literals() {
    let input = "123 456";
    let mut lexer = Lexer::new(input.to_string());
    let tokens = lexer.lex();
    let expected_tokens = vec![
        Token { token_type: TokenType::NIDENT, literal: "123".to_string() },
        Token { token_type: TokenType::NIDENT, literal: "456".to_string() },
    ];
    assert_eq!(tokens, expected_tokens);
}

#[test]
fn test_full_program() {
    let input = "int main() { return 2; }";
    let mut lexer = Lexer::new(input.to_string());
    let tokens = lexer.lex();
    let expected_tokens = vec![
        Token { token_type: TokenType::INT, literal: "int".to_string() },
        Token { token_type: TokenType::IDENT, literal: "main".to_string() },
        Token { token_type: TokenType::LPAREN, literal: "(".to_string() },
        Token { token_type: TokenType::RPAREN, literal: ")".to_string() },
        Token { token_type: TokenType::LBRACE, literal: "{".to_string() },
        Token { token_type: TokenType::RETURN, literal: "return".to_string() },
        Token { token_type: TokenType::NIDENT, literal: "2".to_string() },
        Token { token_type: TokenType::SEMICOLON, literal: ";".to_string() },
        Token { token_type: TokenType::RBRACE, literal: "}".to_string() },
    ];
    assert_eq!(tokens, expected_tokens);
}

#[test]
fn test_empty_input_lexes_to_nothing() {
    let mut lexer = Lexer::new("".to_string());
    let tokens = lexer.lex();
    assert!(tokens.is_empty());
}

#[test]
fn test_whitespace_only_lexes_to_nothing() {
    let mut lexer = Lexer::new(" \t\n\r  ".to_string());
    let tokens = lexer.lex();
    assert!(tokens.is_empty());
}

#[test]
fn test_digits_single_token() {
    let mut lexer = Lexer::new("123".to_string());
    let tokens = lexer.lex();
    let expected_tokens =
        vec![Token { token_type: TokenType::NIDENT, literal: "123".to_string() }];
    assert_eq!(tokens, expected_tokens);
}

#[test]
fn test_mixed_alphanumeric_is_identifier() {
    let mut lexer = Lexer::new("myVar2".to_string());
    let tokens = lexer.lex();
    let expected_tokens =
        vec![Token { token_type: TokenType::IDENT, literal: "myVar2".to_string() }];
    assert_eq!(tokens, expected_tokens);
}

#[test]
fn test_unusual_characters_absorbed_into_run() {
    // characters outside the special set and outside alphanumerics are
    // absorbed into the running token rather than rejected
    let mut lexer = Lexer::new("a+b<c".to_string());
    let tokens = lexer.lex();
    let expected_tokens =
        vec![Token { token_type: TokenType::IDENT, literal: "a+b<c".to_string() }];
    assert_eq!(tokens, expected_tokens);
}

#[test]
fn test_lex_rerun_yields_equal_tokens() {
    let input = "int main() { return 2; }";
    let mut first = Lexer::new(input.to_string());
    let mut second = Lexer::new(input.to_string());
    assert_eq!(first.lex(), second.lex());
}

#[test]
fn test_next_token_walks_the_characters() {
    let mut lexer = Lexer::new("ab".to_string());
    assert_eq!(lexer.next_token(), Some('a'));
    assert_eq!(lexer.next_token(), Some('b'));
    assert_eq!(lexer.next_token(), None);
    assert_eq!(lexer.next_token(), None);
}
