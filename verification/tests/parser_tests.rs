use crusty::lexer::{Lexer, Token, TokenType};
use crusty::parser::{Node, NodeType, Parser, AST};

#[test]
fn test_parse_full_program() {
    let input = "int main() { return 2; }";
    let mut lexer = Lexer::new(input.to_string());
    let tokens = lexer.lex();
    let mut parser = Parser::new(tokens);
    let ast = parser.parse();

    let expected_ast = AST::new(Node {
        node_type: NodeType::Program,
        value: "int id() { return 2; }".to_string(),
        children: vec![Node {
            node_type: NodeType::Function,
            value: "int id() { return 2; }".to_string(),
            children: vec![Node {
                node_type: NodeType::Statement,
                value: "return 2;".to_string(),
                children: vec![Node {
                    node_type: NodeType::Expression,
                    value: "2".to_string(),
                    children: vec![],
                }],
            }],
        }],
    });

    assert_eq!(ast.unwrap(), expected_ast);
}

#[test]
fn test_parse_full_program_big_number() {
    let input = "int main() { return 23192371 ; }";
    let mut lexer = Lexer::new(input.to_string());
    let tokens = lexer.lex();
    let mut parser = Parser::new(tokens);
    let ast = parser.parse();

    let expected_ast = AST::new(Node {
        node_type: NodeType::Program,
        value: "int id() { return 23192371; }".to_string(),
        children: vec![Node {
            node_type: NodeType::Function,
            value: "int id() { return 23192371; }".to_string(),
            children: vec![Node {
                node_type: NodeType::Statement,
                value: "return 23192371;".to_string(),
                children: vec![Node {
                    node_type: NodeType::Expression,
                    value: "23192371".to_string(),
                    children: vec![],
                }],
            }],
        }],
    });

    assert_eq!(ast.unwrap(), expected_ast);
}

#[test]
fn test_parse_missing_semicolon_errors() {
    let input = "int main() { return 2 }";
    let mut lexer = Lexer::new(input.to_string());
    let mut parser = Parser::new(lexer.lex());
    let ast = parser.parse();
    assert_eq!(ast, Err("Expected proper statement;".to_string()));
}

#[test]
fn test_parse_empty_input_errors() {
    let mut lexer = Lexer::new("".to_string());
    let mut parser = Parser::new(lexer.lex());
    let ast = parser.parse();
    assert_eq!(ast, Err("No tokens to parse".to_string()));
}

#[test]
fn test_parse_without_leading_int_errors() {
    let mut lexer = Lexer::new("return 2;".to_string());
    let mut parser = Parser::new(lexer.lex());
    let ast = parser.parse();
    assert_eq!(ast, Err("Expected int".to_string()));
}

#[test]
fn test_parse_identifier_expression_errors() {
    let mut lexer = Lexer::new("int main() { return x; }".to_string());
    let mut parser = Parser::new(lexer.lex());
    let ast = parser.parse();
    assert_eq!(ast, Err("Expected int literal".to_string()));
}

#[test]
fn test_parse_missing_paren_errors() {
    let mut lexer = Lexer::new("int main( { return 2; }".to_string());
    let mut parser = Parser::new(lexer.lex());
    let ast = parser.parse();
    assert_eq!(ast, Err("Expected proper function;".to_string()));
}

#[test]
fn test_parse_truncated_function_errors() {
    let mut lexer = Lexer::new("int main(".to_string());
    let mut parser = Parser::new(lexer.lex());
    let ast = parser.parse();
    assert_eq!(ast, Err("Expected int literal".to_string()));
}

#[test]
fn test_parse_tokens_after_program_are_ignored() {
    let input = "int main() { return 7; } extra";
    let mut lexer = Lexer::new(input.to_string());
    let mut parser = Parser::new(lexer.lex());
    let ast = parser.parse();
    assert!(ast.is_ok());
    assert_eq!(
        ast.unwrap(),
        AST::new(Node {
            node_type: NodeType::Program,
            value: "int id() { return 7; }".to_string(),
            children: vec![Node {
                node_type: NodeType::Function,
                value: "int id() { return 7; }".to_string(),
                children: vec![Node {
                    node_type: NodeType::Statement,
                    value: "return 7;".to_string(),
                    children: vec![Node {
                        node_type: NodeType::Expression,
                        value: "7".to_string(),
                        children: vec![],
                    }],
                }],
            }],
        })
    );
}

#[test]
fn test_parse_rerun_yields_equal_trees() {
    let input = "int main() { return 2; }";
    let mut first_lexer = Lexer::new(input.to_string());
    let mut first_parser = Parser::new(first_lexer.lex());
    let mut second_lexer = Lexer::new(input.to_string());
    let mut second_parser = Parser::new(second_lexer.lex());
    assert_eq!(first_parser.parse(), second_parser.parse());
}

#[test]
fn test_parser_new_accepts_hand_built_tokens() {
    let tokens = vec![
        Token { token_type: TokenType::INT, literal: "int".to_string() },
        Token { token_type: TokenType::IDENT, literal: "f".to_string() },
        Token { token_type: TokenType::LPAREN, literal: "(".to_string() },
        Token { token_type: TokenType::RPAREN, literal: ")".to_string() },
        Token { token_type: TokenType::LBRACE, literal: "{".to_string() },
        Token { token_type: TokenType::RETURN, literal: "return".to_string() },
        Token { token_type: TokenType::NIDENT, literal: "0".to_string() },
        Token { token_type: TokenType::SEMICOLON, literal: ";".to_string() },
        Token { token_type: TokenType::RBRACE, literal: "}".to_string() },
    ];
    let mut parser = Parser::new(tokens);
    let ast = parser.parse().unwrap();
    let expected_ast = AST::new(Node {
        node_type: NodeType::Program,
        value: "int id() { return 0; }".to_string(),
        children: vec![Node {
            node_type: NodeType::Function,
            value: "int id() { return 0; }".to_string(),
            children: vec![Node {
                node_type: NodeType::Statement,
                value: "return 0;".to_string(),
                children: vec![Node {
                    node_type: NodeType::Expression,
                    value: "0".to_string(),
                    children: vec![],
                }],
            }],
        }],
    });
    assert_eq!(ast, expected_ast);
}
