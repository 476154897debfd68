use std::collections::VecDeque;

use dbms::errors::Printable;
use dbms::parser::{create_ast, LiteralType, RootNode};
use dbms::tokenizer::{Identifier, Keyword, Literal, SymbolType, Token, TokenQueue};

#[test]
fn test_simple_create() {
    let command: TokenQueue = TokenQueue::new(VecDeque::from([
        Token::Keyword(Keyword {
            value: "CREATE".to_string(),
        }),
        Token::Keyword(Keyword {
            value: "TABLE".to_string(),
        }),
        Token::Identifier(Identifier {
            value: "users".to_string(),
        }),
        Token::Keyword(Keyword {
            value: "VALUES".to_string(),
        }),
        Token::Symbol(SymbolType::LParen),
        Token::Identifier(Identifier {
            value: "id".to_string(),
        }),
        Token::Symbol(SymbolType::RParen),
        Token::Symbol(SymbolType::Semicolon),
    ]));

    let node = match create_ast(command) {
        Ok(RootNode::Create(val)) => val,
        Ok(_) => panic!("Unexpected node type created"),
        Err(e) => panic!("{}", e.message()),
    };

    assert_eq!(node.table.identifier, "users");
    assert_eq!(node.children[0].column_identifier.identifier, "id");
}

#[test]
fn test_missing_create_keyword() {
    let command: TokenQueue = TokenQueue::new(VecDeque::from([Token::Keyword(Keyword {
        value: "NOT_CREATE".to_string(),
    })]));

    let result = create_ast(command);

    assert!(result.is_err());
}

#[test]
fn test_missing_table_keyword() {
    let command: TokenQueue = TokenQueue::new(VecDeque::from([
        Token::Keyword(Keyword {
            value: "CREATE".to_string(),
        }),
        Token::Keyword(Keyword {
            value: "NOT_TABLE".to_string(),
        }),
    ]));

    assert!(create_ast(command).is_err());
}

#[test]
fn test_wrong_token_type() {
    let command: TokenQueue = TokenQueue::new(VecDeque::from([
        Token::Keyword(Keyword {
            value: "CREATE".to_string(),
        }),
        Token::Keyword(Keyword {
            value: "TABLE".to_string(),
        }),
        Token::Symbol(SymbolType::LParen),
    ]));

    assert!(create_ast(command).is_err());
}

#[test]
fn test_simple_select() {
    let command: TokenQueue = TokenQueue::new(VecDeque::from([
        Token::Keyword(Keyword {
            value: "SELECT".to_string(),
        }),
        Token::Symbol(SymbolType::Star),
        Token::Keyword(Keyword {
            value: "FROM".to_string(),
        }),
        Token::Identifier(Identifier {
            value: "users".to_string(),
        }),
        Token::Symbol(SymbolType::Semicolon),
    ]));

    let node = match create_ast(command) {
        Ok(RootNode::Select(val)) => val,
        Ok(_) => panic!("Expected a SELECT node, got something else"),
        Err(e) => panic!("{}", e.message()),
    };

    assert_eq!(node.columns[0].identifier, "STAR");
    assert_eq!(node.child.table.identifier, "users");
}

#[test]
fn test_simple_insert() {
    let command: TokenQueue = TokenQueue::new(VecDeque::from([
        Token::Keyword(Keyword {
            value: "INSERT".to_string(),
        }),
        Token::Keyword(Keyword {
            value: "INTO".to_string(),
        }),
        Token::Identifier(Identifier {
            value: "users".to_string(),
        }),
        Token::Keyword(Keyword {
            value: "VALUES".to_string(),
        }),
        Token::Symbol(SymbolType::LParen),
        Token::Literal(Literal {
            value: "1".to_string(),
            literal_type: LiteralType::Integer,
        }),
        Token::Symbol(SymbolType::Comma),
        Token::Literal(Literal {
            value: "daniel".to_string(),
            literal_type: LiteralType::String,
        }),
        Token::Symbol(SymbolType::Comma),
        Token::Literal(Literal {
            value: "24".to_string(),
            literal_type: LiteralType::Integer,
        }),
        Token::Symbol(SymbolType::RParen),
        Token::Symbol(SymbolType::Semicolon),
    ]));

    let completed_tree = create_ast(command);

    let node = match completed_tree {
        Ok(RootNode::Insert(val)) => val,
        Ok(_) => panic!("Expected a INSERT node, got something else"),
        Err(e) => panic!("{}", e.message()),
    };

    assert_eq!(node.children[0].literals[0].value, "1");
    assert!(matches!(
        node.children[0].literals[0].literal_type,
        LiteralType::Integer
    ));
    assert_eq!(node.children[0].literals[1].value, "daniel");
    assert!(matches!(
        node.children[0].literals[1].literal_type,
        LiteralType::String
    ));
}

#[test]
fn test_multi_row_insert() {
    let command: TokenQueue = TokenQueue::new(VecDeque::from([
        Token::Keyword(Keyword {
            value: "INSERT".to_string(),
        }),
        Token::Keyword(Keyword {
            value: "INTO".to_string(),
        }),
        Token::Identifier(Identifier {
            value: "users".to_string(),
        }),
        Token::Keyword(Keyword {
            value: "VALUES".to_string(),
        }),
        Token::Symbol(SymbolType::LParen),
        Token::Literal(Literal {
            value: "1".to_string(),
            literal_type: LiteralType::Integer,
        }),
        Token::Symbol(SymbolType::Comma),
        Token::Literal(Literal {
            value: "daniel".to_string(),
            literal_type: LiteralType::String,
        }),
        Token::Symbol(SymbolType::Comma),
        Token::Literal(Literal {
            value: "24".to_string(),
            literal_type: LiteralType::Integer,
        }),
        Token::Symbol(SymbolType::RParen),
        Token::Symbol(SymbolType::Comma),
        Token::Symbol(SymbolType::LParen),
        Token::Literal(Literal {
            value: "2".to_string(),
            literal_type: LiteralType::Integer,
        }),
        Token::Symbol(SymbolType::Comma),
        Token::Literal(Literal {
            value: "minter".to_string(),
            literal_type: LiteralType::String,
        }),
        Token::Symbol(SymbolType::Comma),
        Token::Literal(Literal {
            value: "42".to_string(),
            literal_type: LiteralType::Integer,
        }),
        Token::Symbol(SymbolType::RParen),
        Token::Symbol(SymbolType::Semicolon),
    ]));

    let node = match create_ast(command) {
        Ok(RootNode::Insert(val)) => val,
        Ok(_) => panic!("Expected a INSERT node, got something else"),
        Err(e) => panic!("{}", e.message()),
    };

    assert_eq!(node.children[0].literals[0].value, "1");
    assert!(matches!(
        node.children[0].literals[0].literal_type,
        LiteralType::Integer
    ));
    assert_eq!(node.children[1].literals[1].value, "minter");
    assert!(matches!(
        node.children[1].literals[1].literal_type,
        LiteralType::String
    ));
}
