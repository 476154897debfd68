use std::collections::VecDeque;

use dbms::parser::LiteralType;
use dbms::tokenizer::{tokenize, Identifier, Keyword, Literal, SymbolType, Token, TokenQueue};

#[test]
fn test_keyword() {
    assert_eq!(
        tokenize("INSERT").unwrap(),
        TokenQueue::new(VecDeque::from([Token::Keyword(Keyword {
            value: "INSERT".to_string()
        })]),)
    )
}

#[test]
fn test_no_quote_identifier() {
    assert_eq!(
        tokenize("abc").unwrap(),
        TokenQueue::new(VecDeque::from([Token::Identifier(Identifier {
            value: "abc".to_string()
        })]))
    )
}

#[test]
fn test_quoted_identifier() {
    assert_eq!(
        tokenize("\"two words\"").unwrap(),
        TokenQueue::new(VecDeque::from([Token::Identifier(Identifier {
            value: "two words".to_string()
        })]))
    )
}

#[test]
fn test_string_literal() {
    assert_eq!(
        tokenize("\'abc\'").unwrap(),
        TokenQueue::new(VecDeque::from([Token::Literal(Literal {
            value: "abc".to_string(),
            literal_type: LiteralType::String,
        })]))
    )
}

#[test]
fn test_int_literal() {
    assert_eq!(
        tokenize("123").unwrap(),
        TokenQueue::new(VecDeque::from([Token::Literal(Literal {
            value: "123".to_string(),
            literal_type: LiteralType::Integer
        })]))
    )
}

#[test]
fn test_symbols() {
    assert_eq!(
        tokenize("< > ( ) * , = + - ;").unwrap(),
        TokenQueue::new(VecDeque::from([
            Token::Symbol(SymbolType::LessThan),
            Token::Symbol(SymbolType::GreaterThan),
            Token::Symbol(SymbolType::LParen),
            Token::Symbol(SymbolType::RParen),
            Token::Symbol(SymbolType::Star),
            Token::Symbol(SymbolType::Comma),
            Token::Symbol(SymbolType::Equals),
            Token::Symbol(SymbolType::Plus),
            Token::Symbol(SymbolType::Minus),
            Token::Symbol(SymbolType::Semicolon),
        ]))
    )
}

#[test]
fn test_compound_symbols() {
    assert_eq!(
        tokenize("<= >= += -=").unwrap(),
        TokenQueue::new(VecDeque::from([
            Token::Symbol(SymbolType::LessThan),
            Token::Symbol(SymbolType::Equals),
            Token::Symbol(SymbolType::GreaterThan),
            Token::Symbol(SymbolType::Equals),
            Token::Symbol(SymbolType::Plus),
            Token::Symbol(SymbolType::Equals),
            Token::Symbol(SymbolType::Minus),
            Token::Symbol(SymbolType::Equals),
        ]))
    )
}

#[test]
fn test_mixed_literals() {
    assert_eq!(
        tokenize("123 'abc' 456 'def'").unwrap(),
        TokenQueue::new(VecDeque::from([
            Token::Literal(Literal {
                value: "123".to_string(),
                literal_type: LiteralType::Integer
            }),
            Token::Literal(Literal {
                value: "abc".to_string(),
                literal_type: LiteralType::String,
            }),
            Token::Literal(Literal {
                value: "456".to_string(),
                literal_type: LiteralType::Integer
            }),
            Token::Literal(Literal {
                value: "def".to_string(),
                literal_type: LiteralType::String,
            })
        ]))
    )
}

#[test]
fn test_mixed_quotes() {
    assert_eq!(
        tokenize("\"abc\" 'def' \"ghi\" 'jkl'").unwrap(),
        TokenQueue::new(VecDeque::from([
            Token::Identifier(Identifier {
                value: "abc".to_string()
            }),
            Token::Literal(Literal {
                value: "def".to_string(),
                literal_type: LiteralType::String,
            }),
            Token::Identifier(Identifier {
                value: "ghi".to_string()
            }),
            Token::Literal(Literal {
                value: "jkl".to_string(),
                literal_type: LiteralType::String,
            }),
        ]))
    )
}

#[test]
fn test_create_command() {
    assert_eq!(
        tokenize("CREATE TABLE users (id INTEGER PRIMARY KEY, name TEXT, age INTEGER);")
            .unwrap(),
        TokenQueue::new(VecDeque::from([
            Token::Keyword(Keyword {
                value: "CREATE".to_string()
            }),
            Token::Keyword(Keyword {
                value: "TABLE".to_string()
            }),
            Token::Identifier(Identifier {
                value: "users".to_string()
            }),
            Token::Symbol(SymbolType::LParen),
            Token::Identifier(Identifier {
                value: "id".to_string()
            }),
            Token::Keyword(Keyword {
                value: "INTEGER".to_string()
            }),
            Token::Keyword(Keyword {
                value: "PRIMARY".to_string()
            }),
            Token::Keyword(Keyword {
                value: "KEY".to_string()
            }),
            Token::Symbol(SymbolType::Comma),
            Token::Identifier(Identifier {
                value: "name".to_string()
            }),
            Token::Keyword(Keyword {
                value: "TEXT".to_string()
            }),
            Token::Symbol(SymbolType::Comma),
            Token::Identifier(Identifier {
                value: "age".to_string()
            }),
            Token::Keyword(Keyword {
                value: "INTEGER".to_string()
            }),
            Token::Symbol(SymbolType::RParen),
            Token::Symbol(SymbolType::Semicolon),
        ]))
    )
}

#[test]
fn test_insert_command() {
    assert_eq!(
        tokenize("INSERT INTO users VALUES (1, 'daniel', 24);").unwrap(),
        TokenQueue::new(VecDeque::from([
            Token::Keyword(Keyword {
                value: "INSERT".to_string()
            }),
            Token::Keyword(Keyword {
                value: "INTO".to_string()
            }),
            Token::Identifier(Identifier {
                value: "users".to_string()
            }),
            Token::Keyword(Keyword {
                value: "VALUES".to_string()
            }),
            Token::Symbol(SymbolType::LParen),
            Token::Literal(Literal {
                value: "1".to_string(),
                literal_type: LiteralType::Integer
            }),
            Token::Symbol(SymbolType::Comma),
            Token::Literal(Literal {
                value: "daniel".to_string(),
                literal_type: LiteralType::String
            }),
            Token::Symbol(SymbolType::Comma),
            Token::Literal(Literal {
                value: "24".to_string(),
                literal_type: LiteralType::Integer
            }),
            Token::Symbol(SymbolType::RParen),
            Token::Symbol(SymbolType::Semicolon),
        ]))
    )
}

#[test]
fn test_select_command_with_wildcard() {
    assert_eq!(
        tokenize("SELECT * FROM users;").unwrap(),
        TokenQueue::new(VecDeque::from([
            Token::Keyword(Keyword {
                value: "SELECT".to_string()
            }),
            Token::Symbol(SymbolType::Star),
            Token::Keyword(Keyword {
                value: "FROM".to_string()
            }),
            Token::Identifier(Identifier {
                value: "users".to_string()
            }),
            Token::Symbol(SymbolType::Semicolon),
        ]))
    )
}

#[test]
fn test_select_command_with_conditions() {
    assert_eq!(
        tokenize("SELECT name, age FROM users WHERE id = 1;").unwrap(),
        TokenQueue::new(VecDeque::from([
            Token::Keyword(Keyword {
                value: "SELECT".to_string()
            }),
            Token::Identifier(Identifier {
                value: "name".to_string()
            }),
            Token::Symbol(SymbolType::Comma),
            Token::Identifier(Identifier {
                value: "age".to_string()
            }),
            Token::Keyword(Keyword {
                value: "FROM".to_string()
            }),
            Token::Identifier(Identifier {
                value: "users".to_string()
            }),
            Token::Keyword(Keyword {
                value: "WHERE".to_string()
            }),
            Token::Identifier(Identifier {
                value: "id".to_string()
            }),
            Token::Symbol(SymbolType::Equals),
            Token::Literal(Literal {
                value: "1".to_string(),
                literal_type: LiteralType::Integer,
            }),
            Token::Symbol(SymbolType::Semicolon),
        ]))
    )
}

#[test]
fn test_select_command_with_conditions_and_wildcard() {
    assert_eq!(
        tokenize("SELECT * FROM users WHERE age > 20;").unwrap(),
        TokenQueue::new(VecDeque::from([
            Token::Keyword(Keyword {
                value: "SELECT".to_string()
            }),
            Token::Symbol(SymbolType::Star),
            Token::Keyword(Keyword {
                value: "FROM".to_string()
            }),
            Token::Identifier(Identifier {
                value: "users".to_string()
            }),
            Token::Keyword(Keyword {
                value: "WHERE".to_string()
            }),
            Token::Identifier(Identifier {
                value: "age".to_string()
            }),
            Token::Symbol(SymbolType::GreaterThan),
            Token::Literal(Literal {
                value: "20".to_string(),
                literal_type: LiteralType::Integer,
            }),
            Token::Symbol(SymbolType::Semicolon),
        ]))
    )
}
