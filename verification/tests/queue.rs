use std::collections::VecDeque;

use dbms::errors::{Printable, SyntaxError};
use dbms::parser::LiteralType;
use dbms::tokenizer::{Identifier, Keyword, Literal, SymbolType, Token, TokenQueue, TokenTag};

fn keyword(v: &str) -> Token {
    Token::Keyword(Keyword { value: v.to_string() })
}

fn identifier(v: &str) -> Token {
    Token::Identifier(Identifier { value: v.to_string() })
}

fn queue(tokens: Vec<Token>) -> TokenQueue {
    TokenQueue::new(VecDeque::from(tokens))
}

#[test]
fn next_takes_tokens_in_order() {
    let mut q = queue(vec![keyword("A"), identifier("b")]);
    assert!(q.has_tokens());
    assert_eq!(q.next_token_type(), TokenTag::Keyword);
    assert_eq!(q.next().ok().unwrap(), keyword("A"));
    assert_eq!(q.next_token_type(), TokenTag::Identifier);
    assert_eq!(q.next().ok().unwrap(), identifier("b"));
    assert!(!q.has_tokens());
    assert_eq!(q.next_token_type(), TokenTag::Empty);
    match q.next() {
        Err(e) => assert_eq!(e.message(), "Missing token"),
        Ok(_) => panic!("expected an error"),
    }
}

#[test]
fn validate_token_type_takes_only_a_matching_tag() {
    let mut q = queue(vec![keyword("A"), identifier("b")]);
    match q.validate_token_type(TokenTag::Identifier) {
        Err(e) => assert_eq!(e.message(), "Invalid token. Expected: Identifier, Found: Keyword"),
        Ok(_) => panic!("expected an error"),
    }
    // The queue is left as it was.
    assert_eq!(q, queue(vec![keyword("A"), identifier("b")]));
    assert_eq!(q.validate_token_type(TokenTag::Keyword).ok().unwrap(), keyword("A"));
    assert_eq!(q, queue(vec![identifier("b")]));
    // `Empty` matches no token.
    assert!(q.validate_token_type(TokenTag::Empty).is_err());
    let mut empty = queue(vec![]);
    match empty.validate_token_type(TokenTag::Literal) {
        Err(e) => assert_eq!(e.message(), "Missing token. Expected: Literal"),
        Ok(_) => panic!("expected an error"),
    }
}

#[test]
fn verify_symbol_type_errors() {
    let mut q = queue(vec![Token::Symbol(SymbolType::Comma), keyword("A")]);
    assert!(!q.check_next_symbol(vec![SymbolType::LParen]));
    match q.verify_symbol_type(vec![SymbolType::LParen]) {
        Err(e) => assert_eq!(e.message(), "Unexpected symbol: Comma"),
        Ok(_) => panic!("expected an error"),
    }
    assert!(q.check_next_symbol(vec![SymbolType::LParen, SymbolType::Comma]));
    assert_eq!(
        q.verify_symbol_type(vec![SymbolType::LParen, SymbolType::Comma]).ok().unwrap(),
        Token::Symbol(SymbolType::Comma)
    );
    assert!(!q.check_next_symbol(vec![SymbolType::Comma]));
    match q.verify_symbol_type(vec![SymbolType::Comma]) {
        Err(e) => assert_eq!(e.message(), "Invalid token. Expected: Symbol, Found: Keyword"),
        Ok(_) => panic!("expected an error"),
    }
    let mut empty = queue(vec![]);
    assert!(!empty.check_next_symbol(vec![SymbolType::Comma]));
    match empty.verify_symbol_type(vec![SymbolType::Comma]) {
        Err(e) => assert_eq!(e.message(), "Missing token. Expected: Symbol"),
        Ok(_) => panic!("expected an error"),
    }
}

#[test]
fn validate_token_value_matches_text() {
    let mut q = queue(vec![keyword("FROM"), Token::Symbol(SymbolType::Star)]);
    assert!(!q.next_token_contains(vec!["INTO", "TO"]));
    match q.validate_token_value(vec!["INTO", "TO"]) {
        Err(SyntaxError::InvalidValue(e)) => {
            assert_eq!(e.message(), "Invalid token. Expected: INTO/TO, Found: FROM")
        }
        _ => panic!("expected an invalid value"),
    }
    assert!(q.next_token_contains(vec!["FROM"]));
    assert_eq!(q.validate_token_value(vec!["FROM"]).ok().unwrap(), keyword("FROM"));
    // A symbol's text is its name.
    assert!(q.next_token_contains(vec!["Star"]));
    assert_eq!(
        q.validate_token_value(vec!["Star"]).ok().unwrap(),
        Token::Symbol(SymbolType::Star)
    );
    assert!(!q.next_token_contains(vec!["Star"]));
    match q.validate_token_value(vec!["Star"]) {
        Err(e) => assert_eq!(e.message(), "Missing token"),
        Ok(_) => panic!("expected an error"),
    }
}

#[test]
fn queries_agree_with_taking() {
    let tokens = vec![
        keyword("A"),
        Token::Symbol(SymbolType::Semicolon),
        Token::Literal(Literal { value: "3".to_string(), literal_type: LiteralType::Integer }),
    ];
    let mut q = queue(tokens);
    while q.has_tokens() {
        let tag = q.next_token_type();
        let line = q.queue_lines()[0].clone();
        let semicolon_next = q.check_next_symbol(vec![SymbolType::Semicolon]);
        let t = if semicolon_next {
            q.verify_symbol_type(vec![SymbolType::Semicolon]).ok().unwrap()
        } else {
            assert!(q.verify_symbol_type(vec![SymbolType::Semicolon]).is_err());
            q.next().ok().unwrap()
        };
        assert_eq!(t.tag(), tag);
        assert_eq!(line, format!("{}: {}", tag.to_string(), t.value()));
    }
    assert!(q.next().is_err());
}

#[test]
fn queue_lines_describe_each_token() {
    let q = queue(vec![
        keyword("SELECT"),
        Token::Symbol(SymbolType::Star),
        identifier("users"),
        Token::Literal(Literal { value: "7".to_string(), literal_type: LiteralType::Integer }),
    ]);
    assert_eq!(
        q.queue_lines(),
        vec![
            "Keyword: SELECT".to_string(),
            "Symbol: Star".to_string(),
            "Identifier: users".to_string(),
            "Literal: 7".to_string(),
        ]
    );
}

#[test]
fn tag_names() {
    assert_eq!(TokenTag::Keyword.to_string(), "Keyword");
    assert_eq!(TokenTag::Identifier.to_string(), "Identifier");
    assert_eq!(TokenTag::Literal.to_string(), "Literal");
    assert_eq!(TokenTag::Symbol.to_string(), "Symbol");
    assert_eq!(TokenTag::Empty.to_string(), "None");
}
