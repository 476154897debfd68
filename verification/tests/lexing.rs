use std::collections::VecDeque;

use dbms::parser::LiteralType;
use dbms::tokenizer::{
    can_tokenize, tokenize, Identifier, Keyword, Literal, SymbolType, Token, TokenQueue,
};
use dbms::{run_query, CommandStatus};

fn keyword(v: &str) -> Token {
    Token::Keyword(Keyword { value: v.to_string() })
}

fn identifier(v: &str) -> Token {
    Token::Identifier(Identifier { value: v.to_string() })
}

fn literal(v: &str, literal_type: LiteralType) -> Token {
    Token::Literal(Literal { value: v.to_string(), literal_type })
}

fn queue(tokens: Vec<Token>) -> TokenQueue {
    TokenQueue::new(VecDeque::from(tokens))
}

#[test]
fn empty_text_has_no_tokens() {
    assert!(can_tokenize(""));
    assert_eq!(tokenize("").unwrap(), queue(vec![]));
    assert!(can_tokenize("   \t\n "));
    assert_eq!(tokenize("  \t ").unwrap(), queue(vec![]));
}

#[test]
fn surrounding_whitespace_is_ignored() {
    assert_eq!(tokenize("  SELECT x \n").unwrap(), tokenize("SELECT x").unwrap());
    assert_eq!(
        tokenize("\t SELECT x  ").unwrap(),
        queue(vec![keyword("SELECT"), identifier("x")])
    );
}

#[test]
fn whitespace_separated_statements_tokenize_in_turn() {
    let first = "SELECT * FROM 'a b'";
    let second = "users WHERE id = 7;";
    let whole = format!("{} \n {}", first, second);
    let mut expected: Vec<Token> = Vec::new();
    expected.extend(vec![
        keyword("SELECT"),
        Token::Symbol(SymbolType::Star),
        keyword("FROM"),
        literal("a b", LiteralType::String),
    ]);
    expected.extend(vec![
        identifier("users"),
        keyword("WHERE"),
        identifier("id"),
        Token::Symbol(SymbolType::Equals),
        literal("7", LiteralType::Integer),
        Token::Symbol(SymbolType::Semicolon),
    ]);
    assert_eq!(tokenize(&whole).unwrap(), queue(expected));
}

#[test]
fn runs_stop_at_a_change_of_class() {
    assert_eq!(
        tokenize("users_1").unwrap(),
        queue(vec![
            identifier("users"),
            Token::Symbol(SymbolType::Unknown),
            literal("1", LiteralType::Integer),
        ])
    );
    assert_eq!(
        tokenize("SELECTname").unwrap(),
        queue(vec![keyword("SELECT"), identifier("name")])
    );
    assert_eq!(
        tokenize("123abc").unwrap(),
        queue(vec![literal("123abc", LiteralType::Integer)])
    );
}

#[test]
fn literal_type_follows_first_character() {
    assert_eq!(
        tokenize("' x'").unwrap(),
        queue(vec![literal(" x", LiteralType::Integer)])
    );
    assert_eq!(
        tokenize("'x1'").unwrap(),
        queue(vec![literal("x1", LiteralType::String)])
    );
}

#[test]
fn quotes_take_the_next_character_whatever_it_is() {
    // The first character after the opening quote is taken even when it is a quote.
    assert_eq!(tokenize("\"\"").unwrap(), queue(vec![identifier("\"")]));
    assert_eq!(
        tokenize("'abc").unwrap(),
        queue(vec![literal("abc", LiteralType::String)])
    );
    assert_eq!(
        tokenize("'ab\"c").unwrap(),
        queue(vec![literal("ab", LiteralType::String), identifier("c")])
    );
}

#[test]
fn unknown_punctuation_becomes_unknown_symbol() {
    assert_eq!(
        tokenize("! ?").unwrap(),
        queue(vec![
            Token::Symbol(SymbolType::Unknown),
            Token::Symbol(SymbolType::Unknown)
        ])
    );
}

#[test]
fn texts_the_tokenizer_cannot_take() {
    // A character that starts no piece.
    assert!(!can_tokenize("abc é"));
    assert!(!can_tokenize("\u{0}"));
    // A lone single quote at the end makes an empty literal.
    assert!(!can_tokenize("abc '"));
    assert!(can_tokenize("abc \""));
    // Such characters are fine inside quotes.
    assert!(can_tokenize("'é'"));
}

#[test]
fn run_query_reports_status() {
    assert!(matches!(
        run_query("SELECT * FROM users;"),
        CommandStatus::Success
    ));
    assert!(matches!(run_query("abc 'x' '"), CommandStatus::Failure));
    assert!(matches!(run_query("é"), CommandStatus::Failure));
}

#[test]
fn token_accessors() {
    let k = Keyword { value: "SELECT".to_string() };
    assert_eq!(k.value(), "SELECT");
    let i = Identifier { value: "users".to_string() };
    assert_eq!(i.value(), &"users".to_string());
    assert_eq!(keyword("FROM").value(), "FROM");
    assert_eq!(literal("12", LiteralType::Integer).value(), "12");
    assert_eq!(Token::Symbol(SymbolType::LParen).value(), "LParen");
}

#[test]
fn symbol_names() {
    let all = [
        (SymbolType::Star, "Star"),
        (SymbolType::Plus, "Plus"),
        (SymbolType::Minus, "Minus"),
        (SymbolType::Comma, "Comma"),
        (SymbolType::Equals, "Equals"),
        (SymbolType::LParen, "LParen"),
        (SymbolType::RParen, "RParen"),
        (SymbolType::Semicolon, "Semicolon"),
        (SymbolType::LessThan, "LessThan"),
        (SymbolType::GreaterThan, "GreaterThan"),
        (SymbolType::Unknown, "Unknown"),
    ];
    for (s, name) in all {
        assert_eq!(s.print_type(), name);
    }
}

#[test]
fn keywords_are_uppercase_runs_and_literals_are_nonempty() {
    let mut q = tokenize("ABCdef GH'i' 9x 'j' K;L").unwrap();
    let mut seen = 0;
    while q.has_tokens() {
        match q.next().ok().unwrap() {
            Token::Keyword(k) => {
                assert!(!k.value.is_empty());
                assert!(k.value.chars().all(|c| c.is_ascii_uppercase()));
            }
            Token::Literal(l) => assert!(!l.value.is_empty()),
            _ => {}
        }
        seen += 1;
    }
    assert_eq!(seen, 9);
}

fn token_lines(text: &str) -> Vec<String> {
    tokenize(text).unwrap().queue_lines()
}

#[test]
fn plain_statements_split_at_any_whitespace() {
    let pairs = [
        ("SELECT * FROM", "users;"),
        ("  x<=y ", "\t(1,2)"),
        ("abcDEF12", "3g"),
        ("", "SELECT a"),
        ("a;", "   "),
    ];
    for (first, second) in pairs {
        assert!(can_tokenize(first) && can_tokenize(second));
        let whole = format!("{} {}", first, second);
        assert!(can_tokenize(&whole));
        let mut expected = token_lines(first);
        expected.extend(token_lines(second));
        assert_eq!(token_lines(&whole), expected);
    }
    // Without whitespace between them, two runs of one class merge.
    assert_eq!(token_lines("ab cd").len(), 2);
    assert_eq!(token_lines("abcd").len(), 1);
}

#[test]
fn leading_whitespace_never_reaches_a_token() {
    assert_eq!(tokenize(" \u{2003}\u{3000}users").unwrap(), queue(vec![identifier("users")]));
    assert_eq!(tokenize("\u{85}'a'").unwrap(), queue(vec![literal("a", LiteralType::String)]));
}

#[test]
fn whitespace_class_matches_char_is_whitespace() {
    for code in 0u32..=0x10FFFF {
        if let Some(c) = char::from_u32(code) {
            assert_eq!(dbms::chars::is_whitespace(c), c.is_whitespace(), "{:?}", c);
        }
    }
}

#[test]
fn quoted_statements_split_at_whitespace_when_their_quotes_close() {
    let first = " 'x y' \"Name\" ";
    let second = "\t'z'";
    let whole = format!("{}\n{}", first, second);
    let mut expected = token_lines(first);
    expected.extend(token_lines(second));
    assert_eq!(token_lines(&whole), expected);
    // A quote left open in the first statement takes in the second.
    assert_eq!(
        tokenize("'ab c'").unwrap(),
        queue(vec![literal("ab c", LiteralType::String)])
    );
    assert_eq!(token_lines("'ab"), vec!["Literal: ab".to_string()]);
}
