use dbms::errors::{
    GenericSyntaxError, InvalidToken, InvalidValue, MissingToken, Printable, SyntaxError,
    UnexpectedSymbol,
};
use dbms::tokenizer::{SymbolType, TokenTag};

#[test]
fn invalid_value_joins_expected_values() {
    let e = InvalidValue::new(vec!["CREATE", "SELECT", "INSERT"], "DROP".to_string());
    assert_eq!(e.message(), "Invalid token. Expected: CREATE/SELECT/INSERT, Found: DROP");
    let one = InvalidValue::new(vec!["FROM"], "TO".to_string());
    assert_eq!(one.message(), "Invalid token. Expected: FROM, Found: TO");
    let none = InvalidValue::new(vec![], "x".to_string());
    assert_eq!(none.message(), "Invalid token. Expected: , Found: x");
    // Trailing slashes of the values themselves stay.
    let slashed = InvalidValue::new(vec!["a/", "b"], "c".to_string());
    assert_eq!(slashed.message(), "Invalid token. Expected: a//b, Found: c");
}

#[test]
fn each_error_message() {
    assert_eq!(
        InvalidToken::new(TokenTag::Keyword, TokenTag::Empty).message(),
        "Invalid token. Expected: Keyword, Found: None"
    );
    assert_eq!(
        MissingToken::new(Some(TokenTag::Identifier)).message(),
        "Missing token. Expected: Identifier"
    );
    assert_eq!(MissingToken::new(None).message(), "Missing token");
    assert_eq!(
        UnexpectedSymbol::new(&SymbolType::GreaterThan).message(),
        "Unexpected symbol: GreaterThan"
    );
    assert_eq!(GenericSyntaxError::new("boom").message(), "boom");
    assert_eq!(GenericSyntaxError::new("").message(), "");
}

#[test]
fn syntax_error_message_is_its_variant_message() {
    let errors = vec![
        SyntaxError::InvalidValue(InvalidValue::new(vec!["a"], "b".to_string())),
        SyntaxError::InvalidToken(InvalidToken::new(TokenTag::Literal, TokenTag::Symbol)),
        SyntaxError::MissingToken(MissingToken::new(None)),
        SyntaxError::UnexpectedSymbol(UnexpectedSymbol::new(&SymbolType::Semicolon)),
        SyntaxError::GenericSyntaxError(GenericSyntaxError::new("g")),
    ];
    let expected = vec![
        "Invalid token. Expected: a, Found: b",
        "Invalid token. Expected: Literal, Found: Symbol",
        "Missing token",
        "Unexpected symbol: Semicolon",
        "g",
    ];
    for (e, m) in errors.iter().zip(expected) {
        assert_eq!(e.message(), m);
    }
}
