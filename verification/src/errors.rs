use vstd::prelude::*;

use crate::chars::pop_char;
use crate::tokenizer::{symbol_name, tag_name, SymbolType, TokenTag};

verus! {

/// A value that can describe itself in a message.
pub trait Printable {
    /// The message that `message` returns.
    spec fn spec_message(&self) -> Seq<char>;

    fn message(&self) -> (r: String)
        ensures
            r@ == self.spec_message(),
    ;
}

/// A syntax error as plain values.
pub enum ErrorModel {
    InvalidValue(Seq<Seq<char>>, Seq<char>),
    InvalidToken(TokenTag, TokenTag),
    MissingToken(Option<TokenTag>),
    UnexpectedSymbol(SymbolType),
    GenericSyntaxError(Seq<char>),
}

impl View for SyntaxError {
    type V = ErrorModel;

    open spec fn view(&self) -> ErrorModel {
        match self {
            SyntaxError::InvalidValue(e) => ErrorModel::InvalidValue(e.expected(), e.encountered()),
            SyntaxError::InvalidToken(e) => ErrorModel::InvalidToken(e.expected(), e.encountered()),
            SyntaxError::MissingToken(e) => ErrorModel::MissingToken(e.expected()),
            SyntaxError::UnexpectedSymbol(e) => ErrorModel::UnexpectedSymbol(e.encountered()),
            SyntaxError::GenericSyntaxError(e) => ErrorModel::GenericSyntaxError(e.msg()),
        }
    }
}

/// Why a statement could not be parsed.
pub enum SyntaxError {
    InvalidValue(InvalidValue),
    InvalidToken(InvalidToken),
    MissingToken(MissingToken),
    UnexpectedSymbol(UnexpectedSymbol),
    GenericSyntaxError(GenericSyntaxError),
}

/// The items of `items` joined by `/`.
pub open spec fn join_slash(items: Seq<Seq<char>>) -> Seq<char>
    decreases items.len(),
{
    if items.len() == 0 {
        Seq::empty()
    } else if items.len() == 1 {
        items[0]
    } else {
        join_slash(items.drop_last()) + seq!['/'] + items.last()
    }
}

/// Each item of `items` followed by `/`, all in a row.
spec fn join_slash_trailing(items: Seq<Seq<char>>) -> Seq<char>
    decreases items.len(),
{
    if items.len() == 0 {
        Seq::empty()
    } else {
        join_slash_trailing(items.drop_last()) + items.last() + seq!['/']
    }
}

proof fn lemma_join_slash_trailing(items: Seq<Seq<char>>)
    requires
        items.len() > 0,
    ensures
        join_slash_trailing(items) == join_slash(items) + seq!['/'],
    decreases items.len(),
{
    if items.len() > 1 {
        lemma_join_slash_trailing(items.drop_last());
        assert(join_slash_trailing(items) =~= join_slash(items) + seq!['/']);
    } else {
        assert(items.drop_last() == Seq::<Seq<char>>::empty());
        assert(join_slash_trailing(items.drop_last()) == Seq::<char>::empty());
        assert(items.last() == items[0]);
        assert(join_slash_trailing(items) =~= join_slash(items) + seq!['/']);
    }
}

/// A token whose text is none of the expected values.
pub struct InvalidValue {
    expected: Vec<String>,
    encountered: String,
}

impl InvalidValue {
    /// The values that were expected.
    pub closed spec fn expected(&self) -> Seq<Seq<char>> {
        self.expected@.map_values(|s: String| s@)
    }

    /// The value that was found.
    pub closed spec fn encountered(&self) -> Seq<char> {
        self.encountered@
    }

    /// An error for `encountered`, where one of `expected` was wanted.
    pub fn new(expected: Vec<&str>, encountered: String) -> (r: InvalidValue)
        ensures
            r.expected() == expected@.map_values(|s: &str| s@),
            r.encountered() == encountered@,
    {
        let mut items: Vec<String> = Vec::new();
        for i in 0..expected.len()
            invariant
                items@.map_values(|s: String| s@) == expected@.take(i as int).map_values(
                    |s: &str| s@,
                ),
        {
            let ghost before = items@;
            items.push(String::from_str(expected[i]));
            proof {
                assert(expected@.take(i + 1) == expected@.take(i as int).push(expected@[i as int]));
                assert(items@.map_values(|s: String| s@) == before.map_values(|s: String| s@).push(
                    expected@[i as int]@,
                ));
            }
        }
        assert(expected@.take(expected@.len() as int) == expected@);
        InvalidValue { expected: items, encountered }
    }
}

impl Printable for InvalidValue {
    open spec fn spec_message(&self) -> Seq<char> {
        "Invalid token. Expected: "@ + join_slash(self.expected()) + ", Found: "@
            + self.encountered()
    }

    fn message(&self) -> (r: String) {
        let mut expected: String = String::new();
        let ghost items = self.expected();
        for i in 0..self.expected.len()
            invariant
                items == self.expected@.map_values(|s: String| s@),
                expected@ == join_slash_trailing(items.take(i as int)),
        {
            expected.append(self.expected[i].as_str());
            expected.append("/");
            proof {
                reveal_strlit("/");
                assert(items.take(i + 1).drop_last() == items.take(i as int));
            }
        }
        assert(items.take(items.len() as int) == items);
        // Remove the last trailing /
        let _ = pop_char(&mut expected);
        proof {
            if items.len() > 0 {
                lemma_join_slash_trailing(items);
                assert((join_slash(items) + seq!['/']).drop_last() == join_slash(items));
            }
        }
        let mut m = String::from_str("Invalid token. Expected: ");
        m.append(expected.as_str());
        m.append(", Found: ");
        m.append(self.encountered.as_str());
        m
    }
}

impl Printable for SyntaxError {
    open spec fn spec_message(&self) -> Seq<char> {
        match self {
            SyntaxError::InvalidValue(t) => t.spec_message(),
            SyntaxError::InvalidToken(t) => t.spec_message(),
            SyntaxError::UnexpectedSymbol(t) => t.spec_message(),
            SyntaxError::MissingToken(t) => t.spec_message(),
            SyntaxError::GenericSyntaxError(t) => t.spec_message(),
        }
    }

    fn message(&self) -> (r: String) {
        match self {
            SyntaxError::InvalidValue(t) => t.message(),
            SyntaxError::InvalidToken(t) => t.message(),
            SyntaxError::UnexpectedSymbol(t) => t.message(),
            SyntaxError::MissingToken(t) => t.message(),
            SyntaxError::GenericSyntaxError(t) => t.message(),
        }
    }
}

/// A token of another kind than the expected one.
pub struct InvalidToken {
    expected: TokenTag,
    encountered: TokenTag,
}

impl InvalidToken {
    /// The tag that was expected.
    pub closed spec fn expected(&self) -> TokenTag {
        self.expected
    }

    /// The tag that was found.
    pub closed spec fn encountered(&self) -> TokenTag {
        self.encountered
    }

    /// An error for a token tagged `encountered`, where `expected` was wanted.
    pub fn new(expected: TokenTag, encountered: TokenTag) -> (r: InvalidToken)
        ensures
            r.expected() == expected,
            r.encountered() == encountered,
    {
        InvalidToken { expected, encountered }
    }
}

impl Printable for InvalidToken {
    open spec fn spec_message(&self) -> Seq<char> {
        "Invalid token. Expected: "@ + tag_name(self.expected()) + ", Found: "@ + tag_name(
            self.encountered(),
        )
    }

    fn message(&self) -> (r: String) {
        let mut m = String::from_str("Invalid token. Expected: ");
        m.append(self.expected.to_string().as_str());
        m.append(", Found: ");
        m.append(self.encountered.to_string().as_str());
        m
    }
}

/// A token that should have come but did not.
pub struct MissingToken {
    expected: Option<TokenTag>,
}

impl MissingToken {
    /// The tag that was expected, where one was.
    pub closed spec fn expected(&self) -> Option<TokenTag> {
        self.expected
    }

    /// An error for a missing token, of the tag `expected` where one is given.
    pub fn new(expected: Option<TokenTag>) -> (r: MissingToken)
        ensures
            r.expected() == expected,
    {
        MissingToken { expected }
    }
}

impl Printable for MissingToken {
    open spec fn spec_message(&self) -> Seq<char> {
        match self.expected() {
            Some(t) => "Missing token. Expected: "@ + tag_name(t),
            None => "Missing token"@,
        }
    }

    fn message(&self) -> (r: String) {
        match self.expected {
            Some(t) => {
                let mut m = String::from_str("Missing token. Expected: ");
                m.append(t.to_string().as_str());
                m
            },
            None => String::from_str("Missing token"),
        }
    }
}

/// A symbol where another one was expected.
pub struct UnexpectedSymbol {
    encountered: SymbolType,
}

impl UnexpectedSymbol {
    /// The symbol that was found.
    pub closed spec fn encountered(&self) -> SymbolType {
        self.encountered
    }

    /// An error for the symbol `encountered`.
    pub fn new(encountered: &SymbolType) -> (r: UnexpectedSymbol)
        ensures
            r.encountered() == *encountered,
    {
        UnexpectedSymbol { encountered: encountered.clone() }
    }
}

impl Printable for UnexpectedSymbol {
    open spec fn spec_message(&self) -> Seq<char> {
        "Unexpected symbol: "@ + symbol_name(self.encountered())
    }

    fn message(&self) -> (r: String) {
        let mut m = String::from_str("Unexpected symbol: ");
        m.append(self.encountered.print_type());
        m
    }
}

/// Any other syntax error, with its message.
pub struct GenericSyntaxError {
    msg: String,
}

impl GenericSyntaxError {
    /// The message the error carries.
    pub closed spec fn msg(&self) -> Seq<char> {
        self.msg@
    }

    /// An error with the message `msg`.
    pub fn new(msg: &str) -> (r: GenericSyntaxError)
        ensures
            r.msg() == msg@,
    {
        GenericSyntaxError { msg: String::from_str(msg) }
    }
}

impl Printable for GenericSyntaxError {
    open spec fn spec_message(&self) -> Seq<char> {
        self.msg()
    }

    fn message(&self) -> (r: String) {
        String::from_str(self.msg.as_str())
    }
}

} // verus!
