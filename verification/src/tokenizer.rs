use std::collections::VecDeque;

use vstd::prelude::*;

use crate::chars::{
    char_is_whitespace, is_ascii_alphabetic, is_ascii_alphanumeric, is_ascii_lowercase,
    is_ascii_punctuation, is_ascii_uppercase, is_whitespace, push_char, spec_is_alphanumeric,
    spec_is_lower, spec_is_upper, str_chars, str_eq, trim, trim_start, trim_str,
};
use crate::errors::{
    ErrorModel, InvalidToken, InvalidValue, MissingToken, SyntaxError, UnexpectedSymbol,
};
use crate::lexing::{
    grab_len, lemma_lexable_pieces, lemma_scan_step, lemma_span_len_le, lemma_trim_start_len,
    lexable, piece_kind, piece_len, piece_token, piece_value, scan, span_len, spec_classify,
    spec_symbol, stop_fn, stops, tokenizable, tokens_of, CharKind, StopRule, StringKind,
};
use crate::parser::LiteralType;

verus! {

fn classify_char(c: &char) -> (r: CharKind)
    ensures
        r == spec_classify(*c),
{
    let c = *c;
    if is_whitespace(c) {
        CharKind::Whitespace
    } else if is_ascii_lowercase(c) {
        CharKind::Lowercase
    } else if is_ascii_uppercase(c) {
        CharKind::Uppercase
    } else if is_ascii_alphanumeric(c) {
        CharKind::Numeric
    } else if c == '\'' || c == '\"' {
        CharKind::Literal
    } else if is_ascii_punctuation(c) {
        CharKind::Symbol
    } else {
        CharKind::Other
    }
}

fn transform_symbol(value: String) -> (r: SymbolType)
    ensures
        r == spec_symbol(value@),
{
    let text = value.as_str();
    if text.unicode_len() != 1 {
        return SymbolType::Unknown;
    }
    let c = text.get_char(0);
    assert(value@ == seq![c]);
    match c {
        '<' => SymbolType::LessThan,
        '>' => SymbolType::GreaterThan,
        '+' => SymbolType::Plus,
        '-' => SymbolType::Minus,
        '(' => SymbolType::LParen,
        ')' => SymbolType::RParen,
        ',' => SymbolType::Comma,
        '*' => SymbolType::Star,
        '=' => SymbolType::Equals,
        ';' => SymbolType::Semicolon,
        _ => SymbolType::Unknown,
    }
}

fn ends_lowercase_run(c: char) -> (b: bool)
    ensures
        b == !spec_is_lower(c),
{
    !is_ascii_lowercase(c)
}

fn ends_uppercase_run(c: char) -> (b: bool)
    ensures
        b == !spec_is_upper(c),
{
    !is_ascii_uppercase(c)
}

fn ends_alphanumeric_run(c: char) -> (b: bool)
    ensures
        b == !spec_is_alphanumeric(c),
{
    !is_ascii_alphanumeric(c)
}

fn is_quote(c: char) -> (b: bool)
    ensures
        b == (c == '\'' || c == '\"'),
{
    c == '\'' || c == '\"'
}

fn always_stops(c: char) -> (b: bool)
    ensures
        b == true,
{
    true
}

/// Takes the first character of `characters`, then every following one up to
/// the first on which `stop_signal` holds, and returns them. `stop` is what
/// `stop_signal` computes.
fn grab_until<F>(
    characters: &mut VecDeque<char>,
    stop_signal: F,
    Ghost(stop): Ghost<spec_fn(char) -> bool>,
) -> (r: String) where
    F: Fn(char) -> bool,

    requires
        forall|c: char| stop_signal.requires((c,)),
        forall|c: char, b: bool| stop_signal.ensures((c,), b) ==> b == stop(c),
    ensures
        r@ == old(characters)@.take(grab_len(old(characters)@, stop) as int),
        final(characters)@ == old(characters)@.skip(grab_len(old(characters)@, stop) as int),
{
    let ghost s0 = characters@;
    let mut result = String::new();
    if characters.len() == 0 {
        assert(s0.take(0) == Seq::<char>::empty());
        assert(s0.skip(0) == s0);
        return result;
    }
    let first = characters.pop_front().unwrap();
    push_char(&mut result, first);
    let ghost mut n: int = 1;
    assert(result@ == s0.take(1));
    assert(characters@ == s0.drop_first());
    proof {
        lemma_span_len_le(s0.drop_first(), stop);
    }
    while characters.len() != 0
        invariant
            forall|c: char| stop_signal.requires((c,)),
            forall|c: char, b: bool| stop_signal.ensures((c,), b) ==> b == stop(c),
            1 <= n <= s0.len(),
            result@ == s0.take(n),
            characters@ == s0.skip(n),
            grab_len(s0, stop) == n + span_len(characters@, stop),
        ensures
            result@ == s0.take(n),
            characters@ == s0.skip(n),
            grab_len(s0, stop) == n,
        decreases characters@.len(),
    {
        let c = characters[0];
        if stop_signal(c) {
            break;
        }
        let next = characters.pop_front().unwrap();
        push_char(&mut result, next);
        proof {
            assert(s0.take(n + 1) == s0.take(n).push(s0[n]));
            n = n + 1;
            assert(characters@ == s0.skip(n));
        }
    }
    result
}

/// Skips leading whitespace and cuts the piece at the front of `characters`
/// off it.
fn parse_single_string(characters: &mut VecDeque<char>) -> (r: (String, StringKind))
    requires
        trim_start(old(characters)@).len() > 0,
    ensures
        r.0@ == piece_value(trim_start(old(characters)@)),
        r.1 == piece_kind(trim_start(old(characters)@)),
        final(characters)@ == trim_start(old(characters)@).skip(
            piece_len(trim_start(old(characters)@)) as int,
        ),
    decreases old(characters)@.len(),
{
    let ghost s0 = characters@;
    proof {
        lemma_trim_start_len(s0);
    }
    let next_char = characters[0];
    match classify_char(&next_char) {
        CharKind::Whitespace => {
            characters.pop_front();
            assert(characters@ == s0.drop_first());
            parse_single_string(characters)
        },
        CharKind::Lowercase => {
            let value = grab_until(
                characters,
                ends_lowercase_run,
                Ghost(stop_fn(StopRule::NotLowercase)),
            );
            (value, StringKind::Identifier)
        },
        CharKind::Uppercase => {
            let value = grab_until(
                characters,
                ends_uppercase_run,
                Ghost(stop_fn(StopRule::NotUppercase)),
            );
            (value, StringKind::Keyword)
        },
        CharKind::Numeric => {
            let value = grab_until(
                characters,
                ends_alphanumeric_run,
                Ghost(stop_fn(StopRule::NotAlphanumeric)),
            );
            (value, StringKind::Literal)
        },
        CharKind::Literal => {
            // The opening quote decides the kind: single quotes enclose a
            // literal, double quotes an identifier.
            let quote = characters.pop_front().unwrap();
            let string_kind = match quote {
                '\'' => StringKind::Literal,
                '\"' => StringKind::Identifier,
                _ => StringKind::Unknown,
            };
            let ghost body = characters@;
            assert(body == s0.drop_first());
            let value = grab_until(
                characters,
                is_quote,
                Ghost(stop_fn(StopRule::Quote)),
            );
            proof {
                if body.len() > 0 {
                    lemma_span_len_le(body.drop_first(), stop_fn(StopRule::Quote));
                }
            }
            // The closing quote, where there is one.
            characters.pop_front();
            proof {
                let n = grab_len(body, stop_fn(StopRule::Quote)) as int;
                if n < body.len() {
                    assert(characters@ == s0.skip(1 + n + 1));
                } else {
                    assert(characters@ == s0.skip(1 + n));
                }
            }
            (value, string_kind)
        },
        CharKind::Symbol => {
            let value = grab_until(
                characters,
                always_stops,
                Ghost(stop_fn(StopRule::Always)),
            );
            (value, StringKind::Symbol)
        },
        CharKind::Other => {
            assert(s0.skip(0) == s0);
            (String::new(), StringKind::Unknown)
        },
    }
}

/// Cuts the whole of `strings` into pieces.
fn statement_to_strings(strings: &mut VecDeque<char>) -> (r: VecDeque<(String, StringKind)>)
    requires
        lexable(old(strings)@),
    ensures
        r@.map_values(|p: (String, StringKind)| (p.0@, p.1)) == scan(old(strings)@),
        final(strings)@.len() == 0,
{
    let ghost s0 = strings@;
    let mut result_vec: VecDeque<(String, StringKind)> = VecDeque::new();
    while strings.len() != 0
        invariant
            lexable(strings@),
            result_vec@.map_values(|p: (String, StringKind)| (p.0@, p.1)) + scan(strings@)
                == scan(s0),
        decreases strings@.len(),
    {
        let ghost before = strings@;
        proof {
            lemma_scan_step(before);
            lemma_trim_start_len(before);
        }
        let piece = parse_single_string(strings);
        let ghost old_pieces = result_vec@;
        result_vec.push_back(piece);
        proof {
            assert(result_vec@.map_values(|p: (String, StringKind)| (p.0@, p.1)) == old_pieces.map_values(
                |p: (String, StringKind)| (p.0@, p.1),
            ).push((piece.0@, piece.1)));
        }
    }
    result_vec
}

fn stops_exec(rule: StopRule, c: char) -> (r: bool)
    ensures
        r == stops(rule, c),
{
    match rule {
        StopRule::NotLowercase => !is_ascii_lowercase(c),
        StopRule::NotUppercase => !is_ascii_uppercase(c),
        StopRule::NotAlphanumeric => !is_ascii_alphanumeric(c),
        StopRule::Quote => c == '\'' || c == '\"',
        StopRule::Always => true,
    }
}

/// The length of the run that starts at `start` and holds no character that
/// stops `rule`.
fn span_from(chars: &VecDeque<char>, start: usize, rule: StopRule) -> (r: usize)
    requires
        start <= chars@.len(),
    ensures
        r == span_len(chars@.skip(start as int), stop_fn(rule)),
        start + r <= chars@.len(),
{
    let mut j = start;
    while j < chars.len()
        invariant
            start <= j <= chars@.len(),
            span_len(chars@.skip(start as int), stop_fn(rule)) == (j - start) + span_len(
                chars@.skip(j as int),
                stop_fn(rule),
            ),
        ensures
            span_len(chars@.skip(start as int), stop_fn(rule)) == (j - start),
            start <= j <= chars@.len(),
        decreases chars@.len() - j,
    {
        assert(chars@.skip(j as int)[0] == chars@[j as int]);
        if stops_exec(rule, chars[j]) {
            break;
        }
        assert(chars@.skip(j as int).drop_first() == chars@.skip(j + 1));
        j += 1;
    }
    j - start
}

/// How many characters the piece at `i` takes (0 where `chars[i]` starts no
/// piece), and whether it is no empty literal.
fn piece_extent(chars: &VecDeque<char>, i: usize) -> (r: (usize, bool))
    requires
        i < chars@.len(),
        !char_is_whitespace(chars@[i as int]),
    ensures
        r.0 == piece_len(chars@.skip(i as int)),
        r.1 == (piece_kind(chars@.skip(i as int)) == StringKind::Literal ==> piece_value(
            chars@.skip(i as int),
        ).len() > 0),
{
    let len = chars.len();
    let ghost s = chars@.skip(i as int);
    assert(s[0] == chars@[i as int]);
    assert(s.drop_first() == chars@.skip(i + 1));
    let c = chars[i];
    match classify_char(&c) {
        CharKind::Lowercase => (1 + span_from(chars, i + 1, StopRule::NotLowercase), true),
        CharKind::Uppercase => (1 + span_from(chars, i + 1, StopRule::NotUppercase), true),
        CharKind::Numeric => (1 + span_from(chars, i + 1, StopRule::NotAlphanumeric), true),
        CharKind::Literal => {
            let ghost body = s.drop_first();
            if i + 1 == chars.len() {
                (1, c != '\'')
            } else {
                assert(body.drop_first() == chars@.skip(i + 2));
                let n = 1 + span_from(chars, i + 2, StopRule::Quote);
                if i + 1 + n < chars.len() {
                    (2 + n, true)
                } else {
                    (1 + n, true)
                }
            }
        },
        CharKind::Symbol => {
            assert(span_len(s.drop_first(), stop_fn(StopRule::Always)) == 0);
            (1, true)
        },
        _ => (0, true),
    }
}

/// Whether `tokenize` returns on `text`: it does unless, once the text is
/// trimmed, a piece would start with a character that is no whitespace, no
/// ASCII letter or digit, no quote and no ASCII punctuation (the tokenizer
/// loops forever there), or the text ends with a lone single quote (an empty
/// literal, on which the tokenizer panics).
pub fn can_tokenize(text: &str) -> (r: bool)
    ensures
        r == tokenizable(text@),
{
    let trimmed = trim_str(text);
    let chars = str_chars(trimmed);
    let n = chars.len();
    let mut i: usize = 0;
    assert(chars@.skip(0) == chars@);
    while i < n
        invariant
            i <= n,
            n == chars@.len(),
            chars@ == trim(text@),
            lexable(chars@) == lexable(chars@.skip(i as int)),
        decreases n - i,
    {
        let ghost s = chars@.skip(i as int);
        assert(s[0] == chars@[i as int]);
        if is_whitespace(chars[i]) {
            if i + 1 == n {
                assert(!lexable(s));
                return false;
            }
            assert(s.drop_first() == chars@.skip(i + 1));
            i += 1;
        } else {
            let (len, ok) = piece_extent(&chars, i);
            assert(s.len() == n - i);
            if len == 0 || !ok || len > n - i {
                assert(!lexable(s));
                return false;
            }
            assert(s.skip(len as int) == chars@.skip(i + len));
            i += len;
        }
    }
    assert(chars@.skip(n as int).len() == 0);
    true
}

/// Turns each piece into its token.
fn transform_to_tokens(strings: &mut VecDeque<(String, StringKind)>) -> (r: VecDeque<Token>)
    requires
        forall|i: int|
            0 <= i < old(strings)@.len() ==> (#[trigger] old(strings)@[i]).1 != StringKind::Unknown
                && (old(strings)@[i].1 == StringKind::Literal ==> old(strings)@[i].0@.len() > 0),
    ensures
        r@.map_values(|t: Token| t@) == old(strings)@.map_values(
            |p: (String, StringKind)| piece_token((p.0@, p.1)),
        ),
        final(strings)@.len() == 0,
{
    let ghost s0 = strings@;
    let mut result_queue: VecDeque<Token> = VecDeque::new();
    while strings.len() != 0
        invariant
            0 <= s0.len() - strings@.len(),
            strings@ == s0.skip(s0.len() - strings@.len()),
            forall|i: int|
                0 <= i < s0.len() ==> (#[trigger] s0[i]).1 != StringKind::Unknown && (s0[i].1
                    == StringKind::Literal ==> s0[i].0@.len() > 0),
            result_queue@.map_values(|t: Token| t@) == s0.take(s0.len() - strings@.len()).map_values(
                |p: (String, StringKind)| piece_token((p.0@, p.1)),
            ),
        decreases strings@.len(),
    {
        let ghost k = s0.len() - strings@.len();
        let ghost old_tokens = result_queue@;
        let (value, current_string_type) = strings.pop_front().unwrap();
        assert(strings@ == s0.skip(k + 1));
        let ghost piece = (value@, current_string_type);
        assert(piece == (s0[k].0@, s0[k].1));
        let token = match current_string_type {
            StringKind::Keyword => Token::Keyword(Keyword { value }),
            StringKind::Identifier => Token::Identifier(Identifier { value }),
            StringKind::Literal => {
                let mut literal_type = LiteralType::String;
                if !is_ascii_alphabetic(value.as_str().get_char(0)) {
                    literal_type = LiteralType::Integer;
                }
                Token::Literal(Literal { value, literal_type })
            },
            StringKind::Symbol => Token::Symbol(transform_symbol(value)),
            StringKind::Unknown => vstd::pervasive::unreached(),
        };
        assert(token@ == piece_token(piece));
        result_queue.push_back(token);
        proof {
            assert(s0.take(k + 1) == s0.take(k).push(s0[k]));
            assert(result_queue@.map_values(|t: Token| t@) == old_tokens.map_values(|t: Token| t@).push(
                token@,
            ));
        }
    }
    proof {
        assert(s0.take(s0.len() as int) == s0);
    }
    result_queue
}

/// Splits `text` into tokens: keywords (runs of uppercase letters),
/// identifiers (runs of lowercase letters, or text in double quotes), literals
/// (runs of letters and digits that start with a digit, or text in single
/// quotes) and one-character symbols, dropping the whitespace between them.
pub fn tokenize(text: &str) -> (r: Result<TokenQueue, std::io::Error>)
    requires
        tokenizable(text@),
    ensures
        r matches Ok(q) && q@ == tokens_of(text@),
{
    let trimmed = trim_str(text);
    let mut characters: VecDeque<char> = str_chars(trimmed);
    // Turn the characters into pieces of text
    let mut statement_strings = statement_to_strings(&mut characters);
    // Convert the pieces to tokens
    proof {
        lemma_lexable_pieces(trim(text@));
        assert forall|i: int| 0 <= i < statement_strings@.len() implies (#[trigger] statement_strings@[i]).1
            != StringKind::Unknown && (statement_strings@[i].1 == StringKind::Literal
            ==> statement_strings@[i].0@.len() > 0) by {
            assert(scan(trim(text@))[i] == (statement_strings@[i].0@, statement_strings@[i].1));
        }
    }
    let ghost pieces = statement_strings@;
    let tokens: VecDeque<Token> = transform_to_tokens(&mut statement_strings);
    proof {
        let spieces = scan(trim(text@));
        assert(pieces.map_values(|p: (String, StringKind)| piece_token((p.0@, p.1))) == spieces.map_values(
            |p: (Seq<char>, StringKind)| piece_token(p),
        )) by {
            assert(spieces == pieces.map_values(|p: (String, StringKind)| (p.0@, p.1)));
        }
    }
    Ok(TokenQueue::new(tokens))
}

/// The tag of a token.
pub open spec fn token_tag(t: TokenModel) -> TokenTag {
    match t {
        TokenModel::Keyword(_) => TokenTag::Keyword,
        TokenModel::Identifier(_) => TokenTag::Identifier,
        TokenModel::Literal(..) => TokenTag::Literal,
        TokenModel::Symbol(_) => TokenTag::Symbol,
    }
}

/// The text of a token: what it holds, or the name of its symbol.
pub open spec fn token_value(t: TokenModel) -> Seq<char> {
    match t {
        TokenModel::Keyword(v) => v,
        TokenModel::Identifier(v) => v,
        TokenModel::Literal(v, _) => v,
        TokenModel::Symbol(s) => symbol_name(s),
    }
}

/// Whether `t` is a symbol among `symbols`.
pub open spec fn is_symbol_in(t: TokenModel, symbols: Seq<SymbolType>) -> bool {
    match t {
        TokenModel::Symbol(s) => symbols.contains(s),
        _ => false,
    }
}

/// The texts of a list of string slices.
pub open spec fn str_views(v: Seq<&str>) -> Seq<Seq<char>> {
    v.map_values(|s: &str| s@)
}

/// The line that describes a token: its tag's name, `: ` and its text.
pub open spec fn token_line(t: TokenModel) -> Seq<char> {
    tag_name(token_tag(t)) + ": "@ + token_value(t)
}

/// A result of taking a token, as plain values.
pub open spec fn outcome(r: Result<Token, SyntaxError>) -> Result<TokenModel, ErrorModel> {
    match r {
        Ok(t) => Ok(t@),
        Err(e) => Err(e@),
    }
}

/// Taking the next token of `q`: it is missing where `q` is empty.
pub open spec fn take_next(q: Seq<TokenModel>) -> Result<TokenModel, ErrorModel> {
    if q.len() == 0 {
        Err(ErrorModel::MissingToken(None))
    } else {
        Ok(q[0])
    }
}

/// Taking the next token of `q` where its tag is `tag`.
pub open spec fn expect_tag(q: Seq<TokenModel>, tag: TokenTag) -> Result<TokenModel, ErrorModel> {
    if q.len() == 0 {
        Err(ErrorModel::MissingToken(Some(tag)))
    } else if token_tag(q[0]) == tag {
        Ok(q[0])
    } else {
        Err(ErrorModel::InvalidToken(tag, token_tag(q[0])))
    }
}

/// Taking the next token of `q` where it is a symbol among `symbols`.
pub open spec fn expect_symbol(q: Seq<TokenModel>, symbols: Seq<SymbolType>) -> Result<
    TokenModel,
    ErrorModel,
> {
    if q.len() == 0 {
        Err(ErrorModel::MissingToken(Some(TokenTag::Symbol)))
    } else {
        match q[0] {
            TokenModel::Symbol(s) => if symbols.contains(s) {
                Ok(q[0])
            } else {
                Err(ErrorModel::UnexpectedSymbol(s))
            },
            t => Err(ErrorModel::InvalidToken(TokenTag::Symbol, token_tag(t))),
        }
    }
}

/// Taking the next token of `q` where its text is among `values`.
pub open spec fn expect_value(q: Seq<TokenModel>, values: Seq<Seq<char>>) -> Result<
    TokenModel,
    ErrorModel,
> {
    if q.len() == 0 {
        Err(ErrorModel::MissingToken(None))
    } else if values.contains(token_value(q[0])) {
        Ok(q[0])
    } else {
        Err(ErrorModel::InvalidValue(values, token_value(q[0])))
    }
}

fn contains_symbol(symbols: &Vec<SymbolType>, s: SymbolType) -> (r: bool)
    ensures
        r == symbols@.contains(s),
{
    for i in 0..symbols.len()
        invariant
            forall|j: int| 0 <= j < i ==> symbols@[j] != s,
    {
        if symbols[i] == s {
            return true;
        }
    }
    false
}

fn contains_str(values: &Vec<&str>, s: &str) -> (r: bool)
    ensures
        r == str_views(values@).contains(s@),
{
    for i in 0..values.len()
        invariant
            forall|j: int| 0 <= j < i ==> values@[j]@ != s@,
    {
        if str_eq(values[i], s) {
            assert(str_views(values@)[i as int] == s@);
            return true;
        }
    }
    proof {
        if str_views(values@).contains(s@) {
            let j = choose|j: int| 0 <= j < values@.len() && str_views(values@)[j] == s@;
            assert(values@[j]@ == s@);
        }
    }
    false
}

/// Asking about the next token agrees with taking it: `has_tokens` holds
/// exactly when `next` succeeds, `next_token_type` names the tag of the token
/// that `next` returns, and `validate_token_type` succeeds exactly for that tag.
pub proof fn law_queries_agree_with_taking(q: Seq<TokenModel>, tag: TokenTag)
    ensures
        (q.len() > 0) <==> take_next(q) is Ok,
        q.len() > 0 ==> take_next(q) == Ok::<TokenModel, ErrorModel>(q[0]),
        (expect_tag(q, tag) is Ok) <==> (q.len() > 0 && token_tag(q[0]) == tag),
        expect_tag(q, TokenTag::Empty) is Err,
        expect_tag(q, tag) matches Ok(t) ==> take_next(q) == Ok::<TokenModel, ErrorModel>(t),
{
}

/// `check_next_symbol` holds exactly when `verify_symbol_type` would succeed
/// with the same symbols, and `next_token_contains` exactly when
/// `validate_token_value` would succeed with the same values.
pub proof fn law_checks_agree_with_taking(
    q: Seq<TokenModel>,
    symbols: Seq<SymbolType>,
    values: Seq<Seq<char>>,
)
    ensures
        (q.len() > 0 && is_symbol_in(q[0], symbols)) <==> expect_symbol(q, symbols) is Ok,
        (q.len() > 0 && values.contains(token_value(q[0]))) <==> expect_value(q, values) is Ok,
{
}

impl TokenQueue {
    /// How many tokens are left.
    pub(crate) fn len(&self) -> (r: usize)
        ensures
            r == self@.len(),
    {
        self.tokens.len()
    }

    /// The token at position `i`, counted from the front.
    pub(crate) fn token_at(&self, i: usize) -> (r: &Token)
        requires
            i < self@.len(),
        ensures
            r@ == self@[i as int],
    {
        &self.tokens[i]
    }

    /// Whether any token is left.
    pub fn has_tokens(&self) -> (r: bool)
        ensures
            r == (self@.len() > 0),
    {
        self.tokens.len() != 0
    }

    /// A queue of `tokens`, in order.
    pub fn new(tokens: VecDeque<Token>) -> (r: TokenQueue)
        ensures
            r@ == tokens@.map_values(|t: Token| t@),
    {
        TokenQueue { tokens }
    }

    /// Takes the next token where its tag is `token_type`.
    pub fn validate_token_type(&mut self, token_type: TokenTag) -> (r: Result<Token, SyntaxError>)
        ensures
            outcome(r) == expect_tag(old(self)@, token_type),
            r is Ok ==> final(self)@ == old(self)@.drop_first(),
            r is Err ==> final(self)@ == old(self)@,
    {
        match self.peek() {
            Some(t) => {
                if token_type == t.tag() {
                    Ok(self.next()?)
                } else {
                    Err(SyntaxError::InvalidToken(InvalidToken::new(token_type, t.tag())))
                }
            },
            None => Err(SyntaxError::MissingToken(MissingToken::new(Some(token_type)))),
        }
    }

    /// Whether the next token is a symbol among `symbol_type`.
    pub fn check_next_symbol(&self, symbol_type: Vec<SymbolType>) -> (r: bool)
        ensures
            r == (self@.len() > 0 && is_symbol_in(self@[0], symbol_type@)),
    {
        match self.peek() {
            Some(Token::Symbol(val)) => contains_symbol(&symbol_type, *val),
            _ => false,
        }
    }

    /// Takes the next token where it is a symbol among `symbol_type`.
    pub fn verify_symbol_type(&mut self, symbol_type: Vec<SymbolType>) -> (r: Result<
        Token,
        SyntaxError,
    >)
        ensures
            outcome(r) == expect_symbol(old(self)@, symbol_type@),
            r is Ok ==> final(self)@ == old(self)@.drop_first(),
            r is Err ==> final(self)@ == old(self)@,
    {
        match self.peek() {
            Some(Token::Symbol(t)) => match contains_symbol(&symbol_type, *t) {
                true => Ok(self.next()?),
                false => Err(SyntaxError::UnexpectedSymbol(UnexpectedSymbol::new(t))),
            },
            Some(val) => Err(SyntaxError::InvalidToken(InvalidToken::new(TokenTag::Symbol, val.tag()))),
            None => Err(SyntaxError::MissingToken(MissingToken::new(Some(TokenTag::Symbol)))),
        }
    }

    /// Takes the next token where its text is among `value`.
    pub fn validate_token_value(&mut self, value: Vec<&str>) -> (r: Result<Token, SyntaxError>)
        ensures
            outcome(r) == expect_value(old(self)@, str_views(value@)),
            r is Ok ==> final(self)@ == old(self)@.drop_first(),
            r is Err ==> final(self)@ == old(self)@,
    {
        match self.peek() {
            Some(t) => match contains_str(&value, t.value()) {
                true => {
                    let token = self.next()?;
                    Ok(token)
                },
                false => Err(
                    SyntaxError::InvalidValue(InvalidValue::new(value, String::from_str(t.value()))),
                ),
            },
            None => Err(SyntaxError::MissingToken(MissingToken::new(None))),
        }
    }

    /// The tag of the next token, `Empty` where there is none.
    pub fn next_token_type(&self) -> (r: TokenTag)
        ensures
            self@.len() == 0 ==> r == TokenTag::Empty,
            self@.len() > 0 ==> r == token_tag(self@[0]),
    {
        match self.peek() {
            Some(t) => t.tag(),
            None => TokenTag::Empty,
        }
    }

    /// Whether the text of the next token is among `value`.
    pub fn next_token_contains(&self, value: Vec<&str>) -> (r: bool)
        ensures
            r == (self@.len() > 0 && str_views(value@).contains(token_value(self@[0]))),
    {
        match self.peek() {
            Some(t) => contains_str(&value, t.value()),
            None => false,
        }
    }

    fn peek(&self) -> (r: Option<&Token>)
        ensures
            self@.len() == 0 ==> r is None,
            self@.len() > 0 ==> {
                &&& r matches Some(t)
                &&& t@ == self@[0]
            },
    {
        if self.tokens.len() != 0 {
            Some(&self.tokens[0])
        } else {
            None
        }
    }

    /// Takes the next token.
    pub fn next(&mut self) -> (r: Result<Token, SyntaxError>)
        ensures
            outcome(r) == take_next(old(self)@),
            r is Ok ==> final(self)@ == old(self)@.drop_first(),
            r is Err ==> final(self)@ == old(self)@,
    {
        if self.tokens.len() != 0 {
            let ghost before = self.tokens@;
            let t = self.tokens.pop_front().unwrap();
            assert(self.tokens@ == before.drop_first());
            Ok(t)
        } else {
            Err(SyntaxError::MissingToken(MissingToken::new(None)))
        }
    }

    /// The lines that describe the tokens, one per token and in order: each
    /// the tag's name, `: ` and the token's text.
    pub fn queue_lines(&self) -> (r: Vec<String>)
        ensures
            r@.map_values(|s: String| s@) == self@.map_values(|t: TokenModel| token_line(t)),
    {
        let mut lines: Vec<String> = Vec::new();
        for i in 0..self.tokens.len()
            invariant
                lines@.map_values(|s: String| s@) == self@.take(i as int).map_values(
                    |t: TokenModel| token_line(t),
                ),
                self@.len() == self.tokens@.len(),
        {
            let tok = &self.tokens[i];
            let mut line = tok.tag().to_string();
            line.append(": ");
            line.append(tok.value());
            let ghost before = lines@;
            lines.push(line);
            proof {
                assert(self@.take(i + 1) == self@.take(i as int).push(self@[i as int]));
                assert(lines@.map_values(|s: String| s@) == before.map_values(|s: String| s@).push(
                    line@,
                ));
            }
        }
        assert(self@.take(self@.len() as int) == self@);
        lines
    }
}

impl Token {
    /// The token's text: what it holds, or its symbol's name.
    pub fn value(&self) -> (r: &str)
        ensures
            r@ == token_value(self@),
    {
        match self {
            Token::Keyword(t) => t.value.as_str(),
            Token::Identifier(t) => t.value.as_str(),
            Token::Literal(t) => t.value.as_str(),
            Token::Symbol(t) => t.print_type(),
        }
    }

    /// The token's tag.
    pub fn tag(&self) -> (r: TokenTag)
        ensures
            r == token_tag(self@),
    {
        match self {
            Token::Keyword(_) => TokenTag::Keyword,
            Token::Identifier(_) => TokenTag::Identifier,
            Token::Literal(_) => TokenTag::Literal,
            Token::Symbol(_) => TokenTag::Symbol,
        }
    }
}

impl Keyword {
    /// The keyword's text.
    pub fn value(&self) -> (r: &str)
        ensures
            r@ == self.value@,
    {
        self.value.as_str()
    }
}

impl Identifier {
    /// The identifier's text.
    pub fn value(&self) -> (r: &String)
        ensures
            r == &self.value,
    {
        &self.value
    }
}

/// The name of a tag.
pub open spec fn tag_name(t: TokenTag) -> Seq<char> {
    match t {
        TokenTag::Keyword => "Keyword"@,
        TokenTag::Identifier => "Identifier"@,
        TokenTag::Literal => "Literal"@,
        TokenTag::Symbol => "Symbol"@,
        TokenTag::Empty => "None"@,
    }
}

impl TokenTag {
    /// The tag's name.
    pub fn to_string(&self) -> (r: String)
        ensures
            r@ == tag_name(*self),
    {
        match self {
            TokenTag::Keyword => String::from_str("Keyword"),
            TokenTag::Identifier => String::from_str("Identifier"),
            TokenTag::Literal => String::from_str("Literal"),
            TokenTag::Symbol => String::from_str("Symbol"),
            TokenTag::Empty => String::from_str("None"),
        }
    }
}

/// The name of a symbol.
pub open spec fn symbol_name(s: SymbolType) -> Seq<char> {
    match s {
        SymbolType::Star => "Star"@,
        SymbolType::Plus => "Plus"@,
        SymbolType::Minus => "Minus"@,
        SymbolType::Comma => "Comma"@,
        SymbolType::Equals => "Equals"@,
        SymbolType::LParen => "LParen"@,
        SymbolType::RParen => "RParen"@,
        SymbolType::Semicolon => "Semicolon"@,
        SymbolType::LessThan => "LessThan"@,
        SymbolType::GreaterThan => "GreaterThan"@,
        SymbolType::Unknown => "Unknown"@,
    }
}

impl SymbolType {
    /// The symbol's name.
    pub fn print_type(&self) -> (r: &str)
        ensures
            r@ == symbol_name(*self),
    {
        match self {
            SymbolType::Star => "Star",
            SymbolType::Plus => "Plus",
            SymbolType::Minus => "Minus",
            SymbolType::Comma => "Comma",
            SymbolType::Equals => "Equals",
            SymbolType::LParen => "LParen",
            SymbolType::RParen => "RParen",
            SymbolType::Semicolon => "Semicolon",
            SymbolType::LessThan => "LessThan",
            SymbolType::GreaterThan => "GreaterThan",
            SymbolType::Unknown => "Unknown",
        }
    }
}

/// A token as plain values.
pub enum TokenModel {
    Keyword(Seq<char>),
    Identifier(Seq<char>),
    Literal(Seq<char>, LiteralType),
    Symbol(SymbolType),
}

/// A token of a statement.
#[derive(Debug, PartialEq)]
pub enum Token {
    Keyword(Keyword),
    Identifier(Identifier),
    Literal(Literal),
    Symbol(SymbolType),
}

impl View for Token {
    type V = TokenModel;

    open spec fn view(&self) -> TokenModel {
        match self {
            Token::Keyword(k) => TokenModel::Keyword(k.value@),
            Token::Identifier(i) => TokenModel::Identifier(i.value@),
            Token::Literal(l) => TokenModel::Literal(l.value@, l.literal_type),
            Token::Symbol(s) => TokenModel::Symbol(*s),
        }
    }
}

/// The kind of a token; `Empty` stands for no token at all.
#[derive(Debug, PartialEq, Eq, Structural, Clone, Copy)]
pub enum TokenTag {
    Keyword,
    Identifier,
    Literal,
    Symbol,
    Empty,
}

/// A keyword: a run of uppercase letters.
#[derive(Debug, PartialEq)]
pub struct Keyword {
    pub value: String,
}

/// An identifier: a run of lowercase letters, or text in double quotes.
#[derive(Debug, PartialEq)]
pub struct Identifier {
    pub value: String,
}

/// A literal: a run of letters and digits that starts with a digit, or text
/// in single quotes.
#[derive(Debug, PartialEq)]
pub struct Literal {
    pub value: String,
    pub literal_type: LiteralType,
}

/// A one-character symbol; `Unknown` for any punctuation not listed.
#[derive(Clone, Copy, Debug, PartialEq, Eq, Structural)]
pub enum SymbolType {
    Star,
    Plus,
    Minus,
    Comma,
    Equals,
    LParen,
    RParen,
    Semicolon,
    LessThan,
    GreaterThan,
    Unknown,
}

/// `std::io::Error`, the error type of `tokenize`, carried through unread.
#[verifier::external_type_specification]
#[verifier::external_body]
pub struct ExIoError(std::io::Error);

/// The tokens of a statement, taken from the front.
#[derive(Debug, PartialEq)]
pub struct TokenQueue {
    tokens: VecDeque<Token>,
}

impl View for TokenQueue {
    type V = Seq<TokenModel>;

    closed spec fn view(&self) -> Seq<TokenModel> {
        self.tokens@.map_values(|t: Token| t@)
    }
}

} // verus!
