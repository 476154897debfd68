use vstd::prelude::*;

use crate::chars::{
    char_is_whitespace, spec_is_alphabetic, spec_is_alphanumeric, spec_is_lower,
    spec_is_punctuation, spec_is_upper, trim, trim_end, trim_start,
};
use crate::parser::LiteralType;
use crate::tokenizer::{SymbolType, TokenModel};

verus! {

/// The kind of a raw piece of text cut out of a statement.
#[derive(Debug, PartialEq, Eq, Structural, Clone, Copy)]
pub enum StringKind {
    Keyword,
    Identifier,
    Literal,
    Symbol,
    Unknown,
}

/// The class of a character, which decides what kind of piece starts with it.
#[derive(Debug, PartialEq, Eq, Structural, Clone, Copy)]
pub enum CharKind {
    Whitespace,
    Uppercase,
    Lowercase,
    Numeric,
    Literal,
    Symbol,
    Other,
}

/// The rule that ends a run of characters taken by `grab_until`.
#[derive(Debug, PartialEq, Eq, Structural, Clone, Copy)]
pub enum StopRule {
    NotLowercase,
    NotUppercase,
    NotAlphanumeric,
    Quote,
    Always,
}

/// Whether `c` ends a run under `rule`.
pub open spec fn stops(rule: StopRule, c: char) -> bool {
    match rule {
        StopRule::NotLowercase => !spec_is_lower(c),
        StopRule::NotUppercase => !spec_is_upper(c),
        StopRule::NotAlphanumeric => !spec_is_alphanumeric(c),
        StopRule::Quote => c == '\'' || c == '"',
        StopRule::Always => true,
    }
}

/// `stops` under `rule`, as a predicate on characters.
pub open spec fn stop_fn(rule: StopRule) -> spec_fn(char) -> bool {
    |c: char| stops(rule, c)
}

/// The length of the longest prefix of `s` in which no character satisfies
/// `stop`.
pub open spec fn span_len(s: Seq<char>, stop: spec_fn(char) -> bool) -> nat
    decreases s.len(),
{
    if s.len() > 0 && !stop(s[0]) {
        1 + span_len(s.drop_first(), stop)
    } else {
        0
    }
}

/// How many characters `grab_until` takes from the front of `s`: the first one
/// whatever it is, then every following one up to the first that satisfies
/// `stop`.
pub open spec fn grab_len(s: Seq<char>, stop: spec_fn(char) -> bool) -> nat {
    if s.len() == 0 {
        0
    } else {
        1 + span_len(s.drop_first(), stop)
    }
}

/// The class of `c`.
pub open spec fn spec_classify(c: char) -> CharKind {
    if char_is_whitespace(c) {
        CharKind::Whitespace
    } else if spec_is_lower(c) {
        CharKind::Lowercase
    } else if spec_is_upper(c) {
        CharKind::Uppercase
    } else if spec_is_alphanumeric(c) {
        CharKind::Numeric
    } else if c == '\'' || c == '"' {
        CharKind::Literal
    } else if spec_is_punctuation(c) {
        CharKind::Symbol
    } else {
        CharKind::Other
    }
}

/// How many characters the piece at the front of `s` takes, where `s[0]` is no
/// whitespace (0 where `s[0]` starts no piece).
pub open spec fn piece_len(s: Seq<char>) -> nat {
    match spec_classify(s[0]) {
        CharKind::Lowercase => grab_len(s, stop_fn(StopRule::NotLowercase)),
        CharKind::Uppercase => grab_len(s, stop_fn(StopRule::NotUppercase)),
        CharKind::Numeric => grab_len(s, stop_fn(StopRule::NotAlphanumeric)),
        CharKind::Literal => {
            let body = s.drop_first();
            let n = grab_len(body, stop_fn(StopRule::Quote));
            1 + n + if n < body.len() {
                1nat
            } else {
                0nat
            }
        },
        CharKind::Symbol => grab_len(s, stop_fn(StopRule::Always)),
        _ => 0,
    }
}

/// The text of the piece at the front of `s` (quotes left out).
pub open spec fn piece_value(s: Seq<char>) -> Seq<char> {
    match spec_classify(s[0]) {
        CharKind::Literal => s.drop_first().take(grab_len(s.drop_first(), stop_fn(StopRule::Quote)) as int),
        CharKind::Other => Seq::empty(),
        _ => s.take(piece_len(s) as int),
    }
}

/// The kind of the piece at the front of `s`.
pub open spec fn piece_kind(s: Seq<char>) -> StringKind {
    match spec_classify(s[0]) {
        CharKind::Lowercase => StringKind::Identifier,
        CharKind::Uppercase => StringKind::Keyword,
        CharKind::Numeric => StringKind::Literal,
        CharKind::Literal => if s[0] == '\'' {
            StringKind::Literal
        } else {
            StringKind::Identifier
        },
        CharKind::Symbol => StringKind::Symbol,
        _ => StringKind::Unknown,
    }
}

/// The pieces that a statement's characters are cut into, whitespace between
/// them dropped.
pub open spec fn scan(s: Seq<char>) -> Seq<(Seq<char>, StringKind)>
    decreases s.len(),
{
    if s.len() == 0 {
        Seq::empty()
    } else if char_is_whitespace(s[0]) {
        scan(s.drop_first())
    } else if piece_len(s) == 0 || piece_len(s) > s.len() {
        Seq::empty()
    } else {
        seq![(piece_value(s), piece_kind(s))] + scan(s.skip(piece_len(s) as int))
    }
}

/// Whether cutting `s` into pieces ends: no piece starts with a character of
/// class `Other`, `s` does not end in whitespace, and no quoted literal is
/// empty for want of any character after its opening quote.
pub open spec fn lexable(s: Seq<char>) -> bool
    decreases s.len(),
{
    if s.len() == 0 {
        true
    } else if char_is_whitespace(s[0]) {
        s.len() > 1 && lexable(s.drop_first())
    } else if piece_len(s) == 0 || piece_len(s) > s.len() {
        false
    } else {
        (piece_kind(s) == StringKind::Literal ==> piece_value(s).len() > 0) && lexable(
            s.skip(piece_len(s) as int),
        )
    }
}

/// The symbol that a one-character piece names.
pub open spec fn spec_symbol(v: Seq<char>) -> SymbolType {
    if v == seq!['<'] {
        SymbolType::LessThan
    } else if v == seq!['>'] {
        SymbolType::GreaterThan
    } else if v == seq!['+'] {
        SymbolType::Plus
    } else if v == seq!['-'] {
        SymbolType::Minus
    } else if v == seq!['('] {
        SymbolType::LParen
    } else if v == seq![')'] {
        SymbolType::RParen
    } else if v == seq![','] {
        SymbolType::Comma
    } else if v == seq!['*'] {
        SymbolType::Star
    } else if v == seq!['='] {
        SymbolType::Equals
    } else if v == seq![';'] {
        SymbolType::Semicolon
    } else {
        SymbolType::Unknown
    }
}

/// The type of a literal: integer unless its first character is a letter.
pub open spec fn literal_type_of(v: Seq<char>) -> LiteralType {
    if !spec_is_alphabetic(v[0]) {
        LiteralType::Integer
    } else {
        LiteralType::String
    }
}

/// The token a piece becomes.
pub open spec fn piece_token(p: (Seq<char>, StringKind)) -> TokenModel {
    match p.1 {
        StringKind::Keyword => TokenModel::Keyword(p.0),
        StringKind::Identifier => TokenModel::Identifier(p.0),
        StringKind::Literal => TokenModel::Literal(p.0, literal_type_of(p.0)),
        _ => TokenModel::Symbol(spec_symbol(p.0)),
    }
}

/// Whether `tokenize` returns on `text`.
pub open spec fn tokenizable(text: Seq<char>) -> bool {
    lexable(trim(text))
}

/// The tokens of `text`.
pub open spec fn tokens_of(text: Seq<char>) -> Seq<TokenModel> {
    scan(trim(text)).map_values(|p: (Seq<char>, StringKind)| piece_token(p))
}

pub(crate) proof fn lemma_span_len_le(s: Seq<char>, stop: spec_fn(char) -> bool)
    ensures
        span_len(s, stop) <= s.len(),
    decreases s.len(),
{
    if s.len() > 0 && !stop(s[0]) {
        lemma_span_len_le(s.drop_first(), stop);
    }
}

pub(crate) proof fn lemma_trim_start_len(s: Seq<char>)
    ensures
        trim_start(s).len() <= s.len(),
    decreases s.len(),
{
    if s.len() > 0 && char_is_whitespace(s[0]) {
        lemma_trim_start_len(s.drop_first());
    }
}

/// On a lexable nonempty sequence, the first piece is the one at the front of
/// what remains once the leading whitespace is gone.
pub(crate) proof fn lemma_scan_step(s: Seq<char>)
    requires
        s.len() > 0,
        lexable(s),
    ensures
        trim_start(s).len() > 0,
        !char_is_whitespace(trim_start(s)[0]),
        1 <= piece_len(trim_start(s)) <= trim_start(s).len(),
        scan(s) == seq![(piece_value(trim_start(s)), piece_kind(trim_start(s)))] + scan(
            trim_start(s).skip(piece_len(trim_start(s)) as int),
        ),
        lexable(trim_start(s).skip(piece_len(trim_start(s)) as int)),
        piece_kind(trim_start(s)) != StringKind::Unknown,
        piece_kind(trim_start(s)) == StringKind::Literal ==> piece_value(trim_start(s)).len() > 0,
    decreases s.len(),
{
    if char_is_whitespace(s[0]) {
        lemma_scan_step(s.drop_first());
    }
}

/// Every piece of a lexable sequence has a known kind, and no literal piece is empty.
pub(crate) proof fn lemma_lexable_pieces(s: Seq<char>)
    requires
        lexable(s),
    ensures
        forall|i: int|
            0 <= i < scan(s).len() ==> (#[trigger] scan(s)[i]).1 != StringKind::Unknown && (
            scan(s)[i].1 == StringKind::Literal ==> scan(s)[i].0.len() > 0),
    decreases s.len(),
{
    if s.len() > 0 {
        lemma_scan_step(s);
        let t = trim_start(s);
        lemma_trim_start_len(s);
        lemma_lexable_pieces(t.skip(piece_len(t) as int));
    }
}

/// Every character of `w` is whitespace.
pub open spec fn all_whitespace(w: Seq<char>) -> bool {
    forall|i: int| 0 <= i < w.len() ==> char_is_whitespace(#[trigger] w[i])
}

proof fn lemma_trim_start_prefix(w: Seq<char>, t: Seq<char>)
    requires
        all_whitespace(w),
    ensures
        trim_start(w + t) == trim_start(t),
    decreases w.len(),
{
    if w.len() == 0 {
        assert(w + t =~= t);
    } else {
        assert((w + t)[0] == w[0]);
        assert((w + t).drop_first() =~= w.drop_first() + t);
        lemma_trim_start_prefix(w.drop_first(), t);
    }
}

proof fn lemma_trim_end_suffix(t: Seq<char>, w: Seq<char>)
    requires
        all_whitespace(w),
    ensures
        trim_end(t + w) == trim_end(t),
    decreases w.len(),
{
    if w.len() == 0 {
        assert(t + w =~= t);
    } else {
        assert((t + w).last() == w.last());
        assert((t + w).drop_last() =~= t + w.drop_last());
        lemma_trim_end_suffix(t, w.drop_last());
    }
}

proof fn lemma_trim_start_append(t: Seq<char>, u: Seq<char>)
    ensures
        trim_start(t).len() > 0 ==> trim_start(t + u) == trim_start(t) + u,
        trim_start(t).len() == 0 ==> trim_start(t + u) == trim_start(u),
    decreases t.len(),
{
    if t.len() == 0 {
        assert(t + u =~= u);
    } else if char_is_whitespace(t[0]) {
        assert((t + u)[0] == t[0]);
        assert((t + u).drop_first() =~= t.drop_first() + u);
        lemma_trim_start_append(t.drop_first(), u);
    } else {
        assert((t + u)[0] == t[0]);
    }
}

proof fn lemma_trim_start_all_whitespace(w: Seq<char>)
    requires
        all_whitespace(w),
    ensures
        trim_start(w) == Seq::<char>::empty(),
    decreases w.len(),
{
    if w.len() > 0 {
        lemma_trim_start_all_whitespace(w.drop_first());
    }
}

/// Whitespace around a statement changes neither whether it can be tokenized
/// nor its tokens.
pub proof fn law_surrounding_whitespace(before: Seq<char>, text: Seq<char>, after: Seq<char>)
    requires
        all_whitespace(before),
        all_whitespace(after),
    ensures
        trim(before + text + after) == trim(text),
        tokenizable(before + text + after) == tokenizable(text),
        tokens_of(before + text + after) == tokens_of(text),
{
    assert(before + text + after =~= before + (text + after));
    lemma_trim_start_prefix(before, text + after);
    lemma_trim_start_append(text, after);
    if trim_start(text).len() > 0 {
        lemma_trim_end_suffix(trim_start(text), after);
    } else {
        lemma_trim_start_all_whitespace(after);
    }
}

/// Whether every piece of `s` ends within `s`: no piece starts with a
/// character of class `Other`, and every quote that opens a piece is closed.
pub open spec fn self_contained(s: Seq<char>) -> bool
    decreases s.len(),
{
    if s.len() == 0 {
        true
    } else if char_is_whitespace(s[0]) {
        self_contained(s.drop_first())
    } else if piece_len(s) == 0 || piece_len(s) > s.len() {
        false
    } else {
        (spec_classify(s[0]) == CharKind::Literal ==> grab_len(s.drop_first(), stop_fn(StopRule::Quote))
            < s.drop_first().len()) && self_contained(s.skip(piece_len(s) as int))
    }
}

proof fn lemma_span_len_append(a: Seq<char>, b: Seq<char>, stop: spec_fn(char) -> bool)
    requires
        span_len(a, stop) < a.len() || (b.len() > 0 && stop(b[0])),
    ensures
        span_len(a + b, stop) == span_len(a, stop),
    decreases a.len(),
{
    if a.len() == 0 {
        assert(a + b =~= b);
    } else {
        assert((a + b)[0] == a[0]);
        if !stop(a[0]) {
            assert((a + b).drop_first() =~= a.drop_first() + b);
            lemma_span_len_append(a.drop_first(), b, stop);
        }
    }
}

/// The piece at the front of `s` is the same with anything after `s`, where
/// it ends within `s` and what follows starts with a character that ends every
/// run of letters and digits.
proof fn lemma_piece_append(s: Seq<char>, u: Seq<char>)
    requires
        s.len() > 0,
        !char_is_whitespace(s[0]),
        1 <= piece_len(s) <= s.len(),
        spec_classify(s[0]) == CharKind::Literal ==> grab_len(s.drop_first(), stop_fn(StopRule::Quote))
            < s.drop_first().len(),
        u.len() > 0,
        !spec_is_alphanumeric(u[0]),
    ensures
        piece_len(s + u) == piece_len(s),
        piece_value(s + u) == piece_value(s),
        piece_kind(s + u) == piece_kind(s),
{
    let t = s + u;
    assert(t[0] == s[0]);
    assert(t.drop_first() =~= s.drop_first() + u);
    lemma_span_len_le(s.drop_first(), stop_fn(StopRule::NotLowercase));
    lemma_span_len_le(s.drop_first(), stop_fn(StopRule::NotUppercase));
    lemma_span_len_le(s.drop_first(), stop_fn(StopRule::NotAlphanumeric));
    match spec_classify(s[0]) {
        CharKind::Lowercase => {
            lemma_span_len_append(s.drop_first(), u, stop_fn(StopRule::NotLowercase));
            assert(t.take(piece_len(s) as int) =~= s.take(piece_len(s) as int));
        },
        CharKind::Uppercase => {
            lemma_span_len_append(s.drop_first(), u, stop_fn(StopRule::NotUppercase));
            assert(t.take(piece_len(s) as int) =~= s.take(piece_len(s) as int));
        },
        CharKind::Numeric => {
            lemma_span_len_append(s.drop_first(), u, stop_fn(StopRule::NotAlphanumeric));
            assert(t.take(piece_len(s) as int) =~= s.take(piece_len(s) as int));
        },
        CharKind::Literal => {
            let body = s.drop_first();
            assert(t.drop_first().drop_first() =~= body.drop_first() + u);
            lemma_span_len_append(body.drop_first(), u, stop_fn(StopRule::Quote));
            let n = grab_len(body, stop_fn(StopRule::Quote)) as int;
            assert(t.drop_first().take(n) =~= body.take(n));
        },
        CharKind::Symbol => {
            assert(t.take(1) =~= s.take(1));
        },
        _ => {},
    }
}

proof fn lemma_scan_whitespace_prefix(w: Seq<char>, y: Seq<char>)
    requires
        all_whitespace(w),
    ensures
        scan(w + y) == scan(y),
    decreases w.len(),
{
    if w.len() == 0 {
        assert(w + y =~= y);
    } else {
        assert((w + y)[0] == w[0]);
        assert((w + y).drop_first() =~= w.drop_first() + y);
        lemma_scan_whitespace_prefix(w.drop_first(), y);
    }
}

/// The pieces of `first`, a nonempty separator of whitespace and `second` are
/// those of `first` followed by those of `second`, where every piece of
/// `first` ends within it.
pub proof fn law_scan_concat(first: Seq<char>, sep: Seq<char>, second: Seq<char>)
    requires
        self_contained(first),
        sep.len() > 0,
        all_whitespace(sep),
    ensures
        scan(first + sep + second) == scan(first) + scan(second),
    decreases first.len(),
{
    let all = first + sep + second;
    if first.len() == 0 {
        assert(all =~= sep + second);
        lemma_scan_whitespace_prefix(sep, second);
        assert(scan(first) + scan(second) =~= scan(second));
    } else if char_is_whitespace(first[0]) {
        assert(all[0] == first[0]);
        assert(all.drop_first() =~= first.drop_first() + sep + second);
        law_scan_concat(first.drop_first(), sep, second);
    } else {
        let k = piece_len(first) as int;
        let rest = sep + second;
        assert(all =~= first + rest);
        assert((sep + second)[0] == sep[0]);
        lemma_piece_append(first, rest);
        assert(all.skip(k) =~= first.skip(k) + sep + second);
        law_scan_concat(first.skip(k), sep, second);
        assert(scan(first) + scan(second) =~= seq![(piece_value(first), piece_kind(first))] + (
        scan(first.skip(k)) + scan(second)));
    }
}

/// Whitespace between two statements only separates their tokens, where every
/// piece of the first, once it is trimmed, ends within it: the tokens of
/// `first`, whitespace and `second` are those of `first` followed by those of
/// `second`, and the whole can be tokenized where both statements can.
pub proof fn law_tokens_concat(first: Seq<char>, sep: Seq<char>, second: Seq<char>)
    requires
        self_contained(trim(first)),
        sep.len() > 0,
        all_whitespace(sep),
    ensures
        tokenizable(first) && tokenizable(second) ==> tokenizable(first + sep + second),
        tokens_of(first + sep + second) == tokens_of(first) + tokens_of(second),
{
    let all = first + sep + second;
    let (la, ra) = lemma_trim_parts(first);
    let (lb, rb) = lemma_trim_parts(second);
    let ta = trim(first);
    let tb = trim(second);
    if ta.len() == 0 {
        assert(first =~= la + ra);
        assert(all_whitespace(first + sep)) by {
            assert forall|i: int| 0 <= i < (first + sep).len() implies char_is_whitespace(
                #[trigger] (first + sep)[i],
            ) by {
                if i < la.len() {
                    assert((first + sep)[i] == la[i]);
                } else if i < first.len() {
                    assert((first + sep)[i] == ra[i - la.len()]);
                } else {
                    assert((first + sep)[i] == sep[i - first.len()]);
                }
            }
        }
        law_surrounding_whitespace(first + sep, second, Seq::<char>::empty());
        assert(first + sep + second + Seq::<char>::empty() =~= all);
        assert(tokens_of(first) =~= Seq::<TokenModel>::empty());
        assert(tokens_of(first) + tokens_of(second) =~= tokens_of(second));
    } else if tb.len() == 0 {
        assert(second =~= lb + rb);
        assert(all_whitespace(sep + second)) by {
            assert forall|i: int| 0 <= i < (sep + second).len() implies char_is_whitespace(
                #[trigger] (sep + second)[i],
            ) by {
                if i < sep.len() {
                    assert((sep + second)[i] == sep[i]);
                } else if i < sep.len() + lb.len() {
                    assert((sep + second)[i] == lb[i - sep.len()]);
                } else {
                    assert((sep + second)[i] == rb[i - sep.len() - lb.len()]);
                }
            }
        }
        law_surrounding_whitespace(Seq::<char>::empty(), first, sep + second);
        assert(Seq::<char>::empty() + first + (sep + second) =~= all);
        assert(tokens_of(second) =~= Seq::<TokenModel>::empty());
        assert(tokens_of(first) + tokens_of(second) =~= tokens_of(first));
    } else {
        let mid = ra + sep + lb;
        assert(all_whitespace(mid)) by {
            assert forall|i: int| 0 <= i < mid.len() implies char_is_whitespace(#[trigger] mid[i]) by {
                if i < ra.len() {
                    assert(mid[i] == ra[i]);
                } else if i < ra.len() + sep.len() {
                    assert(mid[i] == sep[i - ra.len()]);
                } else {
                    assert(mid[i] == lb[i - ra.len() - sep.len()]);
                }
            }
        }
        let inner = ta + mid + tb;
        assert(all =~= la + inner + rb);
        law_surrounding_whitespace(la, inner, rb);
        assert(inner[0] == ta[0]);
        assert(inner.last() == tb.last());
        assert(trim_start(inner) == inner);
        assert(trim_end(inner) == inner);
        law_scan_concat(ta, mid, tb);
        assert(scan(inner).map_values(|p: (Seq<char>, StringKind)| piece_token(p)) =~= scan(
            ta,
        ).map_values(|p: (Seq<char>, StringKind)| piece_token(p)) + scan(tb).map_values(
            |p: (Seq<char>, StringKind)| piece_token(p),
        ));
        if tokenizable(first) && tokenizable(second) {
            lemma_lexable_concat(ta, mid, tb);
        }
    }
}

proof fn lemma_lexable_whitespace_prefix(w: Seq<char>, y: Seq<char>)
    requires
        all_whitespace(w),
        lexable(y),
        y.len() > 0,
    ensures
        lexable(w + y),
    decreases w.len(),
{
    if w.len() == 0 {
        assert(w + y =~= y);
    } else {
        assert((w + y)[0] == w[0]);
        assert((w + y).drop_first() =~= w.drop_first() + y);
        lemma_lexable_whitespace_prefix(w.drop_first(), y);
    }
}

/// `first`, whitespace and a nonempty `second` can be cut into pieces to the
/// end where both can and every piece of `first` ends within it.
proof fn lemma_lexable_concat(first: Seq<char>, sep: Seq<char>, second: Seq<char>)
    requires
        self_contained(first),
        lexable(first),
        lexable(second),
        second.len() > 0,
        sep.len() > 0,
        all_whitespace(sep),
    ensures
        lexable(first + sep + second),
    decreases first.len(),
{
    let all = first + sep + second;
    if first.len() == 0 {
        assert(all =~= sep + second);
        lemma_lexable_whitespace_prefix(sep, second);
    } else if char_is_whitespace(first[0]) {
        assert(all[0] == first[0]);
        assert(all.drop_first() =~= first.drop_first() + sep + second);
        lemma_lexable_concat(first.drop_first(), sep, second);
    } else {
        let k = piece_len(first) as int;
        let rest = sep + second;
        assert(all =~= first + rest);
        assert(rest[0] == sep[0]);
        lemma_piece_append(first, rest);
        assert(all.skip(k) =~= first.skip(k) + sep + second);
        lemma_lexable_concat(first.skip(k), sep, second);
    }
}

/// No character in the run that `span_len` measures satisfies `stop`.
proof fn lemma_span_chars(s: Seq<char>, stop: spec_fn(char) -> bool)
    ensures
        forall|j: int| 0 <= j < span_len(s, stop) ==> !stop(#[trigger] s[j]),
    decreases s.len(),
{
    if s.len() > 0 && !stop(s[0]) {
        lemma_span_chars(s.drop_first(), stop);
        lemma_span_len_le(s.drop_first(), stop);
        assert forall|j: int| 0 <= j < span_len(s, stop) implies !stop(#[trigger] s[j]) by {
            if j > 0 {
                assert(s[j] == s.drop_first()[j - 1]);
            }
        }
    }
}

/// Whether `v` is a nonempty run of ASCII uppercase letters.
pub open spec fn is_uppercase_word(v: Seq<char>) -> bool {
    v.len() > 0 && forall|j: int| 0 <= j < v.len() ==> spec_is_upper(#[trigger] v[j])
}

proof fn lemma_piece_shape(s: Seq<char>)
    requires
        s.len() > 0,
        !char_is_whitespace(s[0]),
        1 <= piece_len(s) <= s.len(),
    ensures
        piece_kind(s) == StringKind::Keyword ==> is_uppercase_word(piece_value(s)),
        piece_kind(s) == StringKind::Literal && spec_classify(s[0]) == CharKind::Numeric
            ==> piece_value(s).len() > 0,
{
    if spec_classify(s[0]) == CharKind::Uppercase {
        let v = piece_value(s);
        lemma_span_chars(s.drop_first(), stop_fn(StopRule::NotUppercase));
        assert forall|j: int| 0 <= j < v.len() implies spec_is_upper(#[trigger] v[j]) by {
            if j > 0 {
                assert(v[j] == s.drop_first()[j - 1]);
            }
        }
    }
}

/// Keywords are nonempty runs of ASCII uppercase letters, and literals are
/// never empty, for every text that `tokenize` takes. A literal is typed as a
/// string exactly when its first character is an ASCII letter, lower or upper
/// case, and as an integer otherwise.
pub proof fn law_token_shapes(text: Seq<char>)
    requires
        tokenizable(text),
    ensures
        forall|i: int|
            0 <= i < tokens_of(text).len() ==> match #[trigger] tokens_of(text)[i] {
                TokenModel::Keyword(v) => is_uppercase_word(v),
                TokenModel::Literal(v, t) => v.len() > 0 && (t == LiteralType::String <==> (('a'
                    <= v[0] && v[0] <= 'z') || ('A' <= v[0] && v[0] <= 'Z'))) && (t
                    == LiteralType::Integer <==> !(('a' <= v[0] && v[0] <= 'z') || ('A' <= v[0]
                    && v[0] <= 'Z'))),
                _ => true,
            },
{
    lemma_scan_shapes(trim(text));
}

proof fn lemma_scan_shapes(s: Seq<char>)
    requires
        lexable(s),
    ensures
        forall|i: int|
            0 <= i < scan(s).len() ==> {
                &&& (#[trigger] scan(s)[i]).1 == StringKind::Keyword ==> is_uppercase_word(
                    scan(s)[i].0,
                )
                &&& scan(s)[i].1 == StringKind::Literal ==> scan(s)[i].0.len() > 0
            },
    decreases s.len(),
{
    if s.len() > 0 {
        lemma_scan_step(s);
        let t = trim_start(s);
        lemma_trim_start_len(s);
        lemma_piece_shape(t);
        lemma_scan_shapes(t.skip(piece_len(t) as int));
    }
}

/// Whether `c` may stand in a statement made only of words, numbers and
/// symbols: whitespace, an ASCII letter or digit, or ASCII punctuation other
/// than a quote.
pub open spec fn plain_char(c: char) -> bool {
    (char_is_whitespace(c) || spec_is_alphanumeric(c) || spec_is_punctuation(c)) && c != '\''
        && c != '"'
}

/// Whether every character of `s` is plain.
pub open spec fn plain_text(s: Seq<char>) -> bool {
    forall|i: int| 0 <= i < s.len() ==> plain_char(#[trigger] s[i])
}

proof fn lemma_plain_skip(s: Seq<char>, k: int)
    requires
        plain_text(s),
        0 <= k <= s.len(),
    ensures
        plain_text(s.skip(k)),
{
    assert forall|i: int| 0 <= i < s.skip(k).len() implies plain_char(#[trigger] s.skip(k)[i]) by {
        assert(s.skip(k)[i] == s[k + i]);
    }
}

/// A plain sequence that does not end in whitespace is cut into pieces to its
/// end, and every piece ends within it.
proof fn lemma_plain_lexable(t: Seq<char>)
    requires
        plain_text(t),
        t.len() == 0 || !char_is_whitespace(t.last()),
    ensures
        lexable(t),
        self_contained(t),
    decreases t.len(),
{
    if t.len() > 0 {
        assert(plain_char(t[0]));
        if char_is_whitespace(t[0]) {
            lemma_plain_skip(t, 1);
            assert(t.skip(1) == t.drop_first());
            lemma_plain_lexable(t.drop_first());
        } else {
            lemma_span_len_le(t.drop_first(), stop_fn(StopRule::NotLowercase));
            lemma_span_len_le(t.drop_first(), stop_fn(StopRule::NotUppercase));
            lemma_span_len_le(t.drop_first(), stop_fn(StopRule::NotAlphanumeric));
            assert(span_len(t.drop_first(), stop_fn(StopRule::Always)) == 0);
            let k = piece_len(t) as int;
            assert(1 <= k <= t.len());
            let rest = t.skip(k);
            lemma_plain_skip(t, k);
            if rest.len() > 0 {
                assert(rest.last() == t.last());
            }
            lemma_plain_lexable(rest);
            if spec_classify(t[0]) == CharKind::Numeric {
                assert(piece_value(t).len() == k);
            }
        }
    }
}

proof fn lemma_trim_start_split(s: Seq<char>)
    ensures
        trim_start(s).len() <= s.len(),
        s == s.take(s.len() - trim_start(s).len()) + trim_start(s),
        all_whitespace(s.take(s.len() - trim_start(s).len())),
        trim_start(s).len() > 0 ==> !char_is_whitespace(trim_start(s)[0]),
    decreases s.len(),
{
    if s.len() > 0 && char_is_whitespace(s[0]) {
        let t = s.drop_first();
        lemma_trim_start_split(t);
        let k = t.len() - trim_start(t).len();
        assert(s.take(k + 1) =~= seq![s[0]] + t.take(k));
        assert(s =~= seq![s[0]] + t);
        assert(s.take(k + 1) + trim_start(t) =~= seq![s[0]] + (t.take(k) + trim_start(t)));
        assert forall|i: int| 0 <= i < k + 1 implies char_is_whitespace(#[trigger] s.take(k + 1)[i]) by {
            if i > 0 {
                assert(s.take(k + 1)[i] == t.take(k)[i - 1]);
            }
        }
    } else {
        assert(s.take(0) =~= Seq::<char>::empty());
        assert(s =~= Seq::<char>::empty() + s);
    }
}

proof fn lemma_trim_end_split(s: Seq<char>)
    ensures
        trim_end(s).len() <= s.len(),
        s == trim_end(s) + s.skip(trim_end(s).len() as int),
        all_whitespace(s.skip(trim_end(s).len() as int)),
        trim_end(s).len() > 0 ==> !char_is_whitespace(trim_end(s).last()),
    decreases s.len(),
{
    if s.len() > 0 && char_is_whitespace(s.last()) {
        let t = s.drop_last();
        lemma_trim_end_split(t);
        let k = trim_end(t).len() as int;
        assert(s.skip(k) =~= t.skip(k).push(s.last()));
        assert(s =~= t.push(s.last()));
        assert(trim_end(t) + t.skip(k).push(s.last()) =~= (trim_end(t) + t.skip(k)).push(
            s.last(),
        ));
        assert forall|i: int| 0 <= i < s.skip(k).len() implies char_is_whitespace(#[trigger] s.skip(k)[i]) by {
            if i < t.skip(k).len() {
                assert(s.skip(k)[i] == t.skip(k)[i]);
            }
        }
    } else {
        assert(s.skip(s.len() as int) =~= Seq::<char>::empty());
        assert(s =~= s + Seq::<char>::empty());
    }
}

/// `s` is its trimmed text with whitespace before and after it, and the
/// trimmed text, where it is not empty, neither starts nor ends with
/// whitespace.
proof fn lemma_trim_parts(s: Seq<char>) -> (r: (Seq<char>, Seq<char>))
    ensures
        all_whitespace(r.0),
        all_whitespace(r.1),
        s == r.0 + trim(s) + r.1,
        trim(s).len() > 0 ==> !char_is_whitespace(trim(s)[0]) && !char_is_whitespace(trim(s).last()),
{
    let ts = trim_start(s);
    lemma_trim_start_split(s);
    lemma_trim_end_split(ts);
    let before = s.take(s.len() - ts.len());
    let after = ts.skip(trim(s).len() as int);
    assert(s =~= before + trim(s) + after);
    if trim(s).len() > 0 {
        assert(trim(s)[0] == ts[0]);
    }
    (before, after)
}

/// Statements made only of words, numbers and symbols (no quotes) can be
/// tokenized, and whitespace between two of them only separates their
/// tokens: the tokens of `first`, whitespace and `second` are those of `first`
/// followed by those of `second`.
pub proof fn law_plain_concat(first: Seq<char>, sep: Seq<char>, second: Seq<char>)
    requires
        plain_text(first),
        plain_text(second),
        sep.len() > 0,
        all_whitespace(sep),
    ensures
        tokenizable(first),
        tokenizable(second),
        tokenizable(first + sep + second),
        tokens_of(first + sep + second) == tokens_of(first) + tokens_of(second),
{
    lemma_plain_tokenizable(first);
    lemma_plain_tokenizable(second);
    law_tokens_concat(first, sep, second);
}

/// A plain statement can be tokenized, and every piece of it, once it is
/// trimmed, ends within it.
proof fn lemma_plain_tokenizable(s: Seq<char>)
    requires
        plain_text(s),
    ensures
        tokenizable(s),
        self_contained(trim(s)),
{
    let (l, r) = lemma_trim_parts(s);
    let t = trim(s);
    assert(plain_text(t)) by {
        assert forall|i: int| 0 <= i < t.len() implies plain_char(#[trigger] t[i]) by {
            assert(s == l + t + r);
            assert(s[l.len() + i] == t[i]);
        }
    }
    lemma_plain_lexable(t);
}

/// Whitespace before a piece does not change it: `parse_single_string` cuts
/// the same piece, of the same kind, from `w + r` as from `r`, and leaves the
/// same characters after it.
pub proof fn law_leading_whitespace_ignored(w: Seq<char>, r: Seq<char>)
    requires
        all_whitespace(w),
    ensures
        trim_start(w + r) == trim_start(r),
        piece_value(trim_start(w + r)) == piece_value(trim_start(r)),
        piece_kind(trim_start(w + r)) == piece_kind(trim_start(r)),
        trim_start(w + r).skip(piece_len(trim_start(w + r)) as int) == trim_start(r).skip(
            piece_len(trim_start(r)) as int,
        ),
{
    lemma_trim_start_prefix(w, r);
}

/// Whether `s` is made of plain characters and quoted texts. A quoted text is
/// a quote, then one character of any kind, then characters other than
/// quotes up to a closing quote or to the end; a double quote may also stand
/// alone at the end.
pub open spec fn quoted_or_plain(s: Seq<char>) -> bool
    decreases s.len(),
{
    if s.len() == 0 {
        true
    } else if s[0] == '\'' || s[0] == '"' {
        if s.len() == 1 {
            s[0] == '"'
        } else {
            inside_quotes(s.skip(2))
        }
    } else {
        plain_char(s[0]) && quoted_or_plain(s.drop_first())
    }
}

/// Whether `s`, read inside a quoted text after its first character, goes on
/// up to a closing quote and is then made of plain characters and quoted
/// texts, or goes on to the end without a quote.
pub open spec fn inside_quotes(s: Seq<char>) -> bool
    decreases s.len(),
{
    if s.len() == 0 {
        true
    } else if s[0] == '\'' || s[0] == '"' {
        quoted_or_plain(s.drop_first())
    } else {
        inside_quotes(s.drop_first())
    }
}

proof fn lemma_inside_quotes(u: Seq<char>)
    requires
        inside_quotes(u),
    ensures
        span_len(u, stop_fn(StopRule::Quote)) <= u.len(),
        span_len(u, stop_fn(StopRule::Quote)) < u.len() ==> {
            let m = span_len(u, stop_fn(StopRule::Quote)) as int;
            &&& (u[m] == '\'' || u[m] == '"')
            &&& quoted_or_plain(u.skip(m + 1))
        },
    decreases u.len(),
{
    if u.len() > 0 {
        if u[0] == '\'' || u[0] == '"' {
            assert(u.skip(1) =~= u.drop_first());
        } else {
            let t = u.drop_first();
            lemma_inside_quotes(t);
            let m1 = span_len(t, stop_fn(StopRule::Quote)) as int;
            if m1 < t.len() {
                assert(u[m1 + 1] == t[m1]);
                assert(u.skip(m1 + 2) =~= t.skip(m1 + 1));
            }
        }
    }
}

proof fn lemma_quoted_or_plain_skip(t: Seq<char>, k: int)
    requires
        quoted_or_plain(t),
        0 <= k <= t.len(),
        forall|i: int| 0 <= i < k ==> #[trigger] t[i] != '\'' && t[i] != '"',
    ensures
        quoted_or_plain(t.skip(k)),
    decreases k,
{
    if k == 0 {
        assert(t.skip(0) =~= t);
    } else {
        assert(t[0] != '\'' && t[0] != '"');
        let u = t.drop_first();
        assert forall|i: int| 0 <= i < k - 1 implies #[trigger] u[i] != '\'' && u[i] != '"' by {
            assert(u[i] == t[i + 1]);
        }
        lemma_quoted_or_plain_skip(u, k - 1);
        assert(u.skip(k - 1) =~= t.skip(k));
    }
}

/// A sequence made of plain characters and quoted texts that does not end in
/// whitespace is cut into pieces to its end.
proof fn lemma_quoted_lexable(t: Seq<char>)
    requires
        quoted_or_plain(t),
        t.len() == 0 || !char_is_whitespace(t.last()),
    ensures
        lexable(t),
    decreases t.len(),
{
    if t.len() > 0 {
        if t[0] == '\'' || t[0] == '"' {
            assert(spec_classify(t[0]) == CharKind::Literal);
            let body = t.drop_first();
            if t.len() == 1 {
                assert(t.skip(1).len() == 0);
                assert(body.len() == 0);
                assert(grab_len(body, stop_fn(StopRule::Quote)) == 0);
                assert(piece_len(t) == 1);
                assert(piece_kind(t) == StringKind::Identifier);
                assert(lexable(t.skip(1)));
            } else {
                let u = body.drop_first();
                assert(u =~= t.skip(2));
                lemma_inside_quotes(u);
                let m = span_len(u, stop_fn(StopRule::Quote)) as int;
                assert(grab_len(body, stop_fn(StopRule::Quote)) == 1 + m);
                if m < u.len() {
                    assert(piece_len(t) == m + 3);
                    let rest = t.skip(m + 3);
                    assert(rest =~= u.skip(m + 1));
                    if rest.len() > 0 {
                        assert(rest.last() == t.last());
                    }
                    lemma_quoted_lexable(rest);
                    assert(piece_value(t).len() == 1 + m);
                    assert(lexable(t.skip(piece_len(t) as int)));
                } else {
                    assert(piece_len(t) == t.len());
                    assert(t.skip(t.len() as int).len() == 0);
                    assert(lexable(t.skip(piece_len(t) as int)));
                    assert(piece_value(t).len() == 1 + m);
                }
            }
        } else if char_is_whitespace(t[0]) {
            assert(t.len() > 1);
            assert(t.drop_first().last() == t.last());
            lemma_quoted_lexable(t.drop_first());
        } else {
            assert(plain_char(t[0]));
            let u = t.drop_first();
            lemma_span_len_le(u, stop_fn(StopRule::NotLowercase));
            lemma_span_len_le(u, stop_fn(StopRule::NotUppercase));
            lemma_span_len_le(u, stop_fn(StopRule::NotAlphanumeric));
            lemma_span_chars(u, stop_fn(StopRule::NotLowercase));
            lemma_span_chars(u, stop_fn(StopRule::NotUppercase));
            lemma_span_chars(u, stop_fn(StopRule::NotAlphanumeric));
            assert(span_len(u, stop_fn(StopRule::Always)) == 0);
            let k = piece_len(t) as int;
            assert(1 <= k <= t.len());
            assert forall|i: int| 0 <= i < k implies #[trigger] t[i] != '\'' && t[i] != '"' by {
                if i > 0 {
                    assert(t[i] == u[i - 1]);
                }
            }
            lemma_quoted_or_plain_skip(t, k);
            let rest = t.skip(k);
            if rest.len() > 0 {
                assert(rest.last() == t.last());
            }
            lemma_quoted_lexable(rest);
            if spec_classify(t[0]) == CharKind::Numeric {
                assert(piece_value(t).len() == k);
            }
        }
    }
}

proof fn lemma_span_stop(s: Seq<char>, stop: spec_fn(char) -> bool)
    ensures
        span_len(s, stop) < s.len() ==> stop(s[span_len(s, stop) as int]),
    decreases s.len(),
{
    if s.len() > 0 && !stop(s[0]) {
        lemma_span_stop(s.drop_first(), stop);
        lemma_span_len_le(s.drop_first(), stop);
        if span_len(s, stop) < s.len() {
            assert(s[span_len(s, stop) as int] == s.drop_first()[span_len(s.drop_first(), stop) as int]);
        }
    }
}

proof fn lemma_inside_quotes_intro(u: Seq<char>, m: int)
    requires
        0 <= m <= u.len(),
        forall|i: int| 0 <= i < m ==> #[trigger] u[i] != '\'' && u[i] != '"',
        m < u.len() ==> (u[m] == '\'' || u[m] == '"') && quoted_or_plain(u.skip(m + 1)),
    ensures
        inside_quotes(u),
    decreases m,
{
    if m == 0 {
        if u.len() > 0 {
            assert(u.skip(1) =~= u.drop_first());
        }
    } else {
        let t = u.drop_first();
        assert forall|i: int| 0 <= i < m - 1 implies #[trigger] t[i] != '\'' && t[i] != '"' by {
            assert(t[i] == u[i + 1]);
        }
        if m < u.len() {
            assert(t[m - 1] == u[m]);
            assert(t.skip(m) =~= u.skip(m + 1));
        }
        lemma_inside_quotes_intro(t, m - 1);
        assert(u[0] != '\'' && u[0] != '"');
    }
}

proof fn lemma_quoted_or_plain_unskip(t: Seq<char>, k: int)
    requires
        0 <= k <= t.len(),
        forall|i: int| 0 <= i < k ==> plain_char(#[trigger] t[i]),
        quoted_or_plain(t.skip(k)),
    ensures
        quoted_or_plain(t),
    decreases k,
{
    if k == 0 {
        assert(t.skip(0) =~= t);
    } else {
        let u = t.drop_first();
        assert forall|i: int| 0 <= i < k - 1 implies plain_char(#[trigger] u[i]) by {
            assert(u[i] == t[i + 1]);
        }
        assert(u.skip(k - 1) =~= t.skip(k));
        lemma_quoted_or_plain_unskip(u, k - 1);
        assert(plain_char(t[0]));
    }
}

/// Every sequence that is cut into pieces to its end is made of plain
/// characters and quoted texts.
proof fn lemma_lexable_quoted(t: Seq<char>)
    requires
        lexable(t),
    ensures
        quoted_or_plain(t),
    decreases t.len(),
{
    if t.len() > 0 {
        if char_is_whitespace(t[0]) {
            lemma_lexable_quoted(t.drop_first());
        } else if t[0] == '\'' || t[0] == '"' {
            if t.len() > 1 {
                let body = t.drop_first();
                let u = body.drop_first();
                assert(u =~= t.skip(2));
                let m = span_len(u, stop_fn(StopRule::Quote)) as int;
                lemma_span_len_le(u, stop_fn(StopRule::Quote));
                lemma_span_chars(u, stop_fn(StopRule::Quote));
                lemma_span_stop(u, stop_fn(StopRule::Quote));
                if m < u.len() {
                    assert(piece_len(t) == m + 3);
                    assert(t.skip(m + 3) =~= u.skip(m + 1));
                    lemma_lexable_quoted(t.skip(m + 3));
                }
                lemma_inside_quotes_intro(u, m);
            }
        } else {
            let u = t.drop_first();
            lemma_span_len_le(u, stop_fn(StopRule::NotLowercase));
            lemma_span_len_le(u, stop_fn(StopRule::NotUppercase));
            lemma_span_len_le(u, stop_fn(StopRule::NotAlphanumeric));
            lemma_span_chars(u, stop_fn(StopRule::NotLowercase));
            lemma_span_chars(u, stop_fn(StopRule::NotUppercase));
            lemma_span_chars(u, stop_fn(StopRule::NotAlphanumeric));
            assert(span_len(u, stop_fn(StopRule::Always)) == 0);
            let k = piece_len(t) as int;
            assert forall|i: int| 0 <= i < k implies plain_char(#[trigger] t[i]) by {
                if i > 0 {
                    assert(t[i] == u[i - 1]);
                }
            }
            lemma_lexable_quoted(t.skip(k));
            lemma_quoted_or_plain_unskip(t, k);
        }
    }
}

/// Which texts `tokenize` takes: exactly those that, once trimmed, are made
/// of plain characters and quoted texts. Characters inside quotes never stop
/// the tokenizer, whatever they are.
pub proof fn law_quoted_text_tokenizable(text: Seq<char>)
    ensures
        tokenizable(text) == quoted_or_plain(trim(text)),
{
    lemma_trim_parts(text);
    if quoted_or_plain(trim(text)) {
        lemma_quoted_lexable(trim(text));
    }
    if tokenizable(text) {
        lemma_lexable_quoted(trim(text));
    }
}

proof fn lemma_span_all(s: Seq<char>, stop: spec_fn(char) -> bool)
    requires
        forall|i: int| 0 <= i < s.len() ==> !stop(#[trigger] s[i]),
    ensures
        span_len(s, stop) == s.len(),
    decreases s.len(),
{
    if s.len() > 0 {
        assert(!stop(s[0]));
        assert forall|i: int| 0 <= i < s.drop_first().len() implies !stop(
            #[trigger] s.drop_first()[i],
        ) by {
            assert(s.drop_first()[i] == s[i + 1]);
        }
        lemma_span_all(s.drop_first(), stop);
    }
}

/// A text that neither starts nor ends with whitespace and is one piece has
/// one token, that piece's.
proof fn lemma_one_piece(w: Seq<char>)
    requires
        w.len() > 0,
        !char_is_whitespace(w[0]),
        !char_is_whitespace(w.last()),
        piece_len(w) == w.len(),
    ensures
        tokens_of(w) == seq![piece_token((piece_value(w), piece_kind(w)))],
{
    assert(trim_start(w) == w);
    assert(trim_end(w) == w);
    assert(w.skip(w.len() as int) =~= Seq::<char>::empty());
    assert(scan(Seq::<char>::empty()) =~= Seq::<(Seq<char>, StringKind)>::empty());
    assert(scan(w) == seq![(piece_value(w), piece_kind(w))] + scan(w.skip(w.len() as int)));
    assert(scan(w) =~= seq![(piece_value(w), piece_kind(w))]);
    assert(scan(w).map_values(|p: (Seq<char>, StringKind)| piece_token(p)) =~= seq![
        piece_token((piece_value(w), piece_kind(w))),
    ]);
}

/// A word alone is one token: a run of ASCII lowercase letters is an
/// identifier, a run of ASCII uppercase letters a keyword, and a run of ASCII
/// letters and digits that starts with a digit an integer literal, each
/// holding the word unchanged.
pub proof fn law_single_word(w: Seq<char>)
    requires
        w.len() > 0,
    ensures
        (forall|i: int| 0 <= i < w.len() ==> 'a' <= #[trigger] w[i] && w[i] <= 'z') ==> tokens_of(w)
            == seq![TokenModel::Identifier(w)],
        (forall|i: int| 0 <= i < w.len() ==> 'A' <= #[trigger] w[i] && w[i] <= 'Z') ==> tokens_of(w)
            == seq![TokenModel::Keyword(w)],
        ('0' <= w[0] && w[0] <= '9' && forall|i: int|
            0 <= i < w.len() ==> ('a' <= #[trigger] w[i] && w[i] <= 'z') || ('A' <= w[i] && w[i]
                <= 'Z') || ('0' <= w[i] && w[i] <= '9')) ==> tokens_of(w) == seq![
            TokenModel::Literal(w, LiteralType::Integer),
        ],
{
    let u = w.drop_first();
    assert(w.last() == w[w.len() - 1]);
    if forall|i: int| 0 <= i < w.len() ==> 'a' <= #[trigger] w[i] && w[i] <= 'z' {
        assert forall|i: int| 0 <= i < u.len() implies !stop_fn(StopRule::NotLowercase)(
            #[trigger] u[i],
        ) by {
            assert(u[i] == w[i + 1]);
        }
        lemma_span_all(u, stop_fn(StopRule::NotLowercase));
        assert(w.take(w.len() as int) =~= w);
        lemma_one_piece(w);
    }
    if forall|i: int| 0 <= i < w.len() ==> 'A' <= #[trigger] w[i] && w[i] <= 'Z' {
        assert forall|i: int| 0 <= i < u.len() implies !stop_fn(StopRule::NotUppercase)(
            #[trigger] u[i],
        ) by {
            assert(u[i] == w[i + 1]);
        }
        lemma_span_all(u, stop_fn(StopRule::NotUppercase));
        assert(w.take(w.len() as int) =~= w);
        lemma_one_piece(w);
    }
    if '0' <= w[0] && w[0] <= '9' && forall|i: int|
        0 <= i < w.len() ==> ('a' <= #[trigger] w[i] && w[i] <= 'z') || ('A' <= w[i] && w[i] <= 'Z')
            || ('0' <= w[i] && w[i] <= '9') {
        assert forall|i: int| 0 <= i < u.len() implies !stop_fn(StopRule::NotAlphanumeric)(
            #[trigger] u[i],
        ) by {
            assert(u[i] == w[i + 1]);
        }
        lemma_span_all(u, stop_fn(StopRule::NotAlphanumeric));
        assert(w.take(w.len() as int) =~= w);
        lemma_one_piece(w);
    }
}

/// Text in quotes is one token that holds it unchanged: in single quotes a
/// literal, typed as a string where it starts with an ASCII letter and as an
/// integer otherwise; in double quotes an identifier.
pub proof fn law_quoted_word(v: Seq<char>)
    requires
        v.len() > 0,
        forall|i: int| 0 <= i < v.len() ==> #[trigger] v[i] != '\'' && v[i] != '"',
    ensures
        tokens_of(seq!['\''] + v + seq!['\'']) == seq![
            TokenModel::Literal(
                v,
                if ('a' <= v[0] && v[0] <= 'z') || ('A' <= v[0] && v[0] <= 'Z') {
                    LiteralType::String
                } else {
                    LiteralType::Integer
                },
            ),
        ],
        tokens_of(seq!['"'] + v + seq!['"']) == seq![TokenModel::Identifier(v)],
{
    let u = v.drop_first();
    assert forall|i: int| 0 <= i < u.len() implies !stop_fn(StopRule::Quote)(#[trigger] u[i]) by {
        assert(u[i] == v[i + 1]);
    }
    lemma_span_all(u, stop_fn(StopRule::Quote));
    let a = seq!['\''] + v + seq!['\''];
    assert(a.drop_first() =~= v + seq!['\'']);
    assert((v + seq!['\'']).drop_first() =~= u + seq!['\'']);
    lemma_span_len_append(u, seq!['\''], stop_fn(StopRule::Quote));
    assert(a.drop_first().take(v.len() as int) =~= v);
    assert(a.last() == '\'');
    lemma_one_piece(a);
    let b = seq!['"'] + v + seq!['"'];
    assert(b.drop_first() =~= v + seq!['"']);
    assert((v + seq!['"']).drop_first() =~= u + seq!['"']);
    lemma_span_len_append(u, seq!['"'], stop_fn(StopRule::Quote));
    assert(b.drop_first().take(v.len() as int) =~= v);
    assert(b.last() == '"');
    lemma_one_piece(b);
}

/// A symbol alone is one token: each of `< > + - ( ) , * = ;` names its
/// symbol, and any other ASCII punctuation but a quote is an unknown symbol.
pub proof fn law_single_symbol(c: char)
    requires
        ('!' <= c && c <= '/') || (':' <= c && c <= '@') || ('[' <= c && c <= '`') || ('{' <= c
            && c <= '~'),
        c != '\'',
        c != '"',
    ensures
        tokens_of(seq![c]) == seq![
            TokenModel::Symbol(
                if c == '<' {
                    SymbolType::LessThan
                } else if c == '>' {
                    SymbolType::GreaterThan
                } else if c == '+' {
                    SymbolType::Plus
                } else if c == '-' {
                    SymbolType::Minus
                } else if c == '(' {
                    SymbolType::LParen
                } else if c == ')' {
                    SymbolType::RParen
                } else if c == ',' {
                    SymbolType::Comma
                } else if c == '*' {
                    SymbolType::Star
                } else if c == '=' {
                    SymbolType::Equals
                } else if c == ';' {
                    SymbolType::Semicolon
                } else {
                    SymbolType::Unknown
                },
            ),
        ],
{
    let w = seq![c];
    assert(w.last() == c);
    assert(span_len(w.drop_first(), stop_fn(StopRule::Always)) == 0);
    assert(w.take(1) =~= w);
    lemma_one_piece(w);
}

proof fn lemma_trim_join(w: Seq<char>, t: Seq<char>)
    requires
        w.len() > 0,
        !char_is_whitespace(w[0]),
        t.len() > 0,
        !char_is_whitespace(t[0]),
    ensures
        trim(t).len() > 0,
        trim(t)[0] == t[0],
        trim(w + t) == w + trim(t),
{
    assert(trim_start(t) == t);
    assert((w + t)[0] == w[0]);
    assert(trim_start(w + t) == w + t);
    lemma_trim_end_split(t);
    let te = trim_end(t);
    let tail = t.skip(te.len() as int);
    if te.len() == 0 {
        assert(t =~= tail);
        assert(char_is_whitespace(tail[0]));
    }
    assert(te[0] == t[0]);
    assert(w + t =~= (w + te) + tail);
    lemma_trim_end_suffix(w + te, tail);
    assert((w + te).last() == te.last());
    assert(trim_end(w + te) == w + te);
}

/// Where the piece at the front of `w + te` is `w`, the pieces of `w + te`
/// are that one and then those of `te`.
proof fn lemma_scan_front(w: Seq<char>, te: Seq<char>)
    requires
        w.len() > 0,
        !char_is_whitespace(w[0]),
        piece_len(w + te) == w.len(),
    ensures
        scan(w + te) == seq![(piece_value(w + te), piece_kind(w + te))] + scan(te),
{
    assert((w + te)[0] == w[0]);
    assert((w + te).skip(w.len() as int) =~= te);
}

/// A run ends where its class ends. A word of one class followed directly by
/// a text that starts with a character that does not go on with it is that
/// word's token followed by the text's tokens: a run of ASCII lowercase
/// letters goes on only with lowercase letters, a run of uppercase letters
/// only with uppercase letters, a run that starts with a digit with ASCII
/// letters and digits, and a symbol is a token of its own.
pub proof fn law_runs_end_at_class_change(w: Seq<char>, t: Seq<char>)
    requires
        w.len() > 0,
        t.len() > 0,
        !char_is_whitespace(t[0]),
    ensures
        (forall|i: int| 0 <= i < w.len() ==> 'a' <= #[trigger] w[i] && w[i] <= 'z') && !('a' <= t[0]
            && t[0] <= 'z') ==> tokens_of(w + t) == seq![TokenModel::Identifier(w)] + tokens_of(t),
        (forall|i: int| 0 <= i < w.len() ==> 'A' <= #[trigger] w[i] && w[i] <= 'Z') && !('A' <= t[0]
            && t[0] <= 'Z') ==> tokens_of(w + t) == seq![TokenModel::Keyword(w)] + tokens_of(t),
        ('0' <= w[0] && w[0] <= '9' && (forall|i: int|
            0 <= i < w.len() ==> ('a' <= #[trigger] w[i] && w[i] <= 'z') || ('A' <= w[i] && w[i]
                <= 'Z') || ('0' <= w[i] && w[i] <= '9')) && !(('a' <= t[0] && t[0] <= 'z') || ('A'
            <= t[0] && t[0] <= 'Z') || ('0' <= t[0] && t[0] <= '9'))) ==> tokens_of(w + t) == seq![
            TokenModel::Literal(w, LiteralType::Integer),
        ] + tokens_of(t),
        (w.len() == 1 && spec_is_punctuation(w[0]) && w[0] != '\'' && w[0] != '"') ==> tokens_of(
            w + t,
        ) == tokens_of(w) + tokens_of(t),
{
    let u = w.drop_first();
    let lower = (forall|i: int| 0 <= i < w.len() ==> 'a' <= #[trigger] w[i] && w[i] <= 'z') && !(
    'a' <= t[0] && t[0] <= 'z');
    let upper = (forall|i: int| 0 <= i < w.len() ==> 'A' <= #[trigger] w[i] && w[i] <= 'Z') && !(
    'A' <= t[0] && t[0] <= 'Z');
    let numeric = '0' <= w[0] && w[0] <= '9' && (forall|i: int|
        0 <= i < w.len() ==> ('a' <= #[trigger] w[i] && w[i] <= 'z') || ('A' <= w[i] && w[i] <= 'Z')
            || ('0' <= w[i] && w[i] <= '9')) && !(('a' <= t[0] && t[0] <= 'z') || ('A' <= t[0]
        && t[0] <= 'Z') || ('0' <= t[0] && t[0] <= '9'));
    let symbol = w.len() == 1 && spec_is_punctuation(w[0]) && w[0] != '\'' && w[0] != '"';
    if lower || upper || numeric || symbol {
        assert(!char_is_whitespace(w[0]));
        lemma_trim_join(w, t);
        let te = trim(t);
        let a = w + te;
        assert(a.drop_first() =~= u + te);
        assert(a.take(w.len() as int) =~= w);
        let rule = if lower {
            StopRule::NotLowercase
        } else if upper {
            StopRule::NotUppercase
        } else if numeric {
            StopRule::NotAlphanumeric
        } else {
            StopRule::Always
        };
        assert forall|i: int| 0 <= i < u.len() implies !stop_fn(rule)(#[trigger] u[i]) by {
            assert(u[i] == w[i + 1]);
        }
        lemma_span_all(u, stop_fn(rule));
        assert(te[0] == t[0]);
        if lower {
            assert(rule == StopRule::NotLowercase);
        } else if upper {
            assert(rule == StopRule::NotUppercase);
        } else if numeric {
            assert(rule == StopRule::NotAlphanumeric);
        } else {
            assert(rule == StopRule::Always);
        }
        assert(stops(rule, te[0]));
        assert(stop_fn(rule)(te[0]));
        lemma_span_len_append(u, te, stop_fn(rule));
        assert(piece_len(a) == w.len());
        lemma_scan_front(w, te);
        assert(scan(a).map_values(|p: (Seq<char>, StringKind)| piece_token(p)) =~= seq![
            piece_token((piece_value(a), piece_kind(a))),
        ] + scan(te).map_values(|p: (Seq<char>, StringKind)| piece_token(p)));
        if symbol {
            assert(w =~= seq![w[0]]);
            law_single_symbol(w[0]);
            assert(w.last() == w[0]);
            assert(span_len(w.drop_first(), stop_fn(StopRule::Always)) == 0);
            lemma_one_piece(w);
            assert(piece_value(w) == piece_value(a));
        }
    }
}

} // verus!
