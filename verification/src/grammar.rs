use vstd::prelude::*;

use crate::errors::ErrorModel;
use crate::parser::{
    condition_nodes, first_column, more_columns, next_logic, parse_loops, select_spec,
    where_clause, where_conditions, ConditionModel, LiteralType, RawCondition, create_columns, create_constraints, create_spec, skip_comma, ColumnModel, insert_rows, insert_spec, insert_values, lemma_create_constraints_shrinks,
    lemma_insert_values_shrinks, parse_spec, LiteralModel,
    RootModel, RowModel,
};
use crate::tokenizer::{token_tag, token_value, SymbolType, TokenModel, TokenTag};

verus! {

/// Whether no token of `s` is the symbol `sym`.
pub open spec fn free_of(s: Seq<TokenModel>, sym: SymbolType) -> bool {
    forall|i: int| 0 <= i < s.len() ==> s[i] != TokenModel::Symbol(sym)
}

/// The literal tokens of `s`, as values and types, in order.
pub open spec fn literals_in(s: Seq<TokenModel>) -> Seq<LiteralModel>
    decreases s.len(),
{
    if s.len() == 0 {
        Seq::empty()
    } else {
        match s[0] {
            TokenModel::Literal(v, t) => seq![(v, t)] + literals_in(s.drop_first()),
            _ => literals_in(s.drop_first()),
        }
    }
}

/// The literal tokens of `s`, grouped by closing parentheses: each group holds
/// the literals that come after the previous closing parenthesis (or the
/// start) and before the next one, `open` holding those of the current group
/// already seen. What follows the last closing parenthesis is left out.
pub open spec fn paren_groups(s: Seq<TokenModel>, open: Seq<LiteralModel>) -> Seq<Seq<LiteralModel>>
    decreases s.len(),
{
    if s.len() == 0 {
        Seq::empty()
    } else {
        match s[0] {
            TokenModel::Symbol(SymbolType::RParen) => seq![open] + paren_groups(
                s.drop_first(),
                Seq::empty(),
            ),
            TokenModel::Literal(v, t) => paren_groups(s.drop_first(), open.push((v, t))),
            _ => paren_groups(s.drop_first(), open),
        }
    }
}

proof fn lemma_paren_groups_append(a: Seq<TokenModel>, b: Seq<TokenModel>, open: Seq<LiteralModel>)
    requires
        free_of(a, SymbolType::RParen),
    ensures
        paren_groups(a + b, open) == paren_groups(b, open + literals_in(a)),
    decreases a.len(),
{
    if a.len() == 0 {
        assert(a + b =~= b);
        assert(open + literals_in(a) =~= open);
    } else {
        assert((a + b)[0] == a[0]);
        assert((a + b).drop_first() =~= a.drop_first() + b);
        assert(a[0] != TokenModel::Symbol(SymbolType::RParen));
        match a[0] {
            TokenModel::Literal(v, t) => {
                lemma_paren_groups_append(a.drop_first(), b, open.push((v, t)));
                assert(open.push((v, t)) + literals_in(a.drop_first()) =~= open + literals_in(a));
            },
            _ => {
                lemma_paren_groups_append(a.drop_first(), b, open);
            },
        }
    }
}

/// The values of a row end at the first closing parenthesis, and hold the
/// literals before it; no semicolon comes before it.
proof fn lemma_insert_values_tokens(s: Seq<TokenModel>) -> (j: int)
    requires
        insert_values(s) is Ok,
    ensures
        0 <= j < s.len(),
        s[j] == TokenModel::Symbol(SymbolType::RParen),
        free_of(s.take(j), SymbolType::RParen),
        free_of(s.take(j), SymbolType::Semicolon),
        insert_values(s) == Ok::<(RowModel, Seq<TokenModel>), ErrorModel>(
            (literals_in(s.take(j)), s.skip(j + 1)),
        ),
    decreases s.len(),
{
    if s[0] == TokenModel::Symbol(SymbolType::RParen) {
        assert(s.take(0) =~= Seq::<TokenModel>::empty());
        assert(s.skip(1) =~= s.drop_first());
        0
    } else {
        let t = s.drop_first();
        let j1 = lemma_insert_values_tokens(t);
        let j = j1 + 1;
        assert(s.take(j).drop_first() =~= t.take(j1));
        assert(s.take(j)[0] == s[0]);
        assert(s.skip(j + 1) =~= t.skip(j1 + 1));
        assert forall|i: int| 0 <= i < j implies s.take(j)[i] != TokenModel::Symbol(
            SymbolType::RParen,
        ) && s.take(j)[i] != TokenModel::Symbol(SymbolType::Semicolon) by {
            if i > 0 {
                assert(s.take(j)[i] == t.take(j1)[i - 1]);
            }
        }
        j
    }
}

/// The rows of an `INSERT` command end at the first semicolon, and are the
/// literals before it grouped by closing parentheses.
proof fn lemma_insert_rows_tokens(s: Seq<TokenModel>) -> (e: int)
    requires
        insert_rows(s) is Ok,
    ensures
        0 <= e < s.len(),
        s[e] == TokenModel::Symbol(SymbolType::Semicolon),
        free_of(s.take(e), SymbolType::Semicolon),
        insert_rows(s) == Ok::<Seq<RowModel>, ErrorModel>(paren_groups(s.take(e), Seq::empty())),
    decreases s.len(),
{
    let j = lemma_insert_values_tokens(s);
    let vals = literals_in(s.take(j));
    lemma_insert_values_shrinks(s);
    let rest = s.skip(j + 1);
    assert(rest[0] == s[j + 1]);
    if s[j + 1] == TokenModel::Symbol(SymbolType::Comma) {
        let y = rest.drop_first();
        let e1 = lemma_insert_rows_tokens(y);
        let e = j + 2 + e1;
        let tail = seq![s[j], s[j + 1]] + y.take(e1);
        assert(s.take(e) =~= s.take(j) + tail);
        lemma_paren_groups_append(s.take(j), tail, Seq::empty());
        assert(Seq::<LiteralModel>::empty() + vals =~= vals);
        assert(tail.drop_first() =~= seq![s[j + 1]] + y.take(e1));
        assert((seq![s[j + 1]] + y.take(e1)).drop_first() =~= y.take(e1));
        assert(y[e1] == s[e]);
        assert(tail[0] == s[j]);
        assert((seq![s[j + 1]] + y.take(e1))[0] == s[j + 1]);
        assert(paren_groups(seq![s[j + 1]] + y.take(e1), Seq::empty()) == paren_groups(
            y.take(e1),
            Seq::empty(),
        ));
        assert(paren_groups(tail, vals) == seq![vals] + paren_groups(y.take(e1), Seq::empty()));
        assert(insert_rows(s) == Ok::<Seq<RowModel>, ErrorModel>(seq![vals] + paren_groups(y.take(e1), Seq::empty())));
        assert forall|i: int| 0 <= i < e implies s.take(e)[i] != TokenModel::Symbol(
            SymbolType::Semicolon,
        ) by {
            if i < j {
                assert(s.take(e)[i] == s.take(j)[i]);
            } else if i >= j + 2 {
                assert(s.take(e)[i] == y.take(e1)[i - j - 2]);
            }
        }
        e
    } else {
        let e = j + 1;
        assert(s.take(e) =~= s.take(j) + seq![s[j]]);
        lemma_paren_groups_append(s.take(j), seq![s[j]], Seq::empty());
        assert(Seq::<LiteralModel>::empty() + vals =~= vals);
        assert(seq![s[j]].drop_first() =~= Seq::<TokenModel>::empty());
        assert(paren_groups(seq![s[j]], vals) == seq![vals] + paren_groups(
            Seq::<TokenModel>::empty(),
            Seq::empty(),
        ));
        assert(seq![vals] + Seq::<Seq<LiteralModel>>::empty() =~= seq![vals]);
        assert forall|i: int| 0 <= i < e implies s.take(e)[i] != TokenModel::Symbol(
            SymbolType::Semicolon,
        ) by {
            if i < j {
                assert(s.take(e)[i] == s.take(j)[i]);
            }
        }
        e
    }
}

/// What a successful `INSERT` holds of its tokens: `INSERT INTO <table>
/// VALUES (` starts them, and its rows are, in order and unchanged, the
/// literal tokens up to the first semicolon, one row for each closing
/// parenthesis, each holding the literals after the one before.
pub proof fn law_insert_rows_are_the_literals(
    q: Seq<TokenModel>,
    table: Seq<char>,
    rows: Seq<RowModel>,
)
    requires
        parse_spec(q) == Ok::<RootModel, ErrorModel>(RootModel::Insert((table, rows))),
    ensures
        q.len() > 5,
        q[0] == TokenModel::Keyword("INSERT"@),
        token_value(q[1]) == "INTO"@,
        q[2] == TokenModel::Identifier(table),
        token_value(q[3]) == "VALUES"@,
        q[4] == TokenModel::Symbol(SymbolType::LParen),
        exists|e: int|
            5 <= e < q.len() && q[e] == TokenModel::Symbol(SymbolType::Semicolon) && free_of(
                #[trigger] q.subrange(5, e),
                SymbolType::Semicolon,
            ) && rows == paren_groups(q.subrange(5, e), Seq::empty()),
{
    let q1 = q.drop_first();
    let s = q.skip(5);
    assert(q1.drop_first().drop_first().drop_first().drop_first() =~= s);
    assert(insert_spec(q1) is Ok);
    assert(seq!["INTO"@][0] == "INTO"@);
    assert(seq!["VALUES"@][0] == "VALUES"@);
    assert(seq![SymbolType::LParen][0] == SymbolType::LParen);
    let e1 = lemma_insert_rows_tokens(s);
    let e = e1 + 5;
    assert(q.subrange(5, e) =~= s.take(e1));
    assert(q[e] == s[e1]);
}

/// The identifier tokens of `s`, as their names, in order.
pub open spec fn identifiers_in(s: Seq<TokenModel>) -> Seq<Seq<char>>
    decreases s.len(),
{
    if s.len() == 0 {
        Seq::empty()
    } else {
        match s[0] {
            TokenModel::Identifier(v) => seq![v] + identifiers_in(s.drop_first()),
            _ => identifiers_in(s.drop_first()),
        }
    }
}

proof fn lemma_identifiers_append(a: Seq<TokenModel>, b: Seq<TokenModel>)
    ensures
        identifiers_in(a + b) == identifiers_in(a) + identifiers_in(b),
    decreases a.len(),
{
    if a.len() == 0 {
        assert(a + b =~= b);
        assert(identifiers_in(a) + identifiers_in(b) =~= identifiers_in(b));
    } else {
        assert((a + b)[0] == a[0]);
        assert((a + b).drop_first() =~= a.drop_first() + b);
        lemma_identifiers_append(a.drop_first(), b);
        match a[0] {
            TokenModel::Identifier(v) => {
                assert(seq![v] + (identifiers_in(a.drop_first()) + identifiers_in(b)) =~= (seq![v]
                    + identifiers_in(a.drop_first())) + identifiers_in(b));
            },
            _ => {},
        }
    }
}

/// Whether every token of `s` is a keyword.
pub open spec fn all_keywords(s: Seq<TokenModel>) -> bool {
    forall|i: int| 0 <= i < s.len() ==> s[i] is Keyword
}

proof fn lemma_no_identifiers(s: Seq<TokenModel>)
    requires
        forall|i: int| 0 <= i < s.len() ==> !(s[i] is Identifier),
    ensures
        identifiers_in(s) == Seq::<Seq<char>>::empty(),
    decreases s.len(),
{
    if s.len() > 0 {
        assert(!(s[0] is Identifier));
        assert forall|i: int| 0 <= i < s.drop_first().len() implies !(s.drop_first()[i] is Identifier) by {
            assert(s.drop_first()[i] == s[i + 1]);
        }
        lemma_no_identifiers(s.drop_first());
    }
}

/// Whether every token of `s` may stand in the column list of a `CREATE`
/// command: an identifier, a keyword or a comma.
pub open spec fn column_list_tokens(s: Seq<TokenModel>) -> bool {
    forall|i: int|
        0 <= i < s.len() ==> (s[i] is Identifier || s[i] is Keyword || s[i] == TokenModel::Symbol(
            SymbolType::Comma,
        ))
}

/// The constraints after a column are keywords up to a closing parenthesis or
/// a comma.
proof fn lemma_constraints_tokens(s: Seq<TokenModel>) -> (j: int)
    requires
        create_constraints(s) is Ok,
    ensures
        0 <= j < s.len(),
        all_keywords(s.take(j)),
        s[j] == TokenModel::Symbol(SymbolType::RParen) || s[j] == TokenModel::Symbol(
            SymbolType::Comma,
        ),
        create_constraints(s) == Ok::<Seq<TokenModel>, ErrorModel>(s.skip(j)),
    decreases s.len(),
{
    if s.len() > 0 && (s[0] == TokenModel::Symbol(SymbolType::RParen) || s[0] == TokenModel::Symbol(
        SymbolType::Comma,
    )) {
        assert(seq![SymbolType::RParen, SymbolType::Comma][0] == SymbolType::RParen);
        assert(seq![SymbolType::RParen, SymbolType::Comma][1] == SymbolType::Comma);
        assert(s.skip(0) =~= s);
        0
    } else {
        if s.len() > 0 && s[0] is Symbol {
            let sym = s[0]->Symbol_0;
            if seq![SymbolType::RParen, SymbolType::Comma].contains(sym) {
                let i = choose|i: int|
                    0 <= i < 2 && seq![SymbolType::RParen, SymbolType::Comma][i] == sym;
                assert(i == 0 || i == 1);
            }
        }
        let t = s.drop_first();
        let j1 = lemma_constraints_tokens(t);
        let j = j1 + 1;
        assert(s.skip(j) =~= t.skip(j1));
        assert forall|i: int| 0 <= i < j implies s.take(j)[i] is Keyword by {
            if i > 0 {
                assert(s.take(j)[i] == t.take(j1)[i - 1]);
            }
        }
        j
    }
}

/// The columns of a `CREATE` command end at the first closing parenthesis,
/// and are the identifiers before it.
proof fn lemma_create_columns_tokens(s: Seq<TokenModel>) -> (e: int)
    requires
        create_columns(s) is Ok,
    ensures
        0 <= e < s.len(),
        s[e] == TokenModel::Symbol(SymbolType::RParen),
        column_list_tokens(s.take(e)),
        create_columns(s) == Ok::<(Seq<Seq<char>>, Seq<TokenModel>), ErrorModel>(
            (identifiers_in(s.take(e)), s.skip(e + 1)),
        ),
    decreases s.len(),
{
    if s.len() > 0 && s[0] == TokenModel::Symbol(SymbolType::RParen) {
        assert(seq![SymbolType::RParen][0] == SymbolType::RParen);
        assert(s.take(0) =~= Seq::<TokenModel>::empty());
        assert(s.skip(1) =~= s.drop_first());
        0
    } else {
        if s.len() > 0 && s[0] is Symbol {
            let sym = s[0]->Symbol_0;
            if seq![SymbolType::RParen].contains(sym) {
                assert(seq![SymbolType::RParen][0] == sym);
            }
        }
        let t = s.drop_first();
        let j = lemma_constraints_tokens(t);
        let rest = t.skip(j);
        assert(rest[0] == t[j]);
        let c: int = if t[j] == TokenModel::Symbol(SymbolType::Comma) {
            1
        } else {
            0
        };
        assert(seq![SymbolType::Comma][0] == SymbolType::Comma);
        assert(skip_comma(rest) =~= t.skip(j + c));
        let u = t.skip(j + c);
        lemma_create_constraints_shrinks(t);
        let e1 = lemma_create_columns_tokens(u);
        let e = 1 + j + c + e1;
        let mid = t.take(j + c);
        assert(s.take(e) =~= seq![s[0]] + mid + u.take(e1));
        assert(s.skip(e + 1) =~= u.skip(e1 + 1));
        assert(s[e] == u[e1]);
        assert forall|i: int| 0 <= i < mid.len() implies !(mid[i] is Identifier) by {
            assert(mid[i] == t[i]);
            if i < j {
                assert(t.take(j)[i] == t[i]);
            }
        }
        lemma_no_identifiers(mid);
        lemma_identifiers_append(seq![s[0]] + mid, u.take(e1));
        lemma_identifiers_append(seq![s[0]], mid);
        assert(seq![s[0]].drop_first() =~= Seq::<TokenModel>::empty());
        assert(s[0] is Identifier);
        assert(seq![s[0]][0] == s[0]);
        assert(identifiers_in(Seq::<TokenModel>::empty()) =~= Seq::<Seq<char>>::empty());
        assert(identifiers_in(seq![s[0]]) == seq![token_value(s[0])] + identifiers_in(
            Seq::<TokenModel>::empty(),
        ));
        assert(identifiers_in(seq![s[0]]) =~= seq![token_value(s[0])]);
        assert(identifiers_in(seq![s[0]]) + Seq::<Seq<char>>::empty() =~= identifiers_in(seq![s[0]]));
        assert forall|i: int| 0 <= i < e implies (s.take(e)[i] is Identifier || s.take(e)[i] is Keyword
            || s.take(e)[i] == TokenModel::Symbol(SymbolType::Comma)) by {
            if i == 0 {
            } else if i < 1 + j {
                assert(s.take(e)[i] == t.take(j)[i - 1]);
            } else if i < 1 + j + c {
                assert(s.take(e)[i] == t[j]);
            } else {
                assert(s.take(e)[i] == u.take(e1)[i - 1 - j - c]);
            }
        }
        e
    }
}

/// What a successful `CREATE` holds of its tokens: `CREATE TABLE <table>
/// VALUES (` starts them, the column list that follows is made of
/// identifiers, keywords and commas up to a closing parenthesis and a
/// semicolon, and there is one column for each identifier of that list, in
/// order, whatever the constraint keywords after it.
pub proof fn law_create_columns_are_the_identifiers(
    q: Seq<TokenModel>,
    table: Seq<char>,
    cols: Seq<ColumnModel>,
)
    requires
        parse_spec(q) == Ok::<RootModel, ErrorModel>(RootModel::Create((table, cols))),
    ensures
        q.len() > 6,
        q[0] == TokenModel::Keyword("CREATE"@),
        token_value(q[1]) == "TABLE"@,
        q[2] == TokenModel::Identifier(table),
        token_value(q[3]) == "VALUES"@,
        q[4] == TokenModel::Symbol(SymbolType::LParen),
        exists|e: int|
            5 <= e && e + 1 < q.len() && q[e] == TokenModel::Symbol(SymbolType::RParen) && q[e + 1]
                == TokenModel::Symbol(SymbolType::Semicolon) && column_list_tokens(
                #[trigger] q.subrange(5, e),
            ) && cols.len() == identifiers_in(q.subrange(5, e)).len() && forall|i: int|
                0 <= i < cols.len() ==> #[trigger] cols[i] == (
                    identifiers_in(q.subrange(5, e))[i],
                    None::<Seq<Seq<char>>>,
                ),
{
    let q1 = q.drop_first();
    let s = q.skip(5);
    assert(q1.drop_first().drop_first().drop_first().drop_first() =~= s);
    assert(create_spec(q1) is Ok);
    assert(seq!["TABLE"@][0] == "TABLE"@);
    assert(seq!["VALUES"@][0] == "VALUES"@);
    assert(seq![SymbolType::LParen][0] == SymbolType::LParen);
    assert(seq![SymbolType::Semicolon][0] == SymbolType::Semicolon);
    let e1 = lemma_create_columns_tokens(s);
    let e = e1 + 5;
    assert(q.subrange(5, e) =~= s.take(e1));
    assert(q[e] == s[e1]);
    assert(s.skip(e1 + 1)[0] == q[e + 1]);
}

/// The identifiers after the first column of a `SELECT` command, commas
/// between them, end at the first token that is neither.
proof fn lemma_more_columns_tokens(s: Seq<TokenModel>) -> (m: int)
    requires
        more_columns(s) is Ok,
    ensures
        0 <= m <= s.len(),
        forall|i: int|
            0 <= i < m ==> (#[trigger] s[i] is Identifier || s[i] == TokenModel::Symbol(
                SymbolType::Comma,
            )),
        more_columns(s) == Ok::<(Seq<Seq<char>>, Seq<TokenModel>), ErrorModel>(
            (identifiers_in(s.take(m)), s.skip(m)),
        ),
    decreases s.len(),
{
    assert(seq![SymbolType::Comma][0] == SymbolType::Comma);
    if s.len() > 0 && (s[0] is Identifier || s[0] == TokenModel::Symbol(SymbolType::Comma)) {
        let t = s.drop_first();
        let m1 = lemma_more_columns_tokens(t);
        let m = m1 + 1;
        assert(s.take(m).drop_first() =~= t.take(m1));
        assert(s.take(m)[0] == s[0]);
        assert(s.skip(m) =~= t.skip(m1));
        assert forall|i: int| 0 <= i < m implies (#[trigger] s[i] is Identifier || s[i]
            == TokenModel::Symbol(SymbolType::Comma)) by {
            if i > 0 {
                assert(s[i] == t[i - 1]);
            }
        }
        m
    } else {
        if s.len() > 0 && s[0] is Symbol {
            let sym = s[0]->Symbol_0;
            if seq![SymbolType::Comma].contains(sym) {
                assert(seq![SymbolType::Comma][0] == sym);
            }
        }
        assert(s.take(0) =~= Seq::<TokenModel>::empty());
        assert(s.skip(0) =~= s);
        0
    }
}

/// The conditions read after `WHERE`, where each has three tokens, are the
/// tokens that follow, three by three.
proof fn lemma_where_triples(s: Seq<TokenModel>, cs: Seq<RawCondition>, rest: Seq<TokenModel>)
    requires
        where_conditions(s) == Ok::<(Seq<RawCondition>, Seq<TokenModel>), ErrorModel>((cs, rest)),
        forall|i: int| 0 <= i < cs.len() ==> (#[trigger] cs[i]).1 is Some,
    ensures
        3 * cs.len() <= s.len(),
        rest == s.skip(3 * cs.len() as int),
        forall|i: int|
            0 <= i < cs.len() ==> (#[trigger] cs[i]).0 == s[3 * i] && cs[i].1 == Some(s[3 * i + 1])
                && cs[i].2 == Some(s[3 * i + 2]),
    decreases s.len(),
{
    if s.len() == 0 || (s[0] is Symbol && seq![SymbolType::Semicolon].contains(s[0]->Symbol_0)) {
        assert(s.skip(0) =~= s);
    } else if seq!["AND"@, "OR"@].contains(token_value(s[0])) {
        assert(cs[0].1 is Some);
    } else {
        let t = s.skip(3);
        let cs1 = cs.drop_first();
        let (cs2, rest2) = where_conditions(t)->Ok_0;
        assert(cs =~= seq![(s[0], Some(s[1]), Some(s[2]))] + cs2);
        assert(cs1 =~= cs2);
        assert(rest == rest2);
        assert(cs =~= seq![cs[0]] + cs1);
        assert forall|i: int| 0 <= i < cs1.len() implies (#[trigger] cs1[i]).1 is Some by {
            assert(cs1[i] == cs[i + 1]);
        }
        lemma_where_triples(t, cs1, rest);
        assert(t.skip(3 * cs1.len() as int) =~= s.skip(3 * cs.len() as int));
        assert forall|i: int| 0 <= i < cs.len() implies (#[trigger] cs[i]).0 == s[3 * i] && cs[i].1
            == Some(s[3 * i + 1]) && cs[i].2 == Some(s[3 * i + 2]) by {
            if i > 0 {
                assert(cs[i] == cs1[i - 1]);
                assert(t[3 * (i - 1)] == s[3 * i]);
                assert(t[3 * (i - 1) + 1] == s[3 * i + 1]);
                assert(t[3 * (i - 1) + 2] == s[3 * i + 2]);
            }
        }
    }
}

/// The conditions of a successful `SELECT` are each a column, an operator
/// and a literal, kept as they stand, and none is linked to the next.
proof fn lemma_condition_nodes_shape(cs: Seq<RawCondition>, i: int, ns: Seq<ConditionModel>)
    requires
        0 <= i <= cs.len(),
        condition_nodes(cs, i) == Ok::<Seq<ConditionModel>, ErrorModel>(ns),
    ensures
        ns.len() == cs.len() - i,
        forall|j: int|
            i <= j < cs.len() ==> {
                let n = #[trigger] ns[j - i];
                &&& cs[j].0 == TokenModel::Identifier(n.left)
                &&& cs[j].1 == Some(TokenModel::Symbol(n.operator))
                &&& (cs[j].2 matches Some(TokenModel::Literal(v, _)) && v == n.right.0)
                &&& n.right.1 == LiteralType::String
                &&& n.logic is None
            },
    decreases cs.len() - i,
{
    if i < cs.len() {
        let rest = condition_nodes(cs, i + 1)->Ok_0;
        lemma_condition_nodes_shape(cs, i + 1, rest);
        assert(ns == seq![ns[0]] + rest);
        if i + 1 < cs.len() {
            assert(rest[0] == rest[(i + 1) - (i + 1)]);
        }
        assert(next_logic(cs, i) is None);
        assert forall|j: int| i <= j < cs.len() implies {
            let n = #[trigger] ns[j - i];
            &&& cs[j].0 == TokenModel::Identifier(n.left)
            &&& cs[j].1 == Some(TokenModel::Symbol(n.operator))
            &&& (cs[j].2 matches Some(TokenModel::Literal(v, _)) && v == n.right.0)
            &&& n.right.1 == LiteralType::String
            &&& n.logic is None
        } by {
            if j > i {
                assert(ns[j - i] == rest[j - (i + 1)]);
            }
        }
    } else {
        assert(ns =~= Seq::<ConditionModel>::empty());
    }
}

/// The conditions after `WHERE` in a successful `SELECT`: three tokens each,
/// a column, an operator and a literal, then a semicolon.
proof fn lemma_where_tokens(
    wt: Seq<TokenModel>,
    cs: Seq<RawCondition>,
    rest: Seq<TokenModel>,
    conds: Seq<ConditionModel>,
)
    requires
        where_conditions(wt) == Ok::<(Seq<RawCondition>, Seq<TokenModel>), ErrorModel>((cs, rest)),
        rest.len() > 0,
        rest[0] == TokenModel::Symbol(SymbolType::Semicolon),
        condition_nodes(cs, 0) == Ok::<Seq<ConditionModel>, ErrorModel>(conds),
    ensures
        3 * conds.len() < wt.len(),
        wt[3 * conds.len() as int] == TokenModel::Symbol(SymbolType::Semicolon),
        forall|i: int|
            0 <= i < conds.len() ==> {
                let c = #[trigger] conds[i];
                &&& wt[3 * i] == TokenModel::Identifier(c.left)
                &&& wt[3 * i + 1] == TokenModel::Symbol(c.operator)
                &&& (wt[3 * i + 2] matches TokenModel::Literal(v, _) && v == c.right.0)
                &&& c.right.1 == LiteralType::String
                &&& c.logic is None
            },
{
    lemma_condition_nodes_shape(cs, 0, conds);
    assert forall|i: int| 0 <= i < cs.len() implies (#[trigger] cs[i]).1 is Some by {
        assert(conds[i - 0] == conds[i]);
    }
    lemma_where_triples(wt, cs, rest);
    assert(rest[0] == wt[3 * cs.len() as int]);
    assert forall|i: int| 0 <= i < conds.len() implies {
        let c = #[trigger] conds[i];
        &&& wt[3 * i] == TokenModel::Identifier(c.left)
        &&& wt[3 * i + 1] == TokenModel::Symbol(c.operator)
        &&& (wt[3 * i + 2] matches TokenModel::Literal(v, _) && v == c.right.0)
        &&& c.right.1 == LiteralType::String
        &&& c.logic is None
    } by {
        assert(conds[i - 0] == conds[i]);
        assert(cs[i].0 == wt[3 * i]);
    }
}

/// What a successful `SELECT` holds of its tokens, on the tokens on which the
/// parser returns: `SELECT`, the columns (the first an identifier or `*`,
/// named `STAR`, the others the identifiers up to `FROM`, commas between them
/// passed over), `FROM <table>`, and then either a semicolon, with no
/// condition, or `WHERE` and the conditions three tokens each up to a
/// semicolon. Each condition keeps the column, the operator symbol and the
/// text of the literal that stand in its place, in order; its literal is
/// typed as a string, and no condition is linked to the next.
pub proof fn law_select_matches_its_tokens(
    q: Seq<TokenModel>,
    cols: Seq<Seq<char>>,
    table: Seq<char>,
    conds: Seq<ConditionModel>,
)
    requires
        parse_spec(q) == Ok::<RootModel, ErrorModel>(RootModel::Select((cols, table, conds))),
        !parse_loops(q),
    ensures
        q[0] == TokenModel::Keyword("SELECT"@),
        cols.len() >= 1,
        q[1] == TokenModel::Identifier(cols[0]) || (q[1] == TokenModel::Symbol(SymbolType::Star)
            && cols[0] == "STAR"@),
        exists|k: int|
            3 <= k && k + 1 < q.len() && q[k] == TokenModel::Identifier(table) && token_value(
                q[k - 1],
            ) == "FROM"@ && (forall|i: int|
                2 <= i < k - 1 ==> (#[trigger] q[i] is Identifier || q[i] == TokenModel::Symbol(
                    SymbolType::Comma,
                ))) && cols.drop_first() == identifiers_in(#[trigger] q.subrange(2, k - 1)) && ((
            conds.len() == 0 && q[k + 1] == TokenModel::Symbol(SymbolType::Semicolon)) || (
            token_value(q[k + 1]) == "WHERE"@ && k + 2 + 3 * conds.len() < q.len() && q[k + 2 + 3
                * conds.len()] == TokenModel::Symbol(SymbolType::Semicolon) && forall|i: int|
                0 <= i < conds.len() ==> {
                    let c = #[trigger] conds[i];
                    &&& q[k + 2 + 3 * i] == TokenModel::Identifier(c.left)
                    &&& q[k + 3 + 3 * i] == TokenModel::Symbol(c.operator)
                    &&& (q[k + 4 + 3 * i] matches TokenModel::Literal(v, _) && v == c.right.0)
                    &&& c.right.1 == LiteralType::String
                    &&& c.logic is None
                })),
{
    let q1 = q.drop_first();
    assert(select_spec(q1) is Ok);
    let c0 = first_column(q1)->Ok_0;
    let s = q1.drop_first();
    assert(s =~= q.skip(2));
    let m = lemma_more_columns_tokens(s);
    let q2 = s.skip(m);
    let k = m + 3;
    assert(seq!["FROM"@][0] == "FROM"@);
    assert(q2[0] == q[k - 1]);
    assert(q2.drop_first()[0] == q[k]);
    let ws = q2.drop_first().drop_first();
    assert(ws =~= q.skip(k + 1));
    assert(cols == seq![c0] + identifiers_in(s.take(m)));
    assert(cols.drop_first() =~= identifiers_in(s.take(m)));
    assert(q.subrange(2, k - 1) =~= s.take(m));
    assert forall|i: int| 2 <= i < k - 1 implies (#[trigger] q[i] is Identifier || q[i]
        == TokenModel::Symbol(SymbolType::Comma)) by {
        assert(q[i] == s[i - 2]);
    }
    assert(seq![SymbolType::Semicolon][0] == SymbolType::Semicolon);
    if ws.len() > 0 && ws[0] is Symbol && seq![SymbolType::Semicolon].contains(ws[0]->Symbol_0) {
        assert(ws[0] == q[k + 1]);
        assert(conds =~= Seq::<ConditionModel>::empty());
    } else {
        let (cs, rest) = where_clause(ws)->Ok_0;
        assert(ws.len() > 0 && token_value(ws[0]) == "WHERE"@);
        assert(ws[0] == q[k + 1]);
        let wt = ws.drop_first();
        assert(wt =~= q.skip(k + 2));
        lemma_where_tokens(wt, cs, rest, conds);
        assert(wt[3 * conds.len() as int] == q[k + 2 + 3 * conds.len()]);
        assert forall|i: int| 0 <= i < conds.len() implies {
            let c = #[trigger] conds[i];
            &&& q[k + 2 + 3 * i] == TokenModel::Identifier(c.left)
            &&& q[k + 3 + 3 * i] == TokenModel::Symbol(c.operator)
            &&& (q[k + 4 + 3 * i] matches TokenModel::Literal(v, _) && v == c.right.0)
            &&& c.right.1 == LiteralType::String
            &&& c.logic is None
        } by {
            assert(wt[3 * i] == q[k + 2 + 3 * i]);
            assert(wt[3 * i + 1] == q[k + 3 + 3 * i]);
            assert(wt[3 * i + 2] == q[k + 4 + 3 * i]);
        }
    }
}

/// The tokens of the literals `r`, each after a comma.
pub open spec fn comma_literal_tokens(r: RowModel) -> Seq<TokenModel>
    decreases r.len(),
{
    if r.len() == 0 {
        Seq::empty()
    } else {
        seq![TokenModel::Symbol(SymbolType::Comma), TokenModel::Literal(r[0].0, r[0].1)]
            + comma_literal_tokens(r.drop_first())
    }
}

/// The tokens of the literals of a row, commas between them.
pub open spec fn literal_tokens(r: RowModel) -> Seq<TokenModel> {
    if r.len() == 0 {
        Seq::empty()
    } else {
        seq![TokenModel::Literal(r[0].0, r[0].1)] + comma_literal_tokens(r.drop_first())
    }
}

/// The tokens that write the rows `rs` of an `INSERT` command: each row in
/// parentheses, commas between them, and a semicolon.
pub open spec fn rows_tokens(rs: Seq<RowModel>) -> Seq<TokenModel>
    decreases rs.len(),
{
    if rs.len() == 0 {
        Seq::empty()
    } else {
        seq![TokenModel::Symbol(SymbolType::LParen)] + literal_tokens(rs[0]) + seq![
            TokenModel::Symbol(SymbolType::RParen),
        ] + if rs.len() == 1 {
            seq![TokenModel::Symbol(SymbolType::Semicolon)]
        } else {
            seq![TokenModel::Symbol(SymbolType::Comma)] + rows_tokens(rs.drop_first())
        }
    }
}

/// The tokens of `INSERT INTO <table> VALUES` and the rows `rs`.
pub open spec fn insert_tokens(table: Seq<char>, rs: Seq<RowModel>) -> Seq<TokenModel> {
    seq![
        TokenModel::Keyword("INSERT"@),
        TokenModel::Keyword("INTO"@),
        TokenModel::Identifier(table),
        TokenModel::Keyword("VALUES"@),
    ] + rows_tokens(rs)
}

proof fn lemma_insert_values_of_commas(r: RowModel, x: Seq<TokenModel>)
    ensures
        insert_values(comma_literal_tokens(r) + seq![TokenModel::Symbol(SymbolType::RParen)] + x)
            == Ok::<(RowModel, Seq<TokenModel>), ErrorModel>((r, x)),
    decreases r.len(),
{
    let s = comma_literal_tokens(r) + seq![TokenModel::Symbol(SymbolType::RParen)] + x;
    if r.len() == 0 {
        assert(s =~= seq![TokenModel::Symbol(SymbolType::RParen)] + x);
        assert(s.drop_first() =~= x);
        assert(r =~= Seq::<LiteralModel>::empty());
    } else {
        let r1 = r.drop_first();
        lemma_insert_values_of_commas(r1, x);
        let s1 = s.drop_first();
        assert(s[0] == TokenModel::Symbol(SymbolType::Comma));
        assert(s1[0] == TokenModel::Literal(r[0].0, r[0].1));
        assert(s1.drop_first() =~= comma_literal_tokens(r1) + seq![
            TokenModel::Symbol(SymbolType::RParen),
        ] + x);
        assert(insert_values(s1) == Ok::<(RowModel, Seq<TokenModel>), ErrorModel>(
            (seq![(r[0].0, r[0].1)] + r1, x),
        ));
        assert(seq![(r[0].0, r[0].1)] + r1 =~= r);
    }
}

proof fn lemma_insert_values_of_row(r: RowModel, x: Seq<TokenModel>)
    ensures
        insert_values(literal_tokens(r) + seq![TokenModel::Symbol(SymbolType::RParen)] + x) == Ok::<
            (RowModel, Seq<TokenModel>),
            ErrorModel,
        >((r, x)),
{
    let s = literal_tokens(r) + seq![TokenModel::Symbol(SymbolType::RParen)] + x;
    if r.len() == 0 {
        assert(s =~= seq![TokenModel::Symbol(SymbolType::RParen)] + x);
        assert(s.drop_first() =~= x);
        assert(r =~= Seq::<LiteralModel>::empty());
    } else {
        let r1 = r.drop_first();
        lemma_insert_values_of_commas(r1, x);
        assert(s[0] == TokenModel::Literal(r[0].0, r[0].1));
        assert(s.drop_first() =~= comma_literal_tokens(r1) + seq![
            TokenModel::Symbol(SymbolType::RParen),
        ] + x);
        assert(seq![(r[0].0, r[0].1)] + r1 =~= r);
    }
}

proof fn lemma_insert_rows_of(rs: Seq<RowModel>)
    requires
        rs.len() > 0,
    ensures
        insert_rows(rows_tokens(rs)) == Ok::<Seq<RowModel>, ErrorModel>(rs),
        insert_rows(rows_tokens(rs).drop_first()) == Ok::<Seq<RowModel>, ErrorModel>(rs),
    decreases rs.len(),
{
    let t = rows_tokens(rs);
    let tail = if rs.len() == 1 {
        seq![TokenModel::Symbol(SymbolType::Semicolon)]
    } else {
        seq![TokenModel::Symbol(SymbolType::Comma)] + rows_tokens(rs.drop_first())
    };
    assert(t.drop_first() =~= literal_tokens(rs[0]) + seq![TokenModel::Symbol(SymbolType::RParen)]
        + tail);
    assert(t[0] == TokenModel::Symbol(SymbolType::LParen));
    lemma_insert_values_of_row(rs[0], tail);
    assert(insert_values(t) == insert_values(t.drop_first()));
    if rs.len() == 1 {
        assert(rs =~= seq![rs[0]]);
    } else {
        lemma_insert_rows_of(rs.drop_first());
        assert(tail.drop_first() =~= rows_tokens(rs.drop_first()));
        assert(rs =~= seq![rs[0]] + rs.drop_first());
    }
}

/// Reading back written rows: the tokens of `INSERT INTO <table> VALUES` and
/// one or more rows of literals, each in parentheses with commas between its
/// literals, commas between the rows and a semicolon after the last, form
/// exactly that command, with those rows, every literal keeping its text and
/// its type.
pub proof fn law_insert_reads_back(table: Seq<char>, rows: Seq<RowModel>)
    requires
        rows.len() > 0,
    ensures
        parse_spec(insert_tokens(table, rows)) == Ok::<RootModel, ErrorModel>(
            RootModel::Insert((table, rows)),
        ),
        !parse_loops(insert_tokens(table, rows)),
{
    reveal_strlit("INSERT");
    reveal_strlit("CREATE");
    reveal_strlit("SELECT");
    let q = insert_tokens(table, rows);
    let q1 = q.drop_first();
    lemma_insert_rows_of(rows);
    let t = rows_tokens(rows);
    assert(q1 =~= seq![
        TokenModel::Keyword("INTO"@),
        TokenModel::Identifier(table),
        TokenModel::Keyword("VALUES"@),
    ] + t);
    assert(q1.drop_first().drop_first().drop_first() =~= t);
    assert(q1.drop_first().drop_first().drop_first().drop_first() =~= t.drop_first());
    assert(seq!["INTO"@][0] == "INTO"@);
    assert(seq!["VALUES"@][0] == "VALUES"@);
    assert(seq![SymbolType::LParen][0] == SymbolType::LParen);
    assert(q[0] == TokenModel::Keyword("INSERT"@));
    assert("INSERT"@[0] != "CREATE"@[0]);
    assert("INSERT"@[0] != "SELECT"@[0]);
}

/// A column as written: its name and its constraint keywords.
pub type ColumnText = (Seq<char>, Seq<Seq<char>>);

/// The tokens of a column: its name, then its constraint keywords.
pub open spec fn column_tokens(c: ColumnText) -> Seq<TokenModel> {
    seq![TokenModel::Identifier(c.0)] + c.1.map_values(|k: Seq<char>| TokenModel::Keyword(k))
}

/// The tokens of the columns `cs`, commas between them.
pub open spec fn columns_tokens(cs: Seq<ColumnText>) -> Seq<TokenModel>
    decreases cs.len(),
{
    if cs.len() == 0 {
        Seq::empty()
    } else if cs.len() == 1 {
        column_tokens(cs[0])
    } else {
        column_tokens(cs[0]) + seq![TokenModel::Symbol(SymbolType::Comma)] + columns_tokens(
            cs.drop_first(),
        )
    }
}

/// The tokens of `CREATE TABLE <table> VALUES (`, the columns `cs`, `)` and
/// `;`.
pub open spec fn create_tokens(table: Seq<char>, cs: Seq<ColumnText>) -> Seq<TokenModel> {
    seq![
        TokenModel::Keyword("CREATE"@),
        TokenModel::Keyword("TABLE"@),
        TokenModel::Identifier(table),
        TokenModel::Keyword("VALUES"@),
        TokenModel::Symbol(SymbolType::LParen),
    ] + columns_tokens(cs) + seq![
        TokenModel::Symbol(SymbolType::RParen),
        TokenModel::Symbol(SymbolType::Semicolon),
    ]
}

proof fn lemma_constraints_of(ks: Seq<Seq<char>>, x: Seq<TokenModel>)
    requires
        x.len() > 0,
        x[0] == TokenModel::Symbol(SymbolType::RParen) || x[0] == TokenModel::Symbol(
            SymbolType::Comma,
        ),
    ensures
        create_constraints(ks.map_values(|k: Seq<char>| TokenModel::Keyword(k)) + x) == Ok::<
            Seq<TokenModel>,
            ErrorModel,
        >(x),
    decreases ks.len(),
{
    let s = ks.map_values(|k: Seq<char>| TokenModel::Keyword(k)) + x;
    assert(seq![SymbolType::RParen, SymbolType::Comma][0] == SymbolType::RParen);
    assert(seq![SymbolType::RParen, SymbolType::Comma][1] == SymbolType::Comma);
    if ks.len() == 0 {
        assert(s =~= x);
    } else {
        lemma_constraints_of(ks.drop_first(), x);
        assert(s[0] == TokenModel::Keyword(ks[0]));
        assert(s.drop_first() =~= ks.drop_first().map_values(|k: Seq<char>| TokenModel::Keyword(k))
            + x);
    }
}

proof fn lemma_create_columns_of(cs: Seq<ColumnText>, x: Seq<TokenModel>)
    ensures
        create_columns(columns_tokens(cs) + seq![TokenModel::Symbol(SymbolType::RParen)] + x)
            == Ok::<(Seq<Seq<char>>, Seq<TokenModel>), ErrorModel>(
            (cs.map_values(|c: ColumnText| c.0), x),
        ),
    decreases cs.len(),
{
    let s = columns_tokens(cs) + seq![TokenModel::Symbol(SymbolType::RParen)] + x;
    assert(seq![SymbolType::RParen][0] == SymbolType::RParen);
    assert(seq![SymbolType::Comma][0] == SymbolType::Comma);
    if cs.len() == 0 {
        assert(s =~= seq![TokenModel::Symbol(SymbolType::RParen)] + x);
        assert(s.drop_first() =~= x);
        assert(cs.map_values(|c: ColumnText| c.0) =~= Seq::<Seq<char>>::empty());
    } else {
        let c = cs[0];
        let kws = c.1.map_values(|k: Seq<char>| TokenModel::Keyword(k));
        let after = if cs.len() == 1 {
            seq![TokenModel::Symbol(SymbolType::RParen)] + x
        } else {
            seq![TokenModel::Symbol(SymbolType::Comma)] + columns_tokens(cs.drop_first()) + seq![
                TokenModel::Symbol(SymbolType::RParen),
            ] + x
        };
        assert(s =~= seq![TokenModel::Identifier(c.0)] + kws + after);
        assert(s[0] == TokenModel::Identifier(c.0));
        assert(s.drop_first() =~= kws + after);
        lemma_constraints_of(c.1, after);
        lemma_create_columns_of(cs.drop_first(), x);
        if cs.len() == 1 {
            assert(skip_comma(after) == after);
            assert(cs.drop_first() =~= Seq::<ColumnText>::empty());
            assert(columns_tokens(cs.drop_first()) =~= Seq::<TokenModel>::empty());
            assert(after =~= columns_tokens(cs.drop_first()) + seq![
                TokenModel::Symbol(SymbolType::RParen),
            ] + x);
        } else {
            assert(skip_comma(after) =~= columns_tokens(cs.drop_first()) + seq![
                TokenModel::Symbol(SymbolType::RParen),
            ] + x);
        }
        assert(cs.map_values(|c: ColumnText| c.0) =~= seq![c.0] + cs.drop_first().map_values(
            |c: ColumnText| c.0,
        ));
    }
}

/// Reading back a written table: the tokens of `CREATE TABLE <table> VALUES
/// (`, columns each named by an identifier and followed by any constraint
/// keywords, commas between them, `)` and `;` form exactly that command, with
/// one column for each name, in order, its constraints left out.
pub proof fn law_create_reads_back(table: Seq<char>, cols: Seq<ColumnText>)
    ensures
        parse_spec(create_tokens(table, cols)) == Ok::<RootModel, ErrorModel>(
            RootModel::Create(
                (table, cols.map_values(|c: ColumnText| (c.0, None::<Seq<Seq<char>>>))),
            ),
        ),
        !parse_loops(create_tokens(table, cols)),
{
    reveal_strlit("CREATE");
    reveal_strlit("SELECT");
    let q = create_tokens(table, cols);
    let q1 = q.drop_first();
    let x = seq![TokenModel::Symbol(SymbolType::Semicolon)];
    lemma_create_columns_of(cols, x);
    assert(q1.drop_first().drop_first().drop_first().drop_first() =~= columns_tokens(cols) + seq![
        TokenModel::Symbol(SymbolType::RParen),
    ] + x);
    assert(q1[0] == TokenModel::Keyword("TABLE"@));
    assert(q1[1] == TokenModel::Identifier(table));
    assert(q1[2] == TokenModel::Keyword("VALUES"@));
    assert(q1[3] == TokenModel::Symbol(SymbolType::LParen));
    assert(q1.drop_first()[0] == q1[1]);
    assert(q1.drop_first().drop_first()[0] == q1[2]);
    assert(q1.drop_first().drop_first().drop_first()[0] == q1[3]);
    assert(seq!["TABLE"@][0] == "TABLE"@);
    assert(seq!["VALUES"@][0] == "VALUES"@);
    assert(seq![SymbolType::LParen][0] == SymbolType::LParen);
    assert(seq![SymbolType::Semicolon][0] == SymbolType::Semicolon);
    assert(q[0] == TokenModel::Keyword("CREATE"@));
    assert("CREATE"@[0] != "SELECT"@[0]);
    assert(cols.map_values(|c: ColumnText| c.0).map_values(
        |c: Seq<char>| (c, None::<Seq<Seq<char>>>),
    ) =~= cols.map_values(|c: ColumnText| (c.0, None::<Seq<Seq<char>>>)));
}

/// A condition as written: the column, the operator symbol, and the text and
/// type of the literal.
pub type ConditionText = (Seq<char>, SymbolType, Seq<char>, LiteralType);

/// The tokens of the conditions `cs`, three each.
pub open spec fn conditions_tokens(cs: Seq<ConditionText>) -> Seq<TokenModel>
    decreases cs.len(),
{
    if cs.len() == 0 {
        Seq::empty()
    } else {
        seq![
            TokenModel::Identifier(cs[0].0),
            TokenModel::Symbol(cs[0].1),
            TokenModel::Literal(cs[0].2, cs[0].3),
        ] + conditions_tokens(cs.drop_first())
    }
}

/// The tokens of the column names `ns`, each after a comma.
pub open spec fn comma_names_tokens(ns: Seq<Seq<char>>) -> Seq<TokenModel>
    decreases ns.len(),
{
    if ns.len() == 0 {
        Seq::empty()
    } else {
        seq![TokenModel::Symbol(SymbolType::Comma), TokenModel::Identifier(ns[0])]
            + comma_names_tokens(ns.drop_first())
    }
}

/// The tokens of `SELECT`, the columns (`*` first where `star` holds, then
/// the names, commas between them), `FROM <table>`, `WHERE` and the
/// conditions where there are any, and `;`.
pub open spec fn select_tokens(
    star: bool,
    names: Seq<Seq<char>>,
    table: Seq<char>,
    conds: Seq<ConditionText>,
) -> Seq<TokenModel> {
    seq![TokenModel::Keyword("SELECT"@)] + (if star {
        seq![TokenModel::Symbol(SymbolType::Star)] + comma_names_tokens(names)
    } else {
        seq![TokenModel::Identifier(names[0])] + comma_names_tokens(names.drop_first())
    }) + seq![TokenModel::Keyword("FROM"@), TokenModel::Identifier(table)] + (if conds.len()
        == 0 {
        Seq::empty()
    } else {
        seq![TokenModel::Keyword("WHERE"@)] + conditions_tokens(conds)
    }) + seq![TokenModel::Symbol(SymbolType::Semicolon)]
}

/// The condition that a written condition stands for.
pub open spec fn condition_of(c: ConditionText) -> ConditionModel {
    ConditionModel { left: c.0, operator: c.1, right: (c.2, LiteralType::String), logic: None }
}

spec fn raw_of(c: ConditionText) -> RawCondition {
    (
        TokenModel::Identifier(c.0),
        Some(TokenModel::Symbol(c.1)),
        Some(TokenModel::Literal(c.2, c.3)),
    )
}

proof fn lemma_more_columns_of(ns: Seq<Seq<char>>, x: Seq<TokenModel>)
    requires
        x.len() > 0,
        x[0] is Keyword,
    ensures
        more_columns(comma_names_tokens(ns) + x) == Ok::<(Seq<Seq<char>>, Seq<TokenModel>), ErrorModel>(
            (ns, x),
        ),
    decreases ns.len(),
{
    let s = comma_names_tokens(ns) + x;
    assert(seq![SymbolType::Comma][0] == SymbolType::Comma);
    if ns.len() == 0 {
        assert(s =~= x);
        assert(ns =~= Seq::<Seq<char>>::empty());
    } else {
        lemma_more_columns_of(ns.drop_first(), x);
        assert(s[0] == TokenModel::Symbol(SymbolType::Comma));
        assert(s.drop_first()[0] == TokenModel::Identifier(ns[0]));
        assert(s.drop_first().drop_first() =~= comma_names_tokens(ns.drop_first()) + x);
        assert(more_columns(s.drop_first()) == Ok::<(Seq<Seq<char>>, Seq<TokenModel>), ErrorModel>(
            (seq![ns[0]] + ns.drop_first(), x),
        ));
        assert(ns =~= seq![ns[0]] + ns.drop_first());
    }
}

proof fn lemma_where_of(cs: Seq<ConditionText>, x: Seq<TokenModel>)
    requires
        x.len() > 0,
        x[0] == TokenModel::Symbol(SymbolType::Semicolon),
        forall|i: int| 0 <= i < cs.len() ==> (#[trigger] cs[i]).0 != "AND"@ && cs[i].0 != "OR"@,
    ensures
        where_conditions(conditions_tokens(cs) + x) == Ok::<
            (Seq<RawCondition>, Seq<TokenModel>),
            ErrorModel,
        >((cs.map_values(|c: ConditionText| raw_of(c)), x)),
    decreases cs.len(),
{
    let s = conditions_tokens(cs) + x;
    assert(seq![SymbolType::Semicolon][0] == SymbolType::Semicolon);
    if cs.len() == 0 {
        assert(s =~= x);
        assert(cs.map_values(|c: ConditionText| raw_of(c)) =~= Seq::<RawCondition>::empty());
    } else {
        let c = cs[0];
        let rest = cs.drop_first();
        assert forall|i: int| 0 <= i < rest.len() implies (#[trigger] rest[i]).0 != "AND"@
            && rest[i].0 != "OR"@ by {
            assert(rest[i] == cs[i + 1]);
        }
        lemma_where_of(rest, x);
        assert(s[0] == TokenModel::Identifier(c.0));
        assert(s[1] == TokenModel::Symbol(c.1));
        assert(s[2] == TokenModel::Literal(c.2, c.3));
        assert(s.skip(3) =~= conditions_tokens(rest) + x);
        if seq!["AND"@, "OR"@].contains(c.0) {
            let i = choose|i: int| 0 <= i < 2 && seq!["AND"@, "OR"@][i] == c.0;
            assert(i == 0 || i == 1);
        }
        assert(cs.map_values(|c: ConditionText| raw_of(c)) =~= seq![raw_of(c)] + rest.map_values(
            |c: ConditionText| raw_of(c),
        ));
    }
}

proof fn lemma_nodes_of(cs: Seq<ConditionText>, i: int)
    requires
        0 <= i <= cs.len(),
    ensures
        condition_nodes(cs.map_values(|c: ConditionText| raw_of(c)), i) == Ok::<
            Seq<ConditionModel>,
            ErrorModel,
        >(cs.map_values(|c: ConditionText| condition_of(c)).skip(i)),
    decreases cs.len() - i,
{
    let r = cs.map_values(|c: ConditionText| raw_of(c));
    let m = cs.map_values(|c: ConditionText| condition_of(c));
    if i == cs.len() {
        assert(m.skip(i) =~= Seq::<ConditionModel>::empty());
    } else {
        lemma_nodes_of(cs, i + 1);
        assert(r[i] == raw_of(cs[i]));
        if i + 1 < cs.len() {
            assert(r[i + 1] == raw_of(cs[i + 1]));
        }
        assert(next_logic(r, i) is None);
        assert(m.skip(i) =~= seq![condition_of(cs[i])] + m.skip(i + 1));
    }
}

/// Reading back a written query: the tokens of `SELECT`, the columns (`*`
/// and then names, or names alone, commas between them), `FROM <table>`,
/// `WHERE` and conditions of three tokens each where there are any, and `;`
/// form exactly that query, and the parser returns on them. The columns are
/// `STAR` for `*` and the names, in order; each condition keeps its column,
/// its operator and the text of its literal, typed as a string, and none is
/// linked to the next. A condition's column may not be named `AND` or `OR`.
pub proof fn law_select_reads_back(
    star: bool,
    names: Seq<Seq<char>>,
    table: Seq<char>,
    conds: Seq<ConditionText>,
)
    requires
        star || names.len() > 0,
        forall|i: int| 0 <= i < conds.len() ==> (#[trigger] conds[i]).0 != "AND"@ && conds[i].0 != "OR"@,
    ensures
        parse_spec(select_tokens(star, names, table, conds)) == Ok::<RootModel, ErrorModel>(
            RootModel::Select(
                (
                    if star {
                        seq!["STAR"@] + names
                    } else {
                        names
                    },
                    table,
                    conds.map_values(|c: ConditionText| condition_of(c)),
                ),
            ),
        ),
        !parse_loops(select_tokens(star, names, table, conds)),
{
    reveal_strlit("CREATE");
    reveal_strlit("SELECT");
    let q = select_tokens(star, names, table, conds);
    let q1 = q.drop_first();
    let wpart = if conds.len() == 0 {
        Seq::<TokenModel>::empty()
    } else {
        seq![TokenModel::Keyword("WHERE"@)] + conditions_tokens(conds)
    };
    let semi = seq![TokenModel::Symbol(SymbolType::Semicolon)];
    let x = seq![TokenModel::Keyword("FROM"@), TokenModel::Identifier(table)] + wpart + semi;
    let rest_names = if star {
        names
    } else {
        names.drop_first()
    };
    let first = if star {
        TokenModel::Symbol(SymbolType::Star)
    } else {
        TokenModel::Identifier(names[0])
    };
    assert(q =~= seq![TokenModel::Keyword("SELECT"@)] + (seq![first] + comma_names_tokens(
        rest_names,
    )) + x);
    assert(q1 =~= seq![first] + (comma_names_tokens(rest_names) + x));
    assert(q1[0] == first);
    assert(q1.drop_first() =~= comma_names_tokens(rest_names) + x);
    lemma_more_columns_of(rest_names, x);
    let ws = wpart + semi;
    assert(x.drop_first().drop_first() =~= ws);
    assert(seq!["FROM"@][0] == "FROM"@);
    assert(seq![SymbolType::Semicolon][0] == SymbolType::Semicolon);
    lemma_nodes_of(conds, 0);
    assert(conds.map_values(|c: ConditionText| condition_of(c)).skip(0) =~= conds.map_values(
        |c: ConditionText| condition_of(c),
    ));
    if conds.len() == 0 {
        assert(ws =~= semi);
        assert(conds.map_values(|c: ConditionText| raw_of(c)) =~= Seq::<RawCondition>::empty());
    } else {
        assert(ws.drop_first() =~= conditions_tokens(conds) + semi);
        assert(ws[0] == TokenModel::Keyword("WHERE"@));
        lemma_where_of(conds, semi);
    }
    if star {
        assert(seq!["STAR"@] + names == seq!["STAR"@] + rest_names);
    } else {
        assert(names =~= seq![names[0]] + rest_names);
    }
    assert(q[0] == TokenModel::Keyword("SELECT"@));
    assert("SELECT"@[0] != "CREATE"@[0]);
}

/// A command starts with one of the keywords `CREATE`, `SELECT` and
/// `INSERT`: with no token the keyword is missing, a first token that is no
/// keyword is an invalid token, and any other keyword an invalid value.
pub proof fn law_command_keyword(q: Seq<TokenModel>)
    ensures
        q.len() == 0 ==> parse_spec(q) == Err::<RootModel, ErrorModel>(
            ErrorModel::MissingToken(Some(TokenTag::Keyword)),
        ),
        q.len() > 0 && !(q[0] is Keyword) ==> parse_spec(q) == Err::<RootModel, ErrorModel>(
            ErrorModel::InvalidToken(TokenTag::Keyword, token_tag(q[0])),
        ),
        q.len() > 0 && (q[0] matches TokenModel::Keyword(v) && v != "CREATE"@ && v != "SELECT"@
            && v != "INSERT"@) ==> parse_spec(q) == Err::<RootModel, ErrorModel>(
            ErrorModel::InvalidValue(seq!["Keyword"@], q[0]->Keyword_0),
        ),
        parse_spec(q) is Ok ==> q[0] == TokenModel::Keyword("CREATE"@) || q[0] == TokenModel::Keyword(
            "SELECT"@,
        ) || q[0] == TokenModel::Keyword("INSERT"@),
{
}

} // verus!
