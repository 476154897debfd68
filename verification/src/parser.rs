use vstd::prelude::*;

use crate::chars::str_eq;
use crate::errors::{
    ErrorModel, GenericSyntaxError, InvalidToken, InvalidValue, MissingToken, SyntaxError,
    UnexpectedSymbol,
};
use crate::tokenizer::{
    expect_symbol, expect_tag, expect_value, is_symbol_in, token_tag, token_value, Literal,
    SymbolType, Token, TokenModel, TokenQueue, TokenTag,
};

verus! {

/// A command as plain values.
pub enum RootModel {
    Create((Seq<char>, Seq<ColumnModel>)),
    Select(SelectModel),
    Insert((Seq<char>, Seq<RowModel>)),
}

/// The command that the tokens `q` form: a keyword `CREATE`, `SELECT` or
/// `INSERT`, then what that command takes.
pub open spec fn parse_spec(q: Seq<TokenModel>) -> Result<RootModel, ErrorModel> {
    if q.len() == 0 {
        Err(ErrorModel::MissingToken(Some(TokenTag::Keyword)))
    } else {
        match q[0] {
            TokenModel::Keyword(v) => if v == "CREATE"@ {
                match create_spec(q.drop_first()) {
                    Ok(m) => Ok(RootModel::Create(m)),
                    Err(e) => Err(e),
                }
            } else if v == "SELECT"@ {
                match select_spec(q.drop_first()) {
                    Ok(m) => Ok(RootModel::Select(m)),
                    Err(e) => Err(e),
                }
            } else if v == "INSERT"@ {
                match insert_spec(q.drop_first()) {
                    Ok(m) => Ok(RootModel::Insert(m)),
                    Err(e) => Err(e),
                }
            } else {
                Err(ErrorModel::InvalidValue(seq!["Keyword"@], v))
            },
            t => Err(ErrorModel::InvalidToken(TokenTag::Keyword, token_tag(t))),
        }
    }
}

/// Whether the parser loops forever on the tokens `q`: only a `SELECT`
/// command can make it.
pub open spec fn parse_loops(q: Seq<TokenModel>) -> bool {
    q.len() > 0 && q[0] == TokenModel::Keyword("SELECT"@) && select_loop(q.drop_first())
}

/// Whether a root node holds the given command.
pub open spec fn root_is(n: RootNode, m: RootModel) -> bool {
    match (n, m) {
        (RootNode::Create(c), RootModel::Create(cm)) => c@ == cm,
        (RootNode::Select(s), RootModel::Select(sm)) => select_is(s, sm),
        (RootNode::Insert(i), RootModel::Insert(im)) => i@ == im,
        _ => false,
    }
}

/// Builds the syntax tree of the command that the tokens of `input` form.
pub fn create_ast(mut input: TokenQueue) -> (r: Result<RootNode, SyntaxError>)
    requires
        !parse_loops(input@),
    ensures
        match parse_spec(input@) {
            Ok(m) => (r matches Ok(n) && root_is(n, m)),
            Err(e) => (r matches Err(x) && x@ == e),
        },
{
    let root: RootNode = match input.next() {
        Ok(Token::Keyword(t)) => {
            let v = t.value();
            if str_eq(v, "CREATE") {
                let result = build_create_tree(&mut input)?;
                RootNode::Create(result)
            } else if str_eq(v, "SELECT") {
                let result = build_select_tree(&mut input)?;
                RootNode::Select(result)
            } else if str_eq(v, "INSERT") {
                let result = build_insert_tree(&mut input)?;
                RootNode::Insert(result)
            } else {
                let expected = vec!["Keyword"];
                assert(crate::tokenizer::str_views(expected@) =~= seq!["Keyword"@]);
                return Err(SyntaxError::InvalidValue(InvalidValue::new(expected, String::from_str(v))));
            }
        },
        Ok(t) => {
            return Err(SyntaxError::InvalidToken(InvalidToken::new(TokenTag::Keyword, t.tag())));
        },
        Err(_) => {
            return Err(SyntaxError::MissingToken(MissingToken::new(Some(TokenTag::Keyword))));
        },
    };
    Ok(root)
}

/// Whether `create_ast` returns on the tokens of `input`. It does unless they
/// form a `SELECT` command whose table is followed neither by a semicolon nor
/// by `WHERE` and conditions that end at a semicolon or in an error.
pub fn parse_returns(input: &TokenQueue) -> (r: bool)
    ensures
        r == !parse_loops(input@),
{
    let ghost q = input@;
    let n = input.len();
    if n == 0 {
        return true;
    }
    let t0 = input.token_at(0);
    match t0 {
        Token::Keyword(_) => {},
        _ => {
            return true;
        },
    }
    if !str_eq(t0.value(), "SELECT") {
        return true;
    }
    let ghost body = q.drop_first();
    // The first column: an identifier or `*`
    if n < 2 {
        return true;
    }
    assert(body[0] == q[1]);
    match input.token_at(1) {
        Token::Identifier(_) => {},
        Token::Symbol(SymbolType::Star) => {},
        _ => {
            return true;
        },
    }
    assert(body.drop_first() == q.skip(2));
    let j = match columns_end(input, 2) {
        Some(j) => j,
        None => {
            return true;
        },
    };
    let ghost q2 = q.skip(j as int);
    // `FROM` and the table
    if j >= n {
        return true;
    }
    assert(q2[0] == q[j as int]);
    if !str_eq(input.token_at(j).value(), "FROM") {
        proof {
            if seq!["FROM"@].contains(token_value(q2[0])) {
                let i = choose|i: int| 0 <= i < 1 && seq!["FROM"@][i] == token_value(q2[0]);
                assert(i == 0);
            }
        }
        return true;
    }
    assert(seq!["FROM"@][0] == token_value(q2[0]));
    if j + 1 >= n {
        return true;
    }
    assert(q2.drop_first()[0] == q[j + 1]);
    match input.token_at(j + 1) {
        Token::Identifier(_) => {},
        _ => {
            return true;
        },
    }
    let k = j + 2;
    let ghost ws = q2.drop_first().drop_first();
    assert(ws == q.skip(k as int));
    if k < n {
        assert(ws[0] == q[k as int]);
        let tk = input.token_at(k);
        match tk {
            Token::Symbol(SymbolType::Semicolon) => {
                assert(seq![SymbolType::Semicolon][0] == SymbolType::Semicolon);
                return true;
            },
            _ => {},
        }
        if str_eq(tk.value(), "WHERE") {
            assert(ws.drop_first() == q.skip(k + 1));
            return conditions_stop(input, k + 1);
        }
    }
    false
}

/// What follows a list read from the front of some tokens, where the list
/// is read without error.
spec fn rest_of<A>(r: Result<(A, Seq<TokenModel>), ErrorModel>) -> Option<Seq<TokenModel>> {
    match r {
        Ok((_, rest)) => Some(rest),
        Err(_) => None,
    }
}

/// Where the identifiers after the first column of a `SELECT` command end,
/// from position `start` of `q` on; `None` where they end in an error.
fn columns_end(q: &TokenQueue, start: usize) -> (r: Option<usize>)
    requires
        start <= q@.len(),
    ensures
        match r {
            Some(j) => start <= j <= q@.len() && rest_of(more_columns(q@.skip(start as int)))
                == Some(q@.skip(j as int)),
            None => more_columns(q@.skip(start as int)) is Err,
        },
{
    let n = q.len();
    let mut j = start;
    while j < n
        invariant
            start <= j <= n,
            n == q@.len(),
            rest_of(more_columns(q@.skip(start as int))) == rest_of(more_columns(q@.skip(j as int))),
        decreases n - j,
    {
        let ghost s = q@.skip(j as int);
        assert(s[0] == q@[j as int]);
        assert(s.drop_first() == q@.skip(j + 1));
        match q.token_at(j) {
            Token::Identifier(_) => {
                j += 1;
            },
            Token::Symbol(SymbolType::Comma) => {
                assert(seq![SymbolType::Comma][0] == SymbolType::Comma);
                j += 1;
            },
            Token::Symbol(_) => {
                return None;
            },
            _ => {
                return Some(j);
            },
        }
    }
    Some(j)
}

/// Whether the conditions after `WHERE`, from position `start` of `q` on, end
/// at a semicolon or in an error rather than at the end of the tokens.
fn conditions_stop(q: &TokenQueue, start: usize) -> (r: bool)
    requires
        start <= q@.len(),
    ensures
        r == !(where_conditions(q@.skip(start as int)) matches Ok((_, rest)) && rest.len() == 0),
{
    let n = q.len();
    let mut m = start;
    while m < n
        invariant
            start <= m <= n,
            n == q@.len(),
            rest_of(where_conditions(q@.skip(start as int))) == rest_of(
                where_conditions(q@.skip(m as int)),
            ),
        decreases n - m,
    {
        let ghost s = q@.skip(m as int);
        assert(s[0] == q@[m as int]);
        let t = q.token_at(m);
        match t {
            Token::Symbol(SymbolType::Semicolon) => {
                assert(seq![SymbolType::Semicolon][0] == SymbolType::Semicolon);
                return true;
            },
            _ => {},
        }
        let v = t.value();
        if str_eq(v, "AND") || str_eq(v, "OR") {
            assert(seq!["AND"@, "OR"@][0] == "AND"@);
            assert(seq!["AND"@, "OR"@][1] == "OR"@);
            assert(s.drop_first() == q@.skip(m + 1));
            m += 1;
        } else {
            proof {
                if seq!["AND"@, "OR"@].contains(token_value(s[0])) {
                    let i = choose|i: int|
                        0 <= i < 2 && seq!["AND"@, "OR"@][i] == token_value(s[0]);
                    assert(i == 0 || i == 1);
                }
            }
            if n - m < 3 {
                return true;
            }
            assert(s.skip(3) == q@.skip(m + 3));
            m += 3;
        }
    }
    assert(q@.skip(n as int).len() == 0);
    false
}

/// The syntax tree of a command.
#[derive(Debug)]
pub enum RootNode {
    Create(CreateNode),
    Select(SelectNode),
    Insert(InsertNode),
}

/// The kind of value a literal holds.
#[derive(Debug, PartialEq, Eq, Structural, Clone, Copy)]
pub enum LiteralType {
    String,
    Integer,
}

/// A literal as plain values: its text and its type.
pub type LiteralModel = (Seq<char>, LiteralType);

/// A row of literals.
pub type RowModel = Seq<LiteralModel>;

/// The values of an `INSERT` command: after `INSERT INTO <table> VALUES (`,
/// rows of literals in parentheses, separated by commas, and a semicolon.
///
/// Within a row, commas and opening parentheses are passed over; a closing
/// parenthesis ends the row.
pub open spec fn insert_values(q: Seq<TokenModel>) -> Result<(RowModel, Seq<TokenModel>), ErrorModel>
    decreases q.len(),
{
    if q.len() == 0 {
        Err(ErrorModel::MissingToken(Some(TokenTag::Literal)))
    } else {
        match q[0] {
            TokenModel::Literal(v, t) => match insert_values(q.drop_first()) {
                Ok((vals, rest)) => Ok((seq![(v, t)] + vals, rest)),
                Err(e) => Err(e),
            },
            TokenModel::Symbol(SymbolType::Comma) => insert_values(q.drop_first()),
            TokenModel::Symbol(SymbolType::LParen) => insert_values(q.drop_first()),
            TokenModel::Symbol(SymbolType::RParen) => Ok((Seq::empty(), q.drop_first())),
            TokenModel::Symbol(s) => Err(ErrorModel::UnexpectedSymbol(s)),
            _ => Err(ErrorModel::MissingToken(Some(TokenTag::Literal))),
        }
    }
}

/// The values of a row are followed by fewer tokens than the row starts with.
pub proof fn lemma_insert_values_shrinks(q: Seq<TokenModel>)
    ensures
        insert_values(q) matches Ok((_, rest)) ==> rest.len() < q.len(),
    decreases q.len(),
{
    if q.len() > 0 {
        lemma_insert_values_shrinks(q.drop_first());
    }
}

/// The rows of an `INSERT` command, each followed by a comma or, for the last,
/// by a semicolon.
pub open spec fn insert_rows(q: Seq<TokenModel>) -> Result<Seq<RowModel>, ErrorModel>
    decreases q.len(),
{
    match insert_values(q) {
        Err(e) => Err(e),
        Ok((vals, rest)) => {
            if rest.len() == 0 {
                Err(ErrorModel::MissingToken(Some(TokenTag::Symbol)))
            } else {
                match rest[0] {
                    TokenModel::Symbol(SymbolType::Comma) => {
                        proof {
                            lemma_insert_values_shrinks(q);
                        }
                        match insert_rows(rest.drop_first()) {
                            Ok(rows) => Ok(seq![vals] + rows),
                            Err(e) => Err(e),
                        }
                    },
                    TokenModel::Symbol(SymbolType::Semicolon) => Ok(seq![vals]),
                    TokenModel::Symbol(s) => Err(ErrorModel::UnexpectedSymbol(s)),
                    t => Err(ErrorModel::InvalidToken(TokenTag::Symbol, token_tag(t))),
                }
            }
        },
    }
}

/// The table and rows of an `INSERT` command, the keyword `INSERT` already
/// taken: `INTO <table> VALUES (` and the rows.
pub open spec fn insert_spec(q: Seq<TokenModel>) -> Result<(Seq<char>, Seq<RowModel>), ErrorModel> {
    match expect_value(q, seq!["INTO"@]) {
        Err(e) => Err(e),
        Ok(_) => match expect_tag(q.drop_first(), TokenTag::Identifier) {
            Err(e) => Err(e),
            Ok(table) => match expect_value(q.drop_first().drop_first(), seq!["VALUES"@]) {
                Err(e) => Err(e),
                Ok(_) => match expect_symbol(
                    q.drop_first().drop_first().drop_first(),
                    seq![SymbolType::LParen],
                ) {
                    Err(e) => Err(e),
                    Ok(_) => match insert_rows(q.drop_first().drop_first().drop_first().drop_first()) {
                        Err(e) => Err(e),
                        Ok(rows) => Ok((token_value(table), rows)),
                    },
                },
            },
        },
    }
}

spec fn prepend_values(
    vals: RowModel,
    r: Result<(RowModel, Seq<TokenModel>), ErrorModel>,
) -> Result<(RowModel, Seq<TokenModel>), ErrorModel> {
    match r {
        Ok((v, rest)) => Ok((vals + v, rest)),
        Err(e) => Err(e),
    }
}

spec fn prepend_rows(rows: Seq<RowModel>, r: Result<Seq<RowModel>, ErrorModel>) -> Result<
    Seq<RowModel>,
    ErrorModel,
> {
    match r {
        Ok(more) => Ok(rows + more),
        Err(e) => Err(e),
    }
}

proof fn lemma_prepend_values_assoc(
    a: RowModel,
    b: RowModel,
    r: Result<(RowModel, Seq<TokenModel>), ErrorModel>,
)
    ensures
        prepend_values(a, prepend_values(b, r)) == prepend_values(a + b, r),
{
    if let Ok((v, rest)) = r {
        assert(a + (b + v) =~= (a + b) + v);
    }
}

proof fn lemma_prepend_rows_assoc(
    a: Seq<RowModel>,
    b: Seq<RowModel>,
    r: Result<Seq<RowModel>, ErrorModel>,
)
    ensures
        prepend_rows(a, prepend_rows(b, r)) == prepend_rows(a + b, r),
{
    if let Ok(v) = r {
        assert(a + (b + v) =~= (a + b) + v);
    }
}

spec fn insert_finish(table: TokenModel, r: Result<Seq<RowModel>, ErrorModel>) -> Result<
    (Seq<char>, Seq<RowModel>),
    ErrorModel,
> {
    match r {
        Err(e) => Err(e),
        Ok(rows) => Ok((token_value(table), rows)),
    }
}

spec fn literals_view(v: Seq<Literal>) -> RowModel {
    v.map_values(|l: Literal| (l.value@, l.literal_type))
}

spec fn rows_view(v: Seq<Vec<Literal>>) -> Seq<RowModel> {
    v.map_values(|row: Vec<Literal>| literals_view(row@))
}

/// Whether a builder's result agrees with what the spec gives.
pub open spec fn agrees<N: View<V = M>, M>(r: Result<N, SyntaxError>, s: Result<M, ErrorModel>) -> bool {
    match s {
        Ok(m) => r matches Ok(n) && n@ == m,
        Err(e) => r matches Err(x) && x@ == e,
    }
}

fn build_insert_tree(queue: &mut TokenQueue) -> (r: Result<InsertNode, SyntaxError>)
    ensures
        agrees(r, insert_spec(old(queue)@)),
{
    let ghost q0 = queue@;
    // Check that the next token is "INTO"
    let into = vec!["INTO"];
    assert(crate::tokenizer::str_views(into@) =~= seq!["INTO"@]);
    queue.validate_token_value(into)?;
    // Get the following token as a table identifier
    let table_name = queue.validate_token_type(TokenTag::Identifier)?;
    // Verify that the next token is "VALUES"
    let values_keyword = vec!["VALUES"];
    assert(crate::tokenizer::str_views(values_keyword@) =~= seq!["VALUES"@]);
    queue.validate_token_value(values_keyword)?;
    // Verify that the next token is "LPAREN"
    let lparen = vec![SymbolType::LParen];
    assert(lparen@ =~= seq![SymbolType::LParen]);
    queue.verify_symbol_type(lparen)?;
    let ghost rows_start = queue@;
    assert(rows_start == q0.drop_first().drop_first().drop_first().drop_first());
    // Loop until we find a "RPAREN"
    let mut rows: Vec<Vec<Literal>> = vec![];
    loop
        invariant_except_break
            q0 == old(queue)@,
            insert_spec(q0) == insert_finish(table_name@, insert_rows(rows_start)),
            insert_rows(rows_start) == prepend_rows(rows_view(rows@), insert_rows(queue@)),
        ensures
            q0 == old(queue)@,
            insert_spec(q0) == insert_finish(table_name@, insert_rows(rows_start)),
            insert_rows(rows_start) == Ok::<Seq<RowModel>, ErrorModel>(rows_view(rows@)),
        decreases queue@.len(),
    {
        let ghost row_start = queue@;
        let mut values: Vec<Literal> = vec![];
        loop
            invariant_except_break
                q0 == old(queue)@,
            insert_spec(q0) == insert_finish(table_name@, insert_rows(rows_start)),
                insert_rows(rows_start) == prepend_rows(rows_view(rows@), insert_rows(row_start)),
                insert_values(row_start) == prepend_values(
                    literals_view(values@),
                    insert_values(queue@),
                ),
                queue@.len() <= row_start.len(),
            ensures
                q0 == old(queue)@,
            insert_spec(q0) == insert_finish(table_name@, insert_rows(rows_start)),
                insert_rows(rows_start) == prepend_rows(rows_view(rows@), insert_rows(row_start)),
                insert_values(row_start) == Ok::<(RowModel, Seq<TokenModel>), ErrorModel>(
                    (literals_view(values@), queue@),
                ),
                queue@.len() < row_start.len(),
            decreases queue@.len(),
        {
            let ghost before = queue@;
            let next = match queue.next() {
                Ok(Token::Literal(t)) => t,
                Ok(Token::Symbol(s)) => match s {
                    // followed by a "COMMA"
                    SymbolType::Comma => continue ,
                    // An "LPAREN" here means we're processing another row,
                    SymbolType::LParen => continue ,
                    SymbolType::RParen => {
                        assert(literals_view(values@) + Seq::<LiteralModel>::empty() == literals_view(values@));
                        break;
                    },
                    val => {
                        return Err(SyntaxError::UnexpectedSymbol(UnexpectedSymbol::new(&val)));
                    },
                },
                _ => {
                    return Err(SyntaxError::MissingToken(MissingToken::new(Some(TokenTag::Literal))));
                },
            };
            let ghost old_values = values@;
            values.push(next);
            proof {
                assert(literals_view(values@) =~= literals_view(old_values) + seq![
                    (next.value@, next.literal_type),
                ]);
                lemma_prepend_values_assoc(
                    literals_view(old_values),
                    seq![(next.value@, next.literal_type)],
                    insert_values(queue@),
                );
            }
        }
        let ghost old_rows = rows@;
        let ghost vals = literals_view(values@);
        rows.push(values);
        assert(rows_view(rows@) == rows_view(old_rows).push(vals));
        let ghost after_row = queue@;
        match queue.next() {
            Ok(t) => match t {
                Token::Symbol(t) => match t {
                    // If we find a "COMMA" after the "RPAREN", loop again for another row
                    SymbolType::Comma => {
                        proof {
                            assert(rows_view(rows@) =~= rows_view(old_rows) + seq![vals]);
                            lemma_prepend_rows_assoc(
                                rows_view(old_rows),
                                seq![vals],
                                insert_rows(queue@),
                            );
                        }
                        continue ;
                    },
                    SymbolType::Semicolon => {
                        assert(rows_view(rows@) =~= rows_view(old_rows) + seq![vals]);
                        break ;
                    },
                    val => {
                        return Err(SyntaxError::UnexpectedSymbol(UnexpectedSymbol::new(&val)));
                    },
                },
                val => {
                    return Err(SyntaxError::InvalidToken(InvalidToken::new(TokenTag::Symbol, val.tag())));
                },
            },
            Err(_) => {
                return Err(SyntaxError::MissingToken(MissingToken::new(Some(TokenTag::Symbol))));
            },
        }
    }
    let mut row_nodes: Vec<RowNode> = vec![];
    // Group the rows
    let mut i: usize = 0;
    while i < rows.len()
        invariant
            i <= rows@.len(),
            row_nodes@.map_values(|n: RowNode| n@) == rows_view(rows@.take(i as int)),
        decreases rows@.len() - i,
    {
        let row = &rows[i];
        let mut literal_nodes: Vec<LiteralNode> = vec![];
        // Group the literals
        let mut j: usize = 0;
        while j < row.len()
            invariant
                j <= row@.len(),
                literal_nodes@.map_values(|n: LiteralNode| n@) == literals_view(row@.take(j as int)),
            decreases row@.len() - j,
        {
            let literal = &row[j];
            let node: LiteralNode = LiteralNode {
                value: literal.value.clone(),
                literal_type: literal.literal_type,
            };
            let ghost before = literal_nodes@;
            literal_nodes.push(node);
            proof {
                assert(row@.take(j + 1) == row@.take(j as int).push(row@[j as int]));
                assert(literal_nodes@.map_values(|n: LiteralNode| n@) =~= before.map_values(
                    |n: LiteralNode| n@,
                ).push(node@));
            }
            j += 1;
        }
        assert(row@.take(row@.len() as int) == row@);
        let row_node = RowNode { literals: literal_nodes };
        let ghost before_rows = row_nodes@;
        row_nodes.push(row_node);
        proof {
            assert(rows@.take(i + 1) == rows@.take(i as int).push(rows@[i as int]));
            assert(row_nodes@.map_values(|n: RowNode| n@) =~= before_rows.map_values(
                |n: RowNode| n@,
            ).push(row_node@));
        }
        i += 1;
    }
    assert(rows@.take(rows@.len() as int) == rows@);
    // Construct the table identifier node
    let table_node = IdentifierNode { identifier: String::from_str(table_name.value()) };
    let root_node = InsertNode { table: table_node, children: row_nodes };
    // Build the ast from bottom up
    Ok(root_node)
}

/// The constraints after a column of a `CREATE` command: keywords, up to a
/// closing parenthesis or a comma, which is left in place.
pub open spec fn create_constraints(q: Seq<TokenModel>) -> Result<Seq<TokenModel>, ErrorModel>
    decreases q.len(),
{
    if q.len() > 0 && is_symbol_in(q[0], seq![SymbolType::RParen, SymbolType::Comma]) {
        Ok(q)
    } else {
        match expect_tag(q, TokenTag::Keyword) {
            Err(e) => Err(e),
            Ok(_) => create_constraints(q.drop_first()),
        }
    }
}

/// What follows the constraints is no longer than what they start with.
pub proof fn lemma_create_constraints_shrinks(q: Seq<TokenModel>)
    ensures
        create_constraints(q) matches Ok(rest) ==> rest.len() <= q.len(),
    decreases q.len(),
{
    if !(q.len() > 0 && is_symbol_in(q[0], seq![SymbolType::RParen, SymbolType::Comma])) && q.len()
        > 0 {
        lemma_create_constraints_shrinks(q.drop_first());
    }
}

/// What follows a column's constraints: a comma there is passed over.
pub open spec fn skip_comma(q: Seq<TokenModel>) -> Seq<TokenModel> {
    if q.len() > 0 && is_symbol_in(q[0], seq![SymbolType::Comma]) {
        q.drop_first()
    } else {
        q
    }
}

/// The columns of a `CREATE` command, up to and including a closing
/// parenthesis: each an identifier followed by its constraints and, before
/// the next column, a comma.
pub open spec fn create_columns(q: Seq<TokenModel>) -> Result<(Seq<Seq<char>>, Seq<TokenModel>), ErrorModel>
    decreases q.len(),
{
    if q.len() > 0 && is_symbol_in(q[0], seq![SymbolType::RParen]) {
        Ok((Seq::empty(), q.drop_first()))
    } else {
        match expect_tag(q, TokenTag::Identifier) {
            Err(e) => Err(e),
            Ok(column) => match create_constraints(q.drop_first()) {
                Err(e) => Err(e),
                Ok(rest) => {
                    proof {
                        lemma_create_constraints_shrinks(q.drop_first());
                    }
                    match create_columns(skip_comma(rest)) {
                        Ok((cols, after)) => Ok((seq![token_value(column)] + cols, after)),
                        Err(e) => Err(e),
                    }
                },
            },
        }
    }
}

/// The table and columns of a `CREATE` command, the keyword `CREATE` already
/// taken: `TABLE <table> VALUES (`, the columns, and a semicolon. Each column
/// comes without constraints.
pub open spec fn create_spec(q: Seq<TokenModel>) -> Result<(Seq<char>, Seq<ColumnModel>), ErrorModel> {
    match expect_value(q, seq!["TABLE"@]) {
        Err(e) => Err(e),
        Ok(_) => match expect_tag(q.drop_first(), TokenTag::Identifier) {
            Err(e) => Err(e),
            Ok(table) => match expect_value(q.drop_first().drop_first(), seq!["VALUES"@]) {
                Err(e) => Err(e),
                Ok(_) => match expect_symbol(
                    q.drop_first().drop_first().drop_first(),
                    seq![SymbolType::LParen],
                ) {
                    Err(e) => Err(e),
                    Ok(_) => create_finish(
                        table,
                        create_columns(q.drop_first().drop_first().drop_first().drop_first()),
                    ),
                },
            },
        },
    }
}

/// A `CREATE` command once its columns are read: a semicolon must follow.
pub open spec fn create_finish(
    table: TokenModel,
    r: Result<(Seq<Seq<char>>, Seq<TokenModel>), ErrorModel>,
) -> Result<(Seq<char>, Seq<ColumnModel>), ErrorModel> {
    match r {
        Err(e) => Err(e),
        Ok((cols, rest)) => match expect_symbol(rest, seq![SymbolType::Semicolon]) {
            Err(e) => Err(e),
            Ok(_) => Ok(
                (token_value(table), cols.map_values(|c: Seq<char>| (c, None::<Seq<Seq<char>>>))),
            ),
        },
    }
}

spec fn prepend_columns(
    cols: Seq<Seq<char>>,
    r: Result<(Seq<Seq<char>>, Seq<TokenModel>), ErrorModel>,
) -> Result<(Seq<Seq<char>>, Seq<TokenModel>), ErrorModel> {
    match r {
        Ok((more, rest)) => Ok((cols + more, rest)),
        Err(e) => Err(e),
    }
}

spec fn column_names(v: Seq<(Token, Vec<Option<Token>>)>) -> Seq<Seq<char>> {
    v.map_values(|c: (Token, Vec<Option<Token>>)| token_value(c.0@))
}

spec fn all_some(v: Seq<Option<Token>>) -> bool {
    forall|i: int| 0 <= i < v.len() ==> (#[trigger] v[i]) is Some
}

fn build_create_tree(queue: &mut TokenQueue) -> (r: Result<CreateNode, SyntaxError>)
    ensures
        agrees(r, create_spec(old(queue)@)),
{
    let ghost q0 = queue@;
    // Double check that the next is TABLE then pop it off
    let table_keyword = vec!["TABLE"];
    assert(crate::tokenizer::str_views(table_keyword@) =~= seq!["TABLE"@]);
    queue.validate_token_value(table_keyword)?;
    // Grab the next token as the table name
    let table_token = queue.validate_token_type(TokenTag::Identifier)?;
    // Make sure the next token is VALUES and discard
    let values_keyword = vec!["VALUES"];
    assert(crate::tokenizer::str_views(values_keyword@) =~= seq!["VALUES"@]);
    queue.validate_token_value(values_keyword)?;
    // Check that an LPAREN is next then discard
    let lparen = vec![SymbolType::LParen];
    assert(lparen@ =~= seq![SymbolType::LParen]);
    queue.verify_symbol_type(lparen)?;
    let ghost cols_start = queue@;
    assert(cols_start == q0.drop_first().drop_first().drop_first().drop_first());
    let mut columns: Vec<(Token, Vec<Option<Token>>)> = vec![];
    // Loop over remaining tokens
    loop
        invariant_except_break
            q0 == old(queue)@,
            create_spec(q0) == create_finish(table_token@, create_columns(cols_start)),
            create_columns(cols_start) == prepend_columns(column_names(columns@), create_columns(queue@)),
            forall|i: int| 0 <= i < columns@.len() ==> all_some((#[trigger] columns@[i]).1@),
        ensures
            q0 == old(queue)@,
            create_spec(q0) == create_finish(table_token@, create_columns(cols_start)),
            create_columns(cols_start) == Ok::<(Seq<Seq<char>>, Seq<TokenModel>), ErrorModel>((column_names(columns@), queue@)),
            forall|i: int| 0 <= i < columns@.len() ==> all_some((#[trigger] columns@[i]).1@),
        decreases queue@.len(),
    {
        // Break if we hit an RPAREN
        let rparen = vec![SymbolType::RParen];
        assert(rparen@ =~= seq![SymbolType::RParen]);
        if queue.check_next_symbol(rparen) {
            queue.next()?;
            assert(column_names(columns@) + Seq::<Seq<char>>::empty() == column_names(columns@));
            break ;
        }
        let ghost col_start = queue@;
        // First token is column
        let column_token = queue.validate_token_type(TokenTag::Identifier)?;
        // Loop until a commma or an RPAREN
        let mut constraints: Vec<Option<Token>> = vec![];
        loop
            invariant_except_break
                q0 == old(queue)@,
                create_spec(q0) == create_finish(table_token@, create_columns(cols_start)),
                create_columns(cols_start) == prepend_columns(column_names(columns@), create_columns(col_start)),
                col_start.len() > 0,
                expect_tag(col_start, TokenTag::Identifier) == Ok::<TokenModel, ErrorModel>(column_token@),
                create_constraints(col_start.drop_first()) == create_constraints(queue@),
                queue@.len() < col_start.len(),
                all_some(constraints@),
            ensures
                q0 == old(queue)@,
                create_spec(q0) == create_finish(table_token@, create_columns(cols_start)),
                create_columns(cols_start) == prepend_columns(column_names(columns@), create_columns(col_start)),
                col_start.len() > 0,
                expect_tag(col_start, TokenTag::Identifier) == Ok::<TokenModel, ErrorModel>(column_token@),
                create_constraints(col_start.drop_first()) == Ok::<Seq<TokenModel>, ErrorModel>(queue@),
                queue@.len() < col_start.len(),
                all_some(constraints@),
            decreases queue@.len(),
        {
            let stops = vec![SymbolType::RParen, SymbolType::Comma];
            assert(stops@ =~= seq![SymbolType::RParen, SymbolType::Comma]);
            if queue.check_next_symbol(stops) {
                break ;
            }
            // Any remaining tokens are constraints
            let constraint = queue.validate_token_type(TokenTag::Keyword)?;
            constraints.push(Some(constraint));
        }
        // A comma leads to the next column
        let comma = vec![SymbolType::Comma];
        assert(comma@ =~= seq![SymbolType::Comma]);
        let ghost after_constraints = queue@;
        if queue.check_next_symbol(comma) {
            queue.next()?;
        }
        assert(queue@ == skip_comma(after_constraints));
        let ghost old_columns = columns@;
        columns.push((column_token, constraints));
        proof {
            assert(column_names(columns@) =~= column_names(old_columns) + seq![token_value(column_token@)]);
            assert(create_columns(col_start) == prepend_columns(seq![token_value(column_token@)], create_columns(queue@)));
            lemma_prepend_columns_assoc(column_names(old_columns), seq![token_value(column_token@)], create_columns(queue@));
        }
    }
    // Check that it ends with SEMICOLON
    let semicolon = vec![SymbolType::Semicolon];
    assert(semicolon@ =~= seq![SymbolType::Semicolon]);
    queue.verify_symbol_type(semicolon)?;
    // Construct the tree from bottom up.
    let mut column_nodes: Vec<ColumnNode> = vec![];
    let mut i: usize = 0;
    while i < columns.len()
        invariant
            i <= columns@.len(),
            forall|k: int| 0 <= k < columns@.len() ==> all_some((#[trigger] columns@[k]).1@),
            column_nodes@.map_values(|c: ColumnNode| c@) == column_names(columns@.take(i as int)).map_values(
                |c: Seq<char>| (c, None::<Seq<Seq<char>>>),
            ),
        decreases columns@.len() - i,
    {
        let col = &columns[i];
        let mut constraint_nodes: Vec<ConstraintNode> = vec![];
        let mut j: usize = 0;
        while j < col.1.len()
            invariant
                j <= col.1@.len(),
                all_some(col.1@),
            decreases col.1@.len() - j,
        {
            constraint_nodes.push(
                ConstraintNode {
                    value: match &col.1[j] {
                        Some(val) => String::from_str(val.value()),
                        None => {
                            return Err(SyntaxError::MissingToken(MissingToken::new(None)));
                        },
                    },
                },
            );
            j += 1;
        }
        let node = ColumnNode {
            column_identifier: IdentifierNode { identifier: String::from_str(col.0.value()) },
            constraints: None,
        };
        let ghost before = column_nodes@;
        column_nodes.push(node);
        proof {
            assert(columns@.take(i + 1) == columns@.take(i as int).push(columns@[i as int]));
            assert(column_nodes@.map_values(|c: ColumnNode| c@) =~= before.map_values(
                |c: ColumnNode| c@,
            ).push(node@));
            assert(column_names(columns@.take(i + 1)).map_values(
                |c: Seq<char>| (c, None::<Seq<Seq<char>>>),
            ) =~= column_names(columns@.take(i as int)).map_values(
                |c: Seq<char>| (c, None::<Seq<Seq<char>>>),
            ).push(node@));
        }
        i += 1;
    }
    assert(columns@.take(columns@.len() as int) == columns@);
    let table_node = IdentifierNode { identifier: String::from_str(table_token.value()) };
    let root: CreateNode = CreateNode { table: table_node, children: column_nodes };
    // Return the tree
    Ok(root)
}

proof fn lemma_prepend_columns_assoc(
    a: Seq<Seq<char>>,
    b: Seq<Seq<char>>,
    r: Result<(Seq<Seq<char>>, Seq<TokenModel>), ErrorModel>,
)
    ensures
        prepend_columns(a, prepend_columns(b, r)) == prepend_columns(a + b, r),
{
    if let Ok((v, rest)) = r {
        assert(a + (b + v) =~= (a + b) + v);
    }
}

/// The name a column of a `SELECT` command gets: the identifier, or `STAR`
/// for `*`.
pub open spec fn column_name(t: TokenModel) -> Seq<char> {
    match t {
        TokenModel::Symbol(SymbolType::Star) => "STAR"@,
        _ => token_value(t),
    }
}

/// The first column of a `SELECT` command: an identifier or `*`.
pub open spec fn first_column(q: Seq<TokenModel>) -> Result<Seq<char>, ErrorModel> {
    if q.len() == 0 {
        Err(ErrorModel::MissingToken(Some(TokenTag::Identifier)))
    } else {
        match q[0] {
            TokenModel::Identifier(v) => Ok(v),
            TokenModel::Symbol(SymbolType::Star) => Ok("STAR"@),
            TokenModel::Symbol(s) => Err(ErrorModel::UnexpectedSymbol(s)),
            t => Err(ErrorModel::InvalidValue(seq!["identifier"@], token_value(t))),
        }
    }
}

/// The identifiers that follow the first column, commas between them passed
/// over. Any other symbol after them is an error.
pub open spec fn more_columns(q: Seq<TokenModel>) -> Result<(Seq<Seq<char>>, Seq<TokenModel>), ErrorModel>
    decreases q.len(),
{
    if q.len() > 0 && token_tag(q[0]) == TokenTag::Identifier {
        match more_columns(q.drop_first()) {
            Ok((cols, rest)) => Ok((seq![token_value(q[0])] + cols, rest)),
            Err(e) => Err(e),
        }
    } else if q.len() > 0 && is_symbol_in(q[0], seq![SymbolType::Comma]) {
        more_columns(q.drop_first())
    } else if q.len() > 0 && token_tag(q[0]) == TokenTag::Symbol {
        Err(ErrorModel::InvalidValue(seq![","@], token_value(q[0])))
    } else {
        Ok((Seq::empty(), q))
    }
}

/// A condition as read: an `AND`/`OR` alone, or three tokens.
pub type RawCondition = (TokenModel, Option<TokenModel>, Option<TokenModel>);

/// The conditions after `WHERE`, up to a semicolon or the end: each `AND` or
/// `OR` stands alone, any other token starts a condition of three tokens.
pub open spec fn where_conditions(q: Seq<TokenModel>) -> Result<(Seq<RawCondition>, Seq<TokenModel>), ErrorModel>
    decreases q.len(),
{
    if q.len() == 0 || is_symbol_in(q[0], seq![SymbolType::Semicolon]) {
        Ok((Seq::empty(), q))
    } else if seq!["AND"@, "OR"@].contains(token_value(q[0])) {
        match where_conditions(q.drop_first()) {
            Ok((cs, rest)) => Ok((seq![(q[0], None, None)] + cs, rest)),
            Err(e) => Err(e),
        }
    } else if q.len() < 3 {
        Err(ErrorModel::MissingToken(None))
    } else {
        match where_conditions(q.skip(3)) {
            Ok((cs, rest)) => Ok((seq![(q[0], Some(q[1]), Some(q[2]))] + cs, rest)),
            Err(e) => Err(e),
        }
    }
}

/// What follows the table of a `SELECT` command: a semicolon, or `WHERE` and
/// the conditions (see `where_loop` for when the parser does not return).
pub open spec fn where_clause(q: Seq<TokenModel>) -> Result<(Seq<RawCondition>, Seq<TokenModel>), ErrorModel> {
    if q.len() > 0 && is_symbol_in(q[0], seq![SymbolType::Semicolon]) {
        Ok((Seq::empty(), q))
    } else {
        where_conditions(q.drop_first())
    }
}

/// Whether the parser loops forever on what follows the table: it does unless
/// a semicolon comes next, or `WHERE` comes next and its conditions end in an
/// error or at a semicolon.
pub open spec fn where_loop(q: Seq<TokenModel>) -> bool {
    &&& !(q.len() > 0 && is_symbol_in(q[0], seq![SymbolType::Semicolon]))
    &&& {
        ||| !(q.len() > 0 && token_value(q[0]) == "WHERE"@)
        ||| (where_conditions(q.drop_first()) matches Ok((_, rest)) && rest.len() == 0)
    }
}

/// The logical operator that links condition `i` to the next one: the next
/// entry's keyword, where it starts with one.
pub open spec fn next_logic(cs: Seq<RawCondition>, i: int) -> Option<Seq<char>> {
    if i + 1 < cs.len() && cs[i + 1].0 is Keyword {
        Some(cs[i + 1].0->Keyword_0)
    } else {
        None
    }
}

/// The condition nodes made of the raw conditions from `i` on. Each must be an
/// identifier, a symbol and a literal; an `AND` or `OR` entry is an error.
pub open spec fn condition_nodes(cs: Seq<RawCondition>, i: int) -> Result<Seq<ConditionModel>, ErrorModel>
    decreases cs.len() - i,
{
    if i < 0 || i >= cs.len() {
        Ok(Seq::empty())
    } else if token_tag(cs[i].0) != TokenTag::Identifier {
        Err(ErrorModel::GenericSyntaxError(""@))
    } else {
        match cs[i].1 {
            Some(TokenModel::Symbol(op)) => match cs[i].2 {
                Some(TokenModel::Literal(v, _)) => match condition_nodes(cs, i + 1) {
                    Ok(rest) => Ok(
                        seq![
                            ConditionModel {
                                left: token_value(cs[i].0),
                                operator: op,
                                right: (v, LiteralType::String),
                                logic: next_logic(cs, i),
                            },
                        ] + rest,
                    ),
                    Err(e) => Err(e),
                },
                Some(t) => Err(ErrorModel::InvalidToken(TokenTag::Literal, token_tag(t))),
                None => Err(ErrorModel::GenericSyntaxError("Invalid condition construction"@)),
            },
            _ => Err(ErrorModel::GenericSyntaxError("Invalid condition construction"@)),
        }
    }
}

/// A `SELECT` command as plain values: its columns, its table and its
/// conditions.
pub type SelectModel = (Seq<Seq<char>>, Seq<char>, Seq<ConditionModel>);

/// The columns, table and conditions of a `SELECT` command, the keyword
/// `SELECT` already taken: the columns, `FROM <table>`, optionally `WHERE` and
/// conditions, and a semicolon.
pub open spec fn select_spec(q: Seq<TokenModel>) -> Result<SelectModel, ErrorModel> {
    match first_column(q) {
        Err(e) => Err(e),
        Ok(c0) => match more_columns(q.drop_first()) {
            Err(e) => Err(e),
            Ok((cols, q2)) => match expect_value(q2, seq!["FROM"@]) {
                Err(e) => Err(e),
                Ok(_) => match expect_tag(q2.drop_first(), TokenTag::Identifier) {
                    Err(e) => Err(e),
                    Ok(table) => select_finish(
                        seq![c0] + cols,
                        token_value(table),
                        where_clause(q2.drop_first().drop_first()),
                    ),
                },
            },
        },
    }
}

/// A `SELECT` command once its conditions are read: a semicolon follows, and
/// the conditions become nodes.
pub open spec fn select_finish(
    columns: Seq<Seq<char>>,
    table: Seq<char>,
    r: Result<(Seq<RawCondition>, Seq<TokenModel>), ErrorModel>,
) -> Result<SelectModel, ErrorModel> {
    match r {
        Err(e) => Err(e),
        Ok((cs, rest)) => match expect_symbol(rest, seq![SymbolType::Semicolon]) {
            Err(e) => Err(e),
            Ok(_) => match condition_nodes(cs, 0) {
                Err(e) => Err(e),
                Ok(conds) => Ok((columns, table, conds)),
            },
        },
    }
}

/// Whether the parser loops forever on a `SELECT` command, the keyword
/// `SELECT` already taken.
pub open spec fn select_loop(q: Seq<TokenModel>) -> bool {
    &&& first_column(q) is Ok
    &&& more_columns(q.drop_first()) matches Ok((_, q2))
    &&& expect_value(q2, seq!["FROM"@]) is Ok
    &&& expect_tag(q2.drop_first(), TokenTag::Identifier) is Ok
    &&& where_loop(q2.drop_first().drop_first())
}

/// Whether a select node holds the given columns, table and conditions.
pub open spec fn select_is(n: SelectNode, m: SelectModel) -> bool {
    &&& n.columns@.map_values(|c: IdentifierNode| c@) == m.0
    &&& n.child.table@ == m.1
    &&& n.child.children@.len() == 1
    &&& n.child.children@[0] is Where
    &&& n.child.children@[0]->Where_0@ == m.2
}

spec fn prepend_names(
    cols: Seq<Seq<char>>,
    r: Result<(Seq<Seq<char>>, Seq<TokenModel>), ErrorModel>,
) -> Result<(Seq<Seq<char>>, Seq<TokenModel>), ErrorModel> {
    match r {
        Ok((more, rest)) => Ok((cols + more, rest)),
        Err(e) => Err(e),
    }
}

spec fn prepend_conditions(
    cs: Seq<RawCondition>,
    r: Result<(Seq<RawCondition>, Seq<TokenModel>), ErrorModel>,
) -> Result<(Seq<RawCondition>, Seq<TokenModel>), ErrorModel> {
    match r {
        Ok((more, rest)) => Ok((cs + more, rest)),
        Err(e) => Err(e),
    }
}

spec fn prepend_nodes(
    ns: Seq<ConditionModel>,
    r: Result<Seq<ConditionModel>, ErrorModel>,
) -> Result<Seq<ConditionModel>, ErrorModel> {
    match r {
        Ok(more) => Ok(ns + more),
        Err(e) => Err(e),
    }
}

spec fn option_view(t: Option<Token>) -> Option<TokenModel> {
    match t {
        Some(t) => Some(t@),
        None => None,
    }
}

spec fn raw_view(c: (Token, Option<Token>, Option<Token>)) -> RawCondition {
    (c.0@, option_view(c.1), option_view(c.2))
}

spec fn raw_views(v: Seq<(Token, Option<Token>, Option<Token>)>) -> Seq<RawCondition> {
    v.map_values(|c: (Token, Option<Token>, Option<Token>)| raw_view(c))
}

spec fn column_names_of(v: Seq<Token>) -> Seq<Seq<char>> {
    v.map_values(|t: Token| column_name(t@))
}

fn build_select_tree(queue: &mut TokenQueue) -> (r: Result<SelectNode, SyntaxError>)
    requires
        !select_loop(old(queue)@),
    ensures
        match select_spec(old(queue)@) {
            Ok(m) => (r matches Ok(n) && select_is(n, m)),
            Err(e) => (r matches Err(x) && x@ == e),
        },
{
    let ghost q0 = queue@;
    // Grab the first value as a column
    let mut columns: Vec<Token> = vec![];
    match queue.next() {
        Ok(val) => match val {
            Token::Identifier(t) => {
                columns.push(Token::Identifier(t));
            },
            Token::Symbol(s) => match s {
                SymbolType::Star => columns.push(Token::Symbol(s)),
                val => {
                    return Err(SyntaxError::UnexpectedSymbol(UnexpectedSymbol::new(&val)));
                },
            },
            val => {
                let expected = vec!["identifier"];
                assert(crate::tokenizer::str_views(expected@) =~= seq!["identifier"@]);
                return Err(
                    SyntaxError::InvalidValue(
                        InvalidValue::new(expected, String::from_str(val.value())),
                    ),
                );
            },
        },
        Err(_) => {
            return Err(SyntaxError::MissingToken(MissingToken::new(Some(TokenTag::Identifier))));
        },
    }
    let ghost c1 = queue@;
    assert(c1 == q0.drop_first());
    assert(column_names_of(columns@) =~= seq![first_column(q0)->Ok_0]);
    // After the first value, loop while the next token is an identifier
    loop
        invariant_except_break
            q0 == old(queue)@,
            c1 == q0.drop_first(),
            !select_loop(q0),
            first_column(q0) is Ok,
            more_columns(c1) == prepend_names(
                column_names_of(columns@).drop_first(),
                more_columns(queue@),
            ),
            column_names_of(columns@).len() > 0,
            column_names_of(columns@)[0] == first_column(q0)->Ok_0,
            forall|i: int|
                0 <= i < columns@.len() ==> (#[trigger] columns@[i])@ is Identifier
                    || columns@[i]@ == TokenModel::Symbol(SymbolType::Star),
        ensures
            q0 == old(queue)@,
            c1 == q0.drop_first(),
            !select_loop(q0),
            first_column(q0) is Ok,
            more_columns(c1) == Ok::<(Seq<Seq<char>>, Seq<TokenModel>), ErrorModel>(
                (column_names_of(columns@).drop_first(), queue@),
            ),
            column_names_of(columns@).len() > 0,
            column_names_of(columns@)[0] == first_column(q0)->Ok_0,
            forall|i: int|
                0 <= i < columns@.len() ==> (#[trigger] columns@[i])@ is Identifier
                    || columns@[i]@ == TokenModel::Symbol(SymbolType::Star),
        decreases queue@.len(),
    {
        match queue.next_token_type() {
            TokenTag::Identifier => {
                let ghost before = columns@;
                let next = queue.next()?;
                columns.push(next);
                proof {
                    assert(column_names_of(columns@) =~= column_names_of(before).push(
                        column_name(next@),
                    ));
                    assert(column_names_of(columns@).drop_first() =~= column_names_of(
                        before,
                    ).drop_first() + seq![column_name(next@)]);
                    lemma_prepend_names_assoc(
                        column_names_of(before).drop_first(),
                        seq![column_name(next@)],
                        more_columns(queue@),
                    );
                }
                continue ;
            },
            // If its a comma, keep going, other symbols will error out
            TokenTag::Symbol => {
                let comma = vec![SymbolType::Comma];
                assert(comma@ =~= seq![SymbolType::Comma]);
                if queue.check_next_symbol(comma) {
                    queue.next()?;
                    continue ;
                } else {
                    let sep = vec![","];
                    assert(crate::tokenizer::str_views(sep@) =~= seq![","@]);
                    let found = queue.next()?;
                    return Err(
                        SyntaxError::InvalidValue(InvalidValue::new(sep, String::from_str(found.value()))),
                    );
                }
            },
            _ => {
                assert(column_names_of(columns@).drop_first() + Seq::<Seq<char>>::empty()
                    == column_names_of(columns@).drop_first());
                break ;
            },
        }
    }
    // Ensure the next token is "FROM"
    let from = vec!["FROM"];
    assert(crate::tokenizer::str_views(from@) =~= seq!["FROM"@]);
    queue.validate_token_value(from)?;
    // Grab the next token as the table identifier
    let table_name = queue.validate_token_type(TokenTag::Identifier)?;
    let ghost ws = queue@;
    let ghost cols = column_names_of(columns@);
    assert(cols == seq![cols[0]] + cols.drop_first());
    assert(select_spec(q0) == select_finish(cols, token_value(table_name@), where_clause(ws)));
    let mut conditions: Vec<(Token, Option<Token>, Option<Token>)> = vec![];
    // Check for an ending Semicolon
    while !queue.check_next_symbol(vec_of_semicolon())
        invariant
            q0 == old(queue)@,
            !where_loop(ws),
            select_spec(q0) == select_finish(cols, token_value(table_name@), where_clause(ws)),
            queue@ == ws && conditions@.len() == 0 || queue@.len() > 0 && is_symbol_in(
                queue@[0],
                seq![SymbolType::Semicolon],
            ) && where_clause(ws) == Ok::<(Seq<RawCondition>, Seq<TokenModel>), ErrorModel>(
                (raw_views(conditions@), queue@),
            ),
        decreases queue@.len(),
    {
        // Only `WHERE` can come next: on anything else the loop would not end,
        // which the precondition rules out.
        proof {
            assert(queue@ == ws);
            assert(ws.len() > 0 && token_value(ws[0]) == "WHERE"@);
            assert(seq!["WHERE"@][0] == token_value(queue@[0]));
        }
        // If there is a WHERE, Loop over values creating conditions
        let where_keyword = vec!["WHERE"];
        assert(crate::tokenizer::str_views(where_keyword@) =~= seq!["WHERE"@]);
        if queue.next_token_contains(where_keyword) {
            // Consume the "WHERE"
            queue.next()?;
            let ghost cstart = queue@;
            loop
                invariant_except_break
                    q0 == old(queue)@,
                    !where_loop(ws),
                    select_spec(q0) == select_finish(cols, token_value(table_name@), where_clause(ws)),
                    ws.len() > 0,
                    !is_symbol_in(ws[0], seq![SymbolType::Semicolon]),
                    cstart == ws.drop_first(),
                    queue@.len() <= cstart.len(),
                    where_conditions(cstart) == prepend_conditions(raw_views(conditions@), where_conditions(queue@)),
                ensures
                    q0 == old(queue)@,
                    !where_loop(ws),
                    select_spec(q0) == select_finish(cols, token_value(table_name@), where_clause(ws)),
                    ws.len() > 0,
                    !is_symbol_in(ws[0], seq![SymbolType::Semicolon]),
                    cstart == ws.drop_first(),
                    queue@.len() <= cstart.len(),
                    where_conditions(cstart) == Ok::<(Seq<RawCondition>, Seq<TokenModel>), ErrorModel>(
                        (raw_views(conditions@), queue@),
                    ),
                    queue@.len() == 0 || is_symbol_in(queue@[0], seq![SymbolType::Semicolon]),
                decreases queue@.len(),
            {
                // Exit condition
                if queue.check_next_symbol(vec_of_semicolon()) || !queue.has_tokens() {
                    assert(raw_views(conditions@) + Seq::<RawCondition>::empty() == raw_views(
                        conditions@,
                    ));
                    break ;
                }
                let ghost before = queue@;
                let ghost old_conditions = conditions@;
                // Add the keyword as part of the conditions and then continue
                let logic = vec!["AND", "OR"];
                assert(crate::tokenizer::str_views(logic@) =~= seq!["AND"@, "OR"@]);
                if queue.next_token_contains(logic) {
                    let keyword = queue.next()?;
                    let entry = (keyword, None, None);
                    conditions.push(entry);
                    proof {
                        assert(raw_views(conditions@) =~= raw_views(old_conditions) + seq![
                            raw_view(entry),
                        ]);
                        lemma_prepend_conditions_assoc(
                            raw_views(old_conditions),
                            seq![raw_view(entry)],
                            where_conditions(queue@),
                        );
                    }
                    continue ;
                }
                // Create conditions
                let left = queue.next()?;
                let op = queue.next()?;
                let right = queue.next()?;
                proof {
                    assert(queue@ == before.skip(3));
                }
                let entry = (left, Some(op), Some(right));
                conditions.push(entry);
                proof {
                    assert(raw_views(conditions@) =~= raw_views(old_conditions) + seq![
                        raw_view(entry),
                    ]);
                    lemma_prepend_conditions_assoc(
                        raw_views(old_conditions),
                        seq![raw_view(entry)],
                        where_conditions(queue@),
                    );
                }
            }
        }
    }
    // Double check that we have an ending semicolon
    queue.verify_symbol_type(vec_of_semicolon())?;
    // Construct the ast from bottom up
    let mut condtion_nodes: Vec<ConditionNode> = vec![];
    let mut column_nodes: Vec<IdentifierNode> = vec![];
    let ghost cs = raw_views(conditions@);
    let mut i: usize = 0;
    while i < conditions.len()
        invariant
            i <= conditions@.len(),
            q0 == old(queue)@,
            cs == raw_views(conditions@),
            select_spec(q0) == match condition_nodes(cs, 0) {
                Err(e) => Err(e),
                Ok(conds) => Ok((cols, token_value(table_name@), conds)),
            },
            condition_nodes(cs, 0) == prepend_nodes(
                condtion_nodes@.map_values(|c: ConditionNode| c@),
                condition_nodes(cs, i as int),
            ),
        decreases conditions@.len() - i,
    {
        let current = &conditions[i];
        assert(cs[i as int] == raw_view(conditions@[i as int]));
        match current.0.tag() {
            // If the next condition is a logical operator, add it to the previous node
            TokenTag::Identifier => {
                let left = IdentifierNode { identifier: String::from_str(current.0.value()) };
                let operator = OperatorNode {
                    operator: match &current.1 {
                        Some(Token::Symbol(val)) => *val,
                        _ => {
                            return Err(
                                SyntaxError::GenericSyntaxError(
                                    GenericSyntaxError::new("Invalid condition construction"),
                                ),
                            );
                        },
                    },
                };
                let right: LiteralNode = match &current.2 {
                    Some(val) => match val {
                        Token::Literal(s) => LiteralNode {
                            value: s.value.clone(),
                            literal_type: LiteralType::String,
                        },
                        t => {
                            return Err(
                                SyntaxError::InvalidToken(InvalidToken::new(TokenTag::Literal, t.tag())),
                            );
                        },
                    },
                    None => {
                        return Err(
                            SyntaxError::GenericSyntaxError(
                                GenericSyntaxError::new("Invalid condition construction"),
                            ),
                        );
                    },
                };
                let mut node = ConditionNode {
                    left,
                    operator,
                    right: Box::new(right),
                    logic_with_next: None,
                };
                // If the next token is a keyword, add it as a logical operator
                if i + 1 < conditions.len() {
                    if let Token::Keyword(k) = &conditions[i + 1].0 {
                        node.set_logic(k.value.as_str());
                    }
                }
                let ghost before = condtion_nodes@;
                condtion_nodes.push(node);
                proof {
                    assert(node@ == ConditionModel {
                        left: token_value(cs[i as int].0),
                        operator: operator.operator,
                        right: (right.value@, LiteralType::String),
                        logic: next_logic(cs, i as int),
                    });
                    assert(condtion_nodes@.map_values(|c: ConditionNode| c@) =~= before.map_values(
                        |c: ConditionNode| c@,
                    ) + seq![node@]);
                    lemma_prepend_nodes_assoc(
                        before.map_values(|c: ConditionNode| c@),
                        seq![node@],
                        condition_nodes(cs, i + 1),
                    );
                }
            },
            _ => return Err(SyntaxError::GenericSyntaxError(GenericSyntaxError::new(""))),
        }
        i += 1;
    }
    let where_node: WhereNode = WhereNode { conditions: condtion_nodes };
    let mut j: usize = 0;
    while j < columns.len()
        invariant
            j <= columns@.len(),
            column_nodes@.map_values(|c: IdentifierNode| c@) == column_names_of(
                columns@.take(j as int),
            ),
            forall|i: int|
                0 <= i < columns@.len() ==> (#[trigger] columns@[i])@ is Identifier
                    || columns@[i]@ == TokenModel::Symbol(SymbolType::Star),
        decreases columns@.len() - j,
    {
        let column = &columns[j];
        let c: IdentifierNode = match column {
            Token::Symbol(SymbolType::Star) => IdentifierNode { identifier: String::from_str("STAR") },
            Token::Identifier(i) => IdentifierNode { identifier: i.value.clone() },
            t => {
                return Err(SyntaxError::InvalidToken(InvalidToken::new(TokenTag::Identifier, t.tag())));
            },
        };
        let ghost before = column_nodes@;
        column_nodes.push(c);
        proof {
            assert(columns@.take(j + 1) == columns@.take(j as int).push(columns@[j as int]));
            assert(column_nodes@.map_values(|c: IdentifierNode| c@) =~= before.map_values(
                |c: IdentifierNode| c@,
            ).push(c@));
        }
        j += 1;
    }
    assert(columns@.take(columns@.len() as int) == columns@);
    let select_node: SelectNode = SelectNode {
        columns: column_nodes,
        child: FromNode {
            table: IdentifierNode { identifier: String::from_str(table_name.value()) },
            children: vec![Node::Where(where_node)],
        },
    };
    Ok(select_node)
}

fn vec_of_semicolon() -> (r: Vec<SymbolType>)
    ensures
        r@ == seq![SymbolType::Semicolon],
{
    let v = vec![SymbolType::Semicolon];
    assert(v@ =~= seq![SymbolType::Semicolon]);
    v
}

proof fn lemma_prepend_names_assoc(
    a: Seq<Seq<char>>,
    b: Seq<Seq<char>>,
    r: Result<(Seq<Seq<char>>, Seq<TokenModel>), ErrorModel>,
)
    ensures
        prepend_names(a, prepend_names(b, r)) == prepend_names(a + b, r),
{
    if let Ok((v, rest)) = r {
        assert(a + (b + v) =~= (a + b) + v);
    }
}

proof fn lemma_prepend_conditions_assoc(
    a: Seq<RawCondition>,
    b: Seq<RawCondition>,
    r: Result<(Seq<RawCondition>, Seq<TokenModel>), ErrorModel>,
)
    ensures
        prepend_conditions(a, prepend_conditions(b, r)) == prepend_conditions(a + b, r),
{
    if let Ok((v, rest)) = r {
        assert(a + (b + v) =~= (a + b) + v);
    }
}

proof fn lemma_prepend_nodes_assoc(
    a: Seq<ConditionModel>,
    b: Seq<ConditionModel>,
    r: Result<Seq<ConditionModel>, ErrorModel>,
)
    ensures
        prepend_nodes(a, prepend_nodes(b, r)) == prepend_nodes(a + b, r),
{
    if let Ok(v) = r {
        assert(a + (b + v) =~= (a + b) + v);
    }
}

/// A condition as plain values.
pub struct ConditionModel {
    pub left: Seq<char>,
    pub operator: SymbolType,
    pub right: LiteralModel,
    pub logic: Option<Seq<char>>,
}

/// A node of a syntax tree.
#[derive(Debug)]
pub enum Node {
    From(FromNode),
    Where(WhereNode),
    Column(ColumnNode),
    Constraint(ConstraintNode),
    Identifier(IdentifierNode),
    Condition(ConditionNode),
    Operator(OperatorNode),
    Logical(LogicalNode),
    Row(RowNode),
    LiteralNode(LiteralNode),
}

/// A `SELECT` command: its columns and where they come from.
#[derive(Debug)]
pub struct SelectNode {
    pub columns: Vec<IdentifierNode>,
    pub child: FromNode,
}

/// The table of a `SELECT` command, and the clauses that follow it.
#[derive(Debug)]
pub struct FromNode {
    pub table: IdentifierNode,
    pub children: Vec<Node>,
}

/// The conditions of a `WHERE` clause.
#[derive(Debug)]
pub struct WhereNode {
    pub conditions: Vec<ConditionNode>,
}

impl View for WhereNode {
    type V = Seq<ConditionModel>;

    open spec fn view(&self) -> Seq<ConditionModel> {
        self.conditions@.map_values(|c: ConditionNode| c@)
    }
}

/// A condition: a column, an operator and a literal, with the logical
/// operator that links it to the next condition, where there is one.
#[derive(Debug)]
pub struct ConditionNode {
    pub left: IdentifierNode,
    pub operator: OperatorNode,
    pub right: Box<LiteralNode>,
    pub logic_with_next: Option<LogicalNode>,
}

impl View for ConditionNode {
    type V = ConditionModel;

    open spec fn view(&self) -> ConditionModel {
        ConditionModel {
            left: self.left@,
            operator: self.operator.operator,
            right: (*self.right)@,
            logic: match &self.logic_with_next {
                Some(l) => Some(l.logic@),
                None => None,
            },
        }
    }
}

impl ConditionNode {
    /// Links this condition to the next one by the logical operator `logic`.
    pub fn set_logic(&mut self, logic: &str)
        ensures
            final(self)@ == (ConditionModel { logic: Some(logic@), ..old(self)@ }),
    {
        self.logic_with_next = Some(LogicalNode { logic: String::from_str(logic) });
    }
}

/// The operator of a condition.
#[derive(Debug)]
pub struct OperatorNode {
    pub operator: SymbolType,
}

/// A logical operator between conditions.
#[derive(Debug)]
pub struct LogicalNode {
    pub logic: String,
}

/// A column as plain values: its name and its constraints, where it has any.
pub type ColumnModel = (Seq<char>, Option<Seq<Seq<char>>>);

/// A `CREATE` command: its table and columns.
#[derive(Debug)]
pub struct CreateNode {
    pub table: IdentifierNode,
    pub children: Vec<ColumnNode>,
}

impl View for CreateNode {
    type V = (Seq<char>, Seq<ColumnModel>);

    open spec fn view(&self) -> (Seq<char>, Seq<ColumnModel>) {
        (self.table@, self.children@.map_values(|c: ColumnNode| c@))
    }
}

/// A column of a `CREATE` command.
#[derive(Debug)]
pub struct ColumnNode {
    pub column_identifier: IdentifierNode,
    pub constraints: Option<Vec<ConstraintNode>>,
}

impl View for ColumnNode {
    type V = ColumnModel;

    open spec fn view(&self) -> ColumnModel {
        (
            self.column_identifier@,
            match &self.constraints {
                Some(v) => Some(v@.map_values(|c: ConstraintNode| c@)),
                None => None,
            },
        )
    }
}

/// A constraint on a column.
#[derive(Debug)]
pub struct ConstraintNode {
    pub value: String,
}

impl View for ConstraintNode {
    type V = Seq<char>;

    open spec fn view(&self) -> Seq<char> {
        self.value@
    }
}

/// An `INSERT` command: its table and rows.
#[derive(Debug)]
pub struct InsertNode {
    pub table: IdentifierNode,
    pub children: Vec<RowNode>,
}

impl View for InsertNode {
    type V = (Seq<char>, Seq<RowModel>);

    open spec fn view(&self) -> (Seq<char>, Seq<RowModel>) {
        (self.table@, self.children@.map_values(|r: RowNode| r@))
    }
}

/// A row of literals to insert.
#[derive(Debug)]
pub struct RowNode {
    pub literals: Vec<LiteralNode>,
}

impl View for RowNode {
    type V = RowModel;

    open spec fn view(&self) -> RowModel {
        self.literals@.map_values(|l: LiteralNode| l@)
    }
}

/// A name: of a table or of a column.
#[derive(Debug)]
pub struct IdentifierNode {
    pub identifier: String,
}

impl View for IdentifierNode {
    type V = Seq<char>;

    open spec fn view(&self) -> Seq<char> {
        self.identifier@
    }
}

/// A literal value.
#[derive(Debug)]
pub struct LiteralNode {
    pub value: String,
    pub literal_type: LiteralType,
}

impl View for LiteralNode {
    type V = LiteralModel;

    open spec fn view(&self) -> LiteralModel {
        (self.value@, self.literal_type)
    }
}

} // verus!
