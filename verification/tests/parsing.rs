use dbms::errors::{Printable, SyntaxError};
use dbms::parser::{create_ast, parse_returns, LiteralType, Node, RootNode};
use dbms::tokenizer::{tokenize, SymbolType};

fn parse(text: &str) -> Result<RootNode, SyntaxError> {
    create_ast(tokenize(text).unwrap())
}

fn error_message(text: &str) -> String {
    match parse(text) {
        Err(e) => e.message(),
        Ok(n) => panic!("expected an error, got {:?}", n),
    }
}

#[test]
fn select_with_condition() {
    let node = match parse("SELECT * FROM users WHERE age > 20;") {
        Ok(RootNode::Select(n)) => n,
        other => panic!("unexpected {:?}", other.is_ok()),
    };
    assert_eq!(node.columns.len(), 1);
    assert_eq!(node.columns[0].identifier, "STAR");
    assert_eq!(node.child.table.identifier, "users");
    assert_eq!(node.child.children.len(), 1);
    match &node.child.children[0] {
        Node::Where(w) => {
            assert_eq!(w.conditions.len(), 1);
            let c = &w.conditions[0];
            assert_eq!(c.left.identifier, "age");
            assert_eq!(c.operator.operator, SymbolType::GreaterThan);
            assert_eq!(c.right.value, "20");
            // The right side of a condition is kept as a string.
            assert!(matches!(c.right.literal_type, LiteralType::String));
            assert!(c.logic_with_next.is_none());
        }
        _ => panic!("expected a WHERE node"),
    }
}

#[test]
fn select_single_named_column() {
    let node = match parse("SELECT name FROM users;") {
        Ok(RootNode::Select(n)) => n,
        _ => panic!("expected a SELECT node"),
    };
    assert_eq!(node.columns[0].identifier, "name");
    match &node.child.children[0] {
        Node::Where(w) => assert!(w.conditions.is_empty()),
        _ => panic!("expected a WHERE node"),
    }
}

#[test]
fn select_errors() {
    assert_eq!(error_message("SELECT ( FROM t;"), "Unexpected symbol: LParen");
    assert_eq!(
        error_message("SELECT FROM t;"),
        "Invalid token. Expected: identifier, Found: FROM"
    );
    assert_eq!(error_message("SELECT a ( FROM t;"), "Invalid token. Expected: ,, Found: LParen");
    assert_eq!(error_message("SELECT a INTO t;"), "Invalid token. Expected: FROM, Found: INTO");
    assert_eq!(
        error_message("SELECT a FROM 1;"),
        "Invalid token. Expected: Identifier, Found: Literal"
    );
    assert_eq!(error_message("SELECT a FROM t WHERE b;"), "Missing token");
    // A linked condition ends in an error.
    assert_eq!(error_message("SELECT a FROM t WHERE b = 1 AND c = 2;"), "");
    assert_eq!(
        error_message("SELECT a FROM t WHERE b = c;"),
        "Invalid token. Expected: Literal, Found: Identifier"
    );
    assert_eq!(
        error_message("SELECT a FROM t WHERE b c 1;"),
        "Invalid condition construction"
    );
}

#[test]
fn insert_rows_keep_their_order() {
    let node = match parse("INSERT INTO users VALUES (1, 'ann'), (2, 'bob');") {
        Ok(RootNode::Insert(n)) => n,
        _ => panic!("expected an INSERT node"),
    };
    assert_eq!(node.table.identifier, "users");
    assert_eq!(node.children.len(), 2);
    assert_eq!(node.children[0].literals[0].value, "1");
    assert!(matches!(node.children[0].literals[0].literal_type, LiteralType::Integer));
    assert_eq!(node.children[0].literals[1].value, "ann");
    assert!(matches!(node.children[0].literals[1].literal_type, LiteralType::String));
    assert_eq!(node.children[1].literals[0].value, "2");
    assert_eq!(node.children[1].literals[1].value, "bob");
}

#[test]
fn insert_errors() {
    assert_eq!(error_message("INSERT users"), "Invalid token. Expected: INTO, Found: users");
    assert_eq!(
        error_message("INSERT INTO users VALUES (1 * 2);"),
        "Unexpected symbol: Star"
    );
    assert_eq!(error_message("INSERT INTO users VALUES (1"), "Missing token. Expected: Literal");
    assert_eq!(
        error_message("INSERT INTO users VALUES (1, x);"),
        "Missing token. Expected: Literal"
    );
    assert_eq!(error_message("INSERT INTO users VALUES (1)"), "Missing token. Expected: Symbol");
    assert_eq!(error_message("INSERT INTO users VALUES (1) (2);"), "Unexpected symbol: LParen");
    assert_eq!(
        error_message("INSERT INTO users VALUES (1) x"),
        "Invalid token. Expected: Symbol, Found: Identifier"
    );
}

#[test]
fn create_columns() {
    let node = match parse("CREATE TABLE users VALUES (id INTEGER PRIMARY KEY);") {
        Ok(RootNode::Create(n)) => n,
        _ => panic!("expected a CREATE node"),
    };
    assert_eq!(node.table.identifier, "users");
    assert_eq!(node.children.len(), 1);
    assert_eq!(node.children[0].column_identifier.identifier, "id");
    // Constraints are read but not kept.
    assert!(node.children[0].constraints.is_none());
    let empty = match parse("CREATE TABLE t VALUES ();") {
        Ok(RootNode::Create(n)) => n,
        _ => panic!("expected a CREATE node"),
    };
    assert!(empty.children.is_empty());
    let listed = match parse("CREATE TABLE users VALUES (id INTEGER PRIMARY KEY, name TEXT, age INTEGER);") {
        Ok(RootNode::Create(n)) => n,
        _ => panic!("expected a CREATE node"),
    };
    let names: Vec<&str> =
        listed.children.iter().map(|c| c.column_identifier.identifier.as_str()).collect();
    assert_eq!(names, vec!["id", "name", "age"]);
}

#[test]
fn create_errors() {
    // One comma separates two columns; a second one stands where a column name
    // is expected.
    assert_eq!(
        error_message("CREATE TABLE users VALUES (id INTEGER,, name TEXT);"),
        "Invalid token. Expected: Identifier, Found: Symbol"
    );
    assert_eq!(
        error_message("CREATE TABLE users VALUES (id integer);"),
        "Invalid token. Expected: Keyword, Found: Identifier"
    );
    assert_eq!(error_message("CREATE TABLE users VALUES (id"), "Missing token. Expected: Keyword");
    assert_eq!(error_message("CREATE TABLE users VALUES (id)"), "Missing token. Expected: Symbol");
    assert_eq!(error_message("CREATE TABLE t VALUES"), "Missing token. Expected: Symbol");
}

#[test]
fn command_keyword_errors() {
    assert_eq!(error_message(""), "Missing token. Expected: Keyword");
    assert_eq!(error_message("users"), "Invalid token. Expected: Keyword, Found: Identifier");
    assert_eq!(error_message("DROP TABLE t;"), "Invalid token. Expected: Keyword, Found: DROP");
}

#[test]
fn statements_of_the_supported_subset() {
    // `CREATE` expects `VALUES` before the column list.
    assert_eq!(
        error_message("CREATE TABLE users (id INTEGER PRIMARY KEY, name TEXT, age INTEGER);"),
        "Invalid token. Expected: VALUES, Found: LParen"
    );
    assert!(matches!(
        parse("INSERT INTO users VALUES (1, 'daniel', 24);"),
        Ok(RootNode::Insert(_))
    ));
    assert!(matches!(parse("SELECT * FROM users;"), Ok(RootNode::Select(_))));
    assert!(matches!(
        parse("SELECT * FROM users WHERE age > 20;"),
        Ok(RootNode::Select(_))
    ));
    let projection = match parse("SELECT name, age FROM users WHERE id = 1;") {
        Ok(RootNode::Select(n)) => n,
        _ => panic!("expected a SELECT node"),
    };
    let columns: Vec<&str> = projection.columns.iter().map(|c| c.identifier.as_str()).collect();
    assert_eq!(columns, vec!["name", "age"]);
    assert_eq!(projection.child.table.identifier, "users");
    match &projection.child.children[0] {
        Node::Where(w) => {
            assert_eq!(w.conditions.len(), 1);
            assert_eq!(w.conditions[0].left.identifier, "id");
            assert_eq!(w.conditions[0].right.value, "1");
        }
        _ => panic!("expected a WHERE node"),
    }
}

#[test]
fn parse_returns_tells_which_select_commands_end() {
    let ends = |text: &str| parse_returns(&tokenize(text).unwrap());
    assert!(ends("SELECT * FROM users;"));
    assert!(ends("SELECT name, age FROM users WHERE id = 1;"));
    assert!(ends("SELECT * FROM users WHERE a;"));
    assert!(ends("SELECT ( FROM users"));
    assert!(ends("SELECT a INTO users"));
    assert!(ends("INSERT INTO users VALUES (1);"));
    assert!(ends(""));
    // Nothing after the table ends the command.
    assert!(!ends("SELECT * FROM users"));
    assert!(!ends("SELECT * FROM users ORDER BY name;"));
    assert!(!ends("SELECT * FROM users WHERE a = 1"));
}
