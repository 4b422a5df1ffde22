use sqldap::error::QueryError;
use sqldap::filter::{ComparisonOp, Expression, LogicalOp};
use sqldap::query::{
    classify, resolve_table, wrap_filter, Alias, Assign, Column, Directive, QueryType, SelectStmt,
    Source, Stmt, UpdateStmt,
};

fn alias(name: &str, location: &str) -> Alias {
    Alias { name: name.to_string(), location: location.to_string() }
}

fn people() -> Vec<Alias> {
    vec![alias("people", "ou=people,dc=example,dc=com")]
}

fn name(text: &str) -> Column {
    Column::Expression(Expression::Identifier(text.to_string()))
}

fn table(text: &str) -> Source {
    Source::Table(text.to_string())
}

fn equals(left: &str, right: &str) -> Expression {
    Expression::Comparison {
        op: ComparisonOp::Eq,
        left: Box::new(Expression::Identifier(left.to_string())),
        right: Box::new(Expression::Literal(right.to_string())),
    }
}

fn select(projection: Vec<Column>, from: Vec<Source>, selection: Option<Expression>) -> Stmt {
    Stmt::Select(SelectStmt { projection, from, selection })
}

#[test]
fn alias_reference_resolves_without_marker() {
    let out = resolve_table("@people", &people());
    assert_eq!(out, "ou=people,dc=example,dc=com");
    assert!(!out.contains('@'));
}

#[test]
fn several_aliases_in_one_reference_all_resolve() {
    let aliases = vec![
        alias("unit", "ou=unit"),
        alias("people", "ou=people"),
        alias("base", "dc=example,dc=com"),
    ];
    let out = resolve_table("cn=x,@unit,@people,@base", &aliases);
    assert_eq!(out, "cn=x,ou=unit,ou=people,dc=example,dc=com");
    assert!(!out.contains('@'));
    let twice = resolve_table("@base;@base", &aliases);
    assert_eq!(twice, "dc=example,dc=com;dc=example,dc=com");
}

#[test]
fn aliases_resolve_in_any_order_of_the_list() {
    let forward = vec![alias("a", "x"), alias("b", "y")];
    let backward = vec![alias("b", "y"), alias("a", "x")];
    assert_eq!(resolve_table("@a,@b", &forward), "x,y");
    assert_eq!(resolve_table("@a,@b", &backward), "x,y");
}

#[test]
fn unknown_alias_and_empty_list_leave_the_reference() {
    assert_eq!(resolve_table("@nobody", &people()), "@nobody");
    assert_eq!(resolve_table("@people", &vec![]), "@people");
    assert_eq!(resolve_table("", &people()), "");
}

#[test]
fn alias_is_substituted_one_after_the_other() {
    let aliases = vec![alias("a", "@b"), alias("b", "z")];
    assert_eq!(resolve_table("@a", &aliases), "z");
    let reversed = vec![alias("b", "z"), alias("a", "@b")];
    assert_eq!(resolve_table("@a", &reversed), "@b");
}

#[test]
fn wrap_adds_one_pair_only_where_none_opens_the_text() {
    assert_eq!(wrap_filter("&(a=1)(b=2)".to_string()), "(&(a=1)(b=2))");
    assert_eq!(wrap_filter("(a=1)".to_string()), "(a=1)");
    assert_eq!(wrap_filter("".to_string()), "()");
    assert_eq!(wrap_filter("(a=1)(b=2)".to_string()), "(a=1)(b=2)");
}

#[test]
fn select_with_condition() {
    let stmt = select(
        vec![name("cn"), name("uid"), name("cn")],
        vec![table("\"ou=admins,@people\"")],
        Some(Expression::Logical {
            op: LogicalOp::And,
            left: Box::new(equals("a", "1")),
            right: Box::new(equals("b", "2")),
        }),
    );
    let c = classify(&stmt, &people()).unwrap();
    assert_eq!(c.query.qtype, QueryType::Select);
    assert_eq!(c.query.identifiers, vec!["cn".to_string(), "uid".to_string(), "cn".to_string()]);
    assert!(!c.query.wildcard);
    assert_eq!(c.query.table, "ou=admins,ou=people,dc=example,dc=com");
    assert_eq!(c.query.filter, "(&(a=1)(b=2))");
    assert_eq!(c.query.var, "");
    assert!(c.directives.is_empty());
    assert!(c.notices.is_empty());
}

#[test]
fn select_without_where_gets_match_all_filter_and_one_notice() {
    let stmt = select(vec![Column::Wildcard], vec![table("@people")], None);
    let c = classify(&stmt, &people()).unwrap();
    assert_eq!(c.query.filter, "(objectClass=*)");
    assert!(c.query.wildcard);
    assert!(c.query.identifiers.is_empty());
    assert_eq!(c.notices.len(), 1);
    assert_eq!(
        c.notices[0],
        "'WHERE attr=val' was not supplied, added (objectClass=*) as search filter.\n"
    );
}

#[test]
fn select_wildcard_beside_names() {
    let stmt = select(vec![name("uid"), Column::Wildcard], vec![table("t")], Some(equals("a", "1")));
    let c = classify(&stmt, &vec![]).unwrap();
    assert!(c.query.wildcard);
    assert_eq!(c.query.identifiers, vec!["uid".to_string()]);
    assert_eq!(c.query.filter, "(a=1)");
}

#[test]
fn select_filter_is_not_wrapped_twice() {
    let stmt = select(
        vec![name("uid")],
        vec![table("t")],
        Some(Expression::Group(Box::new(equals("a", "1")))),
    );
    assert_eq!(classify(&stmt, &vec![]).unwrap().query.filter, "((a=1))");
}

#[test]
fn select_refuses_other_projection() {
    let with_literal = select(
        vec![name("uid"), Column::Expression(Expression::Literal("1".to_string()))],
        vec![table("t")],
        None,
    );
    assert_eq!(classify(&with_literal, &vec![]), Err(QueryError::UnsupportedProjection));
    let with_other = select(vec![Column::Other], vec![table("t")], None);
    assert_eq!(classify(&with_other, &vec![]), Err(QueryError::UnsupportedProjection));
}

#[test]
fn select_refuses_other_sources() {
    let none = select(vec![name("uid")], vec![], None);
    assert_eq!(classify(&none, &vec![]), Err(QueryError::UnsupportedTableExpression));
    let two = select(vec![name("uid")], vec![table("a"), table("b")], None);
    assert_eq!(classify(&two, &vec![]), Err(QueryError::UnsupportedTableExpression));
    let other = select(vec![name("uid")], vec![Source::Other], None);
    assert_eq!(classify(&other, &vec![]), Err(QueryError::UnsupportedTableExpression));
}

#[test]
fn select_reports_projection_before_source_before_condition() {
    let all_wrong = select(vec![Column::Other], vec![], Some(Expression::Unsupported));
    assert_eq!(classify(&all_wrong, &vec![]), Err(QueryError::UnsupportedProjection));
    let two_wrong = select(vec![name("a")], vec![], Some(Expression::Unsupported));
    assert_eq!(classify(&two_wrong, &vec![]), Err(QueryError::UnsupportedTableExpression));
    let one_wrong = select(vec![name("a")], vec![table("t")], Some(Expression::Unsupported));
    assert_eq!(classify(&one_wrong, &vec![]), Err(QueryError::UnsupportedExpression));
}

#[test]
fn update_appends_dn_attribute_even_when_assigned() {
    let stmt = Stmt::Update(UpdateStmt {
        table: vec!["uid=a,ou=people,dc=example,dc=com".to_string()],
        assignments: vec![
            Assign { id: "entrydn".to_string(), value: Expression::Literal("'x'".to_string()) },
            Assign { id: "cn".to_string(), value: Expression::Identifier("y".to_string()) },
        ],
        selection: Some(equals("uid", "'a'")),
    });
    let c = classify(&stmt, &people()).unwrap();
    assert_eq!(c.query.qtype, QueryType::Update);
    assert_eq!(
        c.query.identifiers,
        vec!["entrydn".to_string(), "cn".to_string(), "entrydn".to_string()]
    );
    assert_eq!(c.query.table, "uid=a,ou=people,dc=example,dc=com");
    assert_eq!(c.query.filter, "(uid='a')");
    assert!(!c.query.wildcard);
    assert_eq!(
        c.directives,
        vec![
            Directive { attribute: "entrydn".to_string(), values: vec!["'x'".to_string()] },
            Directive { attribute: "cn".to_string(), values: vec!["y".to_string()] },
        ]
    );
    assert_eq!(c.notices, vec!["table_name: uid=a,ou=people,dc=example,dc=com".to_string()]);
}

#[test]
fn update_keeps_alias_token_and_empty_filter() {
    let stmt = Stmt::Update(UpdateStmt {
        table: vec!["x".to_string(), "@people".to_string()],
        assignments: vec![],
        selection: None,
    });
    let c = classify(&stmt, &people()).unwrap();
    assert_eq!(c.query.table, "@people");
    assert_eq!(c.query.filter, "");
    assert_eq!(c.query.identifiers, vec!["entrydn".to_string()]);
    assert!(c.directives.is_empty());
    assert_eq!(c.notices, vec!["table_name: x".to_string(), "table_name: @people".to_string()]);
}

#[test]
fn update_without_name_parts_has_empty_table() {
    let stmt = Stmt::Update(UpdateStmt { table: vec![], assignments: vec![], selection: None });
    let c = classify(&stmt, &vec![]).unwrap();
    assert_eq!(c.query.table, "");
    assert!(c.notices.is_empty());
}

#[test]
fn update_refuses_other_assignments_first() {
    let stmt = Stmt::Update(UpdateStmt {
        table: vec!["t".to_string()],
        assignments: vec![
            Assign { id: "a".to_string(), value: Expression::Literal("1".to_string()) },
            Assign { id: "b".to_string(), value: Expression::Wildcard },
        ],
        selection: Some(Expression::Unsupported),
    });
    assert_eq!(classify(&stmt, &vec![]), Err(QueryError::UnsupportedAssignment));
    let cond = Stmt::Update(UpdateStmt {
        table: vec!["t".to_string()],
        assignments: vec![],
        selection: Some(Expression::Unsupported),
    });
    assert_eq!(classify(&cond, &vec![]), Err(QueryError::UnsupportedExpression));
}

#[test]
fn show_captures_the_variable_as_written() {
    let c = classify(&Stmt::Show("TaBleS".to_string()), &people()).unwrap();
    assert_eq!(c.query.qtype, QueryType::Show);
    assert_eq!(c.query.var, "TaBleS");
    assert_eq!(c.query.table, "");
    assert_eq!(c.query.filter, "");
    assert!(c.query.identifiers.is_empty());
    assert!(c.notices.is_empty());
}

#[test]
fn other_statements_are_refused() {
    assert_eq!(classify(&Stmt::Other, &people()), Err(QueryError::UnsupportedStatement));
}

#[test]
fn every_refusal_has_its_message() {
    let all = [
        QueryError::UnsupportedStatement,
        QueryError::UnsupportedProjection,
        QueryError::UnsupportedTableExpression,
        QueryError::UnsupportedExpression,
        QueryError::UnsupportedFilterOperator,
        QueryError::UnsupportedAssignment,
    ];
    for (i, a) in all.iter().enumerate() {
        assert!(!a.message().is_empty());
        for b in all.iter().skip(i + 1) {
            assert_ne!(a.message(), b.message());
        }
    }
    assert_eq!(
        QueryError::UnsupportedAssignment.message(),
        "Only Value and Identifier are supported."
    );
}
