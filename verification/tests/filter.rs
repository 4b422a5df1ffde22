use sqldap::error::QueryError;
use sqldap::filter::{parse_selection, ComparisonOp, Expression, LogicalOp};

fn ident(name: &str) -> Box<Expression> {
    Box::new(Expression::Identifier(name.to_string()))
}

fn literal(text: &str) -> Box<Expression> {
    Box::new(Expression::Literal(text.to_string()))
}

fn compare(op: ComparisonOp, left: Box<Expression>, right: Box<Expression>) -> Expression {
    Expression::Comparison { op, left, right }
}

fn logical(op: LogicalOp, left: Expression, right: Expression) -> Expression {
    Expression::Logical { op, left: Box::new(left), right: Box::new(right) }
}

fn eq(name: &str, value: &str) -> Expression {
    compare(ComparisonOp::Eq, ident(name), literal(value))
}

#[test]
fn and_of_two_comparisons() {
    let e = logical(LogicalOp::And, eq("a", "1"), eq("b", "2"));
    assert_eq!(parse_selection(&e), Ok("&(a=1)(b=2)".to_string()));
}

#[test]
fn or_with_grouped_and() {
    let e = logical(
        LogicalOp::Or,
        eq("a", "1"),
        Expression::Group(Box::new(logical(LogicalOp::And, eq("b", "2"), eq("c", "3")))),
    );
    assert_eq!(parse_selection(&e), Ok("|(a=1)(&(b=2)(c=3))".to_string()));
}

#[test]
fn single_comparison_is_one_group() {
    assert_eq!(parse_selection(&eq("uid", "100")), Ok("(uid=100)".to_string()));
}

#[test]
fn greater_and_less_or_equal_keep_their_token() {
    let ge = compare(ComparisonOp::GtEq, ident("passwordretrycount"), literal("3"));
    assert_eq!(parse_selection(&ge), Ok("(passwordretrycount>=3)".to_string()));
    let le = compare(ComparisonOp::LtEq, ident("uidnumber"), literal("10"));
    assert_eq!(parse_selection(&le), Ok("(uidnumber<=10)".to_string()));
}

#[test]
fn like_with_quoted_identifier_translates_wildcards() {
    let e = compare(ComparisonOp::Like, ident("name"), ident("\"%smith%\""));
    assert_eq!(parse_selection(&e), Ok("(name*smith*)".to_string()));
}

#[test]
fn equals_with_quoted_identifier_translates_wildcards() {
    let e = compare(ComparisonOp::Eq, ident("cn"), ident("\"%smith%\""));
    assert_eq!(parse_selection(&e), Ok("(cn=*smith*)".to_string()));
}

#[test]
fn literal_keeps_its_percent_signs() {
    let e = compare(ComparisonOp::Eq, ident("cn"), literal("'%smith%'"));
    assert_eq!(parse_selection(&e), Ok("(cn='%smith%')".to_string()));
}

#[test]
fn every_wrapping_quote_is_stripped() {
    let e = compare(ComparisonOp::Eq, ident("cn"), ident("\"\"a\"b\"\"\""));
    assert_eq!(parse_selection(&e), Ok("(cn=a\"b)".to_string()));
    let only = compare(ComparisonOp::Eq, ident("cn"), ident("\"\"\""));
    assert_eq!(parse_selection(&only), Ok("(cn=)".to_string()));
}

#[test]
fn left_identifier_keeps_its_quotes() {
    let e = compare(ComparisonOp::Eq, ident("\"a%\""), literal("1"));
    assert_eq!(parse_selection(&e), Ok("(\"a%\"=1)".to_string()));
}

#[test]
fn wildcard_operands() {
    let right = compare(ComparisonOp::Eq, ident("objectClass"), Box::new(Expression::Wildcard));
    assert_eq!(parse_selection(&right), Ok("(objectClass=*)".to_string()));
    let left = compare(ComparisonOp::Eq, Box::new(Expression::Wildcard), literal("1"));
    assert_eq!(parse_selection(&left), Ok("(*=1)".to_string()));
}

#[test]
fn nested_and_is_concatenated_without_grouping() {
    let e = logical(
        LogicalOp::And,
        logical(LogicalOp::And, eq("a", "1"), eq("b", "2")),
        eq("c", "3"),
    );
    assert_eq!(parse_selection(&e), Ok("&&(a=1)(b=2)(c=3)".to_string()));
}

#[test]
fn group_wraps_its_condition() {
    let e = Expression::Group(Box::new(eq("a", "1")));
    assert_eq!(parse_selection(&e), Ok("((a=1))".to_string()));
}

#[test]
fn operator_without_token_emits_nothing() {
    let e = compare(ComparisonOp::Lt, ident("a"), literal("5"));
    assert_eq!(parse_selection(&e), Ok("(a5)".to_string()));
}

#[test]
fn bare_operand_is_no_condition() {
    assert_eq!(parse_selection(&Expression::Identifier("a".to_string())), Err(QueryError::UnsupportedExpression));
    assert_eq!(parse_selection(&Expression::Literal("1".to_string())), Err(QueryError::UnsupportedExpression));
    assert_eq!(parse_selection(&Expression::Wildcard), Err(QueryError::UnsupportedExpression));
    assert_eq!(parse_selection(&Expression::Unsupported), Err(QueryError::UnsupportedExpression));
}

#[test]
fn unsupported_operand_fails_the_whole_condition() {
    let e = logical(LogicalOp::And, eq("a", "1"), Expression::Unsupported);
    assert_eq!(parse_selection(&e), Err(QueryError::UnsupportedExpression));
    let c = compare(ComparisonOp::Eq, ident("a"), Box::new(Expression::Unsupported));
    assert_eq!(parse_selection(&c), Err(QueryError::UnsupportedExpression));
    let g = Expression::Group(Box::new(Expression::Identifier("a".to_string())));
    assert_eq!(parse_selection(&g), Err(QueryError::UnsupportedExpression));
}

#[test]
fn operator_without_token_over_unsupported_operand() {
    let e = compare(ComparisonOp::Like, ident("a"), Box::new(Expression::Unsupported));
    assert_eq!(parse_selection(&e), Err(QueryError::UnsupportedFilterOperator));
    let l = compare(ComparisonOp::NotEq, Box::new(Expression::Unsupported), literal("1"));
    assert_eq!(parse_selection(&l), Err(QueryError::UnsupportedFilterOperator));
}

#[test]
fn left_failure_is_reported_before_right() {
    let inner = compare(ComparisonOp::Gt, Box::new(Expression::Unsupported), literal("1"));
    let e = logical(LogicalOp::Or, inner, Expression::Unsupported);
    assert_eq!(parse_selection(&e), Err(QueryError::UnsupportedFilterOperator));
}
