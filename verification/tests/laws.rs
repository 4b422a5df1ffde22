use sqldap::filter::{parse_selection, ComparisonOp, Expression, LogicalOp};
use sqldap::query::{resolve_table, wrap_filter, Alias};

#[derive(Clone)]
enum Shape {
    Compare(usize, usize, usize),
    Logical(bool, Box<Shape>, Box<Shape>),
}

fn operator(index: usize) -> ComparisonOp {
    match index {
        0 => ComparisonOp::Eq,
        1 => ComparisonOp::GtEq,
        _ => ComparisonOp::LtEq,
    }
}

fn operand(index: usize) -> Expression {
    match index {
        0 => Expression::Identifier("uid".to_string()),
        1 => Expression::Literal("100".to_string()),
        2 => Expression::Identifier("\"%smith%\"".to_string()),
        _ => Expression::Literal("'a b'".to_string()),
    }
}

fn expression(shape: &Shape) -> Expression {
    match shape {
        Shape::Compare(op, left, right) => Expression::Comparison {
            op: operator(*op),
            left: Box::new(operand(*left)),
            right: Box::new(operand(*right)),
        },
        Shape::Logical(and, left, right) => Expression::Logical {
            op: if *and { LogicalOp::And } else { LogicalOp::Or },
            left: Box::new(expression(left)),
            right: Box::new(expression(right)),
        },
    }
}

fn comparisons() -> Vec<Shape> {
    let mut out = Vec::new();
    for op in 0..3 {
        for left in 0..2 {
            for right in 0..4 {
                out.push(Shape::Compare(op, left, right));
            }
        }
    }
    out
}

fn combinations(parts: &[Shape]) -> Vec<Shape> {
    let mut out = Vec::new();
    for and in [true, false] {
        for left in parts {
            for right in parts {
                out.push(Shape::Logical(and, Box::new(left.clone()), Box::new(right.clone())));
            }
        }
    }
    out
}

fn balanced(text: &str) -> bool {
    let mut depth: i64 = 0;
    for c in text.chars() {
        if c == '(' {
            depth += 1;
        } else if c == ')' {
            depth -= 1;
        }
        if depth < 0 {
            return false;
        }
    }
    depth == 0
}

fn single_group(text: &str) -> bool {
    let chars: Vec<char> = text.chars().collect();
    if chars.len() < 2 || chars[0] != '(' || chars[chars.len() - 1] != ')' {
        return false;
    }
    let mut depth: i64 = 0;
    for (i, c) in chars.iter().enumerate() {
        if *c == '(' {
            depth += 1;
        } else if *c == ')' {
            depth -= 1;
        }
        if depth < 1 && i + 1 < chars.len() {
            return false;
        }
    }
    depth == 0
}

#[test]
fn conditions_of_depth_up_to_three_compile_balanced_and_wrap_once() {
    let first = comparisons();
    let second = combinations(&first[..6]);
    let mut upto_two: Vec<Shape> = first[..3].to_vec();
    upto_two.extend_from_slice(&second[..9]);
    let third = combinations(&upto_two);
    let mut count = 0;
    for shape in first.iter().chain(second.iter()).chain(third.iter()) {
        let text = parse_selection(&expression(shape)).unwrap();
        assert!(balanced(&text), "{}", text);
        let filter = wrap_filter(text);
        assert!(single_group(&filter), "{}", filter);
        count += 1;
    }
    assert_eq!(count, 24 + 72 + 288);
}

#[test]
fn grouped_conditions_compile_balanced_and_wrap_once() {
    let inner = Shape::Logical(
        true,
        Box::new(Shape::Compare(0, 0, 1)),
        Box::new(Shape::Compare(1, 0, 1)),
    );
    let grouped = Expression::Logical {
        op: LogicalOp::Or,
        left: Box::new(Expression::Group(Box::new(expression(&inner)))),
        right: Box::new(Expression::Group(Box::new(Expression::Group(Box::new(expression(
            &Shape::Compare(2, 0, 3),
        )))))),
    };
    let text = parse_selection(&grouped).unwrap();
    assert_eq!(text, "|(&(uid=100)(uid>=100))(((uid<='a b')))");
    assert!(balanced(&text));
    assert!(single_group(&wrap_filter(text)));
}

#[test]
fn parenthesis_in_a_literal_breaks_the_balance() {
    let open = Expression::Comparison {
        op: ComparisonOp::Eq,
        left: Box::new(Expression::Identifier("a".to_string())),
        right: Box::new(Expression::Literal("'('".to_string())),
    };
    let text = parse_selection(&open).unwrap();
    assert_eq!(text, "(a='(')");
    assert!(!balanced(&text));
}

#[test]
fn resolved_location_holds_no_marker_for_any_number_of_aliases() {
    let mut aliases: Vec<Alias> = Vec::new();
    let mut location = String::new();
    let mut want = String::new();
    for n in 0..12 {
        aliases.push(Alias { name: format!("alias{}", n), location: format!("ou=unit{}", n) });
        location.push_str(&format!("@alias{},", n));
        want.push_str(&format!("ou=unit{},", n));
        for order in [false, true] {
            let mut list = aliases.clone();
            if order {
                list.reverse();
            }
            let out = resolve_table(&location, &list);
            assert!(!out.contains('@'), "{}", out);
            if n < 10 {
                assert_eq!(out, want);
            }
        }
    }
}

#[test]
fn alias_whose_name_starts_another_still_leaves_no_marker() {
    let aliases = vec![
        Alias { name: "peo".to_string(), location: "x".to_string() },
        Alias { name: "people".to_string(), location: "y".to_string() },
    ];
    assert_eq!(resolve_table("@people", &aliases), "xple");
    let reversed: Vec<Alias> = aliases.into_iter().rev().collect();
    assert_eq!(resolve_table("@people", &reversed), "y");
}

#[test]
fn marker_in_a_location_can_survive() {
    let aliases = vec![Alias { name: "a".to_string(), location: "@a".to_string() }];
    assert_eq!(resolve_table("@a", &aliases), "@a");
}

#[test]
fn aliases_resolve_alike_in_every_order() {
    let aliases = vec![
        Alias { name: "unit".to_string(), location: "ou=unit".to_string() },
        Alias { name: "people".to_string(), location: "ou=people".to_string() },
        Alias { name: "base".to_string(), location: "dc=example,dc=com".to_string() },
    ];
    let orders = [[0, 1, 2], [0, 2, 1], [1, 0, 2], [1, 2, 0], [2, 0, 1], [2, 1, 0]];
    let location = "cn=x,@unit,@people,@unit,@base;@base@people";
    let want = "cn=x,ou=unit,ou=people,ou=unit,dc=example,dc=com;dc=example,dc=comou=people";
    for order in orders {
        let list: Vec<Alias> = order.iter().map(|i| aliases[*i].clone()).collect();
        assert_eq!(resolve_table(location, &list), want);
    }
}
