//! The filter compiler: from a condition written with infix operators to a
//! directory search filter, whose logical operators stand in front of their
//! operands.

use vstd::prelude::*;
use crate::balance::{
    balanced, lemma_balanced_concat, lemma_balanced_insert, lemma_enclosed_is_group,
    lemma_group_balanced, lemma_paren_free_balanced, paren_free, single_group,
};
use crate::error::QueryError;
use crate::text::{strip_quotes, translate, to_chars, unquote, translated};

verus! {

/// The two ways of combining conditions.
#[derive(Clone, Copy, Debug, PartialEq, Eq, Structural)]
pub enum LogicalOp {
    And,
    Or,
}

/// The relational operators. Only `=`, `>=` and `<=` have a token in the
/// filter grammar.
#[derive(Clone, Copy, Debug, PartialEq, Eq, Structural)]
pub enum ComparisonOp {
    Eq,
    GtEq,
    LtEq,
    Gt,
    Lt,
    NotEq,
    Like,
    NotLike,
}

/// A condition, as a parser hands it over.
#[derive(Debug)]
#[allow(inconsistent_fields)]
pub enum Expression {
    /// Two conditions joined by `AND` or `OR`.
    Logical { op: LogicalOp, left: Box<Expression>, right: Box<Expression> },
    /// Two operands related by an operator.
    Comparison { op: ComparisonOp, left: Box<Expression>, right: Box<Expression> },
    /// A bare name, spelled as in the statement: a quoted identifier keeps
    /// its quotes.
    Identifier(String),
    /// A literal value, spelled as in the statement.
    Literal(String),
    /// The wildcard marker `*`.
    Wildcard,
    /// A condition in parentheses.
    Group(Box<Expression>),
    /// Anything else: a function call, arithmetic, `IN`, `BETWEEN`, a
    /// subselect, a cast.
    Unsupported,
}

/// Where an expression stands: on its own, or as the left or right operand
/// of an operator.
#[derive(Clone, Copy, Debug, PartialEq, Eq, Structural)]
pub enum Position {
    Top,
    Left,
    Right,
}

/// The token that a logical operator puts in front of its operands.
pub open spec fn logical_token(op: LogicalOp) -> Seq<char> {
    match op {
        LogicalOp::And => seq!['&'],
        LogicalOp::Or => seq!['|'],
    }
}

/// The token that a relational operator puts between its operands: the
/// operator itself for `=`, `>=` and `<=`, nothing for the others.
pub open spec fn comparison_token(op: ComparisonOp) -> Seq<char> {
    match op {
        ComparisonOp::Eq => seq!['='],
        ComparisonOp::GtEq => seq!['>', '='],
        ComparisonOp::LtEq => seq!['<', '='],
        _ => Seq::<char>::empty(),
    }
}

/// The value that an identifier on the right of an operator stands for: its
/// text without the wrapping quotes, each `%` turned into the filter
/// grammar's `*`.
pub open spec fn value_text(t: Seq<char>) -> Seq<char> {
    translate(strip_quotes(t), '%', '*')
}

/// What an operand failure is reported as under the operator `op`.
pub open spec fn operand_error(op: ComparisonOp, e: QueryError) -> QueryError {
    if comparison_token(op).len() == 0 {
        QueryError::UnsupportedFilterOperator
    } else {
        e
    }
}

/// The filter text of `e` at position `pos`.
///
/// A left operand that is a name, a literal or the wildcard opens a
/// parenthesis, and the matching right operand closes it; a literal on the
/// right is taken as it is written, `%` included. Any other operand is
/// compiled as a condition of its own. On their own only operations and
/// groups compile.
pub open spec fn render(e: Expression, pos: Position) -> Result<Seq<char>, QueryError>
    decreases e,
{
    match e {
        Expression::Identifier(t) => match pos {
            Position::Left => Ok(seq!['('] + t@),
            Position::Right => Ok(value_text(t@) + seq![')']),
            Position::Top => Err(QueryError::UnsupportedExpression),
        },
        Expression::Literal(t) => match pos {
            Position::Left => Ok(seq!['('] + t@),
            Position::Right => Ok(t@ + seq![')']),
            Position::Top => Err(QueryError::UnsupportedExpression),
        },
        Expression::Wildcard => match pos {
            Position::Left => Ok(seq!['(', '*']),
            Position::Right => Ok(seq!['*', ')']),
            Position::Top => Err(QueryError::UnsupportedExpression),
        },
        Expression::Logical { op, left, right } => match render(*left, Position::Left) {
            Err(e) => Err(e),
            Ok(l) => match render(*right, Position::Right) {
                Err(e) => Err(e),
                Ok(r) => Ok(logical_token(op) + l + r),
            },
        },
        Expression::Comparison { op, left, right } => match render(*left, Position::Left) {
            Err(e) => Err(operand_error(op, e)),
            Ok(l) => match render(*right, Position::Right) {
                Err(e) => Err(operand_error(op, e)),
                Ok(r) => Ok(l + comparison_token(op) + r),
            },
        },
        Expression::Group(inner) => match render(*inner, Position::Top) {
            Err(e) => Err(e),
            Ok(s) => Ok(seq!['('] + s + seq![')']),
        },
        Expression::Unsupported => Err(QueryError::UnsupportedExpression),
    }
}

/// The filter text of the condition `e`.
pub open spec fn compile(e: Expression) -> Result<Seq<char>, QueryError> {
    render(e, Position::Top)
}

/// A filter text inside one pair of parentheses: a text that already opens
/// with a parenthesis is taken to have its pair.
pub open spec fn wrap(s: Seq<char>) -> Seq<char> {
    if s.len() > 0 && s[0] == '(' {
        s
    } else {
        seq!['('] + s + seq![')']
    }
}

/// A wrapped text opens with a parenthesis, and wrapping it again changes
/// nothing: no filter is ever wrapped twice.
pub proof fn lemma_wrap_once(s: Seq<char>)
    ensures
        wrap(s).len() > 0,
        wrap(s)[0] == '(',
        wrap(wrap(s)) == wrap(s),
{
}

/// On the right of an operator, a quoted identifier stands for its text
/// without the quotes, each `%` turned into `*`, while a literal stands for
/// itself, `%` and quotes included.
pub proof fn lemma_right_operand_texts(op: ComparisonOp, name: String, text: String)
    ensures
        compile(
            Expression::Comparison {
                op,
                left: Box::new(Expression::Identifier(name)),
                right: Box::new(Expression::Identifier(text)),
            },
        ) == Ok::<Seq<char>, QueryError>(
            seq!['('] + name@ + comparison_token(op) + translate(strip_quotes(text@), '%', '*')
                + seq![')'],
        ),
        compile(
            Expression::Comparison {
                op,
                left: Box::new(Expression::Identifier(name)),
                right: Box::new(Expression::Literal(text)),
            },
        ) == Ok::<Seq<char>, QueryError>(
            seq!['('] + name@ + comparison_token(op) + text@ + seq![')'],
        ),
{
    reveal_with_fuel(render, 2);
    let l = seq!['('] + name@;
    let token = comparison_token(op);
    let quoted = translate(strip_quotes(text@), '%', '*');
    assert(l + token + (quoted + seq![')']) =~= seq!['('] + name@ + token + quoted + seq![')']);
    assert(l + token + (text@ + seq![')']) =~= seq!['('] + name@ + token + text@ + seq![')']);
}

/// Whether `e` is a name, a literal or the wildcard.
pub open spec fn is_operand(e: Expression) -> bool {
    e is Identifier || e is Literal || e is Wildcard
}

/// What an operand on the left of an operator adds to a filter, behind the
/// parenthesis that it opens.
pub open spec fn left_text(e: Expression) -> Seq<char> {
    match e {
        Expression::Identifier(t) => t@,
        Expression::Literal(t) => t@,
        Expression::Wildcard => seq!['*'],
        _ => Seq::empty(),
    }
}

/// What an operand on the right of an operator adds to a filter, before the
/// parenthesis that it closes.
pub open spec fn right_text(e: Expression) -> Seq<char> {
    match e {
        Expression::Identifier(t) => value_text(t@),
        Expression::Literal(t) => t@,
        Expression::Wildcard => seq!['*'],
        _ => Seq::empty(),
    }
}

/// A condition built with `AND`, `OR` and parentheses from comparisons of
/// names, literals and wildcards, where the texts of the two operands of
/// each comparison, taken together, are balanced. That is so wherever they
/// hold no parenthesis at all.
pub open spec fn is_plain_condition(e: Expression) -> bool
    decreases e,
{
    match e {
        Expression::Comparison { op, left, right } => is_operand(*left) && is_operand(*right)
            && balanced(left_text(*left) + right_text(*right)),
        Expression::Logical { op, left, right } => is_plain_condition(*left) && is_plain_condition(
            *right,
        ),
        Expression::Group(inner) => is_plain_condition(*inner),
        _ => false,
    }
}

/// A plain condition compiles, whatever its depth, and its filter text is
/// balanced. Once wrapped, the text is one group: the parenthesis that opens
/// it is closed by its last character and by none before.
pub proof fn lemma_plain_condition_is_balanced(e: Expression)
    requires
        is_plain_condition(e),
    ensures
        compile(e) is Ok,
        balanced(compile(e)->Ok_0),
        single_group(wrap(compile(e)->Ok_0)),
    decreases e,
{
    match e {
        Expression::Comparison { op, left, right } => {
            let l = left_text(*left);
            let r = right_text(*right);
            let token = comparison_token(op);
            assert(render(*left, Position::Left) == Ok::<Seq<char>, QueryError>(seq!['('] + l)) by {
                assert(seq!['(', '*'] == seq!['('] + seq!['*']);
            }
            assert(render(*right, Position::Right) == Ok::<Seq<char>, QueryError>(r + seq![')']))
                by {
                assert(seq!['*', ')'] == seq!['*'] + seq![')']);
            }
            let inner = l + token + r;
            lemma_balanced_insert(l, token, r);
            lemma_enclosed_is_group(inner);
            let text = compile(e)->Ok_0;
            assert(text == seq!['('] + inner + seq![')']);
            lemma_group_balanced(text);
        },
        Expression::Logical { op, left, right } => {
            lemma_plain_condition_is_balanced(*left);
            lemma_plain_condition_is_balanced(*right);
            let l = compile(*left)->Ok_0;
            let r = compile(*right)->Ok_0;
            assert(render(*left, Position::Left) == compile(*left));
            assert(render(*right, Position::Right) == compile(*right));
            let token = logical_token(op);
            lemma_paren_free_balanced(token);
            lemma_balanced_concat(token, l);
            lemma_balanced_concat(token + l, r);
            let text = compile(e)->Ok_0;
            assert(text == token + l + r);
            assert(text[0] == token[0]);
            lemma_enclosed_is_group(text);
        },
        Expression::Group(inner) => {
            lemma_plain_condition_is_balanced(*inner);
            let text = compile(e)->Ok_0;
            lemma_enclosed_is_group(compile(*inner)->Ok_0);
            lemma_group_balanced(text);
        },
        _ => {},
    }
}

/// Operands without any parenthesis make a plain comparison.
pub proof fn lemma_paren_free_operands(left: Seq<char>, right: Seq<char>)
    requires
        paren_free(left),
        paren_free(right),
    ensures
        balanced(left + right),
{
    lemma_paren_free_balanced(left + right);
}

/// Whether `out` is the text or the error that `want` holds.
pub open spec fn agrees(out: Result<String, QueryError>, want: Result<Seq<char>, QueryError>) -> bool {
    match out {
        Ok(s) => want == Ok::<Seq<char>, QueryError>(s@),
        Err(e) => want == Err::<Seq<char>, QueryError>(e),
    }
}

fn push_all(out: &mut String, chars: &Vec<char>)
    ensures
        final(out)@ == old(out)@ + chars@,
{
    let mut i: usize = 0;
    while i < chars.len()
        invariant
            i <= chars.len(),
            out@ == old(out)@ + chars@.take(i as int),
        decreases chars.len() - i,
    {
        out.push(chars[i]);
        i += 1;
    }
    assert(chars@.take(chars@.len() as int) == chars@);
}

fn push_comparison_token(out: &mut String, op: ComparisonOp)
    ensures
        final(out)@ == old(out)@ + comparison_token(op),
{
    match op {
        ComparisonOp::Eq => {
            out.push('=');
        },
        ComparisonOp::GtEq => {
            out.push('>');
            out.push('=');
        },
        ComparisonOp::LtEq => {
            out.push('<');
            out.push('=');
        },
        _ => {},
    }
}

fn has_token(op: ComparisonOp) -> (yes: bool)
    ensures
        yes == (comparison_token(op).len() > 0),
{
    match op {
        ComparisonOp::Eq | ComparisonOp::GtEq | ComparisonOp::LtEq => true,
        _ => false,
    }
}

fn operand_failure(op: ComparisonOp, e: QueryError) -> (out: QueryError)
    ensures
        out == operand_error(op, e),
{
    if has_token(op) {
        e
    } else {
        QueryError::UnsupportedFilterOperator
    }
}

/// Appends the filter text of `e` at position `pos` to `out`.
fn render_into(e: &Expression, pos: Position, out: &mut String) -> (done: Result<(), QueryError>)
    ensures
        match done {
            Ok(_) => render(*e, pos) is Ok && final(out)@ == old(out)@ + render(*e, pos)->Ok_0,
            Err(err) => render(*e, pos) == Err::<Seq<char>, QueryError>(err),
        },
    decreases e,
{
    match e {
        Expression::Identifier(t) => match pos {
            Position::Left => {
                out.push('(');
                push_all(out, &to_chars(t.as_str()));
                Ok(())
            },
            Position::Right => {
                let value = translated(&unquote(&to_chars(t.as_str())), '%', '*');
                push_all(out, &value);
                out.push(')');
                Ok(())
            },
            Position::Top => Err(QueryError::UnsupportedExpression),
        },
        Expression::Literal(t) => match pos {
            Position::Left => {
                out.push('(');
                push_all(out, &to_chars(t.as_str()));
                Ok(())
            },
            Position::Right => {
                push_all(out, &to_chars(t.as_str()));
                out.push(')');
                Ok(())
            },
            Position::Top => Err(QueryError::UnsupportedExpression),
        },
        Expression::Wildcard => match pos {
            Position::Left => {
                out.push('(');
                out.push('*');
                Ok(())
            },
            Position::Right => {
                out.push('*');
                out.push(')');
                Ok(())
            },
            Position::Top => Err(QueryError::UnsupportedExpression),
        },
        Expression::Logical { op, left, right } => {
            match op {
                LogicalOp::And => out.push('&'),
                LogicalOp::Or => out.push('|'),
            }
            match render_into(left, Position::Left, out) {
                Err(err) => Err(err),
                Ok(_) => match render_into(right, Position::Right, out) {
                    Err(err) => Err(err),
                    Ok(_) => Ok(()),
                },
            }
        },
        Expression::Comparison { op, left, right } => {
            match render_into(left, Position::Left, out) {
                Err(err) => Err(operand_failure(*op, err)),
                Ok(_) => {
                    push_comparison_token(out, *op);
                    match render_into(right, Position::Right, out) {
                        Err(err) => Err(operand_failure(*op, err)),
                        Ok(_) => Ok(()),
                    }
                },
            }
        },
        Expression::Group(inner) => {
            out.push('(');
            match render_into(inner, Position::Top, out) {
                Err(err) => Err(err),
                Ok(_) => {
                    out.push(')');
                    Ok(())
                },
            }
        },
        Expression::Unsupported => Err(QueryError::UnsupportedExpression),
    }
}

/// Compiles the condition `selection` into a filter.
///
/// Succeeds exactly on the conditions for which [`compile`] gives a text,
/// and then returns that text; otherwise returns the error that [`compile`]
/// gives.
pub fn parse_selection(selection: &Expression) -> (out: Result<String, QueryError>)
    ensures
        agrees(out, compile(*selection)),
{
    let mut text = String::new();
    match render_into(selection, Position::Top, &mut text) {
        Ok(_) => Ok(text),
        Err(err) => Err(err),
    }
}

} // verus!
