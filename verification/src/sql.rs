//! The front end: statement text is handed to the SQL parser, and what the
//! parser returns is read into the statements that the classifier takes.
//!
//! What the parser answers for a text is named here, not spelled out, and
//! so is what each piece of its answer holds. Everything that is decided
//! after it, from the spelling of a quoted name to the classification, is
//! stated in full over those names.

use vstd::prelude::*;
use vstd::string::StringExecFns;
use crate::error::{QueryError, SqlError};
use crate::filter::{ComparisonOp, Expression, LogicalOp};
use crate::query::{
    classification, classified, classify, Alias, Assign, Classification, ClassificationView,
    Column, SelectStmt, Source, Stmt, UpdateStmt,
};
use crate::text::{join, joined};
use crate::tokens::{has_shift_token, holds_shift_token};

verus! {

/// What a statement of the parser is made of, as far as this crate reads
/// it.
pub enum StatementParts<'a> {
    Query(&'a sqlparser::ast::Query),
    Update {
        table_name: &'a sqlparser::ast::ObjectName,
        assignments: &'a Vec<sqlparser::ast::Assignment>,
        selection: &'a Option<sqlparser::ast::Expr>,
    },
    ShowVariable(&'a sqlparser::ast::Ident),
    Other,
}

/// The clauses of a selection that this crate reads.
pub struct SelectParts<'a> {
    pub projection: &'a Vec<sqlparser::ast::SelectItem>,
    pub from: &'a Vec<sqlparser::ast::TableWithJoins>,
    pub selection: &'a Option<sqlparser::ast::Expr>,
}

/// What a projection item of the parser is made of.
pub enum ItemParts<'a> {
    Unnamed(&'a sqlparser::ast::Expr),
    Wildcard,
    Other,
}

/// What a source of the parser is made of.
pub enum TableParts<'a> {
    Table { name: &'a sqlparser::ast::ObjectName, joins: &'a Vec<sqlparser::ast::Join> },
    Other,
}

/// What an expression of the parser is made of.
pub enum ExprParts<'a> {
    Binary {
        left: &'a sqlparser::ast::Expr,
        op: &'a sqlparser::ast::BinaryOperator,
        right: &'a sqlparser::ast::Expr,
    },
    Identifier(&'a sqlparser::ast::Ident),
    Value(&'a sqlparser::ast::Value),
    Wildcard,
    Nested(&'a sqlparser::ast::Expr),
    Other,
}

/// The kinds of literal value that this crate tells apart.
#[derive(Clone, Copy, Debug, PartialEq, Eq, Structural)]
pub enum ValueKind {
    /// An interval that leads with seconds, gives both precisions and names
    /// a last field as well. The parser builds no such value, and it has no
    /// display.
    Malformed,
    /// Any other value: a number, a string, a truth value, `NULL`, any
    /// other interval.
    Plain,
}

/// What is said of a text that holds a shift operator as a token.
pub open spec fn shift_refusal() -> Seq<char> {
    "The operators << and >> are not supported"@
}

/// What `sqlparser::parser::Parser::parse_sql` returns for a text in the
/// generic dialect: the statements of the text, or why it is malformed.
pub uninterp spec fn parsed(sql: Seq<char>) -> Result<
    Seq<sqlparser::ast::Statement>,
    sqlparser::parser::ParserError,
>;

/// The message that a `sqlparser::parser::ParserError` carries.
pub uninterp spec fn parser_message(error: sqlparser::parser::ParserError) -> Seq<char>;

/// Which variant a `sqlparser::ast::Statement` is, with the fields of those
/// that this crate reads.
pub uninterp spec fn statement_shape(statement: sqlparser::ast::Statement) -> StatementParts<
    'static,
>;

/// The selection that is the body of a `sqlparser::ast::Query`, where its
/// body is one.
pub uninterp spec fn query_body(query: sqlparser::ast::Query) -> Option<sqlparser::ast::Select>;

/// The fields `projection`, `from` and `selection` of a
/// `sqlparser::ast::Select`.
pub uninterp spec fn select_clauses(select: sqlparser::ast::Select) -> SelectParts<'static>;

/// Which variant a `sqlparser::ast::SelectItem` is, with its expression
/// where it is an expression without an alias.
pub uninterp spec fn item_shape(item: sqlparser::ast::SelectItem) -> ItemParts<'static>;

/// The name of the table that a `sqlparser::ast::TableWithJoins` starts
/// with, where its field `relation` is a named table, and its field `joins`.
pub uninterp spec fn table_shape(table: sqlparser::ast::TableWithJoins) -> TableParts<'static>;

/// The identifiers that a `sqlparser::ast::ObjectName` is made of.
pub uninterp spec fn name_idents(name: sqlparser::ast::ObjectName) -> Seq<sqlparser::ast::Ident>;

/// The fields `id` and `value` of a `sqlparser::ast::Assignment`.
pub uninterp spec fn assignment_fields(assignment: sqlparser::ast::Assignment) -> (
    sqlparser::ast::Ident,
    sqlparser::ast::Expr,
);

/// Which variant a `sqlparser::ast::Expr` is, with the fields of those that
/// this crate reads.
pub uninterp spec fn expr_shape(e: sqlparser::ast::Expr) -> ExprParts<'static>;

/// The fields `value` and `quote_style` of a `sqlparser::ast::Ident`: its
/// text without quotes, and the quote that opened it, if any.
pub uninterp spec fn ident_fields(ident: sqlparser::ast::Ident) -> (Seq<char>, Option<char>);

/// Whether a `sqlparser::ast::Value` is an `Interval` whose leading field is
/// `Second`, whose two precisions are given and whose last field is given
/// as well.
pub uninterp spec fn value_kind(value: sqlparser::ast::Value) -> ValueKind;

/// The text that a `sqlparser::ast::Value` displays as.
pub uninterp spec fn value_display(value: sqlparser::ast::Value) -> Seq<char>;

/// The text that a `sqlparser::ast::BinaryOperator` displays as.
pub uninterp spec fn operator_display(op: sqlparser::ast::BinaryOperator) -> Seq<char>;

/// Calls `sqlparser::parser::Parser::parse_sql` with the generic dialect.
/// What it returns depends on the text alone, and that is all that is
/// claimed: which statements a text holds, and which texts are malformed,
/// is for the parser to say.
///
/// The tokenizer reads `<<` and `>>` as shift operators in every dialect,
/// and the parser gives them a precedence in every dialect, but it parses
/// them for one dialect only: for the generic dialect it panics where one of
/// them follows an expression. Texts in which the tokenizer meets either
/// are left out; inside a string, a quoted name or a comment it meets
/// none.
///
/// The parser descends into nested expressions by calling itself, so that
/// it needs stack in proportion to the nesting of the text.
#[verifier::external_body]
fn parse_sql(sql: &str) -> (out: Result<
    Vec<sqlparser::ast::Statement>,
    sqlparser::parser::ParserError,
>)
    requires
        !has_shift_token(sql@),
    ensures
        match out {
            Ok(statements) => parsed(sql@) == Ok::<
                Seq<sqlparser::ast::Statement>,
                sqlparser::parser::ParserError,
            >(statements@),
            Err(error) => parsed(sql@) == Err::<
                Seq<sqlparser::ast::Statement>,
                sqlparser::parser::ParserError,
            >(error),
        },
{
    sqlparser::parser::Parser::parse_sql(&sqlparser::dialect::GenericDialect {  }, sql)
}

/// Hands out the message that a `sqlparser::parser::ParserError` carries,
/// whichever of its two variants it is. The contract gives that message
/// its name and claims no more.
#[verifier::external_body]
fn parser_error_text(error: sqlparser::parser::ParserError) -> (out: String)
    ensures
        out@ == parser_message(error),
{
    match error {
        sqlparser::parser::ParserError::TokenizerError(message) => message,
        sqlparser::parser::ParserError::ParserError(message) => message,
    }
}

/// Tells the variants of `sqlparser::ast::Statement` apart and hands out
/// the fields of those that this crate reads. The contract gives what is
/// handed out its name and claims no more.
#[verifier::external_body]
fn statement_parts<'a>(statement: &'a sqlparser::ast::Statement) -> (out: StatementParts<'a>)
    ensures
        out == statement_shape(*statement),
{
    match statement {
        sqlparser::ast::Statement::Query(query) => StatementParts::Query(query),
        sqlparser::ast::Statement::Update { table_name, assignments, selection } => {
            StatementParts::Update { table_name, assignments, selection }
        },
        sqlparser::ast::Statement::ShowVariable { variable } => StatementParts::ShowVariable(
            variable,
        ),
        _ => StatementParts::Other,
    }
}

/// Hands out the selection that is the body of a `sqlparser::ast::Query`,
/// where its body is one. The contract gives what is handed out its name
/// and claims no more.
#[verifier::external_body]
fn query_select<'a>(query: &'a sqlparser::ast::Query) -> (out: Option<&'a sqlparser::ast::Select>)
    ensures
        match out {
            Some(select) => query_body(*query) == Some(*select),
            None => query_body(*query) is None,
        },
{
    match &query.body {
        sqlparser::ast::SetExpr::Select(select) => Some(select),
        _ => None,
    }
}

/// Hands out three fields of a `sqlparser::ast::Select`. The contract gives
/// them their name and claims no more.
#[verifier::external_body]
fn select_parts<'a>(select: &'a sqlparser::ast::Select) -> (out: SelectParts<'a>)
    ensures
        out == select_clauses(*select),
{
    SelectParts {
        projection: &select.projection,
        from: &select.from,
        selection: &select.selection,
    }
}

/// Tells the variants of `sqlparser::ast::SelectItem` apart. The contract
/// gives what is handed out its name and claims no more.
#[verifier::external_body]
fn item_parts<'a>(item: &'a sqlparser::ast::SelectItem) -> (out: ItemParts<'a>)
    ensures
        out == item_shape(*item),
{
    match item {
        sqlparser::ast::SelectItem::UnnamedExpr(e) => ItemParts::Unnamed(e),
        sqlparser::ast::SelectItem::Wildcard => ItemParts::Wildcard,
        _ => ItemParts::Other,
    }
}

/// Hands out the name of the table that a `sqlparser::ast::TableWithJoins`
/// starts with, where it starts with a named table, and its joins. The
/// contract gives what is handed out its name and claims no more.
#[verifier::external_body]
fn table_parts<'a>(table: &'a sqlparser::ast::TableWithJoins) -> (out: TableParts<'a>)
    ensures
        out == table_shape(*table),
{
    match &table.relation {
        sqlparser::ast::TableFactor::Table { name, .. } => TableParts::Table {
            name,
            joins: &table.joins,
        },
        _ => TableParts::Other,
    }
}

/// Hands out the identifiers that a `sqlparser::ast::ObjectName` is made
/// of. The contract gives them their name and claims no more.
#[verifier::external_body]
fn name_parts<'a>(name: &'a sqlparser::ast::ObjectName) -> (out: &'a Vec<sqlparser::ast::Ident>)
    ensures
        out@ == name_idents(*name),
{
    &name.0
}

/// Hands out the two fields of a `sqlparser::ast::Assignment`. The contract
/// gives them their name and claims no more.
#[verifier::external_body]
fn assignment_parts<'a>(assignment: &'a sqlparser::ast::Assignment) -> (out: (
    &'a sqlparser::ast::Ident,
    &'a sqlparser::ast::Expr,
))
    ensures
        (*out.0, *out.1) == assignment_fields(*assignment),
{
    (&assignment.id, &assignment.value)
}

/// Tells the variants of `sqlparser::ast::Expr` apart and hands out the
/// fields of those that this crate reads. The contract gives what is handed
/// out its name and claims no more.
#[verifier::external_body]
fn expr_parts<'a>(e: &'a sqlparser::ast::Expr) -> (out: ExprParts<'a>)
    ensures
        out == expr_shape(*e),
{
    match e {
        sqlparser::ast::Expr::BinaryOp { left, op, right } => ExprParts::Binary { left, op, right },
        sqlparser::ast::Expr::Identifier(ident) => ExprParts::Identifier(ident),
        sqlparser::ast::Expr::Value(value) => ExprParts::Value(value),
        sqlparser::ast::Expr::Wildcard => ExprParts::Wildcard,
        sqlparser::ast::Expr::Nested(inner) => ExprParts::Nested(inner),
        _ => ExprParts::Other,
    }
}

/// Hands out the two fields of a `sqlparser::ast::Ident`: its text without
/// quotes, and the quote that opened it, if any. The contract gives them
/// their name and claims no more.
#[verifier::external_body]
fn ident_parts<'a>(ident: &'a sqlparser::ast::Ident) -> (out: (&'a String, Option<char>))
    ensures
        (out.0@, out.1) == ident_fields(*ident),
{
    (&ident.value, ident.quote_style)
}

/// Tells one shape of `sqlparser::ast::Value` apart from all others: the
/// variant `Interval` with `Second` as its leading field, with both
/// precisions and with a last field. The contract gives the answer its name
/// and claims no more.
#[verifier::external_body]
fn value_kind_of(value: &sqlparser::ast::Value) -> (out: ValueKind)
    ensures
        out == value_kind(*value),
{
    match value {
        sqlparser::ast::Value::Interval {
            leading_field: Some(sqlparser::ast::DateTimeField::Second),
            leading_precision: Some(_),
            last_field: Some(_),
            fractional_seconds_precision: Some(_),
            ..
        } => ValueKind::Malformed,
        _ => ValueKind::Plain,
    }
}

/// The text that `sqlparser::ast::Value` displays as, by its `to_string`.
/// The text depends on the value alone, and that is all that is claimed.
/// The display has an arm for intervals that lead with seconds and give
/// both precisions, and asserts there that no last field is given. The one
/// shape that fails that assertion is left out; every other value is
/// written out.
#[verifier::external_body]
fn value_text(value: &sqlparser::ast::Value) -> (out: String)
    requires
        value_kind(*value) == ValueKind::Plain,
    ensures
        out@ == value_display(*value),
{
    value.to_string()
}

/// The text that `sqlparser::ast::BinaryOperator` displays as, by its
/// `to_string`. The text depends on the operator alone, and that is all
/// that is claimed; [`operator_of`] reads it.
#[verifier::external_body]
fn operator_text(op: &sqlparser::ast::BinaryOperator) -> (out: String)
    ensures
        out@ == operator_display(*op),
{
    op.to_string()
}

/// An operator that a condition can hold.
#[derive(Clone, Copy, Debug, PartialEq, Eq, Structural)]
pub enum Operator {
    Logical(LogicalOp),
    Comparison(ComparisonOp),
}

/// The operator that the parser spells `text`, if a condition can hold it.
pub open spec fn operator_named(text: Seq<char>) -> Option<Operator> {
    if text == "AND"@ {
        Some(Operator::Logical(LogicalOp::And))
    } else if text == "OR"@ {
        Some(Operator::Logical(LogicalOp::Or))
    } else if text == "="@ {
        Some(Operator::Comparison(ComparisonOp::Eq))
    } else if text == ">="@ {
        Some(Operator::Comparison(ComparisonOp::GtEq))
    } else if text == "<="@ {
        Some(Operator::Comparison(ComparisonOp::LtEq))
    } else if text == ">"@ {
        Some(Operator::Comparison(ComparisonOp::Gt))
    } else if text == "<"@ {
        Some(Operator::Comparison(ComparisonOp::Lt))
    } else if text == "<>"@ {
        Some(Operator::Comparison(ComparisonOp::NotEq))
    } else if text == "LIKE"@ {
        Some(Operator::Comparison(ComparisonOp::Like))
    } else if text == "NOT LIKE"@ {
        Some(Operator::Comparison(ComparisonOp::NotLike))
    } else {
        None
    }
}

/// Whether `text` is the word `word`.
fn spells(text: &String, word: &str) -> (yes: bool)
    ensures
        yes == (text@ == word@),
{
    *text == String::from_str(word)
}

/// Reads an operator from the text that the parser displays it as. The
/// logical and the relational operators are read; arithmetic and the rest
/// are not.
pub fn operator_of(text: &String) -> (out: Option<Operator>)
    ensures
        out == operator_named(text@),
{
    if spells(text, "AND") {
        Some(Operator::Logical(LogicalOp::And))
    } else if spells(text, "OR") {
        Some(Operator::Logical(LogicalOp::Or))
    } else if spells(text, "=") {
        Some(Operator::Comparison(ComparisonOp::Eq))
    } else if spells(text, ">=") {
        Some(Operator::Comparison(ComparisonOp::GtEq))
    } else if spells(text, "<=") {
        Some(Operator::Comparison(ComparisonOp::LtEq))
    } else if spells(text, ">") {
        Some(Operator::Comparison(ComparisonOp::Gt))
    } else if spells(text, "<") {
        Some(Operator::Comparison(ComparisonOp::Lt))
    } else if spells(text, "<>") {
        Some(Operator::Comparison(ComparisonOp::NotEq))
    } else if spells(text, "LIKE") {
        Some(Operator::Comparison(ComparisonOp::Like))
    } else if spells(text, "NOT LIKE") {
        Some(Operator::Comparison(ComparisonOp::NotLike))
    } else {
        None
    }
}

/// An identifier as it is spelled in a statement: between brackets where a
/// bracket opened it, between two of the same quote where a quote opened it, and
/// bare otherwise.
pub open spec fn spelled(value: Seq<char>, quote: Option<char>) -> Seq<char> {
    match quote {
        None => value,
        Some(q) => if q == '[' {
            seq!['['] + value + seq![']']
        } else {
            seq![q] + value + seq![q]
        },
    }
}

/// Spells an identifier as the statement had it.
pub fn spell(value: &String, quote: Option<char>) -> (out: String)
    ensures
        out@ == spelled(value@, quote),
{
    match quote {
        None => value.clone(),
        Some(q) => {
            let mut out = String::new();
            out.push(q);
            out.append(value.as_str());
            out.push(if q == '[' { ']' } else { q });
            out
        },
    }
}

/// The spelling of an identifier of the parser.
pub open spec fn ident_spelling(ident: sqlparser::ast::Ident) -> Seq<char> {
    spelled(ident_fields(ident).0, ident_fields(ident).1)
}

/// The spelling of a name of the parser: its identifiers joined by dots.
pub open spec fn name_spelling(name: sqlparser::ast::ObjectName) -> Seq<char> {
    joined(name_idents(name).map_values(|i: sqlparser::ast::Ident| ident_spelling(i)), '.')
}

/// Whether `out` is what an expression of the parser reads as, down to
/// `depth` levels.
///
/// An operation between two operands reads as the logical or relational
/// operation that its operator spells, or as unsupported where it spells
/// neither. An identifier reads as its spelling, a value as the text that it
/// displays as, a nested expression as a group. Whatever else the parser
/// knows reads as unsupported, and so do a value without a display and what
/// lies below `depth` levels.
pub open spec fn reads_expression(e: sqlparser::ast::Expr, depth: nat, out: Expression) -> bool
    decreases depth,
{
    if depth == 0 {
        out is Unsupported
    } else {
        match expr_shape(e) {
            ExprParts::Binary { left, op, right } => match operator_named(operator_display(*op)) {
                Some(Operator::Logical(spelt)) => {
                    &&& out matches Expression::Logical { op: held, left: l, right: r }
                    &&& held == spelt
                    &&& reads_expression(*left, (depth - 1) as nat, *l)
                    &&& reads_expression(*right, (depth - 1) as nat, *r)
                },
                Some(Operator::Comparison(spelt)) => {
                    &&& out matches Expression::Comparison { op: held, left: l, right: r }
                    &&& held == spelt
                    &&& reads_expression(*left, (depth - 1) as nat, *l)
                    &&& reads_expression(*right, (depth - 1) as nat, *r)
                },
                None => out is Unsupported,
            },
            ExprParts::Identifier(ident) => {
                &&& out matches Expression::Identifier(text)
                &&& text@ == ident_spelling(*ident)
            },
            ExprParts::Value(value) => match value_kind(*value) {
                ValueKind::Plain => {
                    &&& out matches Expression::Literal(text)
                    &&& text@ == value_display(*value)
                },
                ValueKind::Malformed => out is Unsupported,
            },
            ExprParts::Wildcard => out is Wildcard,
            ExprParts::Nested(inner) => {
                &&& out matches Expression::Group(group)
                &&& reads_expression(*inner, (depth - 1) as nat, *group)
            },
            ExprParts::Other => out is Unsupported,
        }
    }
}

/// Whether `out` is what the condition of a statement reads as: nothing
/// where there is none.
pub open spec fn reads_condition(
    selection: Option<sqlparser::ast::Expr>,
    depth: nat,
    out: Option<Expression>,
) -> bool {
    match selection {
        Some(e) => out matches Some(condition) && reads_expression(e, depth, condition),
        None => out is None,
    }
}

/// Whether `out` is what an item of a projection reads as.
pub open spec fn reads_column(item: sqlparser::ast::SelectItem, depth: nat, out: Column) -> bool {
    match item_shape(item) {
        ItemParts::Unnamed(e) => out matches Column::Expression(held) && reads_expression(
            *e,
            depth,
            held,
        ),
        ItemParts::Wildcard => out is Wildcard,
        ItemParts::Other => out is Other,
    }
}

/// Whether `out` is what a source of a selection reads as: a table under
/// the spelling of its name where it is a named table without joins.
pub open spec fn reads_source(table: sqlparser::ast::TableWithJoins, out: Source) -> bool {
    match table_shape(table) {
        TableParts::Table { name, joins } => if joins@.len() == 0 {
            out matches Source::Table(text) && text@ == name_spelling(*name)
        } else {
            out is Other
        },
        TableParts::Other => out is Other,
    }
}

/// Whether `out` is what a selection of the parser reads as: its items, its
/// sources and its condition, each read in its place.
pub open spec fn reads_select(select: sqlparser::ast::Select, depth: nat, out: SelectStmt) -> bool {
    let clauses = select_clauses(select);
    &&& out.projection@.len() == clauses.projection@.len()
    &&& forall|i: int|
        0 <= i < out.projection@.len() ==> reads_column(
            clauses.projection@[i],
            depth,
            #[trigger] out.projection@[i],
        )
    &&& out.from@.len() == clauses.from@.len()
    &&& forall|i: int|
        0 <= i < out.from@.len() ==> reads_source(clauses.from@[i], #[trigger] out.from@[i])
    &&& reads_condition(*clauses.selection, depth, out.selection)
}

/// Whether `out` is what an assignment of the parser reads as: the name of
/// its attribute without quotes, and its value.
pub open spec fn reads_assignment(
    assignment: sqlparser::ast::Assignment,
    depth: nat,
    out: Assign,
) -> bool {
    &&& out.id@ == ident_fields(assignment_fields(assignment).0).0
    &&& reads_expression(assignment_fields(assignment).1, depth, out.value)
}

/// Whether `out` is what an update of the parser reads as: the parts of the
/// name of its target without their quotes, its assignments and its
/// condition, each read in its place.
pub open spec fn reads_update(
    table_name: sqlparser::ast::ObjectName,
    assignments: Seq<sqlparser::ast::Assignment>,
    selection: Option<sqlparser::ast::Expr>,
    depth: nat,
    out: UpdateStmt,
) -> bool {
    &&& out.table@.map_values(|s: String| s@) == name_idents(table_name).map_values(
        |i: sqlparser::ast::Ident| ident_fields(i).0,
    )
    &&& out.assignments@.len() == assignments.len()
    &&& forall|i: int|
        0 <= i < out.assignments@.len() ==> reads_assignment(
            assignments[i],
            depth,
            #[trigger] out.assignments@[i],
        )
    &&& reads_condition(selection, depth, out.selection)
}

/// Whether `out` is what a statement of the parser reads as: a selection
/// where it is a query whose body is a selection, an update, a `SHOW` of
/// the variable that it names without quotes, and any other statement
/// otherwise.
pub open spec fn reads_statement(statement: sqlparser::ast::Statement, depth: nat, out: Stmt) -> bool {
    match statement_shape(statement) {
        StatementParts::Query(query) => match query_body(*query) {
            Some(select) => out matches Stmt::Select(held) && reads_select(select, depth, held),
            None => out is Other,
        },
        StatementParts::Update { table_name, assignments, selection } => {
            &&& out matches Stmt::Update(held)
            &&& reads_update(*table_name, assignments@, *selection, depth, held)
        },
        StatementParts::ShowVariable(variable) => {
            &&& out matches Stmt::Show(var)
            &&& var@ == ident_fields(*variable).0
        },
        StatementParts::Other => out is Other,
    }
}

/// Whether `out` holds what each of the statements of the parser reads as,
/// in order.
pub open spec fn reads_statements(
    statements: Seq<sqlparser::ast::Statement>,
    depth: nat,
    out: Seq<Stmt>,
) -> bool {
    &&& out.len() == statements.len()
    &&& forall|i: int| 0 <= i < out.len() ==> reads_statement(statements[i], depth, #[trigger] out[i])
}

/// Whether `out` is what a statement text reads as: a refusal where the
/// text holds a shift operator as a token, the message of the parser where
/// it finds the text malformed, and else the statements that the parser
/// found in it, each read down to as many levels as the text has bytes. No
/// text nests deeper than it is long.
pub open spec fn reads_text(sql: &str, out: Result<Vec<Stmt>, String>) -> bool {
    if has_shift_token(sql@) {
        out matches Err(message) && message@ == shift_refusal()
    } else {
        match parsed(sql@) {
            Err(error) => out matches Err(message) && message@ == parser_message(error),
            Ok(statements) => out matches Ok(read) && reads_statements(
                statements,
                sql.len() as nat,
                read@,
            ),
        }
    }
}

/// The spelling of an identifier of the parser.
fn ident_text(ident: &sqlparser::ast::Ident) -> (out: String)
    ensures
        out@ == ident_spelling(*ident),
{
    let (value, quote) = ident_parts(ident);
    spell(value, quote)
}

/// The text of an identifier of the parser, without its quotes.
fn ident_value(ident: &sqlparser::ast::Ident) -> (out: String)
    ensures
        out@ == ident_fields(*ident).0,
{
    let (value, _quote) = ident_parts(ident);
    value.clone()
}

/// The spelling of a name of the parser: its identifiers joined by dots.
fn name_text(name: &sqlparser::ast::ObjectName) -> (out: String)
    ensures
        out@ == name_spelling(*name),
{
    let idents = name_parts(name);
    let mut parts: Vec<String> = Vec::new();
    let mut i: usize = 0;
    let ghost spellings = idents@.map_values(|i: sqlparser::ast::Ident| ident_spelling(i));
    assert(parts@.map_values(|s: String| s@) =~= spellings.take(0));
    while i < idents.len()
        invariant
            i <= idents.len(),
            spellings == idents@.map_values(|i: sqlparser::ast::Ident| ident_spelling(i)),
            parts@.map_values(|s: String| s@) == spellings.take(i as int),
        decreases idents.len() - i,
    {
        let text = ident_text(&idents[i]);
        let ghost before = parts@.map_values(|s: String| s@);
        parts.push(text);
        proof {
            assert(parts@.map_values(|s: String| s@) =~= before.push(text@));
            assert(spellings.take(i + 1) =~= spellings.take(i as int).push(spellings[i as int]));
        }
        i += 1;
    }
    assert(spellings.take(spellings.len() as int) == spellings);
    join(&parts, '.')
}

/// Reads an expression of the parser. An expression nested deeper than
/// `depth` is read as unsupported below that depth; no text of fewer than
/// `depth` characters nests that deep.
fn read_expression(e: &sqlparser::ast::Expr, depth: usize) -> (out: Expression)
    ensures
        reads_expression(*e, depth as nat, out),
    decreases depth,
{
    if depth == 0 {
        return Expression::Unsupported;
    }
    match expr_parts(e) {
        ExprParts::Binary { left, op, right } => {
            match operator_of(&operator_text(op)) {
                Some(Operator::Logical(op)) => Expression::Logical {
                    op,
                    left: Box::new(read_expression(left, depth - 1)),
                    right: Box::new(read_expression(right, depth - 1)),
                },
                Some(Operator::Comparison(op)) => Expression::Comparison {
                    op,
                    left: Box::new(read_expression(left, depth - 1)),
                    right: Box::new(read_expression(right, depth - 1)),
                },
                None => Expression::Unsupported,
            }
        },
        ExprParts::Identifier(ident) => Expression::Identifier(ident_text(ident)),
        ExprParts::Value(value) => match value_kind_of(value) {
            ValueKind::Plain => Expression::Literal(value_text(value)),
            ValueKind::Malformed => Expression::Unsupported,
        },
        ExprParts::Wildcard => Expression::Wildcard,
        ExprParts::Nested(inner) => Expression::Group(Box::new(read_expression(inner, depth - 1))),
        ExprParts::Other => Expression::Unsupported,
    }
}

/// Reads the condition of a statement, where it has one.
fn read_condition(selection: &Option<sqlparser::ast::Expr>, depth: usize) -> (out: Option<
    Expression,
>)
    ensures
        reads_condition(*selection, depth as nat, out),
{
    match selection {
        Some(e) => Some(read_expression(e, depth)),
        None => None,
    }
}

/// Reads a selection of the parser. A source with joins is read as one
/// that is not plainly named.
fn read_select(select: &sqlparser::ast::Select, depth: usize) -> (out: SelectStmt)
    ensures
        reads_select(*select, depth as nat, out),
{
    let parts = select_parts(select);
    let mut projection: Vec<Column> = Vec::new();
    let mut i: usize = 0;
    while i < parts.projection.len()
        invariant
            i <= parts.projection.len(),
            projection@.len() == i,
            forall|j: int|
                0 <= j < i ==> reads_column(
                    parts.projection@[j],
                    depth as nat,
                    #[trigger] projection@[j],
                ),
        decreases parts.projection.len() - i,
    {
        let column = match item_parts(&parts.projection[i]) {
            ItemParts::Unnamed(e) => Column::Expression(read_expression(e, depth)),
            ItemParts::Wildcard => Column::Wildcard,
            ItemParts::Other => Column::Other,
        };
        projection.push(column);
        i += 1;
    }
    let mut from: Vec<Source> = Vec::new();
    let mut k: usize = 0;
    while k < parts.from.len()
        invariant
            k <= parts.from.len(),
            from@.len() == k,
            forall|j: int| 0 <= j < k ==> reads_source(parts.from@[j], #[trigger] from@[j]),
        decreases parts.from.len() - k,
    {
        let source = match table_parts(&parts.from[k]) {
            TableParts::Table { name, joins } => {
                if joins.len() == 0 {
                    Source::Table(name_text(name))
                } else {
                    Source::Other
                }
            },
            TableParts::Other => Source::Other,
        };
        from.push(source);
        k += 1;
    }
    SelectStmt { projection, from, selection: read_condition(parts.selection, depth) }
}

/// Reads an update of the parser. Names are taken without their quotes.
fn read_update(
    table_name: &sqlparser::ast::ObjectName,
    assignments: &Vec<sqlparser::ast::Assignment>,
    selection: &Option<sqlparser::ast::Expr>,
    depth: usize,
) -> (out: UpdateStmt)
    ensures
        reads_update(*table_name, assignments@, *selection, depth as nat, out),
{
    let idents = name_parts(table_name);
    let mut table: Vec<String> = Vec::new();
    let mut i: usize = 0;
    let ghost names = idents@.map_values(|i: sqlparser::ast::Ident| ident_fields(i).0);
    assert(table@.map_values(|s: String| s@) =~= names.take(0));
    while i < idents.len()
        invariant
            i <= idents.len(),
            names == idents@.map_values(|i: sqlparser::ast::Ident| ident_fields(i).0),
            table@.map_values(|s: String| s@) == names.take(i as int),
        decreases idents.len() - i,
    {
        let text = ident_value(&idents[i]);
        let ghost before = table@.map_values(|s: String| s@);
        table.push(text);
        proof {
            assert(table@.map_values(|s: String| s@) =~= before.push(text@));
            assert(names.take(i + 1) =~= names.take(i as int).push(names[i as int]));
        }
        i += 1;
    }
    assert(names.take(names.len() as int) == names);
    let mut assigns: Vec<Assign> = Vec::new();
    let mut k: usize = 0;
    while k < assignments.len()
        invariant
            k <= assignments.len(),
            assigns@.len() == k,
            forall|j: int|
                0 <= j < k ==> reads_assignment(
                    assignments@[j],
                    depth as nat,
                    #[trigger] assigns@[j],
                ),
        decreases assignments.len() - k,
    {
        let (id, value) = assignment_parts(&assignments[k]);
        assigns.push(Assign { id: ident_value(id), value: read_expression(value, depth) });
        k += 1;
    }
    UpdateStmt { table, assignments: assigns, selection: read_condition(selection, depth) }
}

/// Reads a statement of the parser.
fn read_statement(statement: &sqlparser::ast::Statement, depth: usize) -> (out: Stmt)
    ensures
        reads_statement(*statement, depth as nat, out),
{
    match statement_parts(statement) {
        StatementParts::Query(query) => match query_select(query) {
            Some(select) => Stmt::Select(read_select(select, depth)),
            None => Stmt::Other,
        },
        StatementParts::Update { table_name, assignments, selection } => Stmt::Update(
            read_update(table_name, assignments, selection, depth),
        ),
        StatementParts::ShowVariable(variable) => Stmt::Show(ident_value(variable)),
        StatementParts::Other => Stmt::Other,
    }
}

/// Parses a statement text and reads what the parser returns: the
/// statements of the text, or the message of the parser. A text that holds
/// a shift operator as a token is refused before the parser sees it.
fn read_statements(sql: &str) -> (out: Result<Vec<Stmt>, String>)
    ensures
        reads_text(sql, out),
{
    if holds_shift_token(sql) {
        return Err(String::from_str("The operators << and >> are not supported"));
    }
    match parse_sql(sql) {
        Err(error) => Err(parser_error_text(error)),
        Ok(parsed) => {
            let depth = sql.len();
            let mut out: Vec<Stmt> = Vec::new();
            let mut i: usize = 0;
            while i < parsed.len()
                invariant
                    i <= parsed.len(),
                    out@.len() == i,
                    forall|j: int|
                        0 <= j < i ==> reads_statement(parsed@[j], depth as nat, #[trigger] out@[j]),
                decreases parsed.len() - i,
            {
                out.push(read_statement(&parsed[i], depth));
                i += 1;
            }
            Ok(out)
        },
    }
}

/// What classifying each of `statements` in turn yields: all the
/// classifications, in order, or the error of the first statement that is
/// not supported.
pub open spec fn classifications(statements: Seq<Stmt>, aliases: Seq<Alias>) -> Result<
    Seq<ClassificationView>,
    QueryError,
>
    decreases statements.len(),
{
    if statements.len() == 0 {
        Ok(Seq::empty())
    } else {
        match classifications(statements.drop_last(), aliases) {
            Err(e) => Err(e),
            Ok(done) => match classification(statements.last(), aliases) {
                Err(e) => Err(e),
                Ok(c) => Ok(done.push(c)),
            },
        }
    }
}

/// Classifies each of `statements` in turn and stops at the first that is
/// not supported.
pub fn classify_all(statements: &Vec<Stmt>, aliases: &Vec<Alias>) -> (out: Result<
    Vec<Classification>,
    QueryError,
>)
    ensures
        match out {
            Ok(all) => classifications(statements@, aliases@) == Ok::<
                Seq<ClassificationView>,
                QueryError,
            >(all@.map_values(|c: Classification| c@)),
            Err(e) => classifications(statements@, aliases@) == Err::<
                Seq<ClassificationView>,
                QueryError,
            >(e),
        },
{
    let mut all: Vec<Classification> = Vec::new();
    let mut i: usize = 0;
    assert(statements@.take(0) == Seq::<Stmt>::empty());
    assert(all@.map_values(|c: Classification| c@) == Seq::<ClassificationView>::empty());
    while i < statements.len()
        invariant
            i <= statements.len(),
            classifications(statements@.take(i as int), aliases@) == Ok::<
                Seq<ClassificationView>,
                QueryError,
            >(all@.map_values(|c: Classification| c@)),
        decreases statements.len() - i,
    {
        proof {
            assert(statements@.take(i + 1).drop_last() == statements@.take(i as int));
            assert(statements@.take(i + 1).last() == statements@[i as int]);
        }
        match classify(&statements[i], aliases) {
            Err(e) => {
                proof {
                    lemma_failure_lasts(statements@, aliases@, i + 1);
                }
                return Err(e);
            },
            Ok(c) => {
                let ghost old_all = all@.map_values(|c: Classification| c@);
                all.push(c);
                assert(all@.map_values(|c: Classification| c@) =~= old_all.push(c@));
            },
        }
        i += 1;
    }
    assert(statements@.take(statements@.len() as int) == statements@);
    Ok(all)
}

/// A failure among the first `k` statements is the failure of the whole
/// list.
proof fn lemma_failure_lasts(statements: Seq<Stmt>, aliases: Seq<Alias>, k: int)
    requires
        0 <= k <= statements.len(),
        classifications(statements.take(k), aliases) is Err,
    ensures
        classifications(statements, aliases) == classifications(statements.take(k), aliases),
    decreases statements.len() - k,
{
    if k < statements.len() {
        assert(statements.take(k + 1).drop_last() == statements.take(k));
        lemma_failure_lasts(statements, aliases, k + 1);
    } else {
        assert(statements.take(k) == statements);
    }
}

/// Whether `out` is what classifying the statements `read` in turn comes
/// to: all the classifications, or the refusal of the first statement that
/// is not supported.
pub open spec fn classified_all(
    out: Result<Vec<Classification>, SqlError>,
    read: Seq<Stmt>,
    aliases: Seq<Alias>,
) -> bool {
    match out {
        Ok(all) => classifications(read, aliases) == Ok::<Seq<ClassificationView>, QueryError>(
            all@.map_values(|c: Classification| c@),
        ),
        Err(SqlError::Unsupported(e)) => classifications(read, aliases) == Err::<
            Seq<ClassificationView>,
            QueryError,
        >(e),
        Err(SqlError::Parse(_)) => false,
    }
}

/// Parses a statement text and classifies every statement in it.
///
/// A text that holds `<<` or `>>` as an operator, outside every string,
/// quoted name and comment, is refused as a parse error: the parser cannot
/// take it. Which statements any other text holds is for the parser to
/// say. Where it finds the text malformed, the result is a parse error
/// with its message. Otherwise the statements that it found are read, and
/// the result is what [`classifications`] gives for them.
pub fn parse_query(sql: &str, aliases: &Vec<Alias>) -> (out: Result<Vec<Classification>, SqlError>)
    ensures
        if has_shift_token(sql@) {
            out matches Err(SqlError::Parse(message)) && message@ == shift_refusal()
        } else {
            match parsed(sql@) {
                Err(error) => out matches Err(SqlError::Parse(message)) && message@
                    == parser_message(error),
                Ok(found) => exists|read: Seq<Stmt>| #[trigger]
                    reads_statements(found, sql.len() as nat, read) && classified_all(
                        out,
                        read,
                        aliases@,
                    ),
            }
        },
{
    match read_statements(sql) {
        Err(message) => Err(SqlError::Parse(message)),
        Ok(statements) => {
            let out = match classify_all(&statements, aliases) {
                Ok(all) => Ok(all),
                Err(e) => Err(SqlError::Unsupported(e)),
            };
            assert(reads_statements(parsed(sql@)->Ok_0, sql.len() as nat, statements@));
            out
        },
    }
}

} // verus!
