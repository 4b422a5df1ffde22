//! The types of the SQL parser that pass through the front end. Nothing is
//! known of what a value of them holds: the front end takes them apart
//! piece by piece and reads each piece into a type of this crate.

use vstd::prelude::*;

verus! {

/// `sqlparser::ast::Statement`: a parsed statement.
#[verifier::external_type_specification]
#[verifier::external_body]
pub struct ExStatement(sqlparser::ast::Statement);

/// `sqlparser::ast::Query`: a parsed query, the body of a selection with
/// what may follow it.
#[verifier::external_type_specification]
#[verifier::external_body]
pub struct ExQuery(sqlparser::ast::Query);

/// `sqlparser::ast::Select`: a parsed selection.
#[verifier::external_type_specification]
#[verifier::external_body]
pub struct ExSelect(sqlparser::ast::Select);

/// `sqlparser::ast::SelectItem`: one item of a projection.
#[verifier::external_type_specification]
#[verifier::external_body]
pub struct ExSelectItem(sqlparser::ast::SelectItem);

/// `sqlparser::ast::TableWithJoins`: one source of a selection with its
/// joins.
#[verifier::external_type_specification]
#[verifier::external_body]
pub struct ExTableWithJoins(sqlparser::ast::TableWithJoins);

/// `sqlparser::ast::Join`: one join of a source.
#[verifier::external_type_specification]
#[verifier::external_body]
pub struct ExJoin(sqlparser::ast::Join);

/// `sqlparser::ast::ObjectName`: a name of one or more parts.
#[verifier::external_type_specification]
#[verifier::external_body]
pub struct ExObjectName(sqlparser::ast::ObjectName);

/// `sqlparser::ast::Assignment`: one assignment of an update.
#[verifier::external_type_specification]
#[verifier::external_body]
pub struct ExAssignment(sqlparser::ast::Assignment);

/// `sqlparser::ast::Expr`: a parsed expression.
#[verifier::external_type_specification]
#[verifier::external_body]
pub struct ExExpr(sqlparser::ast::Expr);

/// `sqlparser::ast::Ident`: an identifier.
#[verifier::external_type_specification]
#[verifier::external_body]
pub struct ExIdent(sqlparser::ast::Ident);

/// `sqlparser::ast::Value`: a literal value.
#[verifier::external_type_specification]
#[verifier::external_body]
pub struct ExValue(sqlparser::ast::Value);

/// `sqlparser::ast::BinaryOperator`: an operator between two operands.
#[verifier::external_type_specification]
#[verifier::external_body]
pub struct ExBinaryOperator(sqlparser::ast::BinaryOperator);

/// `sqlparser::parser::ParserError`: why a text could not be parsed.
#[verifier::external_type_specification]
#[verifier::external_body]
pub struct ExParserError(sqlparser::parser::ParserError);

} // verus!
