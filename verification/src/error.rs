//! The ways in which a statement can fall outside what the compiler accepts.
//!
//! Failures of the directory and of the configuration file are not met
//! here: they arise where the directory is talked to and the file is read.

use vstd::prelude::*;
use vstd::string::StringExecFns;

verus! {

/// Why a statement was refused. Each kind names the language feature that
/// is not supported, so that a caller can tell the operator what to change.
#[derive(Clone, Copy, Debug, PartialEq, Eq, Structural)]
pub enum QueryError {
    /// The statement is neither a selection, an update nor a `SHOW`.
    UnsupportedStatement,
    /// The projection holds something other than attribute names or `*`.
    UnsupportedProjection,
    /// The source is not exactly one plainly named location.
    UnsupportedTableExpression,
    /// A condition holds an expression the filter grammar has no form for.
    UnsupportedExpression,
    /// A relational operator without a filter token stands between operands
    /// that do not compile.
    UnsupportedFilterOperator,
    /// An assignment binds something other than a literal or an identifier.
    UnsupportedAssignment,
}

impl QueryError {
    /// The text shown to the operator for this kind of refusal.
    pub open spec fn message_text(self) -> Seq<char> {
        match self {
            QueryError::UnsupportedStatement => {
                "Only SELECT, UPDATE and SHOW statements are supported."@
            },
            QueryError::UnsupportedProjection => {
                "Unsupported item in the projection: only attribute names and * are supported."@
            },
            QueryError::UnsupportedTableExpression => {
                "Unsupported table expression: exactly one plainly named location is supported."@
            },
            QueryError::UnsupportedExpression => "Cannot parse selection: unsupported expression."@,
            QueryError::UnsupportedFilterOperator => {
                "Cannot parse selection: unsupported operator."@
            },
            QueryError::UnsupportedAssignment => "Only Value and Identifier are supported."@,
        }
    }

    /// The text shown to the operator for this kind of refusal.
    pub fn message(&self) -> (out: String)
        ensures
            out@ == self.message_text(),
    {
        match self {
            QueryError::UnsupportedStatement => String::from_str(
                "Only SELECT, UPDATE and SHOW statements are supported.",
            ),
            QueryError::UnsupportedProjection => String::from_str(
                "Unsupported item in the projection: only attribute names and * are supported.",
            ),
            QueryError::UnsupportedTableExpression => String::from_str(
                "Unsupported table expression: exactly one plainly named location is supported.",
            ),
            QueryError::UnsupportedExpression => String::from_str(
                "Cannot parse selection: unsupported expression.",
            ),
            QueryError::UnsupportedFilterOperator => String::from_str(
                "Cannot parse selection: unsupported operator.",
            ),
            QueryError::UnsupportedAssignment => String::from_str(
                "Only Value and Identifier are supported.",
            ),
        }
    }
}

/// Why a statement text gave no query.
#[derive(Clone, Debug, PartialEq, Eq)]
pub enum SqlError {
    /// The parser could not read the text; its message says why.
    Parse(String),
    /// The text was read, but the statement is not supported.
    Unsupported(QueryError),
}

} // verus!
