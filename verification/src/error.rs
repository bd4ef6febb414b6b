//! The error taxonomy of the engine.

use vstd::prelude::*;

verus! {

/// Why a request, or a registration, does not fit the registered schemas.
#[derive(Clone, Copy, Debug, PartialEq, Eq, Structural)]
pub enum SchemaIssue {
    /// No model is registered under the name.
    UnknownModel,
    /// The model has no field that the argument could refer to.
    UnknownField,
    /// The argument names a field with an operator that the field's kind lacks.
    IllegalOperator,
    /// The value given for a field is absent or of another kind.
    KindMismatch,
    /// The field exists, but rows cannot be ordered by it.
    NotOrderable,
    /// The direction of an order is neither ascending nor descending.
    IllegalDirection,
    /// Another schema is already registered under the name.
    Conflict,
}

/// Why a cursor was refused.
#[derive(Clone, Copy, Debug, PartialEq, Eq, Structural)]
pub enum CursorIssue {
    /// The text is not a cursor that this engine issued.
    Malformed,
    /// The cursor was issued under another filter or order.
    Foreign,
}

/// Everything that can go wrong while a connection is resolved.
#[derive(Clone, Debug, PartialEq, Eq)]
pub enum QueryError {
    NotFound,
    SchemaValidation { issue: SchemaIssue, subject: String },
    Cursor(CursorIssue),
    Store,
    Consistency,
}

/// The mathematical content of a [`QueryError`].
pub enum ErrorView {
    NotFound,
    SchemaValidation { issue: SchemaIssue, subject: Seq<char> },
    Cursor(CursorIssue),
    Store,
    Consistency,
}

impl View for QueryError {
    type V = ErrorView;

    open spec fn view(&self) -> ErrorView {
        match self {
            QueryError::NotFound => ErrorView::NotFound,
            QueryError::SchemaValidation { issue, subject } => ErrorView::SchemaValidation {
                issue: *issue,
                subject: subject@,
            },
            QueryError::Cursor(c) => ErrorView::Cursor(*c),
            QueryError::Store => ErrorView::Store,
            QueryError::Consistency => ErrorView::Consistency,
        }
    }
}

/// The error view of a schema violation `issue` found at `subject`.
pub open spec fn schema_error(issue: SchemaIssue, subject: Seq<char>) -> ErrorView {
    ErrorView::SchemaValidation { issue, subject }
}

impl QueryError {
    /// A schema violation that names the offending model, field or argument.
    pub fn schema(issue: SchemaIssue, subject: &str) -> (e: QueryError)
        ensures
            e@ == schema_error(issue, subject@),
    {
        QueryError::SchemaValidation { issue, subject: subject.to_owned() }
    }

    /// Whether the error belongs to the schema-validation class.
    pub fn is_schema_validation(&self) -> (r: bool)
        ensures
            r == (self@ is SchemaValidation),
    {
        match self {
            QueryError::SchemaValidation { .. } => true,
            _ => false,
        }
    }

    /// Whether the error belongs to the cursor class.
    pub fn is_cursor(&self) -> (r: bool)
        ensures
            r == (self@ is Cursor),
    {
        match self {
            QueryError::Cursor(_) => true,
            _ => false,
        }
    }
}

} // verus!
