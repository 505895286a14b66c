//! The library's errors and the exit codes they map to.
use vstd::prelude::*;

verus! {

/// What went wrong, with a message.
#[derive(Debug)]
pub enum FlowstateError {
    NotFound(String),
    Validation(String),
    Conflict(String),
    /// The storage refused an operation (such as a second task with the same id).
    Database(String),
    Other(String),
}

/// An error as the library reasons about it.
pub enum ErrorView {
    NotFound(Seq<char>),
    Validation(Seq<char>),
    Conflict(Seq<char>),
    Database(Seq<char>),
    Other(Seq<char>),
}

impl View for FlowstateError {
    type V = ErrorView;

    open spec fn view(&self) -> ErrorView {
        match self {
            FlowstateError::NotFound(m) => ErrorView::NotFound(m@),
            FlowstateError::Validation(m) => ErrorView::Validation(m@),
            FlowstateError::Conflict(m) => ErrorView::Conflict(m@),
            FlowstateError::Database(m) => ErrorView::Database(m@),
            FlowstateError::Other(m) => ErrorView::Other(m@),
        }
    }
}

impl ErrorView {
    /// The process exit code for this error.
    pub open spec fn exit_code(self) -> i32 {
        match self {
            ErrorView::NotFound(_) => 1,
            ErrorView::Validation(_) => 2,
            ErrorView::Conflict(_) => 3,
            ErrorView::Database(_) => 1,
            ErrorView::Other(_) => 1,
        }
    }

    /// The text shown for this error.
    pub open spec fn text(self) -> Seq<char> {
        match self {
            ErrorView::NotFound(m) => "not found: "@ + m,
            ErrorView::Validation(m) => "validation error: "@ + m,
            ErrorView::Conflict(m) => "conflict: "@ + m,
            ErrorView::Database(m) => m,
            ErrorView::Other(m) => m,
        }
    }
}

impl FlowstateError {
    /// The process exit code: 1 for not found, 2 for validation, 3 for
    /// conflict, 1 for storage and other failures.
    pub fn exit_code(&self) -> (r: i32)
        ensures
            r == self@.exit_code(),
    {
        match self {
            FlowstateError::NotFound(_) => 1,
            FlowstateError::Validation(_) => 2,
            FlowstateError::Conflict(_) => 3,
            FlowstateError::Database(_) | FlowstateError::Other(_) => 1,
        }
    }

    /// The text shown for this error (what `Display` wrote).
    pub fn message(&self) -> (r: String)
        ensures
            r@ == self@.text(),
    {
        match self {
            FlowstateError::NotFound(m) => String::from_str("not found: ").concat(m.as_str()),
            FlowstateError::Validation(m) => String::from_str("validation error: ").concat(
                m.as_str(),
            ),
            FlowstateError::Conflict(m) => String::from_str("conflict: ").concat(m.as_str()),
            FlowstateError::Database(m) => m.clone(),
            FlowstateError::Other(m) => m.clone(),
        }
    }
}

/// The complaint when the clock gives no reading in range.
pub open spec fn clock_unread_text() -> Seq<char> {
    "the system clock could not be read"@
}

/// The error for a clock that gives no reading in range.
pub fn clock_unread() -> (e: FlowstateError)
    ensures
        e@ == ErrorView::Other(clock_unread_text()),
{
    FlowstateError::Other(String::from_str("the system clock could not be read"))
}

} // verus!
