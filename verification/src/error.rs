//! Structured errors: a code, what went wrong, and what to do next.
use vstd::prelude::*;
use vstd::string::*;

verus! {

/// A structured, actionable error. Every error says what went wrong and what
/// to do next.
#[derive(Debug)]
pub struct TacitusError {
    pub code: String,
    pub reason: String,
    pub suggestion: String,
}

/// The model of an error.
#[verifier::ext_equal]
pub struct ErrorView {
    pub code: Seq<char>,
    pub reason: Seq<char>,
    pub suggestion: Seq<char>,
}

impl View for TacitusError {
    type V = ErrorView;

    open spec fn view(&self) -> ErrorView {
        ErrorView { code: self.code@, reason: self.reason@, suggestion: self.suggestion@ }
    }
}

/// The model of the error with the given parts.
pub open spec fn error(code: Seq<char>, reason: Seq<char>, suggestion: Seq<char>) -> ErrorView {
    ErrorView { code, reason, suggestion }
}

impl TacitusError {
    pub fn new(code: &str, reason: &str, suggestion: &str) -> (e: Self)
        ensures
            e@ == error(code@, reason@, suggestion@),
    {
        TacitusError {
            code: code.to_owned(),
            reason: reason.to_owned(),
            suggestion: suggestion.to_owned(),
        }
    }

    /// The error of a file operation that failed with `detail`.
    pub fn io(detail: &str) -> (e: Self)
        ensures
            e@ == error(
                "IO_ERROR"@,
                detail@,
                "Check the vault path exists and is writable."@,
            ),
    {
        TacitusError::new("IO_ERROR", detail, "Check the vault path exists and is writable.")
    }

    /// One line for people: the code and the reason.
    pub fn message(&self) -> (r: String)
        ensures
            r@ == self.code@ + ": "@ + self.reason@,
    {
        let mut s = self.code.clone();
        s.append(": ");
        s.append(self.reason.as_str());
        s
    }
}

} // verus!
