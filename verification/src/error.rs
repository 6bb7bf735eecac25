//! Error types for the audio analysis engine.
use crate::text::join;
use vstd::prelude::*;

verus! {

/// Errors that can occur during audio analysis.
#[derive(Debug, Clone)]
pub enum AnalysisError {
    /// Invalid input parameters
    InvalidInput(String),
    /// Audio decoding error
    DecodingError(String),
    /// Processing error during analysis
    ProcessingError(String),
    /// Feature not yet implemented
    NotImplemented(String),
    /// Numerical error (overflow, underflow, etc.)
    NumericalError(String),
}

impl AnalysisError {
    /// What goes before the message of an error of this kind.
    pub open spec fn label(self) -> Seq<char> {
        match self {
            AnalysisError::InvalidInput(_) => "Invalid input: "@,
            AnalysisError::DecodingError(_) => "Decoding error: "@,
            AnalysisError::ProcessingError(_) => "Processing error: "@,
            AnalysisError::NotImplemented(_) => "Not implemented: "@,
            AnalysisError::NumericalError(_) => "Numerical error: "@,
        }
    }

    pub open spec fn text(self) -> Seq<char> {
        match self {
            AnalysisError::InvalidInput(msg) => msg@,
            AnalysisError::DecodingError(msg) => msg@,
            AnalysisError::ProcessingError(msg) => msg@,
            AnalysisError::NotImplemented(msg) => msg@,
            AnalysisError::NumericalError(msg) => msg@,
        }
    }

    /// The error as a line of text: its label, then its message.
    pub fn message(&self) -> (r: String)
        ensures
            r@ == self.label() + self.text(),
    {
        match self {
            AnalysisError::InvalidInput(msg) => join("Invalid input: ", msg.as_str()),
            AnalysisError::DecodingError(msg) => join("Decoding error: ", msg.as_str()),
            AnalysisError::ProcessingError(msg) => join("Processing error: ", msg.as_str()),
            AnalysisError::NotImplemented(msg) => join("Not implemented: ", msg.as_str()),
            AnalysisError::NumericalError(msg) => join("Numerical error: ", msg.as_str()),
        }
    }
}

/// An error that says that an input is invalid, with this message.
pub open spec fn is_invalid_input<T>(r: Result<T, AnalysisError>, msg: Seq<char>) -> bool {
    match r {
        Err(AnalysisError::InvalidInput(m)) => m@ == msg,
        _ => false,
    }
}

/// An error that says that processing failed, with this message.
pub open spec fn is_processing_error<T>(r: Result<T, AnalysisError>, msg: Seq<char>) -> bool {
    match r {
        Err(AnalysisError::ProcessingError(m)) => m@ == msg,
        _ => false,
    }
}

/// An error that says that a computation failed, with this message.
pub open spec fn is_numerical_error<T>(r: Result<T, AnalysisError>, msg: Seq<char>) -> bool {
    match r {
        Err(AnalysisError::NumericalError(m)) => m@ == msg,
        _ => false,
    }
}

/// An error that says that something is not there yet, with this message.
pub open spec fn is_not_implemented<T>(r: Result<T, AnalysisError>, msg: Seq<char>) -> bool {
    match r {
        Err(AnalysisError::NotImplemented(m)) => m@ == msg,
        _ => false,
    }
}

/// What a computation comes to: a value, or an error with its message.
pub enum Outcome<V> {
    /// A value
    Value(V),
    /// An input is invalid
    Invalid(Seq<char>),
    /// Processing failed
    Failed(Seq<char>),
    /// A computation failed
    Numerical(Seq<char>),
}

/// `r` is what a computation comes to.
pub open spec fn gives<T: View>(r: Result<T, AnalysisError>, outcome: Outcome<T::V>) -> bool {
    match outcome {
        Outcome::Value(v) => r is Ok && r->Ok_0@ == v,
        Outcome::Invalid(msg) => is_invalid_input(r, msg),
        Outcome::Failed(msg) => is_processing_error(r, msg),
        Outcome::Numerical(msg) => is_numerical_error(r, msg),
    }
}

/// `r` is what a computation of plain values comes to.
pub open spec fn gives_plain<T>(r: Result<T, AnalysisError>, outcome: Outcome<T>) -> bool {
    match outcome {
        Outcome::Value(v) => r is Ok && r->Ok_0 == v,
        Outcome::Invalid(msg) => is_invalid_input(r, msg),
        Outcome::Failed(msg) => is_processing_error(r, msg),
        Outcome::Numerical(msg) => is_numerical_error(r, msg),
    }
}

pub fn invalid_input(msg: &str) -> (e: AnalysisError)
    ensures
        e matches AnalysisError::InvalidInput(m) && m@ == msg@,
{
    AnalysisError::InvalidInput(msg.to_owned())
}

} // verus!
