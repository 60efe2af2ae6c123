//! The errors of the library.
use vstd::prelude::*;
use crate::text::push_str;

verus! {

/// What can go wrong in a saga's bookkeeping.
#[derive(Debug, Clone)]
pub enum Error {
    SagaNotFound { path: String },
    SagaAlreadyExists { path: String },
    InvalidStepTransition { from: String, to: String },
    NoCurrentStep,
    SagaComplete,
    NoSteps,
    MultipleStdin,
    Other(String),
}

/// The text an error is shown with.
pub open spec fn error_message(e: Error) -> Seq<char> {
    match e {
        Error::SagaNotFound { path } => "No saga found at "@ + path@ + "/.avoid-compaction/"@,
        Error::SagaAlreadyExists { path } => "Saga already exists at "@ + path@
            + "/.avoid-compaction/"@,
        Error::InvalidStepTransition { from, to } => "Invalid step transition: "@ + from@
            + " -> "@ + to@,
        Error::NoCurrentStep => "No current step found"@,
        Error::SagaComplete => "Saga is already complete"@,
        Error::NoSteps => "No steps defined yet"@,
        Error::MultipleStdin => "Multiple flags cannot read from stdin"@,
        Error::Other(m) => m@,
    }
}

impl Error {
    /// The text the error is shown with.
    pub fn message(&self) -> (res: String)
        ensures
            res@ == error_message(*self),
    {
        let mut res = String::new();
        match self {
            Error::SagaNotFound { path } => {
                push_str(&mut res, "No saga found at ");
                push_str(&mut res, path.as_str());
                push_str(&mut res, "/.avoid-compaction/");
            },
            Error::SagaAlreadyExists { path } => {
                push_str(&mut res, "Saga already exists at ");
                push_str(&mut res, path.as_str());
                push_str(&mut res, "/.avoid-compaction/");
            },
            Error::InvalidStepTransition { from, to } => {
                push_str(&mut res, "Invalid step transition: ");
                push_str(&mut res, from.as_str());
                push_str(&mut res, " -> ");
                push_str(&mut res, to.as_str());
            },
            Error::NoCurrentStep => push_str(&mut res, "No current step found"),
            Error::SagaComplete => push_str(&mut res, "Saga is already complete"),
            Error::NoSteps => push_str(&mut res, "No steps defined yet"),
            Error::MultipleStdin => push_str(&mut res, "Multiple flags cannot read from stdin"),
            Error::Other(m) => push_str(&mut res, m.as_str()),
        }
        assert(res@ =~= error_message(*self));
        res
    }
}

} // verus!
