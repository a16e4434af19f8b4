//! The three-way failure taxonomy carried through the pipeline.

use vstd::prelude::*;

verus! {

/// The class a failure was tagged with where it arose.
#[derive(Clone, Copy, Debug, PartialEq, Eq, Structural)]
pub enum ErrorClass {
    /// Transient: worth another attempt.
    Recoverable,
    /// Permanent for this item: never retried.
    Unrecoverable,
    /// Not tagged by whoever raised it.
    Unclassified,
}

/// Mathematical value of an [`ErrorKind`]: its class and the text of its reason.
pub struct ErrorView {
    pub class: ErrorClass,
    pub reason: Seq<char>,
}

/// A failure together with the reason it was raised for.
#[derive(Debug)]
pub enum ErrorKind {
    /// A retryable operation failed.
    RecoverableError(String),
    /// An unrecoverable error occurred.
    UnrecoverableError(String),
    /// A failure that carries only a message.
    Msg(String),
}

impl View for ErrorKind {
    type V = ErrorView;

    open spec fn view(&self) -> ErrorView {
        match self {
            ErrorKind::RecoverableError(t) => ErrorView {
                class: ErrorClass::Recoverable,
                reason: t@,
            },
            ErrorKind::UnrecoverableError(t) => ErrorView {
                class: ErrorClass::Unrecoverable,
                reason: t@,
            },
            ErrorKind::Msg(t) => ErrorView { class: ErrorClass::Unclassified, reason: t@ },
        }
    }
}

impl ErrorView {
    /// Whether the policy allows another attempt after this failure: every
    /// failure but an unrecoverable one is retried, an untagged one included.
    pub open spec fn retryable(self) -> bool {
        self.class != ErrorClass::Unrecoverable
    }
}

impl Clone for ErrorKind {
    fn clone(&self) -> (copy: Self)
        ensures
            copy@ == self@,
    {
        match self {
            ErrorKind::RecoverableError(t) => ErrorKind::RecoverableError(t.clone()),
            ErrorKind::UnrecoverableError(t) => ErrorKind::UnrecoverableError(t.clone()),
            ErrorKind::Msg(t) => ErrorKind::Msg(t.clone()),
        }
    }
}

impl ErrorKind {
    /// A transient failure with the given reason.
    pub fn recoverable(reason: &str) -> (e: ErrorKind)
        ensures
            e@ == (ErrorView { class: ErrorClass::Recoverable, reason: reason@ }),
    {
        ErrorKind::RecoverableError(String::from_str(reason))
    }

    /// A permanent failure with the given reason.
    pub fn unrecoverable(reason: &str) -> (e: ErrorKind)
        ensures
            e@ == (ErrorView { class: ErrorClass::Unrecoverable, reason: reason@ }),
    {
        ErrorKind::UnrecoverableError(String::from_str(reason))
    }

    /// An untagged failure with the given message.
    pub fn message(reason: &str) -> (e: ErrorKind)
        ensures
            e@ == (ErrorView { class: ErrorClass::Unclassified, reason: reason@ }),
    {
        ErrorKind::Msg(String::from_str(reason))
    }

    /// The class this failure was tagged with.
    pub fn class(&self) -> (c: ErrorClass)
        ensures
            c == self@.class,
    {
        match self {
            ErrorKind::RecoverableError(_) => ErrorClass::Recoverable,
            ErrorKind::UnrecoverableError(_) => ErrorClass::Unrecoverable,
            ErrorKind::Msg(_) => ErrorClass::Unclassified,
        }
    }

    /// The reason the failure was raised with.
    pub fn reason(&self) -> (text: &String)
        ensures
            text@ == self@.reason,
    {
        match self {
            ErrorKind::RecoverableError(t) => t,
            ErrorKind::UnrecoverableError(t) => t,
            ErrorKind::Msg(t) => t,
        }
    }

    /// Whether the item may be tried again after this failure.
    pub fn is_retryable(&self) -> (b: bool)
        ensures
            b == self@.retryable(),
    {
        match self {
            ErrorKind::UnrecoverableError(_) => false,
            _ => true,
        }
    }
}

/// Mathematical value of the result of a prediction.
pub open spec fn outcome_view(outcome: Result<bool, ErrorKind>) -> Result<bool, ErrorView> {
    match outcome {
        Ok(prediction) => Ok(prediction),
        Err(e) => Err(e@),
    }
}

} // verus!
