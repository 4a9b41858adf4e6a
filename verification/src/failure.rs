//! Why an operation could not be carried out.

use vstd::prelude::*;

verus! {

/// What went wrong, and what caused it where that is known.
#[derive(Clone, Debug, PartialEq, Eq)]
pub struct Failure {
    pub message: String,
    pub cause: Option<String>,
}

/// A [`Failure`] as its characters.
pub struct FailureView {
    pub message: Seq<char>,
    pub cause: Option<Seq<char>>,
}

impl View for Failure {
    type V = FailureView;

    open spec fn view(&self) -> FailureView {
        FailureView {
            message: self.message@,
            cause: match self.cause {
                Some(cause) => Some(cause@),
                None => None,
            },
        }
    }
}

impl FailureView {
    /// The failure on one line: the message, and behind a colon its cause.
    pub open spec fn text(self) -> Seq<char> {
        match self.cause {
            Some(cause) => self.message + ": "@ + cause,
            None => self.message,
        }
    }
}

/// A failure that nothing else caused.
pub open spec fn plain_failure(message: Seq<char>) -> FailureView {
    FailureView { message, cause: None }
}

impl Failure {
    /// A failure that nothing else caused.
    pub fn plain(message: String) -> (failure: Failure)
        ensures
            failure@ == plain_failure(message@),
    {
        Failure { message, cause: None }
    }

    /// A failure with its cause.
    pub fn caused(message: String, cause: String) -> (failure: Failure)
        ensures
            failure@ == (FailureView { message: message@, cause: Some(cause@) }),
    {
        Failure { message, cause: Some(cause) }
    }

    /// The failure on one line.
    pub fn to_string(&self) -> (text: String)
        ensures
            text@ == self@.text(),
    {
        match &self.cause {
            Some(cause) => self.message.clone().concat(": ").concat(cause.as_str()),
            None => self.message.clone(),
        }
    }
}

/// A failure is told with its cause behind a colon, where it has one, and else as it is.
pub proof fn causes_are_told(message: Seq<char>, cause: Seq<char>)
    ensures
        (FailureView { message, cause: Some(cause) }).text() == message + ": "@ + cause,
        (FailureView { message, cause: None }).text() == message,
        plain_failure(message).text() == message,
{
}

} // verus!
