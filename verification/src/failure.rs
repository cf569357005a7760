//! A failure and the chain of causes behind it.

use vstd::prelude::*;

verus! {

/// A failure with its message and, where another failure lies behind it,
/// that cause.
pub struct Failure {
    pub message: String,
    pub cause: Option<Box<Failure>>,
}

/// The number of causes behind `failure`.
pub open spec fn depth(failure: Failure) -> nat
    decreases failure,
{
    match failure.cause {
        None => 0,
        Some(inner) => 1 + depth(*inner),
    }
}

/// The innermost failure of the chain: the one that has no cause.
pub open spec fn root_of(failure: Failure) -> Failure
    decreases failure,
{
    match failure.cause {
        None => failure,
        Some(inner) => root_of(*inner),
    }
}

/// The message of the innermost failure of the chain.
pub open spec fn root_message(failure: Failure) -> Seq<char> {
    root_of(failure).message@
}

impl Failure {
    /// A failure without a cause.
    pub fn new(message: String) -> (failure: Failure)
        ensures
            failure.message == message,
            failure.cause is None,
            root_message(failure) == message@,
    {
        Failure { message, cause: None }
    }

    /// A failure that wraps `cause`.
    pub fn caused_by(message: String, cause: Failure) -> (failure: Failure)
        ensures
            failure.message == message,
            failure.cause == Some(Box::new(cause)),
            root_of(failure) == root_of(cause),
            depth(failure) == depth(cause) + 1,
    {
        Failure { message, cause: Some(Box::new(cause)) }
    }

    /// The failure directly behind this one, if there is one.
    pub fn cause(&self) -> (inner: Option<&Failure>)
        ensures
            match self.cause {
                None => inner is None,
                Some(boxed) => inner == Some(&*boxed),
            },
    {
        match &self.cause {
            None => None,
            Some(boxed) => Some(&**boxed),
        }
    }

    /// Follows the causes to the innermost failure.
    pub fn root(&self) -> (innermost: &Failure)
        ensures
            *innermost == root_of(*self),
            innermost.cause is None,
    {
        let mut current: &Failure = self;
        loop
            invariant
                root_of(*current) == root_of(*self),
            ensures
                current.cause is None,
                *current == root_of(*self),
            decreases depth(*current),
        {
            match current.cause() {
                None => {
                    break ;
                },
                Some(inner) => {
                    current = inner;
                },
            }
        }
        current
    }
}

/// The root of a chain has no cause, and the root of a failure without a
/// cause is the failure itself.
pub proof fn root_has_no_cause(failure: Failure)
    ensures
        root_of(failure).cause is None,
        failure.cause is None ==> root_of(failure) == failure,
    decreases failure,
{
    match failure.cause {
        None => {},
        Some(inner) => {
            root_has_no_cause(*inner);
        },
    }
}

} // verus!
