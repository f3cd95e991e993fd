//! Why a query has no plan.
use crate::algebra::Expression;
use crate::xsd::CastTarget;
use vstd::prelude::*;

verus! {

/// Why a query could not be planned.
#[derive(Debug)]
pub enum Error<'p, E> {
    /// The store could not encode a term.
    Store(E),
    /// A cast takes one parameter, and was called with more or fewer.
    CastArity(CastTarget),
    /// The expression calls a function that is not known.
    UnsupportedFunction(&'p Expression),
}

/// Why a query could not be planned.
pub enum Failure<E> {
    Store(E),
    CastArity(CastTarget),
    UnsupportedFunction(Expression),
}

impl<'p, E> Error<'p, E> {
    pub open spec fn model(self) -> Failure<E> {
        match self {
            Error::Store(error) => Failure::Store(error),
            Error::CastArity(target) => Failure::CastArity(target),
            Error::UnsupportedFunction(expression) => Failure::UnsupportedFunction(*expression),
        }
    }

    /// What to tell the author of the query. A store's error has a message of its own.
    ///
    /// `written` is how the query writes the expression that the error is about, if it is about
    /// one.
    pub fn message(&self, written: &str) -> (message: Option<String>)
        ensures
            match (*self, message) {
                (Error::Store(_), None) => true,
                (Error::CastArity(target), Some(text)) => text@ == "The xsd:"@
                    + target.local_name() + " casting takes only one parameter"@,
                (Error::UnsupportedFunction(_), Some(text)) => text@
                    == "Not supported custom function "@ + written@,
                _ => false,
            },
    {
        match self {
            Error::Store(_) => None,
            Error::CastArity(target) => Some(
                "The xsd:".to_owned().concat(target.name()).concat(
                    " casting takes only one parameter",
                ),
            ),
            Error::UnsupportedFunction(_) => Some(
                "Not supported custom function ".to_owned().concat(written),
            ),
        }
    }
}

/// How planning ends: with a result, with an error, or at a construct that has no plan.
pub enum Outcome<T, E> {
    Done(T),
    Failed(Failure<E>),
    Stuck,
}

impl<T, E> Outcome<T, E> {
    /// The same end, where it is not a result.
    pub open spec fn halt<U>(self) -> Outcome<U, E> {
        match self {
            Outcome::Failed(failure) => Outcome::Failed(failure),
            _ => Outcome::Stuck,
        }
    }
}

} // verus!
