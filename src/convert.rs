//! Conversions of results.

use crate::error::{JlrsError, JlrsResult};
use vstd::prelude::*;

verus! {

/// Converts `Self` to a `Result`.
pub trait IntoResult<T, E> {
    /// Converts `self` to a `Result`.
    fn into_result(self) -> Result<T, E>;
}

impl<E> IntoResult<(), E> for () {
    fn into_result(self) -> Result<(), E> {
        Ok(self)
    }
}

impl<E> IntoResult<(), E> for Result<(), E> {
    fn into_result(self) -> Result<(), E> {
        self
    }
}

impl<E> IntoResult<JlrsResult<()>, E> for JlrsResult<()> {
    fn into_result(self) -> Result<JlrsResult<()>, E> {
        Ok(self)
    }
}

impl<E> IntoResult<JlrsResult<()>, E> for Result<JlrsResult<()>, E> {
    fn into_result(self) -> Result<JlrsResult<()>, E> {
        self
    }
}

/// What the engine reports of a thrown exception: its description, when it could be shown.
pub struct Exception {
    pub description: Option<String>,
}

/// The message used for an exception that could not be shown.
pub const CANNOT_DISPLAY_VALUE: &'static str = "<Cannot display value>";

/// The result of a call into the engine that may throw.
pub type JuliaResult<T> = Result<T, Exception>;

/// Marks the types that [`IntoJlrsResult`] is implemented for.
pub trait IntoJlrsResultPriv {}

impl<T> IntoJlrsResultPriv for JuliaResult<T> {}

/// `out` is `r` with a thrown exception turned into an error that carries its description,
/// or [`CANNOT_DISPLAY_VALUE`] when it has none.
pub open spec fn converted<T>(r: JuliaResult<T>, out: JlrsResult<T>) -> bool {
    &&& r is Ok ==> out == Ok::<T, JlrsError>(r->Ok_0)
    &&& r is Err && r->Err_0.description is Some ==> out == Err::<T, JlrsError>(
        JlrsError::Exception(r->Err_0.description->Some_0),
    )
    &&& r is Err && r->Err_0.description is None ==> out is Err && out->Err_0 is Exception
        && out->Err_0->Exception_0@ == CANNOT_DISPLAY_VALUE@
}

/// Turns a thrown exception into an error of the library.
pub trait IntoJlrsResult<T>: IntoJlrsResultPriv + Sized {
    /// What `self` converts to.
    spec fn converts_to(self, out: JlrsResult<T>) -> bool;

    /// The value, or the exception's description as an error.
    fn into_jlrs_result(self) -> (out: JlrsResult<T>)
        ensures
            self.converts_to(out),
    ;
}

/// The value of a result from the engine, or the exception's description as an error.
pub fn exception_to_error<T>(r: JuliaResult<T>) -> (out: JlrsResult<T>)
    ensures
        converted(r, out),
{
    match r {
        Ok(v) => Ok(v),
        Err(e) => match e.description {
            Some(d) => Err(JlrsError::Exception(d)),
            None => Err(JlrsError::Exception(CANNOT_DISPLAY_VALUE.to_string())),
        },
    }
}

impl<T> IntoJlrsResult<T> for JuliaResult<T> {
    open spec fn converts_to(self, out: JlrsResult<T>) -> bool {
        converted(self, out)
    }

    fn into_jlrs_result(self) -> (out: JlrsResult<T>) {
        exception_to_error(self)
    }
}

} // verus!
