//! Small request helpers.
use vstd::prelude::*;

verus! {

/// The request path `uri_path` as handlers are keyed: one trailing `/` is
/// dropped unless the path is at most one byte long.
pub open spec fn spec_path(uri_path: &str) -> Seq<char> {
    if uri_path.len() > 1 && uri_path@.len() > 0 && uri_path@.last() == '/' {
        uri_path@.drop_last()
    } else {
        uri_path@
    }
}

/// The path of a request, without its trailing `/` (the root path `/` is
/// kept as it is).
pub fn path(uri_path: &str) -> (p: &str)
    ensures
        p@ == spec_path(uri_path),
{
    let mut p = uri_path;
    if uri_path.len() > 1 {
        let n = uri_path.unicode_len();
        if n > 0 && uri_path.get_char(n - 1) == '/' {
            p = uri_path.substring_char(0, n - 1);
        }
    }
    p
}

/// The status code of the response that stands for an internal server error.
pub const INTERNAL_SERVER_ERROR: u16 = 500;

/// The status code of a response to a request that was not authorized.
pub const UNAUTHORIZED: u16 = 401;

/// The status code of a response to a request for which no route exists.
pub const NOT_FOUND: u16 = 404;

/// The status code of a response when the upstream could not be reached.
pub const BAD_GATEWAY: u16 = 502;

pub trait WardenHttpExt<T>: Sized {
    /// Keeps a success and turns any error into the status of an internal
    /// server error response.
    fn ok_or_500(self) -> Result<T, u16>;
}

impl<T, E> WardenHttpExt<T> for Result<T, E> {
    fn ok_or_500(self) -> (res: Result<T, u16>)
        ensures
            match self {
                Ok(v) => res == Ok::<T, u16>(v),
                Err(_) => res == Err::<T, u16>(INTERNAL_SERVER_ERROR),
            },
    {
        match self {
            Ok(val) => Ok(val),
            Err(_) => Err(INTERNAL_SERVER_ERROR),
        }
    }
}

#[verifier::external_type_specification]
#[verifier::external_body]
#[verifier::reject_recursive_types(T)]
pub struct ExPoisonError<T>(std::sync::PoisonError<T>);

/// Calls `std::sync::PoisonError::into_inner`, which gives back the guard
/// held by the error. The contract says nothing of that value: the error
/// is an outside type whose contents are not modelled.
#[verifier::external_body]
fn poison_into_inner<T>(err: std::sync::PoisonError<T>) -> T {
    err.into_inner()
}

pub trait UnwrapLog<T>: Sized {
    /// The value, also when the lock that guards it was poisoned.
    fn unwrap_log(self) -> T;
}

impl<T> UnwrapLog<T> for Result<T, std::sync::PoisonError<T>> {
    fn unwrap_log(self) -> (v: T)
        ensures
            self matches Ok(x) ==> v == x,
    {
        match self {
            Ok(v) => v,
            Err(err) => poison_into_inner(err),
        }
    }
}

} // verus!
