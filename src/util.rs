//! Turning a missing or failed value into an invalid-frame error.
use crate::error::Error;
use vstd::prelude::*;

verus! {

/// A value that may be missing, converted to `Error::InvalidFrame` where it is.
pub trait ResultExt<T>: Sized {
    /// The value held, if there is one.
    spec fn held(&self) -> Option<T>;

    fn or_invalid_frame(self) -> (r: Result<T, Error>)
        ensures
            r == match self.held() {
                Some(v) => Ok(v),
                None => Err(Error::InvalidFrame),
            },
    ;
}

impl<T, E> ResultExt<T> for Result<T, E> {
    open spec fn held(&self) -> Option<T> {
        match self {
            Ok(v) => Some(*v),
            Err(_) => None,
        }
    }

    fn or_invalid_frame(self) -> (r: Result<T, Error>) {
        match self {
            Ok(v) => Ok(v),
            Err(_) => Err(Error::InvalidFrame),
        }
    }
}

impl<T> ResultExt<T> for Option<T> {
    open spec fn held(&self) -> Option<T> {
        *self
    }

    fn or_invalid_frame(self) -> (r: Result<T, Error>) {
        match self {
            Some(v) => Ok(v),
            None => Err(Error::InvalidFrame),
        }
    }
}

} // verus!
