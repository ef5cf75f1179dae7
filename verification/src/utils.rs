//! Turning an absent value or a failure into an error message.

use vstd::prelude::*;

verus! {

/// Turns a missing value, or a failure, into an error with a message.
pub trait ErrString<T>: Sized {
    fn or_err(self, error_message: &str) -> Result<T, String>;
}

impl<T> ErrString<T> for Option<T> {
    /// `Some(v)` gives `Ok(v)`; `None` gives the message itself as the error.
    fn or_err(self, error_message: &str) -> (r: Result<T, String>)
        ensures
            match self {
                Some(v) => r == Ok::<T, String>(v),
                None => r matches Err(e) && e@ == error_message@,
            },
    {
        match self {
            Some(v) => Ok(v),
            None => Err(error_message.to_owned()),
        }
    }
}

impl<T> ErrString<T> for Result<T, String> {
    /// `Ok(v)` stays; an error `e` becomes `"<message>: <e>"`.
    fn or_err(self, error_message: &str) -> (r: Result<T, String>)
        ensures
            match self {
                Ok(v) => r == Ok::<T, String>(v),
                Err(e) => r matches Err(m) && m@ == error_message@ + ": "@ + e@,
            },
    {
        match self {
            Ok(v) => Ok(v),
            Err(e) => {
                let mut m = error_message.to_owned();
                m.append(": ");
                m.append(e.as_str());
                Err(m)
            },
        }
    }
}

} // verus!
