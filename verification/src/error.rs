use vstd::prelude::*;

verus! {

/// An error that occurred while decoding.
#[derive(Clone, Copy, Debug)]
pub enum Error {
    /// Invalid data or behavior was encountered; the payload names the check
    /// that failed.
    Invalid(&'static str),
}

impl Error {
    /// The description of the failed check.
    pub fn message(&self) -> (r: &'static str)
        ensures
            self matches Error::Invalid(m) && r == m,
    {
        match self {
            Error::Invalid(m) => m,
        }
    }
}

} // verus!
