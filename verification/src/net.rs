//! The error value the host's transport reports when a server answers with
//! a failing status.

use vstd::prelude::*;

verus! {

pub struct ResponseError {
    pub status: u16,
}

impl ResponseError {
    pub fn new(status: u16) -> (r: ResponseError)
        ensures
            r.status == status,
    {
        ResponseError { status }
    }

    /// The failing status code.
    pub fn status(&self) -> (r: u16)
        ensures
            r == self.status,
    {
        self.status
    }
}

} // verus!
