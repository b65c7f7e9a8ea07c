//! The server's reply to a client-issued request: either the payload the
//! request produced, already rendered to its JSON text, or the error it
//! raised — never both.

use crate::DaemonError;
use vstd::prelude::*;

verus! {

/// A server response. Exactly one of `data` and `error` is set; a fresh
/// (default) response carries neither until `new` fills it in.
pub struct Response {
    pub data: Option<String>,
    pub error: Option<DaemonError>,
}

impl Default for Response {
    fn default() -> (r: Self)
        ensures
            r.data is None,
            r.error is None,
    {
        Response { data: None, error: None }
    }
}

impl Response {
    /// Wraps the outcome of a request: a payload fills `data`, an error
    /// fills `error`, and the other side stays empty.
    pub fn new(v: Result<String, DaemonError>) -> (r: Response)
        ensures
            v matches Ok(payload) ==> (r.data matches Some(s) && s@ == payload@) && r.error
                is None,
            v matches Err(e) ==> r.data is None && (r.error matches Some(f) && f == e),
    {
        let mut response = Response::default();
        match v {
            Ok(data) => {
                response.data = Some(data);
            },
            Err(error) => {
                response.error = Some(error);
            },
        }
        response
    }
}

} // verus!
