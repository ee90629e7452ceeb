//! Requests to a service, and how an exchange with it went.
use crate::json::Json;
use vstd::prelude::*;

verus! {

/// A JSON document to be posted to a URL.
#[derive(Debug)]
pub struct Request {
    pub url: String,
    pub body: Json,
}

/// How sending a request went.
#[derive(Debug)]
pub enum Exchange {
    /// No response came: the service could not be reached, or not in time.
    Failed,
    /// A response came with this status. The body is there if it was read to its end.
    Answered { status: u16, body: Option<Vec<u8>> },
}

/// Whether a status reports success.
pub open spec fn is_success_status(status: u16) -> bool {
    200 <= status < 300
}

impl Exchange {
    /// Whether a response came and its status reports success.
    pub open spec fn accepted(&self) -> bool {
        self matches Exchange::Answered { status, .. } && is_success_status(*status)
    }

    /// The bytes of the response, if one came and was read to its end.
    pub open spec fn received(&self) -> Option<Seq<u8>> {
        match self {
            Exchange::Answered { status: _, body: Some(bytes) } => Some(bytes@),
            _ => None,
        }
    }

    /// Whether a response came and its status reports success.
    pub fn is_accepted(&self) -> (accepted: bool)
        ensures
            accepted == self.accepted(),
    {
        match self {
            Exchange::Failed => false,
            Exchange::Answered { status, .. } => 200 <= *status && *status < 300,
        }
    }

    /// The bytes of the response, if one came and was read to its end.
    pub fn body(&self) -> (bytes: Option<&[u8]>)
        ensures
            match bytes {
                Some(b) => self.received() == Some(b@),
                None => self.received() is None,
            },
    {
        match self {
            Exchange::Failed => None,
            Exchange::Answered { status: _, body } => match body {
                Some(bytes) => Some(bytes.as_slice()),
                None => None,
            },
        }
    }
}

/// An exchange is accepted exactly where a response came whose status lies in the two
/// hundreds, and brings bytes exactly where a response came and was read to its end.
pub proof fn law_outcome_of_an_exchange(status: u16, bytes: Vec<u8>)
    ensures
        !Exchange::Failed.accepted(),
        Exchange::Failed.received() is None,
        (Exchange::Answered { status, body: None }).accepted() <==> status / 100 == 2,
        (Exchange::Answered { status, body: None }).received() is None,
        (Exchange::Answered { status, body: Some(bytes) }).accepted() <==> status / 100 == 2,
        (Exchange::Answered { status, body: Some(bytes) }).received() == Some(bytes@),
{
}

}
