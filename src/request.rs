//! A buffered request: its head and its whole body, detached from the
//! connection so that every strategy can read it before it is forwarded.
use vstd::prelude::*;

verus! {

/// One header line. The name is held in lower case, as HTTP header maps
/// hold it; the value is held as raw bytes.
#[derive(Clone, Debug)]
pub struct HeaderEntry {
    pub name: String,
    pub value: Vec<u8>,
}

/// The head of a request: method, path, query and headers in order.
#[derive(Clone, Debug)]
pub struct RequestHead {
    pub method: String,
    pub path: String,
    pub query: Option<String>,
    pub headers: Vec<HeaderEntry>,
}

/// A request whose body has been read in full.
#[derive(Clone, Debug)]
pub struct SafeRequest {
    head: RequestHead,
    body: Vec<u8>,
}

impl SafeRequest {
    /// The head that this request was built with.
    pub closed spec fn spec_head(&self) -> RequestHead {
        self.head
    }

    /// The body that this request was built with.
    pub closed spec fn spec_body(&self) -> Vec<u8> {
        self.body
    }

    /// The request with this head and body.
    pub closed spec fn spec_new(head: RequestHead, body: Vec<u8>) -> SafeRequest {
        SafeRequest { head, body }
    }

    /// Holds a request head together with its buffered body.
    pub fn new(head: RequestHead, body: Vec<u8>) -> (r: Self)
        ensures
            r == Self::spec_new(head, body),
            r.spec_head() == head,
            r.spec_body() == body,
    {
        SafeRequest { head, body }
    }

    /// The head of the request.
    pub fn head(&self) -> (r: &RequestHead)
        ensures
            *r == self.spec_head(),
    {
        &self.head
    }

    /// The buffered body.
    pub fn body(&self) -> (r: &Vec<u8>)
        ensures
            *r == self.spec_body(),
    {
        &self.body
    }

    /// Gives the head and the body back, for the outbound request.
    pub fn into_parts(self) -> (r: (RequestHead, Vec<u8>))
        ensures
            r == (self.spec_head(), self.spec_body()),
    {
        (self.head, self.body)
    }

    /// What `into_parts` gives back: the head and the body, unchanged.
    pub open spec fn spec_into_parts(self) -> (RequestHead, Vec<u8>) {
        (self.spec_head(), self.spec_body())
    }
}

/// Buffering a request and taking it apart again for forwarding gives back
/// the very head (method, path, query, every header) and the very body bytes
/// that it was built from.
pub proof fn lemma_request_round_trip(head: RequestHead, body: Vec<u8>)
    ensures
        SafeRequest::spec_new(head, body).spec_into_parts() == (head, body),
{
    assert(SafeRequest::spec_new(head, body).spec_head() == head);
    assert(SafeRequest::spec_new(head, body).spec_body() == body);
}

} // verus!
