//! The part of an inbound request that the cache decides on: the method,
//! the request target and the header fields.

use crate::headers::{first_value, header_value, model, Header, HeaderView};
use vstd::prelude::*;
use vstd::string::StringSliceAdditionalSpecFns;

verus! {

/// The name of the header that carries the virtual host.
pub open spec fn host_name() -> Seq<u8> {
    "host".spec_bytes()
}

/// The name of the header that carries the entry ID.
pub open spec fn etag_name() -> Seq<u8> {
    "etag".spec_bytes()
}

/// The name of the response header that lists the request headers on which
/// the response depends.
pub open spec fn vary_name() -> Seq<u8> {
    "vary".spec_bytes()
}

/// The only method whose entries can be addressed by path.
pub open spec fn get_method() -> Seq<u8> {
    "GET".spec_bytes()
}

/// An inbound request, without its body.
#[derive(Clone, Debug, PartialEq, Eq)]
pub struct Request {
    /// The upper-case HTTP verb.
    pub method: Vec<u8>,
    /// The request target after the authority, query string included.
    pub path_and_query: Vec<u8>,
    /// The header fields, in the order received.
    pub headers: Vec<Header>,
}

/// What a request is to the contracts.
pub struct RequestView {
    pub method: Seq<u8>,
    pub path_and_query: Seq<u8>,
    pub headers: Seq<HeaderView>,
}

impl View for Request {
    type V = RequestView;

    open spec fn view(&self) -> RequestView {
        RequestView {
            method: self.method@,
            path_and_query: self.path_and_query@,
            headers: model(self.headers@),
        }
    }
}

impl Request {
    /// The value of the `Host` header, if the request has one.
    pub fn host(&self) -> (r: Option<&Vec<u8>>)
        ensures
            match r {
                Some(v) => first_value(self@.headers, host_name()) == Some(v@),
                None => first_value(self@.headers, host_name()) is None,
            },
    {
        header_value(&self.headers, "host".as_bytes())
    }
}

} // verus!
