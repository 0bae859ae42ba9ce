//! Methods and replies.

use bytes::Bytes;
use http::HeaderMap;
use vstd::prelude::*;

use crate::headers::{header_entries, no_entries};
use crate::octets::bytes_of;
use crate::text::same_text;

verus! {

/// The method of a request.
#[derive(Debug, Clone, PartialEq, Eq)]
pub enum Method {
    Get,
    Post,
    Put,
    Delete,
    Patch,
    Head,
    Options,
    Connect,
    Trace,
    /// A method with another name.
    Other(String),
}

impl View for Method {
    type V = Seq<char>;

    /// The name of the method.
    open spec fn view(&self) -> Seq<char> {
        match *self {
            Method::Get => "GET"@,
            Method::Post => "POST"@,
            Method::Put => "PUT"@,
            Method::Delete => "DELETE"@,
            Method::Patch => "PATCH"@,
            Method::Head => "HEAD"@,
            Method::Options => "OPTIONS"@,
            Method::Connect => "CONNECT"@,
            Method::Trace => "TRACE"@,
            Method::Other(s) => s@,
        }
    }
}

/// Whether a name is that of a method with a variant of its own.
pub open spec fn standard(name: Seq<char>) -> bool {
    ||| name == "GET"@
    ||| name == "POST"@
    ||| name == "PUT"@
    ||| name == "DELETE"@
    ||| name == "PATCH"@
    ||| name == "HEAD"@
    ||| name == "OPTIONS"@
    ||| name == "CONNECT"@
    ||| name == "TRACE"@
}

impl Method {
    /// The method with the given name.
    pub fn from_name(name: &str) -> (r: Method)
        ensures
            r@ == name@,
            r is Other <==> !standard(name@),
    {
        if same_text(name, "GET") {
            Method::Get
        } else if same_text(name, "POST") {
            Method::Post
        } else if same_text(name, "PUT") {
            Method::Put
        } else if same_text(name, "DELETE") {
            Method::Delete
        } else if same_text(name, "PATCH") {
            Method::Patch
        } else if same_text(name, "HEAD") {
            Method::Head
        } else if same_text(name, "OPTIONS") {
            Method::Options
        } else if same_text(name, "CONNECT") {
            Method::Connect
        } else if same_text(name, "TRACE") {
            Method::Trace
        } else {
            Method::Other(name.to_owned())
        }
    }

    /// The name of the method.
    pub fn as_str(&self) -> (r: &str)
        ensures
            r@ == self@,
    {
        match self {
            Method::Get => "GET",
            Method::Post => "POST",
            Method::Put => "PUT",
            Method::Delete => "DELETE",
            Method::Patch => "PATCH",
            Method::Head => "HEAD",
            Method::Options => "OPTIONS",
            Method::Connect => "CONNECT",
            Method::Trace => "TRACE",
            Method::Other(s) => s.as_str(),
        }
    }

    /// Whether the method has the given name.
    pub fn is_named(&self, name: &str) -> (r: bool)
        ensures
            r == (self@ == name@),
    {
        same_text(self.as_str(), name)
    }

    /// A second value for the same method.
    pub fn copied(&self) -> (r: Method)
        ensures
            r@ == self@,
            r is Other <==> self is Other,
            !(self is Other) ==> r == *self,
    {
        match self {
            Method::Get => Method::Get,
            Method::Post => Method::Post,
            Method::Put => Method::Put,
            Method::Delete => Method::Delete,
            Method::Patch => Method::Patch,
            Method::Head => Method::Head,
            Method::Options => Method::Options,
            Method::Connect => Method::Connect,
            Method::Trace => Method::Trace,
            Method::Other(s) => Method::Other(s.clone()),
        }
    }
}

/// A response: its status code, its headers and its body.
#[derive(Debug)]
pub struct Reply {
    pub status: u16,
    pub headers: HeaderMap,
    pub body: Bytes,
}

/// What a response says.
pub struct ReplyView {
    pub status: u16,
    pub headers: Map<Seq<char>, Seq<Seq<u8>>>,
    pub body: Seq<u8>,
}

impl View for Reply {
    type V = ReplyView;

    open spec fn view(&self) -> ReplyView {
        ReplyView {
            status: self.status,
            headers: header_entries(self.headers),
            body: bytes_of(self.body),
        }
    }
}

/// A response without headers.
pub open spec fn plain_reply(status: u16, body: Seq<u8>) -> ReplyView {
    ReplyView { status, headers: no_entries(), body }
}

impl Reply {
    /// A response without headers.
    pub fn new(status: u16, body: Bytes) -> (r: Reply)
        ensures
            r@ == plain_reply(status, bytes_of(body)),
    {
        Reply { status, headers: HeaderMap::new(), body }
    }

    /// A response without headers and without a body.
    pub fn empty(status: u16) -> (r: Reply)
        ensures
            r@ == plain_reply(status, Seq::empty()),
    {
        Reply::new(status, Bytes::new())
    }
}

} // verus!
