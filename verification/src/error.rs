//! The one error type of the library.

use vstd::prelude::*;

verus! {

/// What went wrong, each with a message for people.
#[derive(Debug, Clone)]
pub enum OxiHttpError {
    /// A body could not be read, written or understood.
    Body(String),
    /// A message could not be put together.
    Http(String),
    /// The connection failed.
    Hyper(String),
    /// A header's name or value is malformed.
    InvalidHeader(String),
    /// A URI is malformed.
    InvalidUri(String),
    /// Reading or writing failed.
    Io(String),
    /// JSON could not be read or written.
    Json(String),
    /// A redirect could not be followed.
    Redirect(String),
    /// The server failed.
    Server(String),
    /// A time limit passed.
    Timeout(String),
    /// TLS could not be set up.
    Tls(String),
}

/// The kinds of [`OxiHttpError`].
#[derive(Debug, Clone, Copy, PartialEq, Eq, Structural)]
pub enum ErrorKind {
    Body,
    Http,
    Hyper,
    InvalidHeader,
    InvalidUri,
    Io,
    Json,
    Redirect,
    Server,
    Timeout,
    Tls,
}

impl View for OxiHttpError {
    type V = (ErrorKind, Seq<char>);

    open spec fn view(&self) -> (ErrorKind, Seq<char>) {
        match *self {
            OxiHttpError::Body(m) => (ErrorKind::Body, m@),
            OxiHttpError::Http(m) => (ErrorKind::Http, m@),
            OxiHttpError::Hyper(m) => (ErrorKind::Hyper, m@),
            OxiHttpError::InvalidHeader(m) => (ErrorKind::InvalidHeader, m@),
            OxiHttpError::InvalidUri(m) => (ErrorKind::InvalidUri, m@),
            OxiHttpError::Io(m) => (ErrorKind::Io, m@),
            OxiHttpError::Json(m) => (ErrorKind::Json, m@),
            OxiHttpError::Redirect(m) => (ErrorKind::Redirect, m@),
            OxiHttpError::Server(m) => (ErrorKind::Server, m@),
            OxiHttpError::Timeout(m) => (ErrorKind::Timeout, m@),
            OxiHttpError::Tls(m) => (ErrorKind::Tls, m@),
        }
    }
}

impl OxiHttpError {
    /// The kind of the error.
    pub fn kind(&self) -> (r: ErrorKind)
        ensures
            r == self@.0,
    {
        match self {
            OxiHttpError::Body(_) => ErrorKind::Body,
            OxiHttpError::Http(_) => ErrorKind::Http,
            OxiHttpError::Hyper(_) => ErrorKind::Hyper,
            OxiHttpError::InvalidHeader(_) => ErrorKind::InvalidHeader,
            OxiHttpError::InvalidUri(_) => ErrorKind::InvalidUri,
            OxiHttpError::Io(_) => ErrorKind::Io,
            OxiHttpError::Json(_) => ErrorKind::Json,
            OxiHttpError::Redirect(_) => ErrorKind::Redirect,
            OxiHttpError::Server(_) => ErrorKind::Server,
            OxiHttpError::Timeout(_) => ErrorKind::Timeout,
            OxiHttpError::Tls(_) => ErrorKind::Tls,
        }
    }

    /// The message of the error.
    pub fn message(&self) -> (r: &str)
        ensures
            r@ == self@.1,
    {
        match self {
            OxiHttpError::Body(m) => m.as_str(),
            OxiHttpError::Http(m) => m.as_str(),
            OxiHttpError::Hyper(m) => m.as_str(),
            OxiHttpError::InvalidHeader(m) => m.as_str(),
            OxiHttpError::InvalidUri(m) => m.as_str(),
            OxiHttpError::Io(m) => m.as_str(),
            OxiHttpError::Json(m) => m.as_str(),
            OxiHttpError::Redirect(m) => m.as_str(),
            OxiHttpError::Server(m) => m.as_str(),
            OxiHttpError::Timeout(m) => m.as_str(),
            OxiHttpError::Tls(m) => m.as_str(),
        }
    }
}

} // verus!
