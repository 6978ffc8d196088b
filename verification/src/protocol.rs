//! Transport schemes a mirror can offer, and the error for an unknown one.

use vstd::prelude::*;
use vstd::string::StringExecFns;
use crate::strutil::str_eq;

verus! {

/// The errors that can happen when working with [`Protocol`].
#[derive(Debug, PartialEq)]
pub enum Error {
    /// An invalid string was passed to [`Protocol::from_str`].
    InvalidProtocol(String),
}

impl Error {
    /// The error rendered as text.
    pub fn message(&self) -> (r: String)
        ensures
            forall|p: String| *self == Error::InvalidProtocol(p) ==> r@ == "can't parse '"@ + p@
                + "' to a valid protocol"@,
    {
        match self {
            Error::InvalidProtocol(p) => {
                let mut m = String::from_str("can't parse '");
                m.append(p.as_str());
                m.append("' to a valid protocol");
                m
            },
        }
    }
}

/// Every transport scheme the upstream mirror status reports.
#[derive(Debug, Copy, Clone, PartialEq, Eq, Structural)]
pub enum Protocol {
    /// The HTTP protocol.
    Http,
    /// The HTTPS protocol.
    Https,
    /// The rsync protocol.
    Rsync,
}

impl Protocol {
    /// Parses the wire form of a scheme: exactly `"http"`, `"https"` or
    /// `"rsync"`; any other text is rejected, echoed in the error.
    pub fn from_str(s: &str) -> (r: Result<Protocol, Error>)
        ensures
            match r {
                Ok(p) => (s@ == "http"@ && p == Protocol::Http) || (s@ == "https"@ && p
                    == Protocol::Https) || (s@ == "rsync"@ && p == Protocol::Rsync),
                Err(e) => s@ != "http"@ && s@ != "https"@ && s@ != "rsync"@ && (e matches
                    Error::InvalidProtocol(t) && t@ == s@),
            },
    {
        if str_eq(s, "http") {
            Ok(Protocol::Http)
        } else if str_eq(s, "https") {
            Ok(Protocol::Https)
        } else if str_eq(s, "rsync") {
            Ok(Protocol::Rsync)
        } else {
            Err(Error::InvalidProtocol(s.to_owned()))
        }
    }
}

} // verus!
