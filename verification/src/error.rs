//! What can go wrong.
use vstd::prelude::*;

verus! {

/// An error, with a text that describes it.
#[derive(Debug)]
pub enum Error {
    Io(String),
    Certificate(String),
    Config(String),
    Proxy(String),
}

/// What an error says.
pub open spec fn error_text(e: Error) -> Seq<char> {
    match e {
        Error::Io(s) => "IO error: "@ + s@,
        Error::Certificate(s) => "TLS/certificate error: "@ + s@,
        Error::Config(s) => "Config error: "@ + s@,
        Error::Proxy(s) => "Proxy error: "@ + s@,
    }
}

impl Error {
    /// What the error says.
    pub fn message(&self) -> (res: String)
        ensures
            res@ == error_text(*self),
    {
        let (kind, text) = match self {
            Error::Io(s) => ("IO error: ", s),
            Error::Certificate(s) => ("TLS/certificate error: ", s),
            Error::Config(s) => ("Config error: ", s),
            Error::Proxy(s) => ("Proxy error: ", s),
        };
        let mut res: String = kind.to_owned();
        res.append(text.as_str());
        res
    }
}

/// Why an operation on the index of the cache, or on the range cache, fails.
#[derive(Debug, Clone, Copy, PartialEq, Eq, Structural)]
pub enum IndexError {
    /// Another entry has the file path.
    PathTaken,
    /// The sizes add up to more than can be counted.
    SizeOverflow,
    /// A search pattern is too long.
    PatternTooLong,
    /// There is no such resource.
    UnknownResource,
}

} // verus!
