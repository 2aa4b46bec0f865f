//! Error type shared across the crate.

use vstd::prelude::*;
use vstd::string::StringExecFns;
use crate::text::{decimal, i64_to_decimal, signed_decimal, u64_to_decimal};

verus! {

/// All errors surfaced by the library.
///
/// The variants are intentionally coarse-grained so the type stays usable on
/// targets without an allocator.
#[derive(Debug, Clone, Copy, PartialEq, Eq)]
#[non_exhaustive]
pub enum Error {
    /// The underlying network transport failed.
    Transport,
    /// The device returned a response that could not be parsed.
    Parse,
    /// A stack-allocated buffer was too small.
    BufferTooSmall,
    /// The device returned a non-2xx HTTP status code.
    Http(u16),
    /// The device replied with a JSON-RPC error envelope. The wrapped value
    /// is the Gen2+ RPC error code (e.g. `-32601` for `Method not found`).
    Rpc(i32),
    /// The Shelly Cloud API returned `"isok": false`.
    CloudApi,
}

/// The human-readable description of an error.
pub open spec fn error_message(e: Error) -> Seq<char> {
    match e {
        Error::Transport => "transport error"@,
        Error::Parse => "failed to parse device response"@,
        Error::BufferTooSmall => "buffer too small"@,
        Error::Http(code) => "http error: status "@ + decimal(code as nat),
        Error::Rpc(code) => "rpc error: code "@ + signed_decimal(code as int),
        Error::CloudApi => "cloud API returned isok: false"@,
    }
}

impl Error {
    /// Renders the error for people, e.g. `"http error: status 404"`.
    pub fn message(&self) -> (s: String)
        ensures
            s@ == error_message(*self),
    {
        match self {
            Error::Transport => String::from_str("transport error"),
            Error::Parse => String::from_str("failed to parse device response"),
            Error::BufferTooSmall => String::from_str("buffer too small"),
            Error::Http(code) => {
                let s = String::from_str("http error: status ");
                let d = u64_to_decimal(*code as u64);
                s.concat(d.as_str())
            },
            Error::Rpc(code) => {
                let s = String::from_str("rpc error: code ");
                let d = i64_to_decimal(*code as i64);
                s.concat(d.as_str())
            },
            Error::CloudApi => String::from_str("cloud API returned isok: false"),
        }
    }
}

} // verus!
