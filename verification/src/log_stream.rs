//! The device's debug log stream: which address to connect to for a host
//! given on the command line, the request sent there, and where the reply's
//! headers end. The chunked body is decoded by [`crate::chunked`].

use vstd::prelude::*;
use vstd::string::{StringExecFns, StringSliceAdditionalSpecFns};
use crate::device::{base_url, has_prefix};
use crate::text::{decimal, push_decimal, str_chars};

verus! {

/// The parts of a parsed URL that the log stream reads.
pub struct UrlParts {
    /// The path, `/` for a bare host.
    pub path: String,
    /// The query, when the URL has one.
    pub query: Option<String>,
    /// The fragment, when the URL has one.
    pub fragment: Option<String>,
    /// The host, when the URL has one.
    pub host: Option<String>,
    /// The explicit port, or the scheme's default port.
    pub port: Option<u16>,
}

/// What `url::Url::parse` makes of `text`: path, query, fragment, host and
/// port (explicit or the scheme's default), or the parse error's message.
pub uninterp spec fn parsed_url(text: Seq<char>) -> Result<
    (Seq<char>, Option<Seq<char>>, Option<Seq<char>>, Option<Seq<char>>, Option<u16>),
    Seq<char>,
>;

pub open spec fn opt_view(o: Option<String>) -> Option<Seq<char>> {
    match o {
        Some(s) => Some(s@),
        None => None,
    }
}

/// The parts of `parts` as plain values.
pub open spec fn url_parts_view(parts: UrlParts) -> (
    Seq<char>,
    Option<Seq<char>>,
    Option<Seq<char>>,
    Option<Seq<char>>,
    Option<u16>,
) {
    (parts.path@, opt_view(parts.query), opt_view(parts.fragment), opt_view(parts.host), parts.port)
}

/// Parses `text` with `url::Url::parse` and reads its path, query, fragment,
/// host (`host_str`) and port (`port_or_known_default`); a parse error gives
/// its message.
#[verifier::external_body]
fn parse_url(text: &str) -> (r: Result<UrlParts, String>)
    ensures
        match parsed_url(text@) {
            Ok(p) => r matches Ok(u) && url_parts_view(u) == p,
            Err(m) => r matches Err(e) && e@ == m,
        },
{
    match url::Url::parse(text) {
        Ok(u) => Ok(
            UrlParts {
                path: u.path().to_string(),
                query: u.query().map(str::to_string),
                fragment: u.fragment().map(str::to_string),
                host: u.host_str().map(str::to_string),
                port: u.port_or_known_default(),
            },
        ),
        Err(e) => Err(e.to_string()),
    }
}

/// Why a host cannot be streamed from.
#[derive(Debug)]
pub enum LogTargetError {
    /// The host does not parse as a URL; the parser's message.
    InvalidHost(String),
    /// The host names a path other than `/`.
    HasPath(String),
    /// The host carries a query string.
    HasQuery,
    /// The host carries a fragment.
    HasFragment,
    /// The URL has no host.
    MissingHost,
}

/// Whether `s` holds the character `c`.
pub open spec fn contains_char(s: Seq<char>, c: char) -> bool {
    exists|i: int| 0 <= i < s.len() && s[i] == c
}

/// The `host:port` address to connect to, with a host that holds `:` put
/// in brackets. The host comes from `Url::host_str`, which already
/// brackets an IPv6 address, so such a host ends up bracketed twice
/// (`[[::1]]:80`).
pub open spec fn socket_address_text(host: Seq<char>, port: u16) -> Seq<char> {
    if contains_char(host, ':') {
        seq!['['] + host + seq![']', ':'] + decimal(port as nat)
    } else {
        host + seq![':'] + decimal(port as nat)
    }
}

/// Whether `r` is what streaming from a host whose URL has the parts `p`
/// gives: only a bare host (path empty or `/`, no query, no fragment) is
/// accepted, and a missing port means 80.
pub open spec fn log_target_result(
    r: Result<String, LogTargetError>,
    p: (Seq<char>, Option<Seq<char>>, Option<Seq<char>>, Option<Seq<char>>, Option<u16>),
) -> bool {
    if p.0.len() > 0 && p.0 != seq!['/'] {
        r matches Err(LogTargetError::HasPath(x)) && x@ == p.0
    } else if p.1 is Some {
        r matches Err(LogTargetError::HasQuery)
    } else if p.2 is Some {
        r matches Err(LogTargetError::HasFragment)
    } else {
        match p.3 {
            None => r matches Err(LogTargetError::MissingHost),
            Some(h) => r matches Ok(a) && a@ == socket_address_text(
                h,
                match p.4 {
                    Some(port) => port,
                    None => 80u16,
                },
            ),
        }
    }
}

fn has_colon(v: &Vec<char>) -> (r: bool)
    ensures
        r == contains_char(v@, ':'),
{
    let mut i: usize = 0;
    while i < v.len()
        invariant
            i <= v@.len(),
            forall|j: int| 0 <= j < i ==> v@[j] != ':',
        decreases v@.len() - i,
    {
        if v[i] == ':' {
            return true;
        }
        i = i + 1;
    }
    false
}

/// The address to stream the log from, given the parts of the host's URL:
/// only a bare host (path empty or `/`, no query, no fragment) is accepted,
/// and a missing port means the scheme's default, else 80.
pub fn log_target_from_parts(parts: &UrlParts) -> (r: Result<String, LogTargetError>)
    ensures
        log_target_result(r, url_parts_view(*parts)),
{
    let pv = str_chars(parts.path.as_str());
    if pv.len() > 0 && !(pv.len() == 1 && pv[0] == '/') {
        assert(parts.path@ != seq!['/']) by {
            if pv@.len() == 1 {
                assert(pv@[0] != '/');
            }
        }
        let mut p = String::new();
        p.append(parts.path.as_str());
        assert(p@ =~= parts.path@);
        return Err(LogTargetError::HasPath(p));
    }
    assert(parts.path@.len() > 0 ==> parts.path@ =~= seq!['/']);
    if parts.query.is_some() {
        return Err(LogTargetError::HasQuery);
    }
    if parts.fragment.is_some() {
        return Err(LogTargetError::HasFragment);
    }
    match &parts.host {
        None => Err(LogTargetError::MissingHost),
        Some(h) => {
            let port = match parts.port {
                Some(p) => p,
                None => 80u16,
            };
            let hv = str_chars(h.as_str());
            let mut a = String::new();
            if has_colon(&hv) {
                a.append("[");
                a.append(h.as_str());
                a.append("]:");
            } else {
                a.append(h.as_str());
                a.append(":");
            }
            push_decimal(&mut a, port as u64);
            proof {
                reveal_strlit("[");
                reveal_strlit("]:");
                reveal_strlit(":");
            }
            assert(a@ =~= socket_address_text(h@, port));
            Ok(a)
        },
    }
}

/// The address to stream the log of `host` from: `host` is read as a URL
/// (with `http://` in front unless it names `http://` or `https://`) and
/// must be a bare host; see [`log_target_from_parts`].
pub fn log_target(host: &str) -> (r: Result<String, LogTargetError>)
    ensures
        match parsed_url(
            if has_prefix(host.spec_bytes(), "http://".spec_bytes()) || has_prefix(
                host.spec_bytes(),
                "https://".spec_bytes(),
            ) {
                host@
            } else {
                "http://"@ + host@
            },
        ) {
            Err(m) => r matches Err(LogTargetError::InvalidHost(e)) && e@ == m,
            Ok(p) => log_target_result(r, p),
        },
{
    let candidate = base_url(host);
    match parse_url(candidate.as_str()) {
        Err(e) => Err(LogTargetError::InvalidHost(e)),
        Ok(parts) => log_target_from_parts(&parts),
    }
}

/// The request for the debug log stream at `addr`.
pub open spec fn log_request_text(addr: Seq<char>) -> Seq<char> {
    "GET /debug/log HTTP/1.1\r\nHost: "@ + addr + "\r\nAccept: text/plain\r\n\r\n"@
}

/// The request for the debug log stream at `addr`.
pub fn log_request(addr: &str) -> (r: String)
    ensures
        r@ == log_request_text(addr@),
{
    let mut s = String::from_str("GET /debug/log HTTP/1.1\r\nHost: ");
    s.append(addr);
    s.append("\r\nAccept: text/plain\r\n\r\n");
    s
}

/// Whether `\r\n\r\n` starts at index `i` of `s`.
pub open spec fn blank_line_at(s: Seq<u8>, i: int) -> bool {
    0 <= i && i + 4 <= s.len() && s[i] == 13 && s[i + 1] == 10 && s[i + 2] == 13 && s[i + 3] == 10
}

/// The offset after the first `\r\n\r\n` in `head`, where the body starts;
/// `None` while the headers have not ended.
pub fn header_end(head: &[u8]) -> (r: Option<usize>)
    ensures
        match r {
            Some(k) => k >= 4 && blank_line_at(head@, k - 4) && forall|j: int|
                0 <= j < k - 4 ==> !blank_line_at(head@, j),
            None => forall|j: int| !blank_line_at(head@, j),
        },
{
    let mut i: usize = 0;
    while head.len() >= 4 && i <= head.len() - 4
        invariant
            forall|j: int| 0 <= j < i ==> !blank_line_at(head@, j),
        decreases head@.len() - i,
    {
        if head[i] == 13 && head[i + 1] == 10 && head[i + 2] == 13 && head[i + 3] == 10 {
            return Some(i + 4);
        }
        i = i + 1;
    }
    None
}

} // verus!
