//! `Cover.*` methods — roller-shutter / cover control and status.

use vstd::prelude::*;
use vstd::string::StringExecFns;
use vstd::utf8::*;
use crate::error::Error;
use crate::rpc::{lemma_ascii_concat, path_bytes, query_path, Path};
use crate::text::{decimal, lemma_decimal_ascii, lemma_decimal_u32_len, push_decimal, u64_to_decimal};

verus! {

// ── Paths ──────────────────────────────────────────────────────────────

/// `/rpc/Cover.GetStatus?id=<id>`
pub fn get_status_path(id: u32) -> (r: Result<Path, Error>)
    ensures
        r matches Ok(p) && path_bytes(p) == encode_utf8("/rpc/Cover.GetStatus?id="@ + decimal(id as nat)),
{
    let tail = u64_to_decimal(id as u64);
    proof {
        reveal_strlit("/rpc/Cover.GetStatus?id=");
        assert("/rpc/Cover.GetStatus?id="@ =~= seq!['/', 'r', 'p', 'c', '/', 'C', 'o', 'v', 'e', 'r', '.', 'G', 'e', 't', 'S', 't', 'a', 't', 'u', 's', '?', 'i', 'd', '=']);
        lemma_decimal_ascii(id as nat);
        lemma_decimal_u32_len(id);
    }
    query_path("/rpc/Cover.GetStatus?id=", &tail)
}

/// `/rpc/Cover.GetConfig?id=<id>`
pub fn get_config_path(id: u32) -> (r: Result<Path, Error>)
    ensures
        r matches Ok(p) && path_bytes(p) == encode_utf8("/rpc/Cover.GetConfig?id="@ + decimal(id as nat)),
{
    let tail = u64_to_decimal(id as u64);
    proof {
        reveal_strlit("/rpc/Cover.GetConfig?id=");
        assert("/rpc/Cover.GetConfig?id="@ =~= seq!['/', 'r', 'p', 'c', '/', 'C', 'o', 'v', 'e', 'r', '.', 'G', 'e', 't', 'C', 'o', 'n', 'f', 'i', 'g', '?', 'i', 'd', '=']);
        lemma_decimal_ascii(id as nat);
        lemma_decimal_u32_len(id);
    }
    query_path("/rpc/Cover.GetConfig?id=", &tail)
}

/// `/rpc/Cover.Open?id=<id>`
pub fn open_path(id: u32) -> (r: Result<Path, Error>)
    ensures
        r matches Ok(p) && path_bytes(p) == encode_utf8("/rpc/Cover.Open?id="@ + decimal(id as nat)),
{
    let tail = u64_to_decimal(id as u64);
    proof {
        reveal_strlit("/rpc/Cover.Open?id=");
        assert("/rpc/Cover.Open?id="@ =~= seq!['/', 'r', 'p', 'c', '/', 'C', 'o', 'v', 'e', 'r', '.', 'O', 'p', 'e', 'n', '?', 'i', 'd', '=']);
        lemma_decimal_ascii(id as nat);
        lemma_decimal_u32_len(id);
    }
    query_path("/rpc/Cover.Open?id=", &tail)
}

/// `/rpc/Cover.Close?id=<id>`
pub fn close_path(id: u32) -> (r: Result<Path, Error>)
    ensures
        r matches Ok(p) && path_bytes(p) == encode_utf8("/rpc/Cover.Close?id="@ + decimal(id as nat)),
{
    let tail = u64_to_decimal(id as u64);
    proof {
        reveal_strlit("/rpc/Cover.Close?id=");
        assert("/rpc/Cover.Close?id="@ =~= seq!['/', 'r', 'p', 'c', '/', 'C', 'o', 'v', 'e', 'r', '.', 'C', 'l', 'o', 's', 'e', '?', 'i', 'd', '=']);
        lemma_decimal_ascii(id as nat);
        lemma_decimal_u32_len(id);
    }
    query_path("/rpc/Cover.Close?id=", &tail)
}

/// `/rpc/Cover.Stop?id=<id>`
pub fn stop_path(id: u32) -> (r: Result<Path, Error>)
    ensures
        r matches Ok(p) && path_bytes(p) == encode_utf8("/rpc/Cover.Stop?id="@ + decimal(id as nat)),
{
    let tail = u64_to_decimal(id as u64);
    proof {
        reveal_strlit("/rpc/Cover.Stop?id=");
        assert("/rpc/Cover.Stop?id="@ =~= seq!['/', 'r', 'p', 'c', '/', 'C', 'o', 'v', 'e', 'r', '.', 'S', 't', 'o', 'p', '?', 'i', 'd', '=']);
        lemma_decimal_ascii(id as nat);
        lemma_decimal_u32_len(id);
    }
    query_path("/rpc/Cover.Stop?id=", &tail)
}

/// `/rpc/Cover.GoToPosition?id=<id>&pos=<pos>`
pub fn go_to_position_path(id: u32, pos: u32) -> (r: Result<Path, Error>)
    ensures
        r matches Ok(p) && path_bytes(p) == encode_utf8(
            "/rpc/Cover.GoToPosition?id="@ + decimal(id as nat) + "&pos="@ + decimal(pos as nat),
        ),
{
    let mut tail = u64_to_decimal(id as u64);
    let ghost digits = tail@;
    tail.append("&pos=");
    push_decimal(&mut tail, pos as u64);
    proof {
        reveal_strlit("/rpc/Cover.GoToPosition?id=");
        assert("/rpc/Cover.GoToPosition?id="@ =~= seq!['/', 'r', 'p', 'c', '/', 'C', 'o', 'v', 'e', 'r', '.', 'G', 'o', 'T', 'o', 'P', 'o', 's', 'i', 't', 'i', 'o', 'n', '?', 'i', 'd', '=']);
        reveal_strlit("&pos=");
        assert("&pos="@ =~= seq!['&', 'p', 'o', 's', '=']);
        lemma_decimal_ascii(id as nat);
        lemma_decimal_u32_len(id);
        lemma_decimal_ascii(pos as nat);
        lemma_decimal_u32_len(pos as u32);
        lemma_ascii_concat(digits, "&pos="@);
        lemma_ascii_concat(digits + "&pos="@, decimal(pos as nat));
        assert(tail@ =~= decimal(id as nat) + "&pos="@ + decimal(pos as nat));
        assert("/rpc/Cover.GoToPosition?id="@ + tail@ =~= "/rpc/Cover.GoToPosition?id="@ + decimal(id as nat) + "&pos="@ + decimal(pos as nat));
    }
    query_path("/rpc/Cover.GoToPosition?id=", &tail)
}

/// `/rpc/Cover.Calibrate?id=<id>`
pub fn calibrate_path(id: u32) -> (r: Result<Path, Error>)
    ensures
        r matches Ok(p) && path_bytes(p) == encode_utf8("/rpc/Cover.Calibrate?id="@ + decimal(id as nat)),
{
    let tail = u64_to_decimal(id as u64);
    proof {
        reveal_strlit("/rpc/Cover.Calibrate?id=");
        assert("/rpc/Cover.Calibrate?id="@ =~= seq!['/', 'r', 'p', 'c', '/', 'C', 'o', 'v', 'e', 'r', '.', 'C', 'a', 'l', 'i', 'b', 'r', 'a', 't', 'e', '?', 'i', 'd', '=']);
        lemma_decimal_ascii(id as nat);
        lemma_decimal_u32_len(id);
    }
    query_path("/rpc/Cover.Calibrate?id=", &tail)
}

// ── Response types ─────────────────────────────────────────────────────

// The `Cover.GetStatus` reply carries floating-point metering; its type is
// defined by the client that deserializes it.

} // verus!
