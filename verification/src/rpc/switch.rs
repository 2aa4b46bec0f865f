//! `Switch.*` methods — relay/switch control and status.

use vstd::prelude::*;
use vstd::string::StringExecFns;
use vstd::utf8::*;
use crate::error::Error;
use crate::rpc::{bool_text, lemma_ascii_concat, path_bytes, query_path, Path};
use crate::text::{decimal, lemma_decimal_ascii, lemma_decimal_u32_len, u64_to_decimal};

verus! {

// ── Paths ──────────────────────────────────────────────────────────────

/// `/rpc/Switch.GetStatus?id=<id>`
pub fn get_status_path(id: u32) -> (r: Result<Path, Error>)
    ensures
        r matches Ok(p) && path_bytes(p) == encode_utf8("/rpc/Switch.GetStatus?id="@ + decimal(id as nat)),
{
    let tail = u64_to_decimal(id as u64);
    proof {
        reveal_strlit("/rpc/Switch.GetStatus?id=");
        assert("/rpc/Switch.GetStatus?id="@ =~= seq!['/', 'r', 'p', 'c', '/', 'S', 'w', 'i', 't', 'c', 'h', '.', 'G', 'e', 't', 'S', 't', 'a', 't', 'u', 's', '?', 'i', 'd', '=']);
        lemma_decimal_ascii(id as nat);
        lemma_decimal_u32_len(id);
    }
    query_path("/rpc/Switch.GetStatus?id=", &tail)
}

/// `/rpc/Switch.GetConfig?id=<id>`
pub fn get_config_path(id: u32) -> (r: Result<Path, Error>)
    ensures
        r matches Ok(p) && path_bytes(p) == encode_utf8("/rpc/Switch.GetConfig?id="@ + decimal(id as nat)),
{
    let tail = u64_to_decimal(id as u64);
    proof {
        reveal_strlit("/rpc/Switch.GetConfig?id=");
        assert("/rpc/Switch.GetConfig?id="@ =~= seq!['/', 'r', 'p', 'c', '/', 'S', 'w', 'i', 't', 'c', 'h', '.', 'G', 'e', 't', 'C', 'o', 'n', 'f', 'i', 'g', '?', 'i', 'd', '=']);
        lemma_decimal_ascii(id as nat);
        lemma_decimal_u32_len(id);
    }
    query_path("/rpc/Switch.GetConfig?id=", &tail)
}

/// `/rpc/Switch.Set?id=<id>&on=<on>`
pub fn set_path(id: u32, on: bool) -> (r: Result<Path, Error>)
    ensures
        r matches Ok(p) && path_bytes(p) == encode_utf8(
            "/rpc/Switch.Set?id="@ + decimal(id as nat) + "&on="@ + bool_text(on),
        ),
{
    let mut tail = u64_to_decimal(id as u64);
    let ghost digits = tail@;
    tail.append("&on=");
    if on {
        tail.append("true");
    } else {
        tail.append("false");
    }
    proof {
        reveal_strlit("/rpc/Switch.Set?id=");
        assert("/rpc/Switch.Set?id="@ =~= seq!['/', 'r', 'p', 'c', '/', 'S', 'w', 'i', 't', 'c', 'h', '.', 'S', 'e', 't', '?', 'i', 'd', '=']);
        reveal_strlit("&on=");
        assert("&on="@ =~= seq!['&', 'o', 'n', '=']);
        reveal_strlit("true");
        assert("true"@ =~= seq!['t', 'r', 'u', 'e']);
        reveal_strlit("false");
        assert("false"@ =~= seq!['f', 'a', 'l', 's', 'e']);
        lemma_decimal_ascii(id as nat);
        lemma_decimal_u32_len(id);
        lemma_ascii_concat(digits, "&on="@);
        lemma_ascii_concat(digits + "&on="@, bool_text(on));
        assert(tail@ =~= decimal(id as nat) + "&on="@ + bool_text(on));
        assert("/rpc/Switch.Set?id="@ + tail@ =~= "/rpc/Switch.Set?id="@ + decimal(id as nat) + "&on="@ + bool_text(on));
    }
    query_path("/rpc/Switch.Set?id=", &tail)
}

/// `/rpc/Switch.Toggle?id=<id>`
pub fn toggle_path(id: u32) -> (r: Result<Path, Error>)
    ensures
        r matches Ok(p) && path_bytes(p) == encode_utf8("/rpc/Switch.Toggle?id="@ + decimal(id as nat)),
{
    let tail = u64_to_decimal(id as u64);
    proof {
        reveal_strlit("/rpc/Switch.Toggle?id=");
        assert("/rpc/Switch.Toggle?id="@ =~= seq!['/', 'r', 'p', 'c', '/', 'S', 'w', 'i', 't', 'c', 'h', '.', 'T', 'o', 'g', 'g', 'l', 'e', '?', 'i', 'd', '=']);
        lemma_decimal_ascii(id as nat);
        lemma_decimal_u32_len(id);
    }
    query_path("/rpc/Switch.Toggle?id=", &tail)
}

/// `/rpc/Switch.ResetCounters?id=<id>`
pub fn reset_counters_path(id: u32) -> (r: Result<Path, Error>)
    ensures
        r matches Ok(p) && path_bytes(p) == encode_utf8("/rpc/Switch.ResetCounters?id="@ + decimal(id as nat)),
{
    let tail = u64_to_decimal(id as u64);
    proof {
        reveal_strlit("/rpc/Switch.ResetCounters?id=");
        assert("/rpc/Switch.ResetCounters?id="@ =~= seq!['/', 'r', 'p', 'c', '/', 'S', 'w', 'i', 't', 'c', 'h', '.', 'R', 'e', 's', 'e', 't', 'C', 'o', 'u', 'n', 't', 'e', 'r', 's', '?', 'i', 'd', '=']);
        lemma_decimal_ascii(id as nat);
        lemma_decimal_u32_len(id);
    }
    query_path("/rpc/Switch.ResetCounters?id=", &tail)
}

// ── Response types ─────────────────────────────────────────────────────

// `Switch.GetStatus` and `Switch.GetConfig` replies carry floating-point
// readings (power, voltage, delays); their types are defined by the client
// that deserializes them.

} // verus!
