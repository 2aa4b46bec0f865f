//! `Light.*` methods — dimmable light control and status.

use vstd::prelude::*;
use vstd::string::StringExecFns;
use vstd::utf8::*;
use crate::error::Error;
use crate::rpc::{bool_text, lemma_ascii_concat, path_bytes, query_path, Path};
use crate::text::{decimal, lemma_decimal_ascii, lemma_decimal_u32_len, push_decimal, u64_to_decimal};

verus! {

// ── Paths ──────────────────────────────────────────────────────────────

/// `/rpc/Light.GetStatus?id=<id>`
pub fn get_status_path(id: u32) -> (r: Result<Path, Error>)
    ensures
        r matches Ok(p) && path_bytes(p) == encode_utf8("/rpc/Light.GetStatus?id="@ + decimal(id as nat)),
{
    let tail = u64_to_decimal(id as u64);
    proof {
        reveal_strlit("/rpc/Light.GetStatus?id=");
        assert("/rpc/Light.GetStatus?id="@ =~= seq!['/', 'r', 'p', 'c', '/', 'L', 'i', 'g', 'h', 't', '.', 'G', 'e', 't', 'S', 't', 'a', 't', 'u', 's', '?', 'i', 'd', '=']);
        lemma_decimal_ascii(id as nat);
        lemma_decimal_u32_len(id);
    }
    query_path("/rpc/Light.GetStatus?id=", &tail)
}

/// `/rpc/Light.GetConfig?id=<id>`
pub fn get_config_path(id: u32) -> (r: Result<Path, Error>)
    ensures
        r matches Ok(p) && path_bytes(p) == encode_utf8("/rpc/Light.GetConfig?id="@ + decimal(id as nat)),
{
    let tail = u64_to_decimal(id as u64);
    proof {
        reveal_strlit("/rpc/Light.GetConfig?id=");
        assert("/rpc/Light.GetConfig?id="@ =~= seq!['/', 'r', 'p', 'c', '/', 'L', 'i', 'g', 'h', 't', '.', 'G', 'e', 't', 'C', 'o', 'n', 'f', 'i', 'g', '?', 'i', 'd', '=']);
        lemma_decimal_ascii(id as nat);
        lemma_decimal_u32_len(id);
    }
    query_path("/rpc/Light.GetConfig?id=", &tail)
}

/// `/rpc/Light.Set?id=<id>&on=<on>`
pub fn set_path(id: u32, on: bool) -> (r: Result<Path, Error>)
    ensures
        r matches Ok(p) && path_bytes(p) == encode_utf8(
            "/rpc/Light.Set?id="@ + decimal(id as nat) + "&on="@ + bool_text(on),
        ),
{
    let mut tail = u64_to_decimal(id as u64);
    let ghost digits = tail@;
    tail.append("&on=");
    if on {
        tail.append("true");
    } else {
        tail.append("false");
    }
    proof {
        reveal_strlit("/rpc/Light.Set?id=");
        assert("/rpc/Light.Set?id="@ =~= seq!['/', 'r', 'p', 'c', '/', 'L', 'i', 'g', 'h', 't', '.', 'S', 'e', 't', '?', 'i', 'd', '=']);
        reveal_strlit("&on=");
        assert("&on="@ =~= seq!['&', 'o', 'n', '=']);
        reveal_strlit("true");
        assert("true"@ =~= seq!['t', 'r', 'u', 'e']);
        reveal_strlit("false");
        assert("false"@ =~= seq!['f', 'a', 'l', 's', 'e']);
        lemma_decimal_ascii(id as nat);
        lemma_decimal_u32_len(id);
        lemma_ascii_concat(digits, "&on="@);
        lemma_ascii_concat(digits + "&on="@, bool_text(on));
        assert(tail@ =~= decimal(id as nat) + "&on="@ + bool_text(on));
        assert("/rpc/Light.Set?id="@ + tail@ =~= "/rpc/Light.Set?id="@ + decimal(id as nat) + "&on="@ + bool_text(on));
    }
    query_path("/rpc/Light.Set?id=", &tail)
}

/// `/rpc/Light.Set?id=<id>&on=true&brightness=<brightness>`
pub fn set_brightness_path(id: u32, brightness: u8) -> (r: Result<Path, Error>)
    ensures
        r matches Ok(p) && path_bytes(p) == encode_utf8(
            "/rpc/Light.Set?id="@ + decimal(id as nat) + "&on=true&brightness="@ + decimal(brightness as nat),
        ),
{
    let mut tail = u64_to_decimal(id as u64);
    let ghost digits = tail@;
    tail.append("&on=true&brightness=");
    push_decimal(&mut tail, brightness as u64);
    proof {
        reveal_strlit("/rpc/Light.Set?id=");
        assert("/rpc/Light.Set?id="@ =~= seq!['/', 'r', 'p', 'c', '/', 'L', 'i', 'g', 'h', 't', '.', 'S', 'e', 't', '?', 'i', 'd', '=']);
        reveal_strlit("&on=true&brightness=");
        assert("&on=true&brightness="@ =~= seq!['&', 'o', 'n', '=', 't', 'r', 'u', 'e', '&', 'b', 'r', 'i', 'g', 'h', 't', 'n', 'e', 's', 's', '=']);
        lemma_decimal_ascii(id as nat);
        lemma_decimal_u32_len(id);
        lemma_decimal_ascii(brightness as nat);
        lemma_decimal_u32_len(brightness as u32);
        lemma_ascii_concat(digits, "&on=true&brightness="@);
        lemma_ascii_concat(digits + "&on=true&brightness="@, decimal(brightness as nat));
        assert(tail@ =~= decimal(id as nat) + "&on=true&brightness="@ + decimal(brightness as nat));
        assert("/rpc/Light.Set?id="@ + tail@ =~= "/rpc/Light.Set?id="@ + decimal(id as nat) + "&on=true&brightness="@ + decimal(brightness as nat));
    }
    query_path("/rpc/Light.Set?id=", &tail)
}

/// `/rpc/Light.Toggle?id=<id>`
pub fn toggle_path(id: u32) -> (r: Result<Path, Error>)
    ensures
        r matches Ok(p) && path_bytes(p) == encode_utf8("/rpc/Light.Toggle?id="@ + decimal(id as nat)),
{
    let tail = u64_to_decimal(id as u64);
    proof {
        reveal_strlit("/rpc/Light.Toggle?id=");
        assert("/rpc/Light.Toggle?id="@ =~= seq!['/', 'r', 'p', 'c', '/', 'L', 'i', 'g', 'h', 't', '.', 'T', 'o', 'g', 'g', 'l', 'e', '?', 'i', 'd', '=']);
        lemma_decimal_ascii(id as nat);
        lemma_decimal_u32_len(id);
    }
    query_path("/rpc/Light.Toggle?id=", &tail)
}

// ── Response types ─────────────────────────────────────────────────────

// `Light.GetStatus` and `Light.GetConfig` replies carry floating-point
// temperatures and delays; their types are defined by the client that
// deserializes them.

} // verus!
