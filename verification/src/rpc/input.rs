//! `Input.*` methods — digital/analog input status and configuration.

use vstd::prelude::*;
use vstd::utf8::*;
use crate::error::Error;
use crate::rpc::{path_bytes, query_path, Path};
use crate::text::{decimal, lemma_decimal_ascii, lemma_decimal_u32_len, u64_to_decimal};

verus! {

// ── Paths ──────────────────────────────────────────────────────────────

/// `/rpc/Input.GetStatus?id=<id>`
pub fn get_status_path(id: u32) -> (r: Result<Path, Error>)
    ensures
        r matches Ok(p) && path_bytes(p) == encode_utf8("/rpc/Input.GetStatus?id="@ + decimal(id as nat)),
{
    let tail = u64_to_decimal(id as u64);
    proof {
        reveal_strlit("/rpc/Input.GetStatus?id=");
        assert("/rpc/Input.GetStatus?id="@ =~= seq!['/', 'r', 'p', 'c', '/', 'I', 'n', 'p', 'u', 't', '.', 'G', 'e', 't', 'S', 't', 'a', 't', 'u', 's', '?', 'i', 'd', '=']);
        lemma_decimal_ascii(id as nat);
        lemma_decimal_u32_len(id);
    }
    query_path("/rpc/Input.GetStatus?id=", &tail)
}

/// `/rpc/Input.GetConfig?id=<id>`
pub fn get_config_path(id: u32) -> (r: Result<Path, Error>)
    ensures
        r matches Ok(p) && path_bytes(p) == encode_utf8("/rpc/Input.GetConfig?id="@ + decimal(id as nat)),
{
    let tail = u64_to_decimal(id as u64);
    proof {
        reveal_strlit("/rpc/Input.GetConfig?id=");
        assert("/rpc/Input.GetConfig?id="@ =~= seq!['/', 'r', 'p', 'c', '/', 'I', 'n', 'p', 'u', 't', '.', 'G', 'e', 't', 'C', 'o', 'n', 'f', 'i', 'g', '?', 'i', 'd', '=']);
        lemma_decimal_ascii(id as nat);
        lemma_decimal_u32_len(id);
    }
    query_path("/rpc/Input.GetConfig?id=", &tail)
}

// ── Response types ─────────────────────────────────────────────────────

/// Response from `Input.GetConfig`.
#[derive(Debug, Clone, Copy)]
pub struct InputConfig<'a> {
    /// Component instance ID.
    pub id: u32,
    /// User-friendly name.
    pub name: Option<&'a str>,
    /// Input type: `"switch"`, `"button"`, `"analog"`.
    pub input_type: Option<&'a str>,
    /// Whether the input logic is inverted.
    pub invert: Option<bool>,
}

} // verus!
