//! `Script.*` methods — on-device JavaScript scripting.

use vstd::prelude::*;
use vstd::utf8::*;
use crate::error::Error;
use crate::rpc::{path_bytes, query_path, static_path, Path};
use crate::text::{decimal, lemma_decimal_ascii, lemma_decimal_u32_len, u64_to_decimal};

verus! {

// ── Paths ──────────────────────────────────────────────────────────────

/// `/rpc/Script.List`
pub fn list_path() -> (p: Path)
    ensures
        path_bytes(p) == encode_utf8("/rpc/Script.List"@),
{
    proof {
        reveal_strlit("/rpc/Script.List");
        assert("/rpc/Script.List"@ =~= seq!['/', 'r', 'p', 'c', '/', 'S', 'c', 'r', 'i', 'p', 't', '.', 'L', 'i', 's', 't']);
        is_ascii_chars_encode_utf8("/rpc/Script.List"@);
    }
    static_path("/rpc/Script.List")
}

/// `/rpc/Script.GetStatus?id=<id>`
pub fn get_status_path(id: u32) -> (r: Result<Path, Error>)
    ensures
        r matches Ok(p) && path_bytes(p) == encode_utf8("/rpc/Script.GetStatus?id="@ + decimal(id as nat)),
{
    let tail = u64_to_decimal(id as u64);
    proof {
        reveal_strlit("/rpc/Script.GetStatus?id=");
        assert("/rpc/Script.GetStatus?id="@ =~= seq!['/', 'r', 'p', 'c', '/', 'S', 'c', 'r', 'i', 'p', 't', '.', 'G', 'e', 't', 'S', 't', 'a', 't', 'u', 's', '?', 'i', 'd', '=']);
        lemma_decimal_ascii(id as nat);
        lemma_decimal_u32_len(id);
    }
    query_path("/rpc/Script.GetStatus?id=", &tail)
}

/// `/rpc/Script.GetConfig?id=<id>`
pub fn get_config_path(id: u32) -> (r: Result<Path, Error>)
    ensures
        r matches Ok(p) && path_bytes(p) == encode_utf8("/rpc/Script.GetConfig?id="@ + decimal(id as nat)),
{
    let tail = u64_to_decimal(id as u64);
    proof {
        reveal_strlit("/rpc/Script.GetConfig?id=");
        assert("/rpc/Script.GetConfig?id="@ =~= seq!['/', 'r', 'p', 'c', '/', 'S', 'c', 'r', 'i', 'p', 't', '.', 'G', 'e', 't', 'C', 'o', 'n', 'f', 'i', 'g', '?', 'i', 'd', '=']);
        lemma_decimal_ascii(id as nat);
        lemma_decimal_u32_len(id);
    }
    query_path("/rpc/Script.GetConfig?id=", &tail)
}

/// `/rpc/Script.Start?id=<id>`
pub fn start_path(id: u32) -> (r: Result<Path, Error>)
    ensures
        r matches Ok(p) && path_bytes(p) == encode_utf8("/rpc/Script.Start?id="@ + decimal(id as nat)),
{
    let tail = u64_to_decimal(id as u64);
    proof {
        reveal_strlit("/rpc/Script.Start?id=");
        assert("/rpc/Script.Start?id="@ =~= seq!['/', 'r', 'p', 'c', '/', 'S', 'c', 'r', 'i', 'p', 't', '.', 'S', 't', 'a', 'r', 't', '?', 'i', 'd', '=']);
        lemma_decimal_ascii(id as nat);
        lemma_decimal_u32_len(id);
    }
    query_path("/rpc/Script.Start?id=", &tail)
}

/// `/rpc/Script.Stop?id=<id>`
pub fn stop_path(id: u32) -> (r: Result<Path, Error>)
    ensures
        r matches Ok(p) && path_bytes(p) == encode_utf8("/rpc/Script.Stop?id="@ + decimal(id as nat)),
{
    let tail = u64_to_decimal(id as u64);
    proof {
        reveal_strlit("/rpc/Script.Stop?id=");
        assert("/rpc/Script.Stop?id="@ =~= seq!['/', 'r', 'p', 'c', '/', 'S', 'c', 'r', 'i', 'p', 't', '.', 'S', 't', 'o', 'p', '?', 'i', 'd', '=']);
        lemma_decimal_ascii(id as nat);
        lemma_decimal_u32_len(id);
    }
    query_path("/rpc/Script.Stop?id=", &tail)
}

/// `/rpc/Script.Delete?id=<id>`
pub fn delete_path(id: u32) -> (r: Result<Path, Error>)
    ensures
        r matches Ok(p) && path_bytes(p) == encode_utf8("/rpc/Script.Delete?id="@ + decimal(id as nat)),
{
    let tail = u64_to_decimal(id as u64);
    proof {
        reveal_strlit("/rpc/Script.Delete?id=");
        assert("/rpc/Script.Delete?id="@ =~= seq!['/', 'r', 'p', 'c', '/', 'S', 'c', 'r', 'i', 'p', 't', '.', 'D', 'e', 'l', 'e', 't', 'e', '?', 'i', 'd', '=']);
        lemma_decimal_ascii(id as nat);
        lemma_decimal_u32_len(id);
    }
    query_path("/rpc/Script.Delete?id=", &tail)
}

// ── Response types ─────────────────────────────────────────────────────

/// A single script entry from `Script.List`.
#[derive(Debug, Clone, Copy)]
pub struct ScriptInfo<'a> {
    /// Script slot ID.
    pub id: u32,
    /// Script name.
    pub name: Option<&'a str>,
    /// Whether the script auto-starts on boot.
    pub enable: bool,
    /// Whether the script is currently running.
    pub running: bool,
}

/// Response from `Script.Create`.
#[derive(Debug, Clone, Copy)]
pub struct ScriptCreated {
    /// The ID of the newly created script slot.
    pub id: u32,
}

/// Response from `Script.PutCode`.
#[derive(Debug, Clone, Copy)]
pub struct PutCodeResult {
    /// Number of bytes written.
    pub len: u32,
}

/// Response from `Script.GetCode`.
#[derive(Debug, Clone, Copy)]
pub struct ScriptCode<'a> {
    /// The script source code (or a chunk of it).
    pub data: &'a str,
    /// Bytes remaining after this chunk.
    pub left: u32,
}

/// Response from `Script.Start` / `Script.Stop`.
#[derive(Debug, Clone, Copy)]
pub struct ScriptRunState {
    /// Whether the script was running before the call.
    pub was_running: bool,
}

/// Response from `Script.GetStatus`.
#[derive(Debug, Clone, Copy)]
pub struct ScriptStatus<'a> {
    /// Script slot ID.
    pub id: u32,
    /// Whether the script is currently running.
    pub running: bool,
    /// Error messages, if any.
    pub errors: Option<&'a str>,
}

} // verus!
