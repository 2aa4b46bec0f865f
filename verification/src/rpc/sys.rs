//! `Sys.*` methods — system-level status and configuration.

use vstd::prelude::*;
use vstd::utf8::*;
use crate::rpc::{path_bytes, static_path, Path};
use crate::rpc::common::AvailableUpdate;

verus! {

// ── Paths ──────────────────────────────────────────────────────────────

/// `/rpc/Sys.GetStatus`
pub fn get_status_path() -> (p: Path)
    ensures
        path_bytes(p) == encode_utf8("/rpc/Sys.GetStatus"@),
{
    proof {
        reveal_strlit("/rpc/Sys.GetStatus");
        assert("/rpc/Sys.GetStatus"@ =~= seq!['/', 'r', 'p', 'c', '/', 'S', 'y', 's', '.', 'G', 'e', 't', 'S', 't', 'a', 't', 'u', 's']);
        is_ascii_chars_encode_utf8("/rpc/Sys.GetStatus"@);
    }
    static_path("/rpc/Sys.GetStatus")
}

/// `/rpc/Sys.GetConfig`
pub fn get_config_path() -> (p: Path)
    ensures
        path_bytes(p) == encode_utf8("/rpc/Sys.GetConfig"@),
{
    proof {
        reveal_strlit("/rpc/Sys.GetConfig");
        assert("/rpc/Sys.GetConfig"@ =~= seq!['/', 'r', 'p', 'c', '/', 'S', 'y', 's', '.', 'G', 'e', 't', 'C', 'o', 'n', 'f', 'i', 'g']);
        is_ascii_chars_encode_utf8("/rpc/Sys.GetConfig"@);
    }
    static_path("/rpc/Sys.GetConfig")
}

// ── Response types ─────────────────────────────────────────────────────

/// Response from `Sys.GetStatus`.
#[derive(Debug, Clone, Copy)]
pub struct SysStatus<'a> {
    /// MAC address.
    pub mac: Option<&'a str>,
    /// Whether a restart is required.
    pub restart_required: bool,
    /// Uptime in seconds.
    pub uptime: Option<u64>,
    /// Total RAM in bytes.
    pub ram_size: Option<u32>,
    /// Free RAM in bytes.
    pub ram_free: Option<u32>,
    /// Total filesystem space in bytes.
    pub fs_size: Option<u32>,
    /// Free filesystem space in bytes.
    pub fs_free: Option<u32>,
    /// Available firmware updates.
    pub available_updates: Option<AvailableUpdate<'a>>,
}

/// Device subsection of `Sys.GetConfig`.
#[derive(Debug, Clone, Copy)]
pub struct SysDeviceConfig<'a> {
    /// User-friendly device name.
    pub name: Option<&'a str>,
    /// Firmware channel.
    pub fw_id: Option<&'a str>,
}

} // verus!
