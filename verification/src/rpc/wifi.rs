//! `Wifi.*` methods — Wi-Fi status, config, and scanning.

use vstd::prelude::*;
use vstd::utf8::*;
use crate::rpc::{path_bytes, static_path, Path};

verus! {

// ── Paths ──────────────────────────────────────────────────────────────

/// `/rpc/Wifi.GetStatus`
pub fn get_status_path() -> (p: Path)
    ensures
        path_bytes(p) == encode_utf8("/rpc/Wifi.GetStatus"@),
{
    proof {
        reveal_strlit("/rpc/Wifi.GetStatus");
        assert("/rpc/Wifi.GetStatus"@ =~= seq!['/', 'r', 'p', 'c', '/', 'W', 'i', 'f', 'i', '.', 'G', 'e', 't', 'S', 't', 'a', 't', 'u', 's']);
        is_ascii_chars_encode_utf8("/rpc/Wifi.GetStatus"@);
    }
    static_path("/rpc/Wifi.GetStatus")
}

/// `/rpc/Wifi.GetConfig`
pub fn get_config_path() -> (p: Path)
    ensures
        path_bytes(p) == encode_utf8("/rpc/Wifi.GetConfig"@),
{
    proof {
        reveal_strlit("/rpc/Wifi.GetConfig");
        assert("/rpc/Wifi.GetConfig"@ =~= seq!['/', 'r', 'p', 'c', '/', 'W', 'i', 'f', 'i', '.', 'G', 'e', 't', 'C', 'o', 'n', 'f', 'i', 'g']);
        is_ascii_chars_encode_utf8("/rpc/Wifi.GetConfig"@);
    }
    static_path("/rpc/Wifi.GetConfig")
}

/// `/rpc/Wifi.Scan`
pub fn scan_path() -> (p: Path)
    ensures
        path_bytes(p) == encode_utf8("/rpc/Wifi.Scan"@),
{
    proof {
        reveal_strlit("/rpc/Wifi.Scan");
        assert("/rpc/Wifi.Scan"@ =~= seq!['/', 'r', 'p', 'c', '/', 'W', 'i', 'f', 'i', '.', 'S', 'c', 'a', 'n']);
        is_ascii_chars_encode_utf8("/rpc/Wifi.Scan"@);
    }
    static_path("/rpc/Wifi.Scan")
}

// ── Response types ─────────────────────────────────────────────────────

/// Response from `Wifi.GetStatus`.
#[derive(Debug, Clone, Copy)]
pub struct WifiStatus<'a> {
    /// Current station IP address.
    pub sta_ip: Option<&'a str>,
    /// Current SSID.
    pub ssid: Option<&'a str>,
    /// Signal strength in dBm.
    pub rssi: Option<i32>,
    /// Connection status.
    pub status: Option<&'a str>,
}

/// A single Wi-Fi access point from a scan.
#[derive(Debug, Clone, Copy)]
pub struct WifiAp<'a> {
    /// SSID.
    pub ssid: Option<&'a str>,
    /// BSSID.
    pub bssid: Option<&'a str>,
    /// Authentication type.
    pub auth: Option<u8>,
    /// Channel number.
    pub channel: Option<u8>,
    /// RSSI in dBm.
    pub rssi: Option<i32>,
}

} // verus!
