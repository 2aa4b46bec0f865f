//! `Shelly.*` methods — device-level queries and actions.

use vstd::prelude::*;
use vstd::utf8::*;
use crate::rpc::{path_bytes, static_path, Path};
use crate::rpc::common::{CloudStatus, FwVersion, MqttStatus};
use crate::rpc::sys::SysStatus;
use crate::rpc::wifi::WifiStatus;

verus! {

// ── Paths ──────────────────────────────────────────────────────────────

/// `/rpc/Shelly.GetDeviceInfo`
pub fn get_device_info_path() -> (p: Path)
    ensures
        path_bytes(p) == encode_utf8("/rpc/Shelly.GetDeviceInfo"@),
{
    proof {
        reveal_strlit("/rpc/Shelly.GetDeviceInfo");
        assert("/rpc/Shelly.GetDeviceInfo"@ =~= seq!['/', 'r', 'p', 'c', '/', 'S', 'h', 'e', 'l', 'l', 'y', '.', 'G', 'e', 't', 'D', 'e', 'v', 'i', 'c', 'e', 'I', 'n', 'f', 'o']);
        is_ascii_chars_encode_utf8("/rpc/Shelly.GetDeviceInfo"@);
    }
    static_path("/rpc/Shelly.GetDeviceInfo")
}

/// `/rpc/Shelly.GetStatus`
pub fn get_status_path() -> (p: Path)
    ensures
        path_bytes(p) == encode_utf8("/rpc/Shelly.GetStatus"@),
{
    proof {
        reveal_strlit("/rpc/Shelly.GetStatus");
        assert("/rpc/Shelly.GetStatus"@ =~= seq!['/', 'r', 'p', 'c', '/', 'S', 'h', 'e', 'l', 'l', 'y', '.', 'G', 'e', 't', 'S', 't', 'a', 't', 'u', 's']);
        is_ascii_chars_encode_utf8("/rpc/Shelly.GetStatus"@);
    }
    static_path("/rpc/Shelly.GetStatus")
}

/// `/rpc/Shelly.GetConfig`
pub fn get_config_path() -> (p: Path)
    ensures
        path_bytes(p) == encode_utf8("/rpc/Shelly.GetConfig"@),
{
    proof {
        reveal_strlit("/rpc/Shelly.GetConfig");
        assert("/rpc/Shelly.GetConfig"@ =~= seq!['/', 'r', 'p', 'c', '/', 'S', 'h', 'e', 'l', 'l', 'y', '.', 'G', 'e', 't', 'C', 'o', 'n', 'f', 'i', 'g']);
        is_ascii_chars_encode_utf8("/rpc/Shelly.GetConfig"@);
    }
    static_path("/rpc/Shelly.GetConfig")
}

/// `/rpc/Shelly.ListMethods`
pub fn list_methods_path() -> (p: Path)
    ensures
        path_bytes(p) == encode_utf8("/rpc/Shelly.ListMethods"@),
{
    proof {
        reveal_strlit("/rpc/Shelly.ListMethods");
        assert("/rpc/Shelly.ListMethods"@ =~= seq!['/', 'r', 'p', 'c', '/', 'S', 'h', 'e', 'l', 'l', 'y', '.', 'L', 'i', 's', 't', 'M', 'e', 't', 'h', 'o', 'd', 's']);
        is_ascii_chars_encode_utf8("/rpc/Shelly.ListMethods"@);
    }
    static_path("/rpc/Shelly.ListMethods")
}

/// `/rpc/Shelly.Reboot`
pub fn reboot_path() -> (p: Path)
    ensures
        path_bytes(p) == encode_utf8("/rpc/Shelly.Reboot"@),
{
    proof {
        reveal_strlit("/rpc/Shelly.Reboot");
        assert("/rpc/Shelly.Reboot"@ =~= seq!['/', 'r', 'p', 'c', '/', 'S', 'h', 'e', 'l', 'l', 'y', '.', 'R', 'e', 'b', 'o', 'o', 't']);
        is_ascii_chars_encode_utf8("/rpc/Shelly.Reboot"@);
    }
    static_path("/rpc/Shelly.Reboot")
}

/// `/rpc/Shelly.CheckForUpdate`
pub fn check_for_update_path() -> (p: Path)
    ensures
        path_bytes(p) == encode_utf8("/rpc/Shelly.CheckForUpdate"@),
{
    proof {
        reveal_strlit("/rpc/Shelly.CheckForUpdate");
        assert("/rpc/Shelly.CheckForUpdate"@ =~= seq!['/', 'r', 'p', 'c', '/', 'S', 'h', 'e', 'l', 'l', 'y', '.', 'C', 'h', 'e', 'c', 'k', 'F', 'o', 'r', 'U', 'p', 'd', 'a', 't', 'e']);
        is_ascii_chars_encode_utf8("/rpc/Shelly.CheckForUpdate"@);
    }
    static_path("/rpc/Shelly.CheckForUpdate")
}

/// `/rpc/Shelly.Update`
pub fn update_path() -> (p: Path)
    ensures
        path_bytes(p) == encode_utf8("/rpc/Shelly.Update"@),
{
    proof {
        reveal_strlit("/rpc/Shelly.Update");
        assert("/rpc/Shelly.Update"@ =~= seq!['/', 'r', 'p', 'c', '/', 'S', 'h', 'e', 'l', 'l', 'y', '.', 'U', 'p', 'd', 'a', 't', 'e']);
        is_ascii_chars_encode_utf8("/rpc/Shelly.Update"@);
    }
    static_path("/rpc/Shelly.Update")
}

// ── Response types ─────────────────────────────────────────────────────

/// Response from `Shelly.GetDeviceInfo`.
#[derive(Debug, Clone, Copy)]
pub struct DeviceInfo<'a> {
    /// Device name, e.g. `"shellyplus1pm-xxxxxxxxxxxx"`.
    pub name: Option<&'a str>,
    /// Device ID (MAC-based), e.g. `"shellyplus1pm-xxxxxxxxxxxx"`.
    pub id: &'a str,
    /// MAC address.
    pub mac: &'a str,
    /// Hardware model, e.g. `"SNSW-001P16EU"`.
    pub model: &'a str,
    /// Generation (2, 3, or 4).
    pub gen: u8,
    /// Firmware ID string.
    pub fw_id: &'a str,
    /// Firmware version string.
    pub ver: &'a str,
    /// Application name, e.g. `"Plus1PM"`.
    pub app: &'a str,
    /// Whether authentication is enabled.
    pub auth_en: bool,
    /// Authentication domain (if auth is enabled).
    pub auth_domain: Option<&'a str>,
}

/// Response from `Shelly.GetStatus`: the metadata fields that are always
/// present in the top-level status envelope.
#[derive(Debug, Clone, Copy)]
pub struct ShellyStatus<'a> {
    /// System status.
    pub sys: Option<SysStatus<'a>>,
    /// Wi-Fi status.
    pub wifi: Option<WifiStatus<'a>>,
    /// Cloud connectivity status.
    pub cloud: Option<CloudStatus>,
    /// MQTT connectivity status.
    pub mqtt: Option<MqttStatus>,
}

/// Response from `Shelly.CheckForUpdate`.
#[derive(Debug, Clone, Copy)]
pub struct UpdateInfo<'a> {
    /// Available stable update, if any.
    pub stable: Option<FwVersion<'a>>,
    /// Available beta update, if any.
    pub beta: Option<FwVersion<'a>>,
}

} // verus!
