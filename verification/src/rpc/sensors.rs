//! Sensor component families — Temperature, Humidity, DevicePower, Voltmeter.

use vstd::prelude::*;
use vstd::utf8::*;
use crate::error::Error;
use crate::rpc::{path_bytes, query_path, Path};
use crate::text::{decimal, lemma_decimal_ascii, lemma_decimal_u32_len, u64_to_decimal};

verus! {

// ── Paths ──────────────────────────────────────────────────────────────

/// `/rpc/Temperature.GetStatus?id=<id>`
pub fn temperature_get_status_path(id: u32) -> (r: Result<Path, Error>)
    ensures
        r matches Ok(p) && path_bytes(p) == encode_utf8("/rpc/Temperature.GetStatus?id="@ + decimal(id as nat)),
{
    let tail = u64_to_decimal(id as u64);
    proof {
        reveal_strlit("/rpc/Temperature.GetStatus?id=");
        assert("/rpc/Temperature.GetStatus?id="@ =~= seq!['/', 'r', 'p', 'c', '/', 'T', 'e', 'm', 'p', 'e', 'r', 'a', 't', 'u', 'r', 'e', '.', 'G', 'e', 't', 'S', 't', 'a', 't', 'u', 's', '?', 'i', 'd', '=']);
        lemma_decimal_ascii(id as nat);
        lemma_decimal_u32_len(id);
    }
    query_path("/rpc/Temperature.GetStatus?id=", &tail)
}

/// `/rpc/Temperature.GetConfig?id=<id>`
pub fn temperature_get_config_path(id: u32) -> (r: Result<Path, Error>)
    ensures
        r matches Ok(p) && path_bytes(p) == encode_utf8("/rpc/Temperature.GetConfig?id="@ + decimal(id as nat)),
{
    let tail = u64_to_decimal(id as u64);
    proof {
        reveal_strlit("/rpc/Temperature.GetConfig?id=");
        assert("/rpc/Temperature.GetConfig?id="@ =~= seq!['/', 'r', 'p', 'c', '/', 'T', 'e', 'm', 'p', 'e', 'r', 'a', 't', 'u', 'r', 'e', '.', 'G', 'e', 't', 'C', 'o', 'n', 'f', 'i', 'g', '?', 'i', 'd', '=']);
        lemma_decimal_ascii(id as nat);
        lemma_decimal_u32_len(id);
    }
    query_path("/rpc/Temperature.GetConfig?id=", &tail)
}

/// `/rpc/Humidity.GetStatus?id=<id>`
pub fn humidity_get_status_path(id: u32) -> (r: Result<Path, Error>)
    ensures
        r matches Ok(p) && path_bytes(p) == encode_utf8("/rpc/Humidity.GetStatus?id="@ + decimal(id as nat)),
{
    let tail = u64_to_decimal(id as u64);
    proof {
        reveal_strlit("/rpc/Humidity.GetStatus?id=");
        assert("/rpc/Humidity.GetStatus?id="@ =~= seq!['/', 'r', 'p', 'c', '/', 'H', 'u', 'm', 'i', 'd', 'i', 't', 'y', '.', 'G', 'e', 't', 'S', 't', 'a', 't', 'u', 's', '?', 'i', 'd', '=']);
        lemma_decimal_ascii(id as nat);
        lemma_decimal_u32_len(id);
    }
    query_path("/rpc/Humidity.GetStatus?id=", &tail)
}

/// `/rpc/Humidity.GetConfig?id=<id>`
pub fn humidity_get_config_path(id: u32) -> (r: Result<Path, Error>)
    ensures
        r matches Ok(p) && path_bytes(p) == encode_utf8("/rpc/Humidity.GetConfig?id="@ + decimal(id as nat)),
{
    let tail = u64_to_decimal(id as u64);
    proof {
        reveal_strlit("/rpc/Humidity.GetConfig?id=");
        assert("/rpc/Humidity.GetConfig?id="@ =~= seq!['/', 'r', 'p', 'c', '/', 'H', 'u', 'm', 'i', 'd', 'i', 't', 'y', '.', 'G', 'e', 't', 'C', 'o', 'n', 'f', 'i', 'g', '?', 'i', 'd', '=']);
        lemma_decimal_ascii(id as nat);
        lemma_decimal_u32_len(id);
    }
    query_path("/rpc/Humidity.GetConfig?id=", &tail)
}

/// `/rpc/DevicePower.GetStatus?id=<id>`
pub fn device_power_get_status_path(id: u32) -> (r: Result<Path, Error>)
    ensures
        r matches Ok(p) && path_bytes(p) == encode_utf8("/rpc/DevicePower.GetStatus?id="@ + decimal(id as nat)),
{
    let tail = u64_to_decimal(id as u64);
    proof {
        reveal_strlit("/rpc/DevicePower.GetStatus?id=");
        assert("/rpc/DevicePower.GetStatus?id="@ =~= seq!['/', 'r', 'p', 'c', '/', 'D', 'e', 'v', 'i', 'c', 'e', 'P', 'o', 'w', 'e', 'r', '.', 'G', 'e', 't', 'S', 't', 'a', 't', 'u', 's', '?', 'i', 'd', '=']);
        lemma_decimal_ascii(id as nat);
        lemma_decimal_u32_len(id);
    }
    query_path("/rpc/DevicePower.GetStatus?id=", &tail)
}

/// `/rpc/Voltmeter.GetStatus?id=<id>`
pub fn voltmeter_get_status_path(id: u32) -> (r: Result<Path, Error>)
    ensures
        r matches Ok(p) && path_bytes(p) == encode_utf8("/rpc/Voltmeter.GetStatus?id="@ + decimal(id as nat)),
{
    let tail = u64_to_decimal(id as u64);
    proof {
        reveal_strlit("/rpc/Voltmeter.GetStatus?id=");
        assert("/rpc/Voltmeter.GetStatus?id="@ =~= seq!['/', 'r', 'p', 'c', '/', 'V', 'o', 'l', 't', 'm', 'e', 't', 'e', 'r', '.', 'G', 'e', 't', 'S', 't', 'a', 't', 'u', 's', '?', 'i', 'd', '=']);
        lemma_decimal_ascii(id as nat);
        lemma_decimal_u32_len(id);
    }
    query_path("/rpc/Voltmeter.GetStatus?id=", &tail)
}

/// `/rpc/Voltmeter.GetConfig?id=<id>`
pub fn voltmeter_get_config_path(id: u32) -> (r: Result<Path, Error>)
    ensures
        r matches Ok(p) && path_bytes(p) == encode_utf8("/rpc/Voltmeter.GetConfig?id="@ + decimal(id as nat)),
{
    let tail = u64_to_decimal(id as u64);
    proof {
        reveal_strlit("/rpc/Voltmeter.GetConfig?id=");
        assert("/rpc/Voltmeter.GetConfig?id="@ =~= seq!['/', 'r', 'p', 'c', '/', 'V', 'o', 'l', 't', 'm', 'e', 't', 'e', 'r', '.', 'G', 'e', 't', 'C', 'o', 'n', 'f', 'i', 'g', '?', 'i', 'd', '=']);
        lemma_decimal_ascii(id as nat);
        lemma_decimal_u32_len(id);
    }
    query_path("/rpc/Voltmeter.GetConfig?id=", &tail)
}

// ── Response types ─────────────────────────────────────────────────────

/// External power information.
#[derive(Debug, Clone, Copy)]
pub struct ExternalPowerInfo {
    /// Whether external power is present.
    pub present: Option<bool>,
}

} // verus!
