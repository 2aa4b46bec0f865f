//! Types shared across multiple component families.

use vstd::prelude::*;

verus! {

/// Firmware update status, embedded in many `GetStatus` replies.
#[derive(Debug, Clone, Copy)]
pub struct AvailableUpdate<'a> {
    /// Stable firmware channel info.
    pub stable: Option<FwVersion<'a>>,
    /// Beta firmware channel info.
    pub beta: Option<FwVersion<'a>>,
}

/// A single firmware version descriptor.
#[derive(Debug, Clone, Copy)]
pub struct FwVersion<'a> {
    /// Version string, e.g. `"1.4.4-g6d2a586"`.
    pub version: &'a str,
    /// Build ID.
    pub build_id: Option<&'a str>,
}

/// Cloud connectivity status.
#[derive(Debug, Clone, Copy)]
pub struct CloudStatus {
    /// Whether cloud connectivity is enabled in config.
    pub connected: bool,
}

/// MQTT connectivity status.
#[derive(Debug, Clone, Copy)]
pub struct MqttStatus {
    /// Whether MQTT is connected.
    pub connected: bool,
}

} // verus!
