//! The plain records and enums of the foreign-function interface, and their
//! conversions from the engine's types.
use vstd::prelude::*;
use vstd::std_specs::convert::FromSpecImpl;

use crate::manifest::schema::{TransferRole, TransferStatus};
use crate::transfer::discovery::TransportPreference;

verus! {

/// Transport preference as the bindings see it.
#[derive(Debug, Clone, Copy, PartialEq, Eq, Structural)]
pub enum FfiTransportPreference {
    Automatic,
    Combined,
    UsbOnly,
    WifiDirectOnly,
}

impl From<FfiTransportPreference> for TransportPreference {
    fn from(pref: FfiTransportPreference) -> (r: Self) {
        match pref {
            FfiTransportPreference::Automatic => TransportPreference::Automatic,
            FfiTransportPreference::Combined => TransportPreference::Combined,
            FfiTransportPreference::UsbOnly => TransportPreference::UsbOnly,
            FfiTransportPreference::WifiDirectOnly => TransportPreference::WifiDirectOnly,
        }
    }
}

impl FromSpecImpl<FfiTransportPreference> for TransportPreference {
    open spec fn obeys_from_spec() -> bool {
        true
    }

    open spec fn from_spec(pref: FfiTransportPreference) -> Self {
        match pref {
            FfiTransportPreference::Automatic => TransportPreference::Automatic,
            FfiTransportPreference::Combined => TransportPreference::Combined,
            FfiTransportPreference::UsbOnly => TransportPreference::UsbOnly,
            FfiTransportPreference::WifiDirectOnly => TransportPreference::WifiDirectOnly,
        }
    }
}

/// Transfer status as the bindings see it.
#[derive(Debug, Clone, Copy, PartialEq, Eq, Structural)]
pub enum FfiTransferStatus {
    InProgress,
    Completed,
    Paused,
    Failed,
    Cancelled,
}

impl From<TransferStatus> for FfiTransferStatus {
    fn from(status: TransferStatus) -> (r: Self) {
        match status {
            TransferStatus::InProgress => FfiTransferStatus::InProgress,
            TransferStatus::Completed => FfiTransferStatus::Completed,
            TransferStatus::Paused => FfiTransferStatus::Paused,
            TransferStatus::Failed => FfiTransferStatus::Failed,
            TransferStatus::Cancelled => FfiTransferStatus::Cancelled,
        }
    }
}

impl FromSpecImpl<TransferStatus> for FfiTransferStatus {
    open spec fn obeys_from_spec() -> bool {
        true
    }

    open spec fn from_spec(status: TransferStatus) -> Self {
        match status {
            TransferStatus::InProgress => FfiTransferStatus::InProgress,
            TransferStatus::Completed => FfiTransferStatus::Completed,
            TransferStatus::Paused => FfiTransferStatus::Paused,
            TransferStatus::Failed => FfiTransferStatus::Failed,
            TransferStatus::Cancelled => FfiTransferStatus::Cancelled,
        }
    }
}

/// Transfer role as the bindings see it.
#[derive(Debug, Clone, Copy, PartialEq, Eq, Structural)]
pub enum FfiTransferRole {
    Sender,
    Receiver,
}

impl From<TransferRole> for FfiTransferRole {
    fn from(role: TransferRole) -> (r: Self) {
        match role {
            TransferRole::Sender => FfiTransferRole::Sender,
            TransferRole::Receiver => FfiTransferRole::Receiver,
        }
    }
}

impl FromSpecImpl<TransferRole> for FfiTransferRole {
    open spec fn obeys_from_spec() -> bool {
        true
    }

    open spec fn from_spec(role: TransferRole) -> Self {
        match role {
            TransferRole::Sender => FfiTransferRole::Sender,
            TransferRole::Receiver => FfiTransferRole::Receiver,
        }
    }
}

/// A started transfer, by id text.
#[derive(Debug, Clone)]
pub struct FfiTransferHandle {
    pub transfer_id: String,
}

/// A discovered device.
#[derive(Debug, Clone)]
pub struct FfiDeviceInfo {
    pub device_id: String,
    pub device_name: String,
    pub transport: String,
    pub is_connected: bool,
}

/// A transfer in the transfer list.
#[derive(Debug, Clone)]
pub struct FfiTransferSummary {
    pub transfer_id: String,
    pub file_name: String,
    pub file_size: u64,
    pub status: FfiTransferStatus,
    pub role: FfiTransferRole,
}

/// One event of a transfer log.
#[derive(Debug, Clone)]
pub struct FfiTransferEvent {
    pub timestamp_us: u64,
    pub relative_ms: u64,
    pub stage: String,
    pub level: String,
    pub channel: String,
    pub chunk_id: Option<u32>,
    pub duration_us: Option<u64>,
    pub bytes: Option<u64>,
    pub message: String,
}

/// The hotspot a phone offers for the Wi-Fi path.
#[derive(Debug, Clone)]
pub struct FfiWifiHotspotInfo {
    pub ssid: String,
    pub passphrase: String,
    pub ip: String,
    pub port: u16,
    pub band: String,
}

/// An error reported through the bindings.
#[derive(Debug, Clone)]
pub enum FfiTransferError {
    Generic { msg: String },
}

} // verus!
