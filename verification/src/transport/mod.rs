//! Transport kinds, link status, errors and the transport-independent link state machine.
use vstd::prelude::*;

use crate::protocol::error::ProtocolError;

pub mod link;
pub mod usb;
pub mod vectored;
pub mod wifi_direct;

verus! {

/// Discriminator for active physical or virtual transport types.
#[derive(Debug, Clone, Copy, PartialEq, Eq, Hash, Structural)]
pub enum TransportKind {
    Tcp,
    Usb,
    WifiDirect,
}

/// Operational connectivity status for a transport channel.
#[derive(Debug, Clone, Copy, PartialEq, Eq, Structural)]
pub enum TransportStatus {
    Connected,
    Connecting,
    Disconnected,
    Failed,
}

/// The human-readable name of a transport kind.
pub open spec fn spec_kind_name(kind: TransportKind) -> Seq<char> {
    match kind {
        TransportKind::Tcp => "TCP"@,
        TransportKind::Usb => "USB"@,
        TransportKind::WifiDirect => "Wi-Fi Direct"@,
    }
}

/// The human-readable name of a link status.
pub open spec fn spec_status_name(status: TransportStatus) -> Seq<char> {
    match status {
        TransportStatus::Connected => "Connected"@,
        TransportStatus::Connecting => "Connecting"@,
        TransportStatus::Disconnected => "Disconnected"@,
        TransportStatus::Failed => "Failed"@,
    }
}

impl TransportKind {
    /// The display name of this transport kind.
    pub fn name(&self) -> (s: &'static str)
        ensures
            s@ == spec_kind_name(*self),
    {
        match self {
            TransportKind::Tcp => "TCP",
            TransportKind::Usb => "USB",
            TransportKind::WifiDirect => "Wi-Fi Direct",
        }
    }
}

impl TransportStatus {
    /// The display name of this status.
    pub fn name(&self) -> (s: &'static str)
        ensures
            s@ == spec_status_name(*self),
    {
        match self {
            TransportStatus::Connected => "Connected",
            TransportStatus::Connecting => "Connecting",
            TransportStatus::Disconnected => "Disconnected",
            TransportStatus::Failed => "Failed",
        }
    }
}

/// Errors surfaced by a transport layer, suitable for scheduler retry logic.
#[derive(Debug)]
pub enum TransportError {
    Disconnected(String),
    Timeout(String),
    Io(std::io::Error),
    Protocol(ProtocolError),
    Other(String),
}

} // verus!
