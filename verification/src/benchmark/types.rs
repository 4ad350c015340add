//! Transfer purposes, Wi-Fi window presets and per-transfer configuration overrides.
use vstd::prelude::*;

verus! {

/// Why a transfer runs.
#[derive(Debug, Clone, Copy, PartialEq, Eq, Structural)]
pub enum TransferPurpose {
    Normal,
    Benchmark,
    Calibration,
}

impl Default for TransferPurpose {
    /// An ordinary transfer.
    fn default() -> (p: Self)
        ensures
            p == TransferPurpose::Normal,
    {
        TransferPurpose::Normal
    }
}

/// Congestion-window presets for Wi-Fi channels.
#[derive(Debug, Clone, Copy, PartialEq, Eq, Structural)]
pub enum WindowPreset {
    Conservative,
    Balanced,
    Aggressive,
    Max,
}

impl Default for WindowPreset {
    /// The balanced preset, which matches the default Wi-Fi window.
    fn default() -> (p: Self)
        ensures
            p == WindowPreset::Balanced,
    {
        WindowPreset::Balanced
    }
}

/// The window sizes of a preset: minimum, maximum and initial window, in chunks.
/// The balanced preset is the default Wi-Fi window.
pub open spec fn spec_window_sizes(p: WindowPreset) -> (usize, usize, usize) {
    match p {
        WindowPreset::Conservative => (12, 32, 16),
        WindowPreset::Balanced => (12, 32, 16),
        WindowPreset::Aggressive => (20, 56, 28),
        WindowPreset::Max => (24, 64, 32),
    }
}

impl WindowPreset {
    /// Returns `(min_window, max_window, initial_window)` of the preset.
    pub fn window_sizes(self) -> (w: (usize, usize, usize))
        ensures
            w == spec_window_sizes(self),
            w.0 <= w.2 <= w.1,
    {
        match self {
            WindowPreset::Conservative => (12, 32, 16),
            WindowPreset::Balanced => (12, 32, 16),
            WindowPreset::Aggressive => (20, 56, 28),
            WindowPreset::Max => (24, 64, 32),
        }
    }
}

/// Per-transfer overrides of the default configuration; `None` keeps the default.
#[derive(Debug, Clone, Copy, PartialEq, Eq, Structural)]
pub struct TransferConfigOverride {
    pub wifi_stream_count: Option<usize>,
    pub chunk_size_bytes: Option<u32>,
    pub wifi_window_preset: Option<WindowPreset>,
}

impl Default for TransferConfigOverride {
    /// No override.
    fn default() -> (c: Self)
        ensures
            c.wifi_stream_count is None,
            c.chunk_size_bytes is None,
            c.wifi_window_preset is None,
    {
        TransferConfigOverride {
            wifi_stream_count: None,
            chunk_size_bytes: None,
            wifi_window_preset: None,
        }
    }
}

} // verus!
