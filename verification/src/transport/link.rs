//! The state every transport keeps about its link: status, byte counters and the
//! time of the last frame, with the liveness check and the reconnect attempts.
//! Sockets, framing and timers stay with the driver.
use vstd::prelude::*;

use super::{TransportKind, TransportStatus};

verus! {

/// The link state of one transport.
pub struct LinkState {
    kind: TransportKind,
    status: TransportStatus,
    bytes_sent: u64,
    bytes_received: u64,
    last_frame_us: u64,
}

impl LinkState {
    /// The link's status.
    pub closed spec fn status_spec(&self) -> TransportStatus {
        self.status
    }

    /// The link's kind.
    pub closed spec fn kind_spec(&self) -> TransportKind {
        self.kind
    }

    /// Bytes sent and received, counted modulo 2^64 as the shared counters are.
    pub closed spec fn counters(&self) -> (u64, u64) {
        (self.bytes_sent, self.bytes_received)
    }

    /// When the last frame arrived.
    pub closed spec fn last_frame(&self) -> u64 {
        self.last_frame_us
    }

    /// A link of `kind` that connected at `now_us`.
    pub fn new(kind: TransportKind, now_us: u64) -> (l: Self)
        ensures
            l.kind_spec() == kind,
            l.status_spec() == TransportStatus::Connected,
            l.counters() == (0u64, 0u64),
            l.last_frame() == now_us,
    {
        LinkState {
            kind,
            status: TransportStatus::Connected,
            bytes_sent: 0,
            bytes_received: 0,
            last_frame_us: now_us,
        }
    }

    /// The transport kind.
    pub fn kind(&self) -> (k: TransportKind)
        ensures
            k == self.kind_spec(),
    {
        self.kind
    }

    /// The link status.
    pub fn status(&self) -> (s: TransportStatus)
        ensures
            s == self.status_spec(),
    {
        self.status
    }

    /// Whether frames may be sent and received: only on a connected link.
    pub fn is_connected(&self) -> (b: bool)
        ensures
            b == (self.status_spec() == TransportStatus::Connected),
    {
        self.status == TransportStatus::Connected
    }

    /// Total bytes sent.
    pub fn bytes_sent(&self) -> (n: u64)
        ensures
            n == self.counters().0,
    {
        self.bytes_sent
    }

    /// Total bytes received.
    pub fn bytes_received(&self) -> (n: u64)
        ensures
            n == self.counters().1,
    {
        self.bytes_received
    }

    /// A frame of `frame_len` bytes was written and flushed.
    pub fn on_sent(&mut self, frame_len: u64)
        ensures
            final(self).counters() == (old(self).counters().0.wrapping_add(frame_len), old(self).counters().1),
            final(self).status_spec() == old(self).status_spec(),
            final(self).kind_spec() == old(self).kind_spec(),
            final(self).last_frame() == old(self).last_frame(),
    {
        self.bytes_sent = self.bytes_sent.wrapping_add(frame_len);
    }

    /// A frame of `frame_len` bytes arrived at `now_us`.
    pub fn on_received(&mut self, frame_len: u64, now_us: u64)
        ensures
            final(self).counters() == (old(self).counters().0, old(self).counters().1.wrapping_add(frame_len)),
            final(self).last_frame() == now_us,
            final(self).status_spec() == old(self).status_spec(),
            final(self).kind_spec() == old(self).kind_spec(),
    {
        self.bytes_received = self.bytes_received.wrapping_add(frame_len);
        self.last_frame_us = now_us;
    }

    /// A write, flush or read failed, or the peer closed the link.
    pub fn on_link_lost(&mut self)
        ensures
            final(self).status_spec() == TransportStatus::Disconnected,
            final(self).counters() == old(self).counters(),
            final(self).kind_spec() == old(self).kind_spec(),
            final(self).last_frame() == old(self).last_frame(),
    {
        self.status = TransportStatus::Disconnected;
    }

    /// The link is closed on request.
    pub fn close(&mut self)
        ensures
            final(self).status_spec() == TransportStatus::Disconnected,
            final(self).counters() == old(self).counters(),
            final(self).kind_spec() == old(self).kind_spec(),
            final(self).last_frame() == old(self).last_frame(),
    {
        self.status = TransportStatus::Disconnected;
    }

    /// Checks at `now_us` whether a connected link has been silent for longer than
    /// `timeout_us`; such a link is marked disconnected. Returns whether the link is
    /// alive.
    pub fn check_heartbeat_liveness(&mut self, now_us: u64, timeout_us: u64) -> (alive: bool)
        ensures
            alive == (old(self).status_spec() == TransportStatus::Connected && !(now_us
                > old(self).last_frame() && now_us - old(self).last_frame() > timeout_us)),
            final(self).status_spec() == if old(self).status_spec() == TransportStatus::Connected
                && !alive {
                TransportStatus::Disconnected
            } else {
                old(self).status_spec()
            },
            final(self).counters() == old(self).counters(),
            final(self).last_frame() == old(self).last_frame(),
            final(self).kind_spec() == old(self).kind_spec(),
    {
        if self.status != TransportStatus::Connected {
            return false;
        }
        let elapsed: u64 = if now_us > self.last_frame_us {
            now_us - self.last_frame_us
        } else {
            0
        };
        if elapsed > timeout_us {
            self.status = TransportStatus::Disconnected;
            false
        } else {
            true
        }
    }

    /// A reconnection loop starts.
    pub fn begin_reconnect(&mut self)
        ensures
            final(self).status_spec() == TransportStatus::Connecting,
            final(self).counters() == old(self).counters(),
            final(self).kind_spec() == old(self).kind_spec(),
            final(self).last_frame() == old(self).last_frame(),
    {
        self.status = TransportStatus::Connecting;
    }

    /// The link came back at `now_us`; its silence restarts from there.
    pub fn reconnected(&mut self, now_us: u64)
        ensures
            final(self).status_spec() == TransportStatus::Connected,
            final(self).last_frame() == now_us,
            final(self).counters() == old(self).counters(),
            final(self).kind_spec() == old(self).kind_spec(),
    {
        self.status = TransportStatus::Connected;
        self.last_frame_us = now_us;
    }

    /// Every reconnection attempt failed.
    pub fn reconnect_failed(&mut self)
        ensures
            final(self).status_spec() == TransportStatus::Failed,
            final(self).counters() == old(self).counters(),
            final(self).kind_spec() == old(self).kind_spec(),
            final(self).last_frame() == old(self).last_frame(),
    {
        self.status = TransportStatus::Failed;
    }
}

/// The attempts of one reconnection loop.
pub struct ReconnectAttempts {
    attempts: u32,
    max_attempts: u32,
}

impl ReconnectAttempts {
    /// Attempts made and allowed.
    pub closed spec fn made(&self) -> (u32, u32) {
        (self.attempts, self.max_attempts)
    }

    /// No more attempts than allowed.
    #[verifier::type_invariant]
    closed spec fn wf(&self) -> bool {
        self.attempts <= self.max_attempts
    }

    /// A loop allowing `max_attempts` attempts.
    pub fn new(max_attempts: u32) -> (r: Self)
        ensures
            r.made() == (0u32, max_attempts),
    {
        ReconnectAttempts { attempts: 0, max_attempts }
    }

    /// Starts the next attempt if one is left.
    pub fn next_attempt(&mut self) -> (go: bool)
        ensures
            go == (old(self).made().0 < old(self).made().1),
            final(self).made() == if go {
                ((old(self).made().0 + 1) as u32, old(self).made().1)
            } else {
                old(self).made()
            },
    {
        if self.attempts < self.max_attempts {
            self.attempts = self.attempts + 1;
            true
        } else {
            false
        }
    }

    /// After a failed attempt, whether to wait the reconnect interval before the
    /// next one (not after the last).
    pub fn wait_before_next(&self) -> (b: bool)
        ensures
            b == (self.made().0 < self.made().1),
    {
        self.attempts < self.max_attempts
    }

    /// The number of attempts made.
    pub fn attempts(&self) -> (n: u32)
        ensures
            n == self.made().0,
    {
        self.attempts
    }
}

} // verus!
