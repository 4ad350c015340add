//! The additive-increase / multiplicative-decrease window of chunks a channel may
//! keep in flight. The congestion, degradation and health signals come from the
//! channel's performance model (floating point) in the driver; this controller
//! owns the window sizes, the cooldowns and the rules that move the window.
use vstd::prelude::*;

verus! {

/// Smallest USB window.
pub const USB_MIN_WINDOW: usize = 8;
/// Largest USB window.
pub const USB_MAX_WINDOW: usize = 32;
/// Initial USB window.
pub const USB_INITIAL_WINDOW: usize = 16;
/// Smallest Wi-Fi window.
pub const WIFI_MIN_WINDOW: usize = 12;
/// Largest Wi-Fi window.
pub const WIFI_MAX_WINDOW: usize = 32;
/// Initial Wi-Fi window.
pub const WIFI_INITIAL_WINDOW: usize = 16;
/// Acknowledgments to wait between two increases.
pub const INCREASE_COOLDOWN_CHUNKS: usize = 2;
/// Time to wait between two decreases (unless four acknowledgments came), in µs.
pub const DECREASE_COOLDOWN_US: u64 = 500_000;

/// What the performance model says about the channel at one acknowledgment.
#[derive(Debug, Clone, Copy, PartialEq, Eq, Structural)]
pub struct WindowSignals {
    /// Socket back-pressure or severe round-trip inflation without goodput gain.
    pub congested: bool,
    /// Goodput fell by more than 20% while round trips grew by more than 35%.
    pub degraded: bool,
    /// Goodput held up, the socket rarely blocked and round trips stayed moderate.
    pub healthy: bool,
}

/// The outcome of one evaluation.
#[derive(Debug, Clone, Copy, PartialEq, Eq, Structural)]
pub struct WindowAdjustment {
    /// The window after the evaluation.
    pub window: usize,
    /// The window moved; the driver records the goodput and round trip of this point.
    pub adjusted: bool,
}

/// Three quarters of `w`, rounded down.
pub open spec fn three_quarters(w: usize) -> int {
    (w * 3) / 4
}

/// The congestion window of one channel.
#[derive(Debug, Clone)]
pub struct WindowController {
    pub min_window: usize,
    pub max_window: usize,
    pub current_window: usize,
    pub window_before_probe: usize,
    pub chunks_since_adjust: usize,
    pub last_adjust_us: u64,
}

impl WindowController {
    /// The window and the size before the last probe stay within the bounds, which
    /// are ordered and at least one.
    pub open spec fn wf(&self) -> bool {
        &&& 1 <= self.min_window <= self.max_window
        &&& self.min_window <= self.current_window <= self.max_window
        &&& self.min_window <= self.window_before_probe <= self.max_window
    }

    /// Acknowledgments since the last move, and when it happened.
    pub open spec fn cooldown(&self) -> (usize, u64) {
        (self.chunks_since_adjust, self.last_adjust_us)
    }

    /// A controller created at `now_us`: the minimum is at least 1, the maximum at
    /// least the minimum, and the initial window is clamped between them.
    pub fn with_bounds(min_window: usize, max_window: usize, initial_window: usize, now_us: u64) -> (w:
        Self)
        ensures
            w.wf(),
            w.min_window == if min_window >= 1 {
                min_window
            } else {
                1
            },
            w.max_window == if max_window >= w.min_window {
                max_window
            } else {
                w.min_window
            },
            w.current_window == if initial_window < w.min_window {
                w.min_window
            } else if initial_window > w.max_window {
                w.max_window
            } else {
                initial_window
            },
            w.window_before_probe == w.current_window,
            w.cooldown() == (0usize, now_us),
    {
        let min_win = if min_window >= 1 {
            min_window
        } else {
            1
        };
        let max_win = if max_window >= min_win {
            max_window
        } else {
            min_win
        };
        let init_win = if initial_window < min_win {
            min_win
        } else if initial_window > max_win {
            max_win
        } else {
            initial_window
        };
        WindowController {
            min_window: min_win,
            max_window: max_win,
            current_window: init_win,
            window_before_probe: init_win,
            chunks_since_adjust: 0,
            last_adjust_us: now_us,
        }
    }

    /// The USB preset: 8 to 32 chunks, starting at 16.
    pub fn for_usb(now_us: u64) -> (w: Self)
        ensures
            w.wf(),
            w.min_window == 8 && w.max_window == 32 && w.current_window == 16,
            w.window_before_probe == 16,
            w.cooldown() == (0usize, now_us),
    {
        Self::with_bounds(USB_MIN_WINDOW, USB_MAX_WINDOW, USB_INITIAL_WINDOW, now_us)
    }

    /// The Wi-Fi preset: 12 to 32 chunks, starting at 16.
    pub fn for_wifi(now_us: u64) -> (w: Self)
        ensures
            w.wf(),
            w.min_window == 12 && w.max_window == 32 && w.current_window == 16,
            w.window_before_probe == 16,
            w.cooldown() == (0usize, now_us),
    {
        Self::with_bounds(WIFI_MIN_WINDOW, WIFI_MAX_WINDOW, WIFI_INITIAL_WINDOW, now_us)
    }

    /// Evaluates one acknowledgment at `now_us`. After at least three
    /// acknowledgments, and either 500 ms or a fourth acknowledgment since the last
    /// move, congestion shrinks the window to three quarters (not below the
    /// minimum). Otherwise, after two acknowledgments, a probe above the previous size
    /// that degraded the channel retreats to that size. Otherwise, after two
    /// acknowledgments, a healthy channel below the maximum grows by one chunk.
    /// Every move restarts the cooldown.
    pub fn evaluate_and_adjust(&mut self, signals: WindowSignals, now_us: u64) -> (a: WindowAdjustment)
        requires
            old(self).wf(),
            old(self).cooldown().0 < usize::MAX,
        ensures
            final(self).wf(),
            a.window == final(self).current_window,
            final(self).current_window <= old(self).current_window + 1,
            final(self).min_window == old(self).min_window,
            final(self).max_window == old(self).max_window,
            ({
                let n = old(self).cooldown().0 + 1;
                let last = old(self).cooldown().1;
                let cur = old(self).current_window;
                let elapsed = if now_us > last {
                    now_us - last
                } else {
                    0
                };
                let cooled = n >= 3 && (elapsed >= 500_000 || n >= 4);
                let shrunk = if three_quarters(cur) > old(self).min_window {
                    three_quarters(cur)
                } else {
                    old(self).min_window as int
                };
                let decrease = signals.congested && cooled && shrunk != cur;
                let retreat = !decrease && cur > old(self).window_before_probe && n >= 2
                    && signals.degraded;
                let increase = !decrease && !retreat && n >= 2 && cur < old(self).max_window
                    && signals.healthy;
                &&& a.adjusted == (decrease || retreat || increase)
                &&& decrease ==> final(self).current_window == shrunk
                    && final(self).window_before_probe == cur
                &&& retreat ==> final(self).current_window == old(self).window_before_probe
                    && final(self).window_before_probe == old(self).window_before_probe
                &&& increase ==> final(self).current_window == cur + 1
                    && final(self).window_before_probe == cur
                &&& a.adjusted ==> final(self).cooldown() == (0usize, now_us)
                &&& !a.adjusted ==> final(self).current_window == cur
                    && final(self).window_before_probe == old(self).window_before_probe
                    && final(self).cooldown() == (n as usize, last)
            }),
    {
        self.chunks_since_adjust = self.chunks_since_adjust + 1;
        let n = self.chunks_since_adjust;
        let elapsed: u64 = if now_us > self.last_adjust_us {
            now_us - self.last_adjust_us
        } else {
            0
        };
        let cooled = n >= 3 && (elapsed >= DECREASE_COOLDOWN_US || n >= 4);
        if signals.congested && cooled {
            let cur = self.current_window;
            let q = cur / 4 * 3 + (cur % 4) * 3 / 4;
            assert(q == three_quarters(cur)) by (nonlinear_arith)
                requires
                    q == cur / 4 * 3 + (cur % 4) * 3 / 4,
            ;
            let new_win = if q > self.min_window {
                q
            } else {
                self.min_window
            };
            if new_win != cur {
                self.window_before_probe = cur;
                self.current_window = new_win;
                self.chunks_since_adjust = 0;
                self.last_adjust_us = now_us;
                return WindowAdjustment { window: new_win, adjusted: true };
            }
        }
        if self.current_window > self.window_before_probe && n >= INCREASE_COOLDOWN_CHUNKS
            && signals.degraded {
            self.current_window = self.window_before_probe;
            self.chunks_since_adjust = 0;
            self.last_adjust_us = now_us;
            return WindowAdjustment { window: self.current_window, adjusted: true };
        }
        if n >= INCREASE_COOLDOWN_CHUNKS && self.current_window < self.max_window && signals.healthy {
            self.window_before_probe = self.current_window;
            self.current_window = self.current_window + 1;
            self.chunks_since_adjust = 0;
            self.last_adjust_us = now_us;
            return WindowAdjustment { window: self.current_window, adjusted: true };
        }
        WindowAdjustment { window: self.current_window, adjusted: false }
    }
}

} // verus!
