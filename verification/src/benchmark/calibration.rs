//! Calibration: the sweep that picks the fastest Wi-Fi stream count, chunk size and
//! window preset for a device pair, and the table of running calibrations that a
//! cancel request consults. The benchmark transfers and the speed comparisons
//! (floating point) happen in the driver, which reports whether each run beat the
//! best of its stage.
use vstd::prelude::*;

use super::config_store::{get_pair_key, spec_pair_key};
use super::types::{TransferConfigOverride, WindowPreset};

verus! {

/// Number of benchmark runs in a calibration.
pub const CALIBRATION_STEPS: u32 = 10;

/// The stage a calibration step belongs to.
#[derive(Debug, Clone, Copy, PartialEq, Eq, Structural)]
pub enum CalibrationStage {
    Streams,
    ChunkSize,
    Window,
    Confirmation,
}

impl CalibrationStage {
    /// The stage's name in progress reports.
    pub fn name(&self) -> (s: &'static str)
        ensures
            s@ == spec_stage_name(*self),
    {
        match self {
            CalibrationStage::Streams => "streams",
            CalibrationStage::ChunkSize => "chunk_size",
            CalibrationStage::Window => "window",
            CalibrationStage::Confirmation => "confirmation",
        }
    }
}

/// The names of the stages.
pub open spec fn spec_stage_name(s: CalibrationStage) -> Seq<char> {
    match s {
        CalibrationStage::Streams => "streams"@,
        CalibrationStage::ChunkSize => "chunk_size"@,
        CalibrationStage::Window => "window"@,
        CalibrationStage::Confirmation => "confirmation"@,
    }
}

/// One benchmark run of the sweep.
#[derive(Debug, Clone, Copy, PartialEq, Eq, Structural)]
pub struct CalibrationStep {
    /// 1 to 10.
    pub number: u32,
    pub stage: CalibrationStage,
    pub config: TransferConfigOverride,
}

/// The stream counts tried in the first stage.
pub open spec fn stream_candidate(k: u32) -> usize {
    if k == 0 {
        2
    } else if k == 1 {
        3
    } else {
        4
    }
}

/// The chunk sizes tried in the second stage: 1, 2 and 4 MiB.
pub open spec fn chunk_candidate(k: u32) -> u32 {
    if k == 0 {
        1048576
    } else if k == 1 {
        2097152
    } else {
        4194304
    }
}

/// The presets tried in the third stage.
pub open spec fn window_candidate(k: u32) -> WindowPreset {
    if k == 0 {
        WindowPreset::Balanced
    } else if k == 1 {
        WindowPreset::Aggressive
    } else {
        WindowPreset::Max
    }
}

/// The run with number `n` (1 to 10), given the winners so far: three stream
/// counts at the balanced preset, then three chunk sizes with the best stream count,
/// then three presets with the best stream count and chunk size, then a
/// confirmation run of the winning configuration.
pub open spec fn spec_step(n: u32, streams: usize, chunk: u32, window: WindowPreset) -> CalibrationStep {
    if n <= 3 {
        CalibrationStep {
            number: n,
            stage: CalibrationStage::Streams,
            config: TransferConfigOverride {
                wifi_stream_count: Some(stream_candidate((n - 1) as u32)),
                chunk_size_bytes: None,
                wifi_window_preset: Some(WindowPreset::Balanced),
            },
        }
    } else if n <= 6 {
        CalibrationStep {
            number: n,
            stage: CalibrationStage::ChunkSize,
            config: TransferConfigOverride {
                wifi_stream_count: Some(streams),
                chunk_size_bytes: Some(chunk_candidate((n - 4) as u32)),
                wifi_window_preset: Some(WindowPreset::Balanced),
            },
        }
    } else if n <= 9 {
        CalibrationStep {
            number: n,
            stage: CalibrationStage::Window,
            config: TransferConfigOverride {
                wifi_stream_count: Some(streams),
                chunk_size_bytes: Some(chunk),
                wifi_window_preset: Some(window_candidate((n - 7) as u32)),
            },
        }
    } else {
        CalibrationStep {
            number: n,
            stage: CalibrationStage::Confirmation,
            config: TransferConfigOverride {
                wifi_stream_count: Some(streams),
                chunk_size_bytes: Some(chunk),
                wifi_window_preset: Some(window),
            },
        }
    }
}

/// The plan of the sweep: runs 1 to 3 try 2, 3 and 4 streams at the balanced
/// preset with the default chunk size; every later run uses the stream count that
/// won the first stage; runs 4 to 6 try 1, 2 and 4 MiB chunks at the balanced
/// preset; runs 7 to 9 keep the winning chunk size and try the balanced, aggressive
/// and max presets; run 10 confirms the winning stream count, chunk size and preset.
pub proof fn lemma_sweep_plan(n: u32, streams: usize, chunk: u32, window: WindowPreset)
    requires
        1 <= n <= 10,
    ensures
        ({
            let st = spec_step(n, streams, chunk, window);
            let c = st.config;
            &&& st.number == n
            &&& n <= 3 ==> st.stage == CalibrationStage::Streams && c.wifi_stream_count == Some(
                (n + 1) as usize,
            ) && c.chunk_size_bytes is None && c.wifi_window_preset == Some(WindowPreset::Balanced)
            &&& n >= 4 ==> c.wifi_stream_count == Some(streams)
            &&& 4 <= n <= 6 ==> st.stage == CalibrationStage::ChunkSize && c.wifi_window_preset
                == Some(WindowPreset::Balanced) && c.chunk_size_bytes == Some(
                if n == 4 {
                    1048576u32
                } else if n == 5 {
                    2097152u32
                } else {
                    4194304u32
                },
            )
            &&& n >= 7 ==> c.chunk_size_bytes == Some(chunk)
            &&& 7 <= n <= 9 ==> st.stage == CalibrationStage::Window && c.wifi_window_preset == Some(
                if n == 7 {
                    WindowPreset::Balanced
                } else if n == 8 {
                    WindowPreset::Aggressive
                } else {
                    WindowPreset::Max
                },
            )
            &&& n == 10 ==> st.stage == CalibrationStage::Confirmation && c.wifi_window_preset == Some(
                window,
            )
        }),
{
}

/// The winners once run `n` finishes: when it beat the best of its stage, the
/// parameter it tried becomes the stage's winner.
pub open spec fn winners_after(winners: (usize, u32, WindowPreset), n: u32, beat_best: bool) -> (
    usize,
    u32,
    WindowPreset,
) {
    let st = spec_step(n, winners.0, winners.1, winners.2);
    let (s0, c0, w0) = winners;
    if !beat_best {
        (s0, c0, w0)
    } else {
        match st.stage {
            CalibrationStage::Streams => (st.config.wifi_stream_count->0, c0, w0),
            CalibrationStage::ChunkSize => (s0, st.config.chunk_size_bytes->0, w0),
            CalibrationStage::Window => (s0, c0, st.config.wifi_window_preset->0),
            CalibrationStage::Confirmation => (s0, c0, w0),
        }
    }
}

/// What a finished run leaves as winners: a run that did not beat the best
/// changes nothing; a winning run of the first stage makes its stream count (2, 3
/// or 4 for runs 1 to 3) the winner, one of the second stage its chunk size (1, 2
/// or 4 MiB), one of the third stage its preset (balanced, aggressive or max); the
/// confirmation run changes nothing.
pub proof fn lemma_winners_after_run(winners: (usize, u32, WindowPreset), n: u32, beat_best: bool)
    requires
        1 <= n <= 10,
    ensures
        ({
            let r = winners_after(winners, n, beat_best);
            &&& !beat_best ==> r == winners
            &&& beat_best && n <= 3 ==> r == ((n + 1) as usize, winners.1, winners.2)
            &&& beat_best && 4 <= n <= 6 ==> r == (
                winners.0,
                if n == 4 {
                    1048576u32
                } else if n == 5 {
                    2097152u32
                } else {
                    4194304u32
                },
                winners.2,
            )
            &&& beat_best && 7 <= n <= 9 ==> r == (
                winners.0,
                winners.1,
                if n == 7 {
                    WindowPreset::Balanced
                } else if n == 8 {
                    WindowPreset::Aggressive
                } else {
                    WindowPreset::Max
                },
            )
            &&& n == 10 ==> r == winners
        }),
{
}

/// The state of a calibration sweep.
pub struct CalibrationSweep {
    done: u32,
    best_streams: usize,
    best_chunk: u32,
    best_window: WindowPreset,
}

impl CalibrationSweep {
    /// Runs finished so far.
    pub closed spec fn finished(&self) -> u32 {
        self.done
    }

    /// The best stream count, chunk size and preset so far.
    pub closed spec fn winners(&self) -> (usize, u32, WindowPreset) {
        (self.best_streams, self.best_chunk, self.best_window)
    }

    /// At most ten runs.
    #[verifier::type_invariant]
    pub closed spec fn wf(&self) -> bool {
        self.done <= 10
    }

    /// A new sweep. Until a run beats them, the winners are three streams, 2 MiB
    /// chunks and the balanced preset.
    pub fn new() -> (s: Self)
        ensures
            s.finished() == 0,
            s.winners() == (3usize, 2097152u32, WindowPreset::Balanced),
    {
        CalibrationSweep {
            done: 0,
            best_streams: 3,
            best_chunk: 2097152,
            best_window: WindowPreset::Balanced,
        }
    }

    /// The next run, or `None` once all ten have finished.
    pub fn next_step(&self) -> (s: Option<CalibrationStep>)
        ensures
            self.finished() >= 10 ==> s is None,
            self.finished() < 10 ==> s == Some(
                spec_step(
                    (self.finished() + 1) as u32,
                    self.winners().0,
                    self.winners().1,
                    self.winners().2,
                ),
            ),
    {
        proof {
            use_type_invariant(self);
        }
        if self.done >= CALIBRATION_STEPS {
            return None;
        }
        let n = self.done + 1;
        let step = if n <= 3 {
            let streams: usize = if n == 1 {
                2
            } else if n == 2 {
                3
            } else {
                4
            };
            CalibrationStep {
                number: n,
                stage: CalibrationStage::Streams,
                config: TransferConfigOverride {
                    wifi_stream_count: Some(streams),
                    chunk_size_bytes: None,
                    wifi_window_preset: Some(WindowPreset::Balanced),
                },
            }
        } else if n <= 6 {
            let chunk: u32 = if n == 4 {
                1048576
            } else if n == 5 {
                2097152
            } else {
                4194304
            };
            CalibrationStep {
                number: n,
                stage: CalibrationStage::ChunkSize,
                config: TransferConfigOverride {
                    wifi_stream_count: Some(self.best_streams),
                    chunk_size_bytes: Some(chunk),
                    wifi_window_preset: Some(WindowPreset::Balanced),
                },
            }
        } else if n <= 9 {
            let window = if n == 7 {
                WindowPreset::Balanced
            } else if n == 8 {
                WindowPreset::Aggressive
            } else {
                WindowPreset::Max
            };
            CalibrationStep {
                number: n,
                stage: CalibrationStage::Window,
                config: TransferConfigOverride {
                    wifi_stream_count: Some(self.best_streams),
                    chunk_size_bytes: Some(self.best_chunk),
                    wifi_window_preset: Some(window),
                },
            }
        } else {
            CalibrationStep {
                number: n,
                stage: CalibrationStage::Confirmation,
                config: TransferConfigOverride {
                    wifi_stream_count: Some(self.best_streams),
                    chunk_size_bytes: Some(self.best_chunk),
                    wifi_window_preset: Some(self.best_window),
                },
            }
        };
        Some(step)
    }

    /// Records the end of the current run; `beat_best` tells whether its speed beat
    /// the best of its stage so far, in which case its parameter becomes the
    /// stage's winner. The confirmation run changes no winner.
    pub fn record_run(&mut self, beat_best: bool)
        requires
            old(self).finished() < 10,
        ensures
            final(self).finished() == old(self).finished() + 1,
            final(self).winners() == winners_after(
                old(self).winners(),
                (old(self).finished() + 1) as u32,
                beat_best,
            ),
    {
        proof {
            use_type_invariant(&*self);
        }
        let step = self.next_step();
        match step {
            Some(st) => {
                if beat_best {
                    match st.stage {
                        CalibrationStage::Streams => {
                            if let Some(s) = st.config.wifi_stream_count {
                                self.best_streams = s;
                            }
                        },
                        CalibrationStage::ChunkSize => {
                            if let Some(c) = st.config.chunk_size_bytes {
                                self.best_chunk = c;
                            }
                        },
                        CalibrationStage::Window => {
                            if let Some(w) = st.config.wifi_window_preset {
                                self.best_window = w;
                            }
                        },
                        CalibrationStage::Confirmation => {},
                    }
                }
            },
            None => {},
        }
        self.done = self.done + 1;
    }

    /// The winning configuration so far.
    pub fn winning_config(&self) -> (c: TransferConfigOverride)
        ensures
            c == (TransferConfigOverride {
                wifi_stream_count: Some(self.winners().0),
                chunk_size_bytes: Some(self.winners().1),
                wifi_window_preset: Some(self.winners().2),
            }),
    {
        proof {
            use_type_invariant(self);
        }
        TransferConfigOverride {
            wifi_stream_count: Some(self.best_streams),
            chunk_size_bytes: Some(self.best_chunk),
            wifi_window_preset: Some(self.best_window),
        }
    }
}

/// A running calibration: its cancel flag and the benchmark transfer in progress.
#[derive(Debug, Clone, Copy, PartialEq, Eq, Structural)]
pub struct CalibrationSlot {
    pub cancelled: bool,
    pub active_transfer: Option<u128>,
}

/// The running calibrations, by device-pair key; each key occurs once.
pub struct CalibrationRegistry {
    entries: Vec<(String, CalibrationSlot)>,
}

/// The first position of `key` among the entries' keys, if any.
pub open spec fn key_position(keys: Seq<Seq<char>>, key: Seq<char>) -> Option<int> {
    if exists|i: int| 0 <= i < keys.len() && keys[i] == key {
        Some(choose|i: int| 0 <= i < keys.len() && keys[i] == key)
    } else {
        None
    }
}

impl CalibrationRegistry {
    /// The keys in table order.
    pub closed spec fn keys(&self) -> Seq<Seq<char>> {
        Seq::new(self.entries@.len(), |i: int| self.entries@[i].0@)
    }

    /// The slot of each key.
    pub closed spec fn slots(&self) -> Map<Seq<char>, CalibrationSlot> {
        Map::new(
            |k: Seq<char>| self.keys().contains(k),
            |k: Seq<char>| self.entries@[key_position(self.keys(), k)->0].1,
        )
    }

    /// Keys are unique.
    #[verifier::type_invariant]
    pub closed spec fn wf(&self) -> bool {
        self.keys().no_duplicates()
    }

    /// No calibration runs.
    pub fn new() -> (r: Self)
        ensures
            r.slots() == Map::<Seq<char>, CalibrationSlot>::empty(),
    {
        let r = CalibrationRegistry { entries: Vec::new() };
        proof {
            assert(r.slots() =~= Map::<Seq<char>, CalibrationSlot>::empty());
        }
        r
    }

    fn find(&self, key: &str) -> (i: Option<usize>)
        ensures
            match i {
                Some(i) => i < self.entries@.len() && self.keys()[i as int] == key@,
                None => !self.keys().contains(key@),
            },
    {
        proof {
            use_type_invariant(self);
        }
        let mut i: usize = 0;
        while i < self.entries.len()
            invariant
                i <= self.entries@.len(),
                forall|j: int| 0 <= j < i ==> self.keys()[j] != key@,
            decreases self.entries@.len() - i,
        {
            if crate::text::same_text(self.entries[i].0.as_str(), key) {
                return Some(i);
            }
            i = i + 1;
        }
        proof {
            if self.keys().contains(key@) {
                let j = choose|j: int| 0 <= j < self.keys().len() && self.keys()[j] == key@;
                assert(self.keys()[j] != key@);
            }
        }
        None
    }

    /// The slot of a running calibration.
    pub fn slot(&self, key: &str) -> (s: Option<CalibrationSlot>)
        ensures
            s == (if self.slots().contains_key(key@) {
                Some(self.slots()[key@])
            } else {
                None
            }),
    {
        proof {
            use_type_invariant(self);
        }
        match self.find(key) {
            Some(i) => {
                proof {
                    self.lemma_position(i as int);
                }
                Some(self.entries[i].1)
            },
            None => None,
        }
    }

    proof fn lemma_position(&self, i: int)
        requires
            self.wf(),
            0 <= i < self.entries@.len(),
        ensures
            key_position(self.keys(), self.keys()[i]) == Some(i),
            self.slots().contains_key(self.keys()[i]),
            self.slots()[self.keys()[i]] == self.entries@[i].1,
    {
        let k = self.keys()[i];
        assert(self.keys().contains(k));
        let j = key_position(self.keys(), k)->0;
        assert(0 <= j < self.keys().len() && self.keys()[j] == k);
    }

    /// Registers a calibration under `key` (a normalized pair key), not cancelled and
    /// with no transfer yet, replacing an earlier entry of the same key.
    pub fn register(&mut self, key: String)
        ensures
            final(self).slots() == old(self).slots().insert(
                key@,
                CalibrationSlot { cancelled: false, active_transfer: None },
            ),
    {
        proof {
            use_type_invariant(&*self);
        }
        let slot = CalibrationSlot { cancelled: false, active_transfer: None };
        match self.find(key.as_str()) {
            Some(i) => {
                let ghost before = *self;
                let mut entries: Vec<(String, CalibrationSlot)> = Vec::new();
                std::mem::swap(&mut entries, &mut self.entries);
                entries.set(i, (key, slot));
                proof {
                    let after = CalibrationRegistry { entries };
                    assert(after.keys() =~= before.keys());
                }
                self.entries = entries;
                proof {
                    assert(self.keys() =~= before.keys());
                    assert forall|k: Seq<char>| #[trigger] self.slots().contains_key(k) implies self.slots()[k]
                        == before.slots().insert(key@, slot)[k] by {
                        let j = key_position(self.keys(), k)->0;
                        assert(self.keys().contains(k));
                        if k == key@ {
                            self.lemma_position(i as int);
                        } else {
                            before.lemma_position(j);
                            assert(j != i);
                        }
                    }
                    assert(self.slots() =~= before.slots().insert(key@, slot));
                }
            },
            None => {
                let ghost before = *self;
                let mut entries: Vec<(String, CalibrationSlot)> = Vec::new();
                std::mem::swap(&mut entries, &mut self.entries);
                entries.push((key, slot));
                proof {
                    let after = CalibrationRegistry { entries };
                    assert(after.keys() =~= before.keys().push(key@));
                }
                self.entries = entries;
                proof {
                    let n = before.entries@.len() as int;
                    assert(self.keys() =~= before.keys().push(key@));
                    assert forall|k: Seq<char>| #[trigger] self.slots().contains_key(k) implies self.slots()[k]
                        == before.slots().insert(key@, slot)[k] by {
                        if k == key@ {
                            self.lemma_position(n);
                        } else {
                            let j = key_position(before.keys(), k)->0;
                            assert(before.keys().contains(k));
                            before.lemma_position(j);
                            assert(self.keys()[j] == k);
                            self.lemma_position(j);
                        }
                    }
                    assert forall|k: Seq<char>| self.slots().contains_key(k) <==> before.slots().insert(
                        key@,
                        slot,
                    ).contains_key(k) by {
                        if before.keys().contains(k) {
                            let j = choose|j: int| 0 <= j < before.keys().len() && before.keys()[j] == k;
                            assert(self.keys()[j] == k);
                        }
                        if k == key@ {
                            assert(self.keys()[n] == k);
                        }
                    }
                    assert(self.slots() =~= before.slots().insert(key@, slot));
                }
            },
        }
    }

    /// Records the benchmark transfer a calibration is running.
    pub fn set_active_transfer(&mut self, key: &str, transfer: Option<u128>)
        ensures
            final(self).slots() == if old(self).slots().contains_key(key@) {
                old(self).slots().insert(
                    key@,
                    CalibrationSlot { active_transfer: transfer, ..old(self).slots()[key@] },
                )
            } else {
                old(self).slots()
            },
    {
        proof {
            use_type_invariant(&*self);
        }
        match self.find(key) {
            Some(i) => {
                let ghost before = *self;
                proof {
                    before.lemma_position(i as int);
                }
                let old_slot = self.entries[i].1;
                let name = self.entries[i].0.clone();
                let slot = CalibrationSlot { active_transfer: transfer, ..old_slot };
                let mut entries: Vec<(String, CalibrationSlot)> = Vec::new();
                std::mem::swap(&mut entries, &mut self.entries);
                entries.set(i, (name, slot));
                proof {
                    let after = CalibrationRegistry { entries };
                    assert(after.keys() =~= before.keys());
                }
                self.entries = entries;
                proof {
                    assert(self.keys() =~= before.keys());
                    assert forall|k: Seq<char>| #[trigger] self.slots().contains_key(k) implies self.slots()[k]
                        == before.slots().insert(key@, slot)[k] by {
                        let j = key_position(self.keys(), k)->0;
                        assert(self.keys().contains(k));
                        if k == key@ {
                            self.lemma_position(i as int);
                        } else {
                            before.lemma_position(j);
                        }
                    }
                    assert(self.slots() =~= before.slots().insert(key@, slot));
                }
            },
            None => {},
        }
    }

    /// Removes the entry of `key`.
    pub fn unregister(&mut self, key: &str)
        ensures
            final(self).slots() == old(self).slots().remove(key@),
    {
        proof {
            use_type_invariant(&*self);
        }
        match self.find(key) {
            Some(i) => {
                let ghost before = *self;
                let mut entries: Vec<(String, CalibrationSlot)> = Vec::new();
                std::mem::swap(&mut entries, &mut self.entries);
                entries.remove(i);
                proof {
                    let after = CalibrationRegistry { entries };
                    assert(after.keys() =~= before.keys().remove(i as int));
                    assert forall|a: int, b: int| 0 <= a < b < after.keys().len() implies after.keys()[a]
                        != after.keys()[b] by {
                        let a2 = if a < i { a } else { a + 1 };
                        let b2 = if b < i { b } else { b + 1 };
                        assert(after.keys()[a] == before.keys()[a2]);
                        assert(after.keys()[b] == before.keys()[b2]);
                    }
                }
                self.entries = entries;
                proof {
                    assert(self.keys() =~= before.keys().remove(i as int));
                    assert forall|k: Seq<char>| self.slots().contains_key(k) <==> before.slots().remove(
                        key@,
                    ).contains_key(k) by {
                        if self.keys().contains(k) {
                            let j = choose|j: int| 0 <= j < self.keys().len() && self.keys()[j] == k;
                            if j < i {
                                assert(before.keys()[j] == k);
                            } else {
                                assert(before.keys()[j + 1] == k);
                            }
                        }
                        if before.keys().contains(k) && k != key@ {
                            let j = choose|j: int| 0 <= j < before.keys().len() && before.keys()[j] == k;
                            assert(j != i);
                            if j < i {
                                assert(self.keys()[j] == k);
                            } else {
                                assert(self.keys()[j - 1] == k);
                            }
                        }
                    }
                    assert forall|k: Seq<char>| #[trigger] self.slots().contains_key(k) implies self.slots()[k]
                        == before.slots()[k] by {
                        let j = key_position(self.keys(), k)->0;
                        assert(self.keys().contains(k));
                        self.lemma_position(j);
                        if j < i {
                            before.lemma_position(j);
                        } else {
                            before.lemma_position(j + 1);
                        }
                    }
                    assert(self.slots() =~= before.slots().remove(key@));
                }
            },
            None => {
                proof {
                    assert(self.slots() =~= old(self).slots().remove(key@));
                }
            },
        }
    }
}

/// Cancels the calibration running for `target_key` (normalized as a pair key):
/// its cancel flag is set, and the benchmark transfer it is running, if any, is
/// returned so that the caller cancels it too. Nothing changes when no calibration
/// runs for the key.
pub fn cancel_calibration(registry: &mut CalibrationRegistry, target_key: &str) -> (active: Option<u128>)
    ensures
        ({
            let k = spec_pair_key(target_key@);
            if old(registry).slots().contains_key(k) {
                &&& final(registry).slots() == old(registry).slots().insert(
                    k,
                    CalibrationSlot { cancelled: true, ..old(registry).slots()[k] },
                )
                &&& active == old(registry).slots()[k].active_transfer
            } else {
                &&& final(registry).slots() == old(registry).slots()
                &&& active is None
            }
        }),
{
    proof {
        use_type_invariant(&*registry);
    }
    let normalized = get_pair_key(target_key);
    match registry.find(normalized.as_str()) {
        Some(i) => {
            let ghost before = *registry;
            proof {
                before.lemma_position(i as int);
            }
            let old_slot = registry.entries[i].1;
            let slot = CalibrationSlot { cancelled: true, ..old_slot };
            let mut entries: Vec<(String, CalibrationSlot)> = Vec::new();
            std::mem::swap(&mut entries, &mut registry.entries);
            entries.set(i, (normalized, slot));
            proof {
                let after = CalibrationRegistry { entries };
                assert(after.keys() =~= before.keys());
            }
            registry.entries = entries;
            proof {
                assert(registry.keys() =~= before.keys());
                let k = spec_pair_key(target_key@);
                assert forall|x: Seq<char>| #[trigger] registry.slots().contains_key(x) implies registry.slots()[x]
                    == before.slots().insert(k, slot)[x] by {
                    let j = key_position(registry.keys(), x)->0;
                    assert(registry.keys().contains(x));
                    if x == k {
                        registry.lemma_position(i as int);
                    } else {
                        before.lemma_position(j);
                    }
                }
                assert(registry.slots() =~= before.slots().insert(k, slot));
            }
            old_slot.active_transfer
        },
        None => None,
    }
}

} // verus!
