//! The metronome's count of beats and measures, and the message that keeps
//! the metronomes of a session in step.
//!
//! The clock counts samples: every `samples_per_beat` samples a beat ends,
//! and after `beats_per_measure` beats a measure. The click itself (a decaying
//! sine) is synthesised by the caller from the phase the clock reports.
use vstd::prelude::*;
use vstd::arithmetic::div_mod::{lemma_fundamental_div_mod, lemma_fundamental_div_mod_converse};
use crate::bytes::{be32, be64, lemma_be32_roundtrip, lemma_be64_roundtrip, push_be32, push_be64, read_be32, read_be32_at, read_be64, read_be64_at};

verus! {

/// Slowest tempo, in beats per minute
pub const MIN_BPM: u32 = 20;

/// Fastest tempo, in beats per minute
pub const MAX_BPM: u32 = 300;

/// Length of a sync message in bytes
pub const SYNC_MESSAGE_SIZE: usize = 24;

/// Where a metronome is: the beat within the measure, the measure, the
/// sample position and the samples played since the start.
#[derive(Debug, Clone, Copy, PartialEq, Eq, Structural)]
pub struct MetronomeState {
    /// Current beat (0-indexed within the measure)
    pub current_beat: u32,
    /// Current measure number
    pub measure: u32,
    /// Sample position, counted from the start
    pub sample_position: u64,
    /// Total samples since start
    pub total_samples: u64,
}

/// The state at the start.
pub open spec fn start_state() -> MetronomeState {
    MetronomeState { current_beat: 0, measure: 0, sample_position: 0, total_samples: 0 }
}

/// The state one sample later.
pub open spec fn tick(s: MetronomeState, samples_per_beat: u32, beats_per_measure: u32) -> MetronomeState {
    let pos = (s.sample_position + 1) as u64;
    let total = (s.total_samples + 1) as u64;
    if pos % samples_per_beat as u64 == 0 {
        if s.current_beat + 1 >= beats_per_measure {
            MetronomeState { current_beat: 0, measure: (s.measure + 1) as u32, sample_position: pos, total_samples: total }
        } else {
            MetronomeState { current_beat: (s.current_beat + 1) as u32, sample_position: pos, total_samples: total, ..s }
        }
    } else {
        MetronomeState { sample_position: pos, total_samples: total, ..s }
    }
}

/// The beats counted so far.
pub open spec fn beats_counted(s: MetronomeState, beats_per_measure: u32) -> int {
    s.measure * beats_per_measure + s.current_beat
}

/// The counting law: the beats counted are the whole beats in the samples
/// played, and the beat stays inside its measure.
pub proof fn lemma_tick_counts_beats(s: MetronomeState, samples_per_beat: u32, beats_per_measure: u32)
    requires
        samples_per_beat > 0,
        beats_per_measure > 0,
        s.current_beat < beats_per_measure,
        beats_counted(s, beats_per_measure) == (s.sample_position as int) / (samples_per_beat as int),
        s.sample_position < u64::MAX,
        s.total_samples < u64::MAX,
        s.measure < u32::MAX,
    ensures
        tick(s, samples_per_beat, beats_per_measure).current_beat < beats_per_measure,
        beats_counted(tick(s, samples_per_beat, beats_per_measure), beats_per_measure)
            == (tick(s, samples_per_beat, beats_per_measure).sample_position as int) / (samples_per_beat as int),
        tick(s, samples_per_beat, beats_per_measure).sample_position == s.sample_position + 1,
{
    let d = samples_per_beat as int;
    let p = s.sample_position as int;
    lemma_fundamental_div_mod(p, d);
    let q = p / d;
    let r = p % d;
    assert(0 <= r < d);
    assert((q + 1) * d == d * q + d && q * d == d * q) by (nonlinear_arith);
    if r + 1 == d {
        lemma_fundamental_div_mod_converse(p + 1, d, q + 1, 0);
    } else {
        lemma_fundamental_div_mod_converse(p + 1, d, q, r + 1);
    }
    let t = tick(s, samples_per_beat, beats_per_measure);
    if (p + 1) % d == 0 && s.current_beat + 1 >= beats_per_measure {
        assert(s.current_beat + 1 == beats_per_measure);
        assert(beats_counted(t, beats_per_measure) == (s.measure + 1) * beats_per_measure) ;
        assert((s.measure + 1) * beats_per_measure == s.measure * beats_per_measure + beats_per_measure)
            by (nonlinear_arith);
    }
}

/// Where a click is: the sample within the beat, and whether the beat is
/// the first of its measure.
#[derive(Debug, Clone, Copy, PartialEq, Eq, Structural)]
pub struct ClickPhase {
    pub position_in_beat: u32,
    pub downbeat: bool,
}

/// The click phase of the sample at state `s`, if the sample falls within
/// the first `click_samples` samples of a beat.
pub open spec fn click_at(s: MetronomeState, samples_per_beat: u32, click_samples: u32) -> Option<ClickPhase> {
    let pos = (s.sample_position % samples_per_beat as u64) as u32;
    if pos < click_samples {
        Some(ClickPhase { position_in_beat: pos, downbeat: s.current_beat == 0 })
    } else {
        None
    }
}

/// A tempo limited to `MIN_BPM..=MAX_BPM`.
pub open spec fn clamp_bpm(bpm: u32) -> u32 {
    if bpm < MIN_BPM {
        MIN_BPM
    } else if bpm > MAX_BPM {
        MAX_BPM
    } else {
        bpm
    }
}

/// The counting part of a metronome.
#[derive(Debug)]
pub struct MetronomeClock {
    bpm: u32,
    beats_per_measure: u32,
    sample_rate: u32,
    samples_per_beat: u32,
    click_duration_samples: u32,
    running: bool,
    state: MetronomeState,
}

/// A clock as plain values: tempo, beats per measure, sample rate, samples
/// per beat, click length, running, position.
pub struct ClockModel {
    pub bpm: u32,
    pub beats_per_measure: u32,
    pub sample_rate: u32,
    pub samples_per_beat: u32,
    pub click_samples: u32,
    pub running: bool,
    pub state: MetronomeState,
}

impl View for MetronomeClock {
    type V = ClockModel;

    closed spec fn view(&self) -> ClockModel {
        ClockModel {
            bpm: self.bpm,
            beats_per_measure: self.beats_per_measure,
            sample_rate: self.sample_rate,
            samples_per_beat: self.samples_per_beat,
            click_samples: self.click_duration_samples,
            running: self.running,
            state: self.state,
        }
    }
}

impl MetronomeClock {
    /// A stopped clock at the start: a beat lasts a minute's samples over
    /// the tempo, and a click lasts a twentieth of a second (50 ms).
    pub fn new(bpm: u32, beats_per_measure: u32, sample_rate: u32) -> (c: Self)
        requires
            bpm > 0,
            sample_rate * 60 <= u32::MAX,
        ensures
            c@.bpm == bpm,
            c@.beats_per_measure == beats_per_measure,
            c@.sample_rate == sample_rate,
            c@.samples_per_beat == (sample_rate * 60) as int / (bpm as int),
            c@.click_samples == sample_rate / 20,
            !c@.running,
            c@.state == start_state(),
    {
        MetronomeClock {
            bpm,
            beats_per_measure,
            sample_rate,
            samples_per_beat: (sample_rate * 60) / bpm,
            click_duration_samples: sample_rate / 20,
            running: false,
            state: MetronomeState { current_beat: 0, measure: 0, sample_position: 0, total_samples: 0 },
        }
    }

    /// Starts the clock from the beginning.
    pub fn start(&mut self)
        ensures
            final(self)@ == (ClockModel { running: true, state: start_state(), ..old(self)@ }),
    {
        self.running = true;
        self.reset();
    }

    /// Stops the clock where it is.
    pub fn stop(&mut self)
        ensures
            final(self)@ == (ClockModel { running: false, ..old(self)@ }),
    {
        self.running = false;
    }

    /// Goes back to the beginning.
    pub fn reset(&mut self)
        ensures
            final(self)@ == (ClockModel { state: start_state(), ..old(self)@ }),
    {
        self.state = MetronomeState { current_beat: 0, measure: 0, sample_position: 0, total_samples: 0 };
    }

    pub fn is_running(&self) -> (r: bool)
        ensures
            r == self@.running,
    {
        self.running
    }

    /// Sets the tempo, limited to `MIN_BPM..=MAX_BPM`.
    pub fn set_bpm(&mut self, bpm: u32)
        requires
            old(self)@.sample_rate * 60 <= u32::MAX,
        ensures
            final(self)@ == (ClockModel {
                bpm: clamp_bpm(bpm),
                samples_per_beat: ((old(self)@.sample_rate * 60) as int / (clamp_bpm(bpm) as int)) as u32,
                ..old(self)@
            }),
    {
        let b = if bpm < MIN_BPM {
            MIN_BPM
        } else if bpm > MAX_BPM {
            MAX_BPM
        } else {
            bpm
        };
        self.bpm = b;
        self.samples_per_beat = (self.sample_rate * 60) / b;
    }

    pub fn bpm(&self) -> (r: u32)
        ensures
            r == self@.bpm,
    {
        self.bpm
    }

    pub fn beats_per_measure(&self) -> (r: u32)
        ensures
            r == self@.beats_per_measure,
    {
        self.beats_per_measure
    }

    pub fn state(&self) -> (r: MetronomeState)
        ensures
            r == self@.state,
    {
        self.state
    }

    /// Takes over the position of another metronome.
    pub fn sync_to(&mut self, state: MetronomeState)
        ensures
            final(self)@ == (ClockModel { state, ..old(self)@ }),
    {
        self.state = state;
    }

    /// Plays one sample: when running, reports whether the sample is part
    /// of a click and moves the count on by one sample; when stopped, is
    /// silent and does not move.
    pub fn next_sample(&mut self) -> (r: Option<ClickPhase>)
        requires
            old(self)@.samples_per_beat > 0,
            old(self)@.state.sample_position < u64::MAX,
            old(self)@.state.total_samples < u64::MAX,
            old(self)@.state.measure < u32::MAX,
            old(self)@.state.current_beat < u32::MAX,
        ensures
            !old(self)@.running ==> r is None && final(self)@ == old(self)@,
            old(self)@.running ==> r == click_at(old(self)@.state, old(self)@.samples_per_beat, old(self)@.click_samples)
                && final(self)@ == (ClockModel {
                    state: tick(old(self)@.state, old(self)@.samples_per_beat, old(self)@.beats_per_measure),
                    ..old(self)@
                }),
    {
        if !self.running {
            return None;
        }
        let spb = self.samples_per_beat as u64;
        let pos_in_beat = (self.state.sample_position % spb) as u32;
        let click = if pos_in_beat < self.click_duration_samples {
            Some(ClickPhase { position_in_beat: pos_in_beat, downbeat: self.state.current_beat == 0 })
        } else {
            None
        };
        let pos = self.state.sample_position + 1;
        let mut beat = self.state.current_beat;
        let mut measure = self.state.measure;
        if pos % spb == 0 {
            beat = beat + 1;
            if beat >= self.beats_per_measure {
                beat = 0;
                measure = measure + 1;
            }
        }
        self.state = MetronomeState {
            current_beat: beat,
            measure,
            sample_position: pos,
            total_samples: self.state.total_samples + 1,
        };
        click
    }
}

/// The message that shares a metronome with the peers
#[derive(Debug, Clone, Copy, PartialEq, Eq, Structural)]
pub struct MetronomeSync {
    pub bpm: u32,
    pub beats_per_measure: u32,
    pub current_beat: u32,
    pub measure: u32,
    pub sample_position: u64,
}

/// The bytes of a sync message: the four 32-bit fields and the 64-bit
/// position, big-endian, in declaration order.
pub open spec fn sync_bytes(m: MetronomeSync) -> Seq<u8> {
    be32(m.bpm) + be32(m.beats_per_measure) + be32(m.current_beat) + be32(m.measure) + be64(
        m.sample_position,
    )
}

/// The sync message in `data`, if it has at least 24 bytes; later bytes are
/// ignored.
pub open spec fn parse_sync(data: Seq<u8>) -> Option<MetronomeSync> {
    if data.len() < SYNC_MESSAGE_SIZE {
        None
    } else {
        Some(
            MetronomeSync {
                bpm: read_be32_at(data, 0),
                beats_per_measure: read_be32_at(data, 4),
                current_beat: read_be32_at(data, 8),
                measure: read_be32_at(data, 12),
                sample_position: read_be64_at(data, 16),
            },
        )
    }
}

impl MetronomeSync {
    /// The message describing `clock`.
    pub fn from_clock(clock: &MetronomeClock) -> (m: Self)
        ensures
            m.bpm == clock@.bpm,
            m.beats_per_measure == clock@.beats_per_measure,
            m.current_beat == clock@.state.current_beat,
            m.measure == clock@.state.measure,
            m.sample_position == clock@.state.sample_position,
    {
        let state = clock.state();
        MetronomeSync {
            bpm: clock.bpm(),
            beats_per_measure: clock.beats_per_measure(),
            current_beat: state.current_beat,
            measure: state.measure,
            sample_position: state.sample_position,
        }
    }

    pub fn to_bytes(&self) -> (r: Vec<u8>)
        ensures
            r@ == sync_bytes(*self),
    {
        let mut bytes: Vec<u8> = Vec::new();
        push_be32(&mut bytes, self.bpm);
        push_be32(&mut bytes, self.beats_per_measure);
        push_be32(&mut bytes, self.current_beat);
        push_be32(&mut bytes, self.measure);
        push_be64(&mut bytes, self.sample_position);
        assert(bytes@ =~= sync_bytes(*self));
        bytes
    }

    pub fn from_bytes(data: &[u8]) -> (r: Option<Self>)
        ensures
            r == parse_sync(data@),
    {
        if data.len() < SYNC_MESSAGE_SIZE {
            return None;
        }
        Some(
            MetronomeSync {
                bpm: read_be32(data, 0),
                beats_per_measure: read_be32(data, 4),
                current_beat: read_be32(data, 8),
                measure: read_be32(data, 12),
                sample_position: read_be64(data, 16),
            },
        )
    }
}

/// Reading the bytes of a sync message gives the message back.
pub proof fn lemma_sync_roundtrip(m: MetronomeSync)
    ensures
        sync_bytes(m).len() == SYNC_MESSAGE_SIZE,
        parse_sync(sync_bytes(m)) == Some(m),
{
    let b = sync_bytes(m);
    lemma_be32_roundtrip(m.bpm);
    lemma_be32_roundtrip(m.beats_per_measure);
    lemma_be32_roundtrip(m.current_beat);
    lemma_be32_roundtrip(m.measure);
    lemma_be64_roundtrip(m.sample_position);
    assert(b.subrange(16, 24) =~= be64(m.sample_position));
    assert(read_be64_at(b, 16) == read_be64_at(be64(m.sample_position), 0)) by {
        let w = be64(m.sample_position);
        assert(forall|k: int| 0 <= k < 8 ==> b[16 + k] == w[k]);
    }
}

} // verus!
