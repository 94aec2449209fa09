//! Adaptive jitter buffer for packet reordering and timing.
//!
//! Buffers incoming packets by sequence number so that they are played in
//! order, reports packets that did not arrive in time as lost, and adapts
//! its delay to the observed loss.
use vstd::prelude::*;
use crate::keyed::{
    has_key, lemma_table_empty, lemma_table_index, lemma_table_insert_at, lemma_table_len,
    lemma_table_remove, lemma_table_update, table, unique_keys,
};
use crate::sequence_tracker::{seq_add, seq_diff, sequence_diff};

verus! {

/// Configuration for the jitter buffer
#[derive(Debug, Clone, Copy)]
pub struct JitterBufferConfig {
    /// Minimum buffer delay in frames (default: 1, must be >= 1)
    pub min_delay_frames: u32,
    /// Maximum buffer delay in frames (default: 10)
    pub max_delay_frames: u32,
    /// Initial buffer delay in frames (default: 2)
    pub initial_delay_frames: u32,
}

/// A configuration that buffers at least one frame, with the initial delay
/// between the minimum and the maximum.
pub open spec fn config_valid(c: JitterBufferConfig) -> bool {
    &&& 1 <= c.min_delay_frames
    &&& c.min_delay_frames <= c.max_delay_frames
    &&& c.min_delay_frames <= c.initial_delay_frames <= c.max_delay_frames
}

/// The normalized form of a configuration.
pub open spec fn validated_spec(c: JitterBufferConfig) -> JitterBufferConfig {
    let min = if c.min_delay_frames < 1 {
        1u32
    } else {
        c.min_delay_frames
    };
    let max = if c.max_delay_frames < min {
        min
    } else {
        c.max_delay_frames
    };
    let initial = if c.initial_delay_frames < min {
        min
    } else if c.initial_delay_frames > max {
        max
    } else {
        c.initial_delay_frames
    };
    JitterBufferConfig { min_delay_frames: min, max_delay_frames: max, initial_delay_frames: initial }
}

impl JitterBufferConfig {
    /// Validate and normalize the configuration: min_delay_frames >= 1,
    /// max_delay_frames >= min_delay_frames, initial_delay_frames clamped
    /// between them.
    pub fn validated(self) -> (r: Self)
        ensures
            r == validated_spec(self),
            config_valid(r),
    {
        let min_delay_frames = if self.min_delay_frames < 1 {
            1
        } else {
            self.min_delay_frames
        };
        let max_delay_frames = if self.max_delay_frames < min_delay_frames {
            min_delay_frames
        } else {
            self.max_delay_frames
        };
        let initial_delay_frames = if self.initial_delay_frames < min_delay_frames {
            min_delay_frames
        } else if self.initial_delay_frames > max_delay_frames {
            max_delay_frames
        } else {
            self.initial_delay_frames
        };
        JitterBufferConfig { min_delay_frames, max_delay_frames, initial_delay_frames }
    }
}

impl Default for JitterBufferConfig {
    fn default() -> (r: Self)
        ensures
            r.min_delay_frames == 1,
            r.max_delay_frames == 10,
            r.initial_delay_frames == 2,
    {
        JitterBufferConfig { min_delay_frames: 1, max_delay_frames: 10, initial_delay_frames: 2 }
    }
}

/// Validating a configuration twice changes nothing more.
pub proof fn lemma_validated_idempotent(c: JitterBufferConfig)
    ensures
        validated_spec(validated_spec(c)) == validated_spec(c),
        config_valid(validated_spec(c)),
        config_valid(c) ==> validated_spec(c) == c,
{
}

/// Packet entry in the jitter buffer
#[derive(Debug)]
struct BufferedPacket {
    sequence: u32,
    timestamp: u32,
    payload: Vec<u8>,
}

/// Result from popping the jitter buffer
#[derive(Debug)]
pub enum JitterBufferResult {
    /// Normal packet available
    Packet { sequence: u32, timestamp: u32, payload: Vec<u8> },
    /// Packet was lost (not received in time)
    Lost { sequence: u32 },
    /// Buffer underrun (not enough packets buffered yet)
    Underrun,
}

/// Buffered packets: sequence to timestamp and payload.
pub type JitterPackets = Map<u32, (u32, Seq<u8>)>;

/// The state of a jitter buffer: buffered packets, next sequence to play,
/// current delay in frames, packets inserted, played, lost, late arrivals,
/// whether playback started, and the first timestamp seen.
pub type JitterView = (JitterPackets, Option<u32>, u32, u64, u64, u64, u64, bool, Option<u32>);

/// The lowest buffered sequence.
pub open spec fn min_seq(m: JitterPackets) -> u32 {
    choose|k: u32| m.contains_key(k) && forall|j: u32| m.contains_key(j) ==> k <= j
}

/// Drops the lowest sequence when more than `limit` packets are buffered.
pub open spec fn prune_spec(m: JitterPackets, limit: int) -> JitterPackets {
    if m.dom().len() > limit {
        m.remove(min_seq(m))
    } else {
        m
    }
}

/// Number of buffered frames, as reported.
pub open spec fn depth_spec(v: JitterView) -> u32 {
    v.0.dom().len() as u32
}

/// The state after inserting packet `s` with timestamp `ts` and payload `p`.
pub open spec fn insert_spec(
    v: JitterView,
    c: JitterBufferConfig,
    s: u32,
    ts: u32,
    p: Seq<u8>,
) -> JitterView {
    let first = if v.8 is None {
        Some(ts)
    } else {
        v.8
    };
    let next = if !v.7 {
        match v.1 {
            None => Some(s),
            Some(cur) => if seq_diff(s, cur) < 0 {
                Some(s)
            } else {
                Some(cur)
            },
        }
    } else {
        v.1
    };
    let late = if v.7 && v.1 is Some && seq_diff(s, v.1->0) < 0 {
        (v.6 + 1) as u64
    } else {
        v.6
    };
    (
        prune_spec(v.0.insert(s, (ts, p)), 2 * c.max_delay_frames),
        next,
        v.2,
        (v.3 + 1) as u64,
        v.4,
        v.5,
        late,
        v.7,
        first,
    )
}

/// What a pop does: an underrun until playback can start, then the next
/// sequence in order, as a packet when it is buffered and as lost otherwise.
pub open spec fn pop_post(old: JitterView, new: JitterView, r: JitterBufferResult) -> bool {
    match old.1 {
        None => r is Underrun && new == old,
        Some(n) => if !old.7 && depth_spec(old) < old.2 {
            r is Underrun && new == old
        } else {
            let next = Some(seq_add(n, 1));
            if old.0.contains_key(n) {
                &&& r matches JitterBufferResult::Packet { sequence, timestamp, payload } && sequence
                    == n && (timestamp, payload@) == old.0[n]
                &&& new == (
                    old.0.remove(n),
                    next,
                    old.2,
                    old.3,
                    (old.4 + 1) as u64,
                    old.5,
                    old.6,
                    true,
                    old.8,
                )
            } else {
                &&& r matches JitterBufferResult::Lost { sequence } && sequence == n
                &&& new == (old.0, next, old.2, old.3, old.4, (old.5 + 1) as u64, old.6, true, old.8)
            }
        },
    }
}

/// The delay after adapting: one frame more when over 5% of the inserted
/// packets were lost, one frame less when under 1% were lost and more
/// frames are buffered than the delay, within the configured bounds. The
/// loss ratio thresholds are compared exactly, in integers.
pub open spec fn adapt_spec(v: JitterView, c: JitterBufferConfig) -> u32 {
    let high = v.3 > 0 && 20 * v.5 > v.3;
    let low = v.3 == 0 || 100 * v.5 < v.3;
    if high {
        if v.2 < c.max_delay_frames {
            (v.2 + 1) as u32
        } else {
            v.2
        }
    } else if low && depth_spec(v) > v.2 {
        if v.2 > c.min_delay_frames {
            (v.2 - 1) as u32
        } else {
            v.2
        }
    } else {
        v.2
    }
}

/// The state of a new or reset buffer with configuration `c`.
pub open spec fn fresh_jitter(c: JitterBufferConfig) -> JitterView {
    (Map::empty(), None, c.initial_delay_frames, 0, 0, 0, 0, false, None)
}

/// Adaptive jitter buffer
pub struct JitterBuffer {
    /// Packets in increasing sequence order
    packets: Vec<BufferedPacket>,
    /// Next sequence number expected for playback
    next_play_sequence: Option<u32>,
    config: JitterBufferConfig,
    /// Current buffer delay in frames
    current_delay_frames: u32,
    packets_inserted: u64,
    packets_played: u64,
    packets_lost: u64,
    /// Count of late arrivals (received after play deadline)
    late_arrivals: u64,
    /// Whether buffer has started playback
    playing: bool,
    /// Timestamp of first packet (for sync)
    first_timestamp: Option<u32>,
}

impl View for JitterBuffer {
    type V = JitterView;

    closed spec fn view(&self) -> JitterView {
        (
            table(self.entries()),
            self.next_play_sequence,
            self.current_delay_frames,
            self.packets_inserted,
            self.packets_played,
            self.packets_lost,
            self.late_arrivals,
            self.playing,
            self.first_timestamp,
        )
    }
}

/// Jitter buffer statistics
#[derive(Debug, Clone, Copy)]
pub struct JitterBufferStats {
    pub packets_inserted: u64,
    pub packets_played: u64,
    pub packets_lost: u64,
    pub late_arrivals: u64,
    pub current_depth: u32,
    pub current_delay_frames: u32,
}

impl JitterBuffer {
    closed spec fn entries(&self) -> Seq<(u32, (u32, Seq<u8>))> {
        self.packets@.map_values(|p: BufferedPacket| (p.sequence, (p.timestamp, p.payload@)))
    }

    /// The configuration in force (validated at construction).
    pub closed spec fn settings(&self) -> JitterBufferConfig {
        self.config
    }

    /// Packets are kept in increasing sequence order, no more than twice the
    /// maximum delay of them; the configuration is valid and the delay lies
    /// within its bounds.
    pub closed spec fn wf(&self) -> bool {
        &&& forall|i: int, j: int|
            0 <= i < j < self.packets@.len() ==> self.packets@[i].sequence
                < self.packets@[j].sequence
        &&& config_valid(self.config)
        &&& self.config.min_delay_frames <= self.current_delay_frames
            <= self.config.max_delay_frames
        &&& self.packets@.len() <= 2 * self.config.max_delay_frames
    }

    proof fn lemma_unique(&self)
        requires
            self.wf(),
        ensures
            unique_keys(self.entries()),
            table(self.entries()).dom().finite(),
            table(self.entries()).dom().len() == self.packets@.len(),
    {
        assert(unique_keys(self.entries())) by {
            assert forall|i: int, j: int|
                0 <= i < self.entries().len() && 0 <= j < self.entries().len() && i != j implies
                self.entries()[i].0 != self.entries()[j].0 by {
                if i < j {
                    assert(self.packets@[i].sequence < self.packets@[j].sequence);
                } else {
                    assert(self.packets@[j].sequence < self.packets@[i].sequence);
                }
            }
        }
        lemma_table_len(self.entries());
    }

    /// Create a new jitter buffer with default configuration
    pub fn new() -> (r: Self)
        ensures
            r.wf(),
            r.settings() == validated_spec(
                JitterBufferConfig { min_delay_frames: 1, max_delay_frames: 10, initial_delay_frames: 2 },
            ),
            r@ == fresh_jitter(r.settings()),
    {
        Self::with_config(JitterBufferConfig::default())
    }

    /// Create a new jitter buffer with custom configuration, which is validated
    pub fn with_config(config: JitterBufferConfig) -> (r: Self)
        ensures
            r.wf(),
            r.settings() == validated_spec(config),
            r@ == fresh_jitter(r.settings()),
    {
        let config = config.validated();
        let r = JitterBuffer {
            packets: Vec::new(),
            next_play_sequence: None,
            current_delay_frames: config.initial_delay_frames,
            packets_inserted: 0,
            packets_played: 0,
            packets_lost: 0,
            late_arrivals: 0,
            playing: false,
            first_timestamp: None,
            config,
        };
        proof {
            assert(r.entries() =~= Seq::<(u32, (u32, Seq<u8>))>::empty());
            lemma_table_empty::<u32, (u32, Seq<u8>)>();
        }
        r
    }

    /// Stores a packet under its sequence, keeping the order.
    fn store(&mut self, sequence: u32, timestamp: u32, payload: Vec<u8>)
        requires
            old(self).wf(),
        ensures
            forall|i: int, j: int|
                0 <= i < j < final(self).packets@.len() ==> final(self).packets@[i].sequence
                    < final(self).packets@[j].sequence,
            unique_keys(final(self).entries()),
            table(final(self).entries()) == table(old(self).entries()).insert(
                sequence,
                (timestamp, payload@),
            ),
            final(self).packets@.len() <= old(self).packets@.len() + 1,
            final(self).config == old(self).config,
            final(self).current_delay_frames == old(self).current_delay_frames,
            final(self).next_play_sequence == old(self).next_play_sequence,
            final(self).packets_inserted == old(self).packets_inserted,
            final(self).packets_played == old(self).packets_played,
            final(self).packets_lost == old(self).packets_lost,
            final(self).late_arrivals == old(self).late_arrivals,
            final(self).playing == old(self).playing,
            final(self).first_timestamp == old(self).first_timestamp,
    {
        proof {
            self.lemma_unique();
        }
        let ghost es = self.entries();
        let ghost pv = payload@;
        let mut pos: usize = 0;
        while pos < self.packets.len() && self.packets[pos].sequence < sequence
            invariant
                pos <= self.packets@.len(),
                forall|i: int| 0 <= i < pos ==> self.packets@[i].sequence < sequence,
            decreases self.packets@.len() - pos,
        {
            pos = pos + 1;
        }
        let packet = BufferedPacket { sequence, timestamp, payload };
        if pos < self.packets.len() && self.packets[pos].sequence == sequence {
            self.packets.set(pos, packet);
            proof {
                assert(self.entries() =~= es.update(pos as int, (es[pos as int].0, (timestamp, pv))));
                lemma_table_update(es, pos as int, (timestamp, pv));
            }
        } else {
            proof {
                assert(!table(es).contains_key(sequence)) by {
                    if has_key(es, sequence) {
                        let x = choose|x: int| 0 <= x < es.len() && es[x].0 == sequence;
                        if x >= pos {
                            assert(old(self).packets@[x].sequence >= old(
                                self,
                            ).packets@[pos as int].sequence);
                        }
                    }
                }
            }
            self.packets.insert(pos, packet);
            proof {
                assert(self.entries() =~= es.insert(pos as int, (sequence, (timestamp, pv))));
                lemma_table_insert_at(es, pos as int, sequence, (timestamp, pv));
                assert forall|i: int, j: int|
                    0 <= i < j < self.packets@.len() implies self.packets@[i].sequence
                    < self.packets@[j].sequence by {
                    let o = old(self).packets@;
                    if j < pos {
                        assert(self.packets@[i] == o[i] && self.packets@[j] == o[j]);
                    } else if j == pos {
                        assert(self.packets@[i] == o[i]);
                    } else if i == pos {
                        assert(self.packets@[j] == o[j - 1]);
                        assert(o[pos as int].sequence >= sequence);
                        assert(o[j - 1].sequence >= o[pos as int].sequence);
                    } else if i < pos {
                        assert(self.packets@[i] == o[i] && self.packets@[j] == o[j - 1]);
                    } else {
                        assert(self.packets@[i] == o[i - 1] && self.packets@[j] == o[j - 1]);
                    }
                }
            }
        }
    }

    /// Insert a received packet into the buffer
    pub fn insert(&mut self, sequence: u32, timestamp: u32, payload: Vec<u8>)
        requires
            old(self).wf(),
            old(self)@.3 < u64::MAX,
            old(self)@.6 < u64::MAX,
        ensures
            final(self).wf(),
            final(self).settings() == old(self).settings(),
            final(self)@ == insert_spec(
                old(self)@,
                old(self).settings(),
                sequence,
                timestamp,
                payload@,
            ),
    {
        let ghost pv = payload@;
        if self.first_timestamp.is_none() {
            self.first_timestamp = Some(timestamp);
        }
        if !self.playing {
            match self.next_play_sequence {
                None => {
                    self.next_play_sequence = Some(sequence);
                },
                Some(current) => {
                    let diff = sequence_diff(sequence, current);
                    if diff < 0 {
                        self.next_play_sequence = Some(sequence);
                    }
                },
            }
        } else if let Some(next_seq) = self.next_play_sequence {
            let diff = sequence_diff(sequence, next_seq);
            if diff < 0 {
                self.late_arrivals = self.late_arrivals + 1;
            }
        }
        self.store(sequence, timestamp, payload);
        self.packets_inserted = self.packets_inserted + 1;
        self.prune_old_packets();
        proof {
            assert(self@ =~= insert_spec(
                old(self)@,
                old(self).settings(),
                sequence,
                timestamp,
                pv,
            ));
        }
    }

    /// Remove the oldest packet when more than twice the maximum delay are
    /// buffered; after one insertion at most one is over.
    fn prune_old_packets(&mut self)
        requires
            forall|i: int, j: int|
                0 <= i < j < old(self).packets@.len() ==> old(self).packets@[i].sequence < old(
                    self,
                ).packets@[j].sequence,
            unique_keys(old(self).entries()),
            config_valid(old(self).config),
            old(self).config.min_delay_frames <= old(self).current_delay_frames
                <= old(self).config.max_delay_frames,
            old(self).packets@.len() <= 2 * old(self).config.max_delay_frames + 1,
        ensures
            final(self).wf(),
            table(final(self).entries()) == prune_spec(
                table(old(self).entries()),
                2 * old(self).config.max_delay_frames,
            ),
            final(self).config == old(self).config,
            final(self).current_delay_frames == old(self).current_delay_frames,
            final(self).next_play_sequence == old(self).next_play_sequence,
            final(self).packets_inserted == old(self).packets_inserted,
            final(self).packets_played == old(self).packets_played,
            final(self).packets_lost == old(self).packets_lost,
            final(self).late_arrivals == old(self).late_arrivals,
            final(self).playing == old(self).playing,
            final(self).first_timestamp == old(self).first_timestamp,
    {
        let ghost es = self.entries();
        proof {
            lemma_table_len(es);
        }
        let max_buffer: u64 = self.config.max_delay_frames as u64 * 2;
        if self.packets.len() as u64 > max_buffer {
            proof {
                let m = table(es);
                lemma_table_index(es, 0);
                let k = es[0].0;
                assert forall|j: u32| m.contains_key(j) implies k <= j by {
                    let x = choose|x: int| 0 <= x < es.len() && es[x].0 == j;
                    if x > 0 {
                        assert(self.packets@[0].sequence < self.packets@[x].sequence);
                    }
                }
                let c = min_seq(m);
                assert(m.contains_key(c) && forall|j: u32| m.contains_key(j) ==> c <= j);
                assert(c == k);
            }
            self.packets.remove(0);
            proof {
                assert(self.entries() =~= es.remove(0));
                lemma_table_remove(es, 0);
                assert forall|i: int, j: int|
                    0 <= i < j < self.packets@.len() implies self.packets@[i].sequence
                    < self.packets@[j].sequence by {
                    assert(self.packets@[i] == old(self).packets@[i + 1]);
                    assert(self.packets@[j] == old(self).packets@[j + 1]);
                }
            }
        }
    }

    /// Get next frame for playback: the next packet in sequence order, or
    /// the loss of it, or an underrun while not enough are buffered to start.
    pub fn pop(&mut self) -> (r: JitterBufferResult)
        requires
            old(self).wf(),
            old(self)@.4 < u64::MAX,
            old(self)@.5 < u64::MAX,
        ensures
            final(self).wf(),
            final(self).settings() == old(self).settings(),
            pop_post(old(self)@, final(self)@, r),
    {
        proof {
            self.lemma_unique();
        }
        let next_seq = match self.next_play_sequence {
            Some(seq) => seq,
            None => {
                return JitterBufferResult::Underrun;
            },
        };
        if !self.playing {
            if self.depth() < self.current_delay_frames {
                return JitterBufferResult::Underrun;
            }
            self.playing = true;
        }
        let ghost es = self.entries();
        let mut i: usize = 0;
        while i < self.packets.len() && self.packets[i].sequence != next_seq
            invariant
                i <= self.packets@.len(),
                forall|x: int| 0 <= x < i ==> self.packets@[x].sequence != next_seq,
            decreases self.packets@.len() - i,
        {
            i = i + 1;
        }
        if i < self.packets.len() {
            let packet = self.packets.remove(i);
            proof {
                lemma_table_index(es, i as int);
                assert(self.entries() =~= es.remove(i as int));
                lemma_table_remove(es, i as int);
                assert forall|a: int, b: int|
                    0 <= a < b < self.packets@.len() implies self.packets@[a].sequence
                    < self.packets@[b].sequence by {
                    let o = old(self).packets@;
                    let a2 = if a < i {
                        a
                    } else {
                        a + 1
                    };
                    let b2 = if b < i {
                        b
                    } else {
                        b + 1
                    };
                    assert(self.packets@[a] == o[a2] && self.packets@[b] == o[b2]);
                }
            }
            self.next_play_sequence = Some(next_seq.wrapping_add(1));
            self.packets_played = self.packets_played + 1;
            JitterBufferResult::Packet {
                sequence: packet.sequence,
                timestamp: packet.timestamp,
                payload: packet.payload,
            }
        } else {
            proof {
                if has_key(es, next_seq) {
                    let x = choose|x: int| 0 <= x < es.len() && es[x].0 == next_seq;
                    assert(self.packets@[x].sequence == next_seq);
                }
            }
            self.next_play_sequence = Some(next_seq.wrapping_add(1));
            self.packets_lost = self.packets_lost + 1;
            JitterBufferResult::Lost { sequence: next_seq }
        }
    }

    /// Peek at the next sequence to play without removing it
    pub fn peek(&self) -> (r: Option<u32>)
        ensures
            r == self@.1,
    {
        self.next_play_sequence
    }

    /// Get current buffer depth in frames
    pub fn depth(&self) -> (r: u32)
        requires
            self.wf(),
        ensures
            r == depth_spec(self@),
    {
        proof {
            self.lemma_unique();
        }
        self.packets.len() as u32
    }

    /// Check if buffer is empty
    pub fn is_empty(&self) -> (r: bool)
        requires
            self.wf(),
        ensures
            r == (self@.0.dom().len() == 0),
    {
        proof {
            self.lemma_unique();
        }
        self.packets.len() == 0
    }

    /// Check if buffer has started playback
    pub fn is_playing(&self) -> (r: bool)
        ensures
            r == self@.7,
    {
        self.playing
    }

    /// Get statistics
    pub fn stats(&self) -> (r: JitterBufferStats)
        requires
            self.wf(),
        ensures
            r.packets_inserted == self@.3,
            r.packets_played == self@.4,
            r.packets_lost == self@.5,
            r.late_arrivals == self@.6,
            r.current_depth == depth_spec(self@),
            r.current_delay_frames == self@.2,
    {
        JitterBufferStats {
            packets_inserted: self.packets_inserted,
            packets_played: self.packets_played,
            packets_lost: self.packets_lost,
            late_arrivals: self.late_arrivals,
            current_depth: self.depth(),
            current_delay_frames: self.current_delay_frames,
        }
    }

    /// Adapt buffer size based on network conditions: more delay on heavy
    /// loss, less when loss is low and the buffer holds more than the delay.
    pub fn adapt(&mut self)
        requires
            old(self).wf(),
        ensures
            final(self).wf(),
            final(self).settings() == old(self).settings(),
            final(self)@ == (
                old(self)@.0,
                old(self)@.1,
                adapt_spec(old(self)@, old(self).settings()),
                old(self)@.3,
                old(self)@.4,
                old(self)@.5,
                old(self)@.6,
                old(self)@.7,
                old(self)@.8,
            ),
    {
        let inserted = self.packets_inserted as u128;
        let lost = self.packets_lost as u128;
        let high = inserted > 0 && lost * 20 > inserted;
        let low = inserted == 0 || lost * 100 < inserted;
        if high {
            if self.current_delay_frames < self.config.max_delay_frames {
                self.current_delay_frames = self.current_delay_frames + 1;
            }
        } else if low && self.depth() > self.current_delay_frames {
            if self.current_delay_frames > self.config.min_delay_frames {
                self.current_delay_frames = self.current_delay_frames - 1;
            }
        }
    }

    /// Reset the buffer
    pub fn reset(&mut self)
        requires
            old(self).wf(),
        ensures
            final(self).wf(),
            final(self).settings() == old(self).settings(),
            final(self)@ == fresh_jitter(old(self).settings()),
    {
        self.packets = Vec::new();
        self.next_play_sequence = None;
        self.current_delay_frames = self.config.initial_delay_frames;
        self.packets_inserted = 0;
        self.packets_played = 0;
        self.packets_lost = 0;
        self.late_arrivals = 0;
        self.playing = false;
        self.first_timestamp = None;
        proof {
            assert(self.entries() =~= Seq::<(u32, (u32, Seq<u8>))>::empty());
            lemma_table_empty::<u32, (u32, Seq<u8>)>();
        }
    }
}

impl Default for JitterBuffer {
    fn default() -> (r: Self)
        ensures
            r.wf(),
            r@ == fresh_jitter(r.settings()),
    {
        Self::new()
    }
}

/// Adapting never takes the delay out of the configured bounds, and it adds
/// a frame (up to the maximum) when more than 5% of the inserted packets
/// were lost.
pub proof fn lemma_adapt_bounds(v: JitterView, c: JitterBufferConfig)
    requires
        config_valid(c),
        c.min_delay_frames <= v.2 <= c.max_delay_frames,
    ensures
        c.min_delay_frames <= adapt_spec(v, c) <= c.max_delay_frames,
        (v.3 > 0 && 20 * v.5 > v.3 && v.2 < c.max_delay_frames) ==> adapt_spec(v, c) == v.2 + 1,
        adapt_spec(v, c) >= v.2 || (v.3 == 0 || 100 * v.5 < v.3),
{
}

/// While playing, a packet inserted under the next sequence to play, into a
/// buffer holding fewer than twice the maximum delay, is what the next pop
/// gives back: same sequence, timestamp and payload.
pub proof fn lemma_pop_returns_inserted(
    v: JitterView,
    c: JitterBufferConfig,
    s: u32,
    ts: u32,
    p: Seq<u8>,
    new: JitterView,
    r: JitterBufferResult,
)
    requires
        v.7,
        v.1 == Some(s),
        v.0.dom().finite(),
        v.0.dom().len() < 2 * c.max_delay_frames,
        pop_post(insert_spec(v, c, s, ts, p), new, r),
    ensures
        r matches JitterBufferResult::Packet { sequence, timestamp, payload } && sequence == s
            && timestamp == ts && payload@ == p,
{
    let m = v.0.insert(s, (ts, p));
    if v.0.contains_key(s) {
        assert(m.dom() =~= v.0.dom());
    } else {
        assert(m.dom() =~= v.0.dom().insert(s));
    }
    assert(prune_spec(m, 2 * c.max_delay_frames) == m);
}

/// Adapting moves the delay by at most one frame, never outside the
/// configured bounds; with little loss (no packets yet, or under 1% lost)
/// and more packets buffered than the delay, it takes exactly one frame off
/// while the delay is above the minimum.
pub proof fn lemma_adapt_one_frame(v: JitterView, c: JitterBufferConfig)
    requires
        config_valid(c),
        c.min_delay_frames <= v.2 <= c.max_delay_frames,
        v.0.dom().len() <= u32::MAX,
    ensures
        v.2 <= adapt_spec(v, c) + 1,
        adapt_spec(v, c) <= v.2 + 1,
        c.min_delay_frames <= adapt_spec(v, c) <= c.max_delay_frames,
        (v.3 == 0 || 100 * v.5 < v.3) && v.0.dom().len() > v.2 && v.2 > c.min_delay_frames ==> adapt_spec(
            v,
            c,
        ) == v.2 - 1,
{
    if (v.3 == 0 || 100 * v.5 < v.3) {
        assert(!(v.3 > 0 && 20 * v.5 > v.3));
    }
}

} // verus!
