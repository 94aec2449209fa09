//! Sequence number tracking for packet loss detection.
//!
//! Tracks received sequence numbers to detect lost packets, with a sliding
//! window of 64 sequences for late (out-of-order) arrivals and correct
//! handling of sequence number wraparound.
use vstd::prelude::*;

verus! {

/// Width of the window of recent sequences that the tracker remembers.
pub const WINDOW_SIZE: u32 = 64;

/// Signed distance from `b` to `a` on the 32-bit sequence circle, in
/// `-2^31 .. 2^31`.
pub open spec fn seq_diff(a: u32, b: u32) -> int {
    let d = a - b;
    if d >= 0x8000_0000 {
        d - 0x1_0000_0000
    } else if d < -0x8000_0000 {
        d + 0x1_0000_0000
    } else {
        d
    }
}

/// `h + k` on the 32-bit sequence circle.
pub open spec fn seq_add(h: u32, k: int) -> u32 {
    ((h + k) % 0x1_0000_0000) as u32
}

/// The state of a tracker: last sequence recorded, highest sequence seen,
/// the sequences received among the 64 at or below the highest one,
/// packets received, packets lost.
pub type TrackerView = (Option<u32>, u32, Set<u32>, u64, u64);

/// The state and the list of sequences reported lost after recording `s`.
pub open spec fn record_spec(t: TrackerView, s: u32) -> (TrackerView, Seq<u32>) {
    let received = (t.3 + 1) as u64;
    if t.0 is None {
        ((Some(s), s, set![s], received, t.4), Seq::empty())
    } else {
        let d = seq_diff(s, t.1);
        if 0 < d <= WINDOW_SIZE {
            // Ahead within the window: the sequences in between are lost, and
            // the window slides up to `s`
            let lost = Seq::new((d - 1) as nat, |i: int| seq_add(t.1, i + 1));
            let window = Set::new(|x: u32| t.2.contains(x) && seq_diff(s, x) < WINDOW_SIZE).insert(s);
            ((Some(s), s, window, received, (t.4 + d - 1) as u64), lost)
        } else if d > WINDOW_SIZE {
            // Large jump: tracking starts over from `s`
            ((Some(s), s, set![s], received, t.4), Seq::empty())
        } else if d < 0 && d > -(WINDOW_SIZE as int) && !t.2.contains(s) {
            // Late arrival of a sequence reported lost
            let lost = if t.4 > 0 {
                (t.4 - 1) as u64
            } else {
                0u64
            };
            ((Some(s), t.1, t.2.insert(s), received, lost), Seq::empty())
        } else {
            // A duplicate, or too old to tell
            ((Some(s), t.1, t.2, received, t.4), Seq::empty())
        }
    }
}

/// Whether `s` is known to have been received: it is one of the recent
/// sequences marked received.
pub open spec fn was_received_spec(t: TrackerView, s: u32) -> bool {
    t.2.contains(s)
}

/// Signed difference between two sequence numbers, handling wraparound.
pub fn sequence_diff(a: u32, b: u32) -> (r: i64)
    ensures
        r == seq_diff(a, b),
{
    let v = a.wrapping_sub(b);
    if v >= 0x8000_0000 {
        v as i64 - 0x1_0000_0000
    } else {
        v as i64
    }
}

/// Tracks sequence numbers to detect lost packets
pub struct SequenceTracker {
    /// Last received sequence number
    last_sequence: Option<u32>,
    /// Highest sequence number seen
    highest_sequence: u32,
    /// Bit N represents whether (highest_sequence - N) was received
    received_bitmap: u64,
    /// Total packets received
    packets_received: u64,
    /// Total packets lost
    packets_lost: u64,
    /// Window size for out-of-order detection
    window_size: u32,
}

/// Whether bit `k` of `b` is set.
pub open spec fn bit_set(b: u64, k: int) -> bool {
    0 <= k < 64 && b & (1u64 << (k as u64)) != 0
}

/// The sequences that bitmap `b` marks received when `h` is the highest
/// one: bit `k` stands for `h - k`.
pub open spec fn marked(h: u32, b: u64) -> Set<u32> {
    Set::new(|x: u32| bit_set(b, seq_diff(h, x)))
}

impl View for SequenceTracker {
    type V = TrackerView;

    closed spec fn view(&self) -> TrackerView {
        (
            self.last_sequence,
            self.highest_sequence,
            marked(self.highest_sequence, self.received_bitmap),
            self.packets_received,
            self.packets_lost,
        )
    }
}

/// Once anything was recorded, the highest sequence is marked received;
/// the sequences marked lie at most 63 below the highest one.
pub open spec fn tracker_wf(t: TrackerView) -> bool {
    &&& t.0 is Some ==> t.2.contains(t.1)
    &&& t.0 is None ==> t.2 == Set::<u32>::empty()
    &&& forall|x: u32| #[trigger] t.2.contains(x) ==> 0 <= seq_diff(t.1, x) < WINDOW_SIZE
}

/// The state of a fresh (or reset) tracker.
pub open spec fn fresh_tracker() -> TrackerView {
    (None, 0u32, Set::empty(), 0u64, 0u64)
}

proof fn lemma_seq_diff_add(a: u32, b: u32, c: u32)
    requires
        -0x8000_0000 <= seq_diff(a, b) + seq_diff(b, c) < 0x8000_0000,
    ensures
        seq_diff(a, c) == seq_diff(a, b) + seq_diff(b, c),
{
}

proof fn lemma_seq_diff_basics(a: u32, b: u32)
    ensures
        -0x8000_0000 <= seq_diff(a, b) < 0x8000_0000,
        seq_diff(a, b) == 0 <==> a == b,
        seq_diff(a, b) != -0x8000_0000 ==> seq_diff(b, a) == -seq_diff(a, b),
{
}

proof fn lemma_seq_diff_inj(h: u32, x: u32, y: u32)
    requires
        seq_diff(h, x) == seq_diff(h, y),
    ensures
        x == y,
{
}

proof fn lemma_bit_one(k: u64)
    requires
        k < 64,
    ensures
        (1u64 & (1u64 << k) != 0) <==> k == 0,
{
    assert((1u64 & (1u64 << k) != 0) <==> k == 0) by (bit_vector)
        requires
            k < 64,
    ;
}

proof fn lemma_bit_zero(k: u64)
    requires
        k < 64,
    ensures
        0u64 & (1u64 << k) == 0,
{
    assert(0u64 & (1u64 << k) == 0) by (bit_vector);
}

proof fn lemma_bit_shifted(b: u64, d: u64, k: u64)
    requires
        1 <= d < 64,
        k < 64,
    ensures
        k == 0 ==> ((b << d) | 1u64) & (1u64 << k) != 0,
        0 < k < d ==> ((b << d) | 1u64) & (1u64 << k) == 0,
{
    assert(k == 0 ==> ((b << d) | 1u64) & (1u64 << k) != 0) by (bit_vector)
        requires
            1 <= d < 64,
            k < 64,
    ;
    assert(0 < k < d ==> ((b << d) | 1u64) & (1u64 << k) == 0) by (bit_vector)
        requires
            1 <= d < 64,
            k < 64,
    ;
}

proof fn lemma_bit_shifted_high(b: u64, d: u64, k: u64, e: u64)
    requires
        1 <= d < 64,
        d <= k < 64,
        e == k - d,
    ensures
        (((b << d) | 1u64) & (1u64 << k) != 0) <==> (b & (1u64 << e) != 0),
{
    assert((((b << d) | 1u64) & (1u64 << k) != 0) <==> (b & (1u64 << e) != 0)) by (bit_vector)
        requires
            1 <= d < 64,
            d <= k < 64,
            e == k - d,
    ;
}

proof fn lemma_bit_or(b: u64, o: u64, k: u64)
    requires
        o < 64,
        k < 64,
    ensures
        ((b | (1u64 << o)) & (1u64 << k) != 0) <==> (b & (1u64 << k) != 0 || k == o),
{
    assert(((b | (1u64 << o)) & (1u64 << k) != 0) <==> (b & (1u64 << k) != 0 || k == o))
        by (bit_vector)
        requires
            o < 64,
            k < 64,
    ;
}

/// Bitmap 1 marks the highest sequence alone.
proof fn lemma_marked_single(h: u32)
    ensures
        marked(h, 1u64) == set![h],
{
    assert forall|x: u32| #[trigger] marked(h, 1u64).contains(x) <==> x == h by {
        lemma_seq_diff_basics(h, x);
        let k = seq_diff(h, x);
        if 0 <= k < 64 {
            lemma_bit_one(k as u64);
        }
    }
    assert(marked(h, 1u64) =~= set![h]);
}

/// The empty bitmap marks nothing.
proof fn lemma_marked_empty(h: u32)
    ensures
        marked(h, 0u64) == Set::<u32>::empty(),
{
    assert forall|x: u32| !#[trigger] marked(h, 0u64).contains(x) by {
        let k = seq_diff(h, x);
        if 0 <= k < 64 {
            lemma_bit_zero(k as u64);
        }
    }
    assert(marked(h, 0u64) =~= Set::<u32>::empty());
}

/// Moving the highest sequence up by `d` and marking it: what was marked
/// stays marked while it is within 63 of the new highest one.
proof fn lemma_marked_slide(h: u32, b: u64, s: u32, d: int)
    requires
        d == seq_diff(s, h),
        0 < d <= 64,
    ensures
        marked(s, (if d < 64 { b << (d as u64) } else { 0u64 }) | 1u64) == Set::new(
            |x: u32| marked(h, b).contains(x) && seq_diff(s, x) < WINDOW_SIZE,
        ).insert(s),
{
    let nb: u64 = (if d < 64 { b << (d as u64) } else { 0u64 }) | 1u64;
    let rhs = Set::new(|x: u32| marked(h, b).contains(x) && seq_diff(s, x) < WINDOW_SIZE).insert(s);
    lemma_seq_diff_basics(s, h);
    assert forall|x: u32| #[trigger] marked(s, nb).contains(x) <==> rhs.contains(x) by {
        lemma_seq_diff_basics(s, x);
        lemma_seq_diff_basics(h, x);
        let k = seq_diff(s, x);
        if x == s {
            if d < 64 {
                lemma_bit_shifted(b, d as u64, 0);
            } else {
                assert((0u64 | 1u64) & (1u64 << 0u64) != 0) by (bit_vector);
            }
        } else if marked(h, b).contains(x) {
            // x was within the old window: it is d further below the new top
            let j = seq_diff(h, x);
            lemma_seq_diff_add(s, h, x);
            assert(k == d + j);
            if k < 64 {
                lemma_bit_shifted_high(b, d as u64, k as u64, j as u64);
            }
        } else {
            // x was not marked: it is not marked now unless it came into reach
            if 0 <= k < 64 {
                if k == 0 {
                    assert(x == s);
                } else if d == 64 {
                    let kk = k as u64;
                    assert((0u64 | 1u64) & (1u64 << kk) == 0) by (bit_vector)
                        requires
                            0 < kk < 64,
                    ;
                } else if k < d {
                    lemma_bit_shifted(b, d as u64, k as u64);
                } else {
                    lemma_seq_diff_add(h, s, x);
                    assert(seq_diff(h, x) == k - d);
                    lemma_bit_shifted_high(b, d as u64, k as u64, (k - d) as u64);
                }
            }
        }
    }
    assert(marked(s, nb) =~= rhs);
}

/// Setting the bit of `s`, which lies `o` below the highest sequence,
/// marks `s` too.
proof fn lemma_marked_add(h: u32, b: u64, s: u32, o: u64)
    requires
        seq_diff(h, s) == o,
        0 < o < 64,
    ensures
        marked(h, b | (1u64 << o)) == marked(h, b).insert(s),
        marked(h, b).contains(s) <==> b & (1u64 << o) != 0,
{
    assert forall|x: u32| #[trigger] marked(h, b | (1u64 << o)).contains(x) <==> marked(h, b).insert(
        s,
    ).contains(x) by {
        let k = seq_diff(h, x);
        if 0 <= k < 64 {
            lemma_bit_or(b, o, k as u64);
            if k == o {
                lemma_seq_diff_inj(h, x, s);
            }
        }
    }
    assert(marked(h, b | (1u64 << o)) =~= marked(h, b).insert(s));
}

impl SequenceTracker {
    pub closed spec fn wf(&self) -> bool {
        &&& self.window_size == WINDOW_SIZE
        &&& tracker_wf(self@)
    }

    /// Create a new sequence tracker
    pub fn new() -> (r: Self)
        ensures
            r.wf(),
            r@ == fresh_tracker(),
    {
        let r = SequenceTracker {
            last_sequence: None,
            highest_sequence: 0,
            received_bitmap: 0,
            packets_received: 0,
            packets_lost: 0,
            window_size: WINDOW_SIZE,
        };
        proof {
            lemma_marked_empty(0);
        }
        r
    }

    /// Record a received packet sequence number. Returns the sequence numbers
    /// that are considered lost (gaps between the highest seen and this one).
    pub fn record(&mut self, sequence: u32) -> (r: Vec<u32>)
        requires
            old(self).wf(),
            old(self)@.3 < u64::MAX,
            old(self)@.4 <= u64::MAX - 64,
        ensures
            final(self).wf(),
            (final(self)@, r@) == record_spec(old(self)@, sequence),
    {
        let ghost t = self@;
        proof {
            lemma_record_wf(t, sequence);
        }
        self.packets_received = self.packets_received + 1;
        if self.last_sequence.is_none() {
            self.last_sequence = Some(sequence);
            self.highest_sequence = sequence;
            self.received_bitmap = 1;
            proof {
                lemma_marked_single(sequence);
            }
            return Vec::new();
        }
        let mut lost_sequences: Vec<u32> = Vec::new();
        let diff = sequence_diff(sequence, self.highest_sequence);
        if diff > 0 {
            if diff <= self.window_size as i64 {
                let ghost h = self.highest_sequence;
                let ghost b0 = self.received_bitmap;
                let ghost lost0 = self.packets_lost;
                let ghost before = *self;
                let mut i: u32 = 1;
                while (i as i64) < diff
                    invariant
                        1 <= i <= diff <= 64,
                        h == self.highest_sequence,
                        self.window_size == before.window_size,
                        self.received_bitmap == before.received_bitmap,
                        self.last_sequence == before.last_sequence,
                        self.packets_received == before.packets_received,
                        self.packets_lost == lost0 + i - 1,
                        lost0 <= u64::MAX - 64,
                        lost_sequences@ =~= Seq::new((i - 1) as nat, |k: int| seq_add(h, k + 1)),
                    decreases diff - i,
                {
                    let missed_seq = self.highest_sequence.wrapping_add(i);
                    lost_sequences.push(missed_seq);
                    self.packets_lost = self.packets_lost + 1;
                    i = i + 1;
                }
                if diff < 64 {
                    self.received_bitmap = self.received_bitmap << (diff as u64);
                } else {
                    self.received_bitmap = 0;
                }
                self.received_bitmap = self.received_bitmap | 1;
                proof {
                    lemma_marked_slide(h, b0, sequence, diff as int);
                }
            } else {
                self.received_bitmap = 1;
                proof {
                    lemma_marked_single(sequence);
                }
            }
            self.highest_sequence = sequence;
        } else if diff < 0 && diff > -(self.window_size as i64) {
            let offset = (-diff) as u64;
            let mask = 1u64 << offset;
            proof {
                lemma_seq_diff_basics(sequence, self.highest_sequence);
                lemma_marked_add(self.highest_sequence, self.received_bitmap, sequence, offset);
            }
            if self.received_bitmap & mask == 0 {
                self.received_bitmap = self.received_bitmap | mask;
                if self.packets_lost > 0 {
                    self.packets_lost = self.packets_lost - 1;
                }
            }
        }
        self.last_sequence = Some(sequence);
        lost_sequences
    }

    /// Get total packets received
    pub fn packets_received(&self) -> (r: u64)
        ensures
            r == self@.3,
    {
        self.packets_received
    }

    /// Get total packets lost
    pub fn packets_lost(&self) -> (r: u64)
        ensures
            r == self@.4,
    {
        self.packets_lost
    }

    /// Get the highest sequence number seen
    pub fn highest_sequence(&self) -> (r: u32)
        ensures
            r == self@.1,
    {
        self.highest_sequence
    }

    /// Check if a specific sequence number was received (only sequences
    /// within the window below the highest one can be told)
    pub fn was_received(&self, sequence: u32) -> (r: bool)
        ensures
            r == was_received_spec(self@, sequence),
            r ==> 0 <= seq_diff(self@.1, sequence) < WINDOW_SIZE,
    {
        let diff = sequence_diff(self.highest_sequence, sequence);
        if diff < 0 || diff >= 64 {
            false
        } else {
            let mask = 1u64 << (diff as u64);
            self.received_bitmap & mask != 0
        }
    }

    /// Reset statistics
    pub fn reset(&mut self)
        requires
            old(self).wf(),
        ensures
            final(self).wf(),
            final(self)@ == fresh_tracker(),
    {
        self.last_sequence = None;
        self.highest_sequence = 0;
        self.received_bitmap = 0;
        self.packets_received = 0;
        self.packets_lost = 0;
        proof {
            lemma_marked_empty(0);
        }
    }
}

impl Default for SequenceTracker {
    fn default() -> (r: Self)
        ensures
            r.wf(),
            r@ == fresh_tracker(),
    {
        Self::new()
    }
}

/// A well-formed tracker keeps its window: once anything was recorded the
/// highest sequence is marked received, and only sequences at most 63 below
/// the highest one are marked.
pub proof fn lemma_wf_window(t: &SequenceTracker)
    requires
        t.wf(),
    ensures
        tracker_wf(t@),
{
}

/// Recording keeps the highest sequence marked received, and every marked
/// sequence within 63 below the highest one.
pub proof fn lemma_record_wf(t: TrackerView, s: u32)
    requires
        tracker_wf(t),
    ensures
        tracker_wf(record_spec(t, s).0),
{
    let t2 = record_spec(t, s).0;
    lemma_seq_diff_basics(s, s);
    if t.0 is Some {
        let d = seq_diff(s, t.1);
        lemma_seq_diff_basics(s, t.1);
        if 0 < d <= 64 {
            assert forall|x: u32| #[trigger] t2.2.contains(x) implies 0 <= seq_diff(t2.1, x)
                < WINDOW_SIZE by {
                if x != s {
                    lemma_seq_diff_add(s, t.1, x);
                }
            }
        } else if d < 0 && d > -64 && !t.2.contains(s) {
            assert forall|x: u32| #[trigger] t2.2.contains(x) implies 0 <= seq_diff(t2.1, x)
                < WINDOW_SIZE by {
                if x == s {
                    assert(seq_diff(t.1, s) == -d);
                }
            }
        }
    }
}

/// A recorded sequence is reported received afterwards, unless it lies 64
/// or more sequences behind the highest one seen.
pub proof fn lemma_recorded_is_received(t: TrackerView, s: u32)
    requires
        tracker_wf(t),
        t.0 is Some ==> seq_diff(s, t.1) > -64,
    ensures
        was_received_spec(record_spec(t, s).0, s),
{
    if t.0 is Some {
        lemma_seq_diff_basics(s, t.1);
    }
}

/// The next sequence after the highest one is no loss.
pub proof fn lemma_in_order_no_loss(t: TrackerView)
    requires
        t.0 is Some,
    ensures
        record_spec(t, seq_add(t.1, 1)).1 == Seq::<u32>::empty(),
        record_spec(t, seq_add(t.1, 1)).0.4 == t.4,
{
    let s = seq_add(t.1, 1);
    assert(seq_diff(s, t.1) == 1);
    assert(Seq::new(0nat, |i: int| seq_add(t.1, i + 1)) =~= Seq::<u32>::empty());
}

/// A sequence that a jump ahead reported lost, arriving late within the
/// window, takes back one loss.
pub proof fn lemma_late_arrival_corrects(t: TrackerView, k: int, j: int)
    requires
        tracker_wf(t),
        t.0 is Some,
        2 <= k <= 64,
        1 <= j < k,
        t.4 <= u64::MAX - 64,
        t.3 < u64::MAX - 1,
    ensures
        ({
            let t1 = record_spec(t, seq_add(t.1, k)).0;
            let t2 = record_spec(t1, seq_add(t.1, j)).0;
            &&& t1.4 == t.4 + k - 1
            &&& t2.4 == t1.4 - 1
        }),
{
    let s1 = seq_add(t.1, k);
    assert(seq_diff(s1, t.1) == k);
    let t1 = record_spec(t, s1).0;
    let s2 = seq_add(t.1, j);
    assert(t1.1 == s1);
    assert(seq_diff(s2, s1) == j - k);
    assert(seq_diff(t.1, s2) == -j);
    // s2 lies above the old highest sequence, so it was never marked
    assert(!t.2.contains(s2));
    assert(s2 != s1);
    assert(!t1.2.contains(s2));
}

/// The same sequence recorded twice in a row counts no loss the second time.
pub proof fn lemma_duplicate_no_loss(t: TrackerView, s: u32)
    requires
        tracker_wf(t),
    ensures
        record_spec(record_spec(t, s).0, s).0.4 == record_spec(t, s).0.4,
        record_spec(record_spec(t, s).0, s).1 == Seq::<u32>::empty(),
{
    let t1 = record_spec(t, s).0;
    lemma_seq_diff_basics(s, s);
    if t.0 is Some {
        lemma_seq_diff_basics(s, t.1);
    }
}

/// Recording a sequence that is already marked received, whether or not it
/// was the last one recorded, changes neither the losses, nor the highest
/// sequence, nor the window, and reports nothing lost.
pub proof fn lemma_marked_again_no_change(t: TrackerView, s: u32)
    requires
        tracker_wf(t),
        t.2.contains(s),
    ensures
        record_spec(t, s).0.4 == t.4,
        record_spec(t, s).0.1 == t.1,
        record_spec(t, s).0.2 == t.2,
        record_spec(t, s).1 == Seq::<u32>::empty(),
{
    lemma_seq_diff_basics(t.1, s);
    lemma_seq_diff_basics(s, t.1);
}

} // verus!
