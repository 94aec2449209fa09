//! Forward Error Correction (FEC) for packet loss recovery.
//!
//! XOR-based FEC recovers lost packets without retransmission: for every N
//! data packets one FEC packet is generated, from which any single lost
//! packet of the group can be rebuilt.
use vstd::prelude::*;
use vstd::set::fold::{is_fun_commutative, lemma_fold_empty, lemma_fold_insert};
use crate::keyed::{
    has_key, lemma_table_empty, lemma_table_index, lemma_table_len, lemma_table_push,
    lemma_table_remove, lemma_table_update, table, unique_keys,
};
use crate::bytes::{
    be16, be32, lemma_be16_roundtrip, lemma_be32_roundtrip, push_all, push_be16, push_be32,
    read_be16, read_be16_at, read_be32, read_be32_at, copy_from,
};

verus! {

/// FEC group size (number of data packets per FEC packet)
pub const FEC_GROUP_SIZE: usize = 4;

/// Most groups a decoder keeps at a time.
pub const MAX_GROUPS: usize = 16;

// ---------------------------------------------------------------------------
// XOR over bytes
// ---------------------------------------------------------------------------

/// Byte `i` of `p`, or 0 beyond its end.
pub open spec fn byte_at(p: Seq<u8>, i: int) -> u8 {
    if 0 <= i < p.len() {
        p[i]
    } else {
        0
    }
}

/// The XOR of byte `i` of every packet in `ps`, shorter packets counting as 0.
pub open spec fn xor_seq_at(ps: Seq<Seq<u8>>, i: int) -> u8
    decreases ps.len(),
{
    if ps.len() == 0 {
        0
    } else {
        xor_seq_at(ps.drop_last(), i) ^ byte_at(ps.last(), i)
    }
}

/// The length of the longest packet in `ps` (0 when there is none).
pub open spec fn max_len(ps: Seq<Seq<u8>>) -> nat
    decreases ps.len(),
{
    if ps.len() == 0 {
        0
    } else {
        let m = max_len(ps.drop_last());
        if ps.last().len() > m {
            ps.last().len()
        } else {
            m
        }
    }
}

/// The XOR of all packets of a group, as long as the longest of them.
pub open spec fn xor_of_packets(ps: Seq<Seq<u8>>) -> Seq<u8> {
    Seq::new(max_len(ps), |i: int| xor_seq_at(ps, i))
}

/// The fields of an FEC packet: group sequence, packet count, the original
/// length of each packet, and the XOR of the packets.
pub type FecFields = (u32, u8, Seq<u16>, Seq<u8>);

/// The FEC packet that the encoder emits for the group `ps` numbered `group`.
pub open spec fn fec_of(group: u32, ps: Seq<Seq<u8>>) -> FecFields {
    (group, ps.len() as u8, ps.map_values(|p: Seq<u8>| p.len() as u16), xor_of_packets(ps))
}

proof fn lemma_xor_laws(a: u8, b: u8, c: u8)
    ensures
        a ^ b == b ^ a,
        (a ^ b) ^ c == a ^ (b ^ c),
        a ^ a == 0,
        a ^ 0 == a,
        0 ^ a == a,
{
    assert(a ^ b == b ^ a) by (bit_vector);
    assert((a ^ b) ^ c == a ^ (b ^ c)) by (bit_vector);
    assert(a ^ a == 0) by (bit_vector);
    assert(a ^ 0 == a) by (bit_vector);
    assert(0 ^ a == a) by (bit_vector);
}

proof fn lemma_max_len_bound(ps: Seq<Seq<u8>>, j: int)
    requires
        0 <= j < ps.len(),
    ensures
        ps[j].len() <= max_len(ps),
    decreases ps.len(),
{
    if j < ps.len() - 1 {
        lemma_max_len_bound(ps.drop_last(), j);
    }
}

// ---------------------------------------------------------------------------
// Encoder
// ---------------------------------------------------------------------------

/// FEC packet generator
pub struct FecEncoder {
    group_size: usize,
    current_group: Vec<Vec<u8>>,
    group_sequence: u32,
}

/// The state of an encoder: group size, the packets of the open group, and
/// the number of the open group.
pub type EncoderState = (usize, Seq<Seq<u8>>, u32);

impl View for FecEncoder {
    type V = EncoderState;

    closed spec fn view(&self) -> EncoderState {
        (self.group_size, self.current_group@.map_values(|p: Vec<u8>| p@), self.group_sequence)
    }
}

impl FecEncoder {
    /// The open group never reaches the group size.
    pub open spec fn wf(&self) -> bool {
        self@.1.len() == 0 || self@.1.len() < self@.0
    }

    /// Create a new FEC encoder
    pub fn new() -> (r: Self)
        ensures
            r@ == (FEC_GROUP_SIZE, Seq::<Seq<u8>>::empty(), 0u32),
            r.wf(),
    {
        Self::with_group_size(FEC_GROUP_SIZE)
    }

    /// Create a new FEC encoder with custom group size
    pub fn with_group_size(group_size: usize) -> (r: Self)
        ensures
            r@ == (group_size, Seq::<Seq<u8>>::empty(), 0u32),
            r.wf(),
    {
        let r = FecEncoder { group_size, current_group: Vec::new(), group_sequence: 0 };
        assert(r@.1 =~= Seq::<Seq<u8>>::empty());
        r
    }

    /// Adds a data packet to the open group. When the group is then complete,
    /// returns its FEC packet, empties the group and numbers the next one.
    pub fn add_packet(&mut self, data: &[u8]) -> (r: Option<FecPacket>)
        requires
            old(self).wf(),
            old(self)@.1.len() + 1 >= old(self)@.0 ==> old(self)@.2 < u32::MAX,
        ensures
            final(self).wf(),
            final(self)@.0 == old(self)@.0,
            ({
                let group = old(self)@.1.push(data@);
                if group.len() >= old(self)@.0 {
                    &&& r matches Some(f) && f@ == fec_of(old(self)@.2, group)
                    &&& final(self)@.1 == Seq::<Seq<u8>>::empty()
                    &&& final(self)@.2 == old(self)@.2 + 1
                } else {
                    &&& r is None
                    &&& final(self)@.1 == group
                    &&& final(self)@.2 == old(self)@.2
                }
            }),
    {
        let ghost group = old(self)@.1.push(data@);
        self.current_group.push(copy_from(data, 0));
        assert(data@.subrange(0, data@.len() as int) =~= data@);
        assert(self@.1 =~= group);
        if self.current_group.len() >= self.group_size {
            let fec = self.generate_fec();
            self.current_group.clear();
            self.group_sequence = self.group_sequence + 1;
            assert(self@.1 =~= Seq::<Seq<u8>>::empty());
            Some(fec)
        } else {
            None
        }
    }

    /// The FEC packet of the open group.
    fn generate_fec(&self) -> (r: FecPacket)
        ensures
            r@ == fec_of(self@.2, self@.1),
    {
        let ghost ps = self@.1;
        let n = self.current_group.len();
        // Length of the longest packet
        let mut max: usize = 0;
        let mut j: usize = 0;
        while j < n
            invariant
                n == self.current_group.len(),
                ps == self@.1,
                j <= n,
                max == max_len(ps.take(j as int)),
            decreases n - j,
        {
            assert(ps.take(j as int + 1).drop_last() =~= ps.take(j as int));
            if self.current_group[j].len() > max {
                max = self.current_group[j].len();
            }
            j = j + 1;
        }
        assert(ps.take(n as int) =~= ps);
        let mut fec_data: Vec<u8> = Vec::new();
        let mut k: usize = 0;
        while k < max
            invariant
                k <= max,
                fec_data@.len() == k,
                forall|i: int| 0 <= i < k ==> fec_data@[i] == 0,
            decreases max - k,
        {
            fec_data.push(0);
            k = k + 1;
        }
        assert forall|i: int| 0 <= i < max implies fec_data@[i] == xor_seq_at(ps.take(0), i) by {}
        let mut lengths: Vec<u16> = Vec::new();
        let mut j: usize = 0;
        while j < n
            invariant
                n == self.current_group.len(),
                ps == self@.1,
                j <= n,
                max == max_len(ps),
                fec_data@.len() == max,
                forall|i: int| 0 <= i < max ==> fec_data@[i] == xor_seq_at(ps.take(j as int), i),
                lengths@ == ps.take(j as int).map_values(|p: Seq<u8>| p.len() as u16),
            decreases n - j,
        {
            let packet = &self.current_group[j];
            proof {
                lemma_max_len_bound(ps, j as int);
            }
            lengths.push(packet.len() as u16);
            let ghost before = fec_data@;
            let mut i: usize = 0;
            while i < packet.len()
                invariant
                    packet@ == ps[j as int],
                    packet@.len() <= max,
                    fec_data@.len() == max,
                    i <= packet@.len(),
                    forall|x: int|
                        0 <= x < max ==> fec_data@[x] == if x < i {
                            before[x] ^ packet@[x]
                        } else {
                            before[x]
                        },
                decreases packet@.len() - i,
            {
                let b = fec_data[i] ^ packet[i];
                fec_data.set(i, b);
                i = i + 1;
            }
            proof {
                let next = ps.take(j as int + 1);
                assert(next.drop_last() =~= ps.take(j as int));
                assert(next.last() == ps[j as int]);
                assert forall|x: int| 0 <= x < max implies fec_data@[x] == xor_seq_at(next, x) by {
                    if x >= packet@.len() {
                        lemma_xor_laws(before[x], 0, 0);
                    }
                }
                assert(lengths@ =~= next.map_values(|p: Seq<u8>| p.len() as u16));
            }
            j = j + 1;
        }
        assert(ps.take(n as int) =~= ps);
        assert(fec_data@ =~= xor_of_packets(ps));
        FecPacket {
            group_sequence: self.group_sequence,
            packet_count: n as u8,
            packet_lengths: lengths,
            fec_data,
        }
    }

    /// Get current group sequence
    pub fn group_sequence(&self) -> (r: u32)
        ensures
            r == self@.2,
    {
        self.group_sequence
    }
}

impl Default for FecEncoder {
    fn default() -> (r: Self)
        ensures
            r@ == (FEC_GROUP_SIZE, Seq::<Seq<u8>>::empty(), 0u32),
    {
        Self::new()
    }
}

// ---------------------------------------------------------------------------
// FEC packet wire format
// ---------------------------------------------------------------------------

/// FEC packet data
#[derive(Debug, Clone)]
pub struct FecPacket {
    /// Sequence number of this FEC group
    pub group_sequence: u32,
    /// Number of data packets in this group
    pub packet_count: u8,
    /// Original lengths of each packet
    pub packet_lengths: Vec<u16>,
    /// XOR'd FEC data
    pub fec_data: Vec<u8>,
}

impl View for FecPacket {
    type V = FecFields;

    open spec fn view(&self) -> FecFields {
        (self.group_sequence, self.packet_count, self.packet_lengths@, self.fec_data@)
    }
}

/// The big-endian bytes of each length, in order.
pub open spec fn lengths_bytes(ls: Seq<u16>) -> Seq<u8>
    decreases ls.len(),
{
    if ls.len() == 0 {
        Seq::empty()
    } else {
        lengths_bytes(ls.drop_last()) + be16(ls.last())
    }
}

/// Wire bytes of an FEC packet: group sequence (4 bytes), packet count, a
/// reserved zero byte, each length (2 bytes), the FEC data.
pub open spec fn fec_packet_bytes(f: FecFields) -> Seq<u8> {
    be32(f.0) + seq![f.1, 0u8] + lengths_bytes(f.2) + f.3
}

/// What `data` decodes to: nothing when it is shorter than 6 bytes or than the
/// lengths that its count announces.
pub open spec fn parse_fec_packet(data: Seq<u8>) -> Option<FecFields> {
    if data.len() < 6 || data.len() < 6 + 2 * data[4] {
        None
    } else {
        Some(
            (
                read_be32_at(data, 0),
                data[4],
                Seq::new(data[4] as nat, |i: int| read_be16_at(data, 6 + 2 * i)),
                data.subrange(6 + 2 * data[4], data.len() as int),
            ),
        )
    }
}

proof fn lemma_lengths_bytes(ls: Seq<u16>)
    ensures
        lengths_bytes(ls).len() == 2 * ls.len(),
        forall|i: int|
            0 <= i < ls.len() ==> read_be16_at(lengths_bytes(ls), 2 * i) == #[trigger] ls[i],
    decreases ls.len(),
{
    if ls.len() > 0 {
        let pre = ls.drop_last();
        lemma_lengths_bytes(pre);
        lemma_be16_roundtrip(ls.last());
        let b = lengths_bytes(ls);
        assert(b == lengths_bytes(pre) + be16(ls.last()));
        assert forall|i: int| 0 <= i < ls.len() implies read_be16_at(b, 2 * i) == #[trigger] ls[i] by {
            if i < ls.len() - 1 {
                assert(pre[i] == ls[i]);
                assert(b[2 * i] == lengths_bytes(pre)[2 * i]);
                assert(b[2 * i + 1] == lengths_bytes(pre)[2 * i + 1]);
            } else {
                assert(b[2 * i] == be16(ls.last())[0]);
                assert(b[2 * i + 1] == be16(ls.last())[1]);
            }
        }
    }
}

impl FecPacket {
    /// Serialize FEC packet to bytes
    pub fn to_bytes(&self) -> (r: Vec<u8>)
        ensures
            r@ == fec_packet_bytes(self@),
    {
        let mut bytes: Vec<u8> = Vec::new();
        push_be32(&mut bytes, self.group_sequence);
        bytes.push(self.packet_count);
        // Reserved byte for alignment
        bytes.push(0);
        let ghost head = bytes@;
        let mut i: usize = 0;
        while i < self.packet_lengths.len()
            invariant
                i <= self.packet_lengths@.len(),
                bytes@ == head + lengths_bytes(self.packet_lengths@.take(i as int)),
            decreases self.packet_lengths@.len() - i,
        {
            push_be16(&mut bytes, self.packet_lengths[i]);
            proof {
                let next = self.packet_lengths@.take(i as int + 1);
                assert(next.drop_last() =~= self.packet_lengths@.take(i as int));
            }
            i = i + 1;
            assert(bytes@ =~= head + lengths_bytes(self.packet_lengths@.take(i as int)));
        }
        assert(self.packet_lengths@.take(i as int) =~= self.packet_lengths@);
        push_all(&mut bytes, self.fec_data.as_slice());
        assert(bytes@ =~= fec_packet_bytes(self@));
        bytes
    }

    /// Deserialize FEC packet from bytes
    pub fn from_bytes(data: &[u8]) -> (r: Option<Self>)
        ensures
            r matches Some(f) ==> parse_fec_packet(data@) == Some(f@),
            r is None <==> parse_fec_packet(data@) is None,
    {
        if data.len() < 6 {
            return None;
        }
        let group_sequence = read_be32(data, 0);
        let packet_count = data[4];
        let lengths_size: usize = packet_count as usize * 2;
        if data.len() < 6 + lengths_size {
            return None;
        }
        let mut packet_lengths: Vec<u16> = Vec::new();
        let mut i: usize = 0;
        while i < packet_count as usize
            invariant
                packet_count == data@[4],
                6 + 2 * packet_count <= data@.len(),
                i <= packet_count,
                packet_lengths@ =~= Seq::new(i as nat, |k: int| read_be16_at(data@, 6 + 2 * k)),
            decreases packet_count - i,
        {
            let offset = 6 + i * 2;
            packet_lengths.push(read_be16(data, offset));
            i = i + 1;
        }
        let fec_data = copy_from(data, 6 + lengths_size);
        Some(FecPacket { group_sequence, packet_count, packet_lengths, fec_data })
    }
}

/// An FEC packet whose count matches its list of lengths decodes from its own
/// encoding to the same packet.
pub proof fn lemma_fec_packet_roundtrip(f: FecFields)
    requires
        f.2.len() == f.1,
    ensures
        parse_fec_packet(fec_packet_bytes(f)) == Some(f),
{
    let b = fec_packet_bytes(f);
    lemma_be32_roundtrip(f.0);
    lemma_lengths_bytes(f.2);
    let lb = lengths_bytes(f.2);
    assert(b[4] == f.1);
    assert(read_be32_at(b, 0) == f.0);
    assert forall|i: int| 0 <= i < f.1 implies read_be16_at(b, 6 + 2 * i) == f.2[i] by {
        assert(b[6 + 2 * i] == lb[2 * i]);
        assert(b[6 + 2 * i + 1] == lb[2 * i + 1]);
    }
    assert(Seq::new(f.1 as nat, |i: int| read_be16_at(b, 6 + 2 * i)) =~= f.2);
    assert(b.subrange(6 + 2 * f.1, b.len() as int) =~= f.3);
}

// ---------------------------------------------------------------------------
// XOR over a set of keyed packets
// ---------------------------------------------------------------------------

/// One step of XOR-ing byte `i` of the packets of `m`, by key.
pub open spec fn xor_step(m: Map<usize, Seq<u8>>, i: int) -> spec_fn(u8, usize) -> u8 {
    |acc: u8, k: usize| acc ^ byte_at(m[k], i)
}

/// The XOR of byte `i` of the packets of `m` whose keys are in `keys`.
pub open spec fn xor_keys_at(m: Map<usize, Seq<u8>>, keys: Set<usize>, i: int) -> u8 {
    keys.fold(0u8, xor_step(m, i))
}

proof fn lemma_xor_step_commutative(m: Map<usize, Seq<u8>>, i: int)
    ensures
        is_fun_commutative(xor_step(m, i)),
{
    let f = xor_step(m, i);
    assert forall|a1: usize, a2: usize, b: u8| #[trigger] f(f(b, a2), a1) == f(f(b, a1), a2) by {
        let x = byte_at(m[a1], i);
        let y = byte_at(m[a2], i);
        assert((b ^ y) ^ x == (b ^ x) ^ y) by (bit_vector);
    }
}

proof fn lemma_xor_keys_empty(m: Map<usize, Seq<u8>>, i: int)
    ensures
        xor_keys_at(m, Set::empty(), i) == 0,
{
    lemma_fold_empty(0u8, xor_step(m, i));
}

proof fn lemma_xor_keys_insert(m: Map<usize, Seq<u8>>, keys: Set<usize>, k: usize, i: int)
    requires
        keys.finite(),
        !keys.contains(k),
    ensures
        xor_keys_at(m, keys.insert(k), i) == xor_keys_at(m, keys, i) ^ byte_at(m[k], i),
{
    lemma_xor_step_commutative(m, i);
    lemma_fold_insert(keys, 0u8, xor_step(m, i), k);
}

/// Only the packets under the keys taken part count.
proof fn lemma_xor_keys_agree(
    m1: Map<usize, Seq<u8>>,
    m2: Map<usize, Seq<u8>>,
    keys: Set<usize>,
    i: int,
)
    requires
        keys.finite(),
        forall|k: usize| keys.contains(k) ==> m1[k] == m2[k],
    ensures
        xor_keys_at(m1, keys, i) == xor_keys_at(m2, keys, i),
    decreases keys.len(),
{
    if keys.len() == 0 {
        assert(keys =~= Set::<usize>::empty());
        lemma_xor_keys_empty(m1, i);
        lemma_xor_keys_empty(m2, i);
    } else {
        let k = keys.choose();
        let rest = keys.remove(k);
        lemma_xor_keys_agree(m1, m2, rest, i);
        assert(rest.insert(k) =~= keys);
        lemma_xor_keys_insert(m1, rest, k, i);
        lemma_xor_keys_insert(m2, rest, k, i);
    }
}

/// The keys `0..n`.
pub open spec fn index_set(n: nat) -> Set<usize> {
    Set::new(|k: usize| k < n)
}

proof fn lemma_index_set(n: nat)
    requires
        n <= usize::MAX,
    ensures
        index_set(n).finite(),
        index_set(n).len() == n,
    decreases n,
{
    if n == 0 {
        assert(index_set(0) =~= Set::<usize>::empty());
    } else {
        lemma_index_set((n - 1) as nat);
        assert(index_set(n) =~= index_set((n - 1) as nat).insert((n - 1) as usize));
    }
}

/// The packets of a group keyed by their position in it.
pub open spec fn packets_by_index(ps: Seq<Seq<u8>>) -> Map<usize, Seq<u8>> {
    Map::new(|k: usize| k < ps.len(), |k: usize| ps[k as int])
}

proof fn lemma_xor_seq_as_keys(ps: Seq<Seq<u8>>, j: nat, i: int)
    requires
        j <= ps.len(),
        ps.len() <= usize::MAX,
    ensures
        xor_seq_at(ps.take(j as int), i) == xor_keys_at(packets_by_index(ps), index_set(j), i),
    decreases j,
{
    let m = packets_by_index(ps);
    if j == 0 {
        assert(index_set(0) =~= Set::<usize>::empty());
        lemma_xor_keys_empty(m, i);
    } else {
        let p = (j - 1) as nat;
        lemma_xor_seq_as_keys(ps, p, i);
        lemma_index_set(p);
        assert(index_set(j) =~= index_set(p).insert(p as usize));
        lemma_xor_keys_insert(m, index_set(p), p as usize, i);
        assert(ps.take(j as int).drop_last() =~= ps.take(p as int));
    }
}

// ---------------------------------------------------------------------------
// Decoder
// ---------------------------------------------------------------------------

/// The state of one group at the decoder: the packets received by index,
/// the FEC packet if it arrived, and whether a packet was recovered already.
pub type GroupView = (Map<usize, Seq<u8>>, Option<FecFields>, bool);

/// A recovered packet as plain values: group, index, data.
pub type RecoveredFields = (u32, usize, Seq<u8>);

struct GroupState {
    packets: Vec<(usize, Vec<u8>)>,
    fec: Option<FecPacket>,
    recovered: bool,
}

impl GroupState {
    closed spec fn entries(&self) -> Seq<(usize, Seq<u8>)> {
        self.packets@.map_values(|e: (usize, Vec<u8>)| (e.0, e.1@))
    }

    closed spec fn model(&self) -> GroupView {
        (
            table(self.entries()),
            match self.fec {
                Some(f) => Some(f@),
                None => None,
            },
            self.recovered,
        )
    }

    closed spec fn wf(&self) -> bool {
        unique_keys(self.entries())
    }
}

/// FEC decoder for recovering lost packets
pub struct FecDecoder {
    group_size: usize,
    groups: Vec<(u32, GroupState)>,
    max_groups: usize,
}

/// The group that a packet or an FEC packet opens when none is there yet.
pub open spec fn empty_group() -> GroupView {
    (Map::empty(), None, false)
}

/// The group numbered `g`, or an empty one.
pub open spec fn group_or_empty(d: Map<u32, GroupView>, g: u32) -> GroupView {
    if d.contains_key(g) {
        d[g]
    } else {
        empty_group()
    }
}

/// `d` after storing packet `idx` of group `g` (replacing one of that index).
pub open spec fn insert_packet(d: Map<u32, GroupView>, g: u32, idx: usize, data: Seq<u8>) -> Map<
    u32,
    GroupView,
> {
    let grp = group_or_empty(d, g);
    d.insert(g, (grp.0.insert(idx, data), grp.1, grp.2))
}

/// `d` after storing the FEC packet `f` in its group.
pub open spec fn insert_fec(d: Map<u32, GroupView>, f: FecFields) -> Map<u32, GroupView> {
    let grp = group_or_empty(d, f.0);
    d.insert(f.0, (grp.0, Some(f), grp.2))
}

/// The indices below `n` that hold a packet.
pub open spec fn held_below(p: Map<usize, Seq<u8>>, n: nat) -> Set<usize> {
    Set::new(|k: usize| p.contains_key(k) && k < n)
}

/// `m` is the one index below `n` with no packet: every other index below
/// `n` has one.
pub open spec fn only_missing(p: Map<usize, Seq<u8>>, n: nat, m: usize) -> bool {
    &&& m < n
    &&& !p.contains_key(m)
    &&& forall|j: usize| j < n && j != m ==> #[trigger] p.contains_key(j)
}

/// What a group gives back: nothing when it was recovered already, has no FEC
/// packet, does not miss exactly one of the indices below the FEC packet's
/// count, or has no length for the missing one. Otherwise the missing index
/// and the XOR of the FEC data with the received packets of the other indices
/// below the count, cut to the recorded length of the missing packet. Packets
/// held under indices at or above the count take no part.
pub open spec fn recover_group(grp: GroupView) -> Option<(usize, Seq<u8>)> {
    if grp.2 || grp.1 is None {
        None
    } else {
        let f = grp.1->0;
        let n = f.1 as nat;
        if exists|m: usize| only_missing(grp.0, n, m) {
            let m = choose|m: usize| only_missing(grp.0, n, m);
            if m >= f.2.len() {
                None
            } else {
                let full = Seq::new(
                    f.3.len(),
                    |i: int| f.3[i] ^ xor_keys_at(grp.0, index_set(n).remove(m), i),
                );
                let l = f.2[m as int] as int;
                Some((m, if l <= full.len() { full.take(l) } else { full }))
            }
        } else {
            None
        }
    }
}

/// The group with the lowest number.
pub open spec fn min_group(d: Map<u32, GroupView>) -> u32 {
    choose|k: u32| d.contains_key(k) && forall|j: u32| d.contains_key(j) ==> k <= j
}

/// Drops the lowest group when more than `MAX_GROUPS` are kept.
pub open spec fn cleanup_groups(d: Map<u32, GroupView>) -> Map<u32, GroupView> {
    if d.dom().len() > MAX_GROUPS {
        d.remove(min_group(d))
    } else {
        d
    }
}

/// Recovery attempt on group `g`: the new state and what was recovered.
pub open spec fn try_recover(d: Map<u32, GroupView>, g: u32) -> (
    Map<u32, GroupView>,
    Option<RecoveredFields>,
) {
    if !d.contains_key(g) {
        (d, None)
    } else {
        match recover_group(d[g]) {
            None => (d, None),
            Some(r) => {
                let d1 = d.insert(g, (d[g].0, d[g].1, true));
                (cleanup_groups(d1), Some((g, r.0, r.1)))
            },
        }
    }
}

/// What is recovered, as plain values.
pub open spec fn recovered_view(r: Option<RecoveredPacket>) -> Option<RecoveredFields> {
    match r {
        Some(p) => Some((p.group_sequence, p.packet_index, p.data@)),
        None => None,
    }
}

impl View for FecDecoder {
    type V = Map<u32, GroupView>;

    closed spec fn view(&self) -> Map<u32, GroupView> {
        table(self.group_entries())
    }
}

impl FecDecoder {
    closed spec fn group_entries(&self) -> Seq<(u32, GroupView)> {
        self.groups@.map_values(|e: (u32, GroupState)| (e.0, e.1.model()))
    }

    /// Groups are stored once each, with distinct packet indices, and at most
    /// `MAX_GROUPS` are kept after a recovery.
    pub closed spec fn wf(&self) -> bool {
        &&& unique_keys(self.group_entries())
        &&& forall|i: int| 0 <= i < self.groups@.len() ==> (#[trigger] self.groups@[i]).1.wf()
        &&& self.max_groups == MAX_GROUPS
    }

    /// The group size the decoder was made with.
    pub closed spec fn spec_group_size(&self) -> usize {
        self.group_size
    }

    /// Create a new FEC decoder
    pub fn new() -> (r: Self)
        ensures
            r.wf(),
            r@ == Map::<u32, GroupView>::empty(),
            r.spec_group_size() == FEC_GROUP_SIZE,
    {
        Self::with_group_size(FEC_GROUP_SIZE)
    }

    /// Create a new FEC decoder with custom group size
    pub fn with_group_size(group_size: usize) -> (r: Self)
        ensures
            r.wf(),
            r@ == Map::<u32, GroupView>::empty(),
            r.spec_group_size() == group_size,
    {
        let r = FecDecoder { group_size, groups: Vec::new(), max_groups: MAX_GROUPS };
        proof {
            assert(r.group_entries() =~= Seq::<(u32, GroupView)>::empty());
            lemma_table_empty::<u32, GroupView>();
        }
        r
    }

    fn find_group(&self, g: u32) -> (r: Option<usize>)
        ensures
            r matches Some(i) ==> i < self.groups@.len() && self.groups@[i as int].0 == g,
            r is None ==> !has_key(self.group_entries(), g),
    {
        let mut i: usize = 0;
        while i < self.groups.len()
            invariant
                i <= self.groups@.len(),
                forall|j: int| 0 <= j < i ==> self.groups@[j].0 != g,
            decreases self.groups@.len() - i,
        {
            if self.groups[i].0 == g {
                return Some(i);
            }
            i = i + 1;
        }
        None
    }

    /// Makes sure group `g` exists and returns its position.
    fn open_group(&mut self, g: u32) -> (gi: usize)
        requires
            old(self).wf(),
        ensures
            final(self).wf(),
            final(self).group_size == old(self).group_size,
            gi < final(self).groups@.len(),
            final(self).groups@[gi as int].0 == g,
            final(self)@ == old(self)@.insert(g, group_or_empty(old(self)@, g)),
    {
        match self.find_group(g) {
            Some(i) => {
                proof {
                    lemma_table_index(self.group_entries(), i as int);
                    assert(self@.insert(g, group_or_empty(self@, g)) =~= self@);
                }
                i
            },
            None => {
                let ghost before = self.group_entries();
                let grp = GroupState { packets: Vec::new(), fec: None, recovered: false };
                proof {
                    assert(grp.entries() =~= Seq::<(usize, Seq<u8>)>::empty());
                    lemma_table_empty::<usize, Seq<u8>>();
                }
                self.groups.push((g, grp));
                proof {
                    assert(self.group_entries() =~= before.push((g, empty_group())));
                    lemma_table_push(before, g, empty_group());
                }
                self.groups.len() - 1
            },
        }
    }

    /// Puts `grp` back at position `gi`, from which it was taken.
    fn put_group(
        &mut self,
        gi: usize,
        k: u32,
        grp: GroupState,
        Ghost(full): Ghost<Seq<(u32, GroupState)>>,
    )
        requires
            gi < full.len(),
            old(self).groups@ == full.remove(gi as int),
            full[gi as int].0 == k,
            unique_keys(full.map_values(|e: (u32, GroupState)| (e.0, e.1.model()))),
            forall|i: int| 0 <= i < full.len() && i != gi ==> (#[trigger] full[i]).1.wf(),
            grp.wf(),
            old(self).max_groups == MAX_GROUPS,
        ensures
            final(self).wf(),
            final(self).group_size == old(self).group_size,
            final(self).groups@.len() == full.len(),
            final(self).groups@[gi as int].0 == k,
            final(self)@ == table(full.map_values(|e: (u32, GroupState)| (e.0, e.1.model()))).insert(
                k,
                grp.model(),
            ),
    {
        let ghost fe = full.map_values(|e: (u32, GroupState)| (e.0, e.1.model()));
        self.groups.insert(gi, (k, grp));
        proof {
            assert(self.groups@ =~= full.update(gi as int, (k, grp)));
            assert(self.group_entries() =~= fe.update(gi as int, (fe[gi as int].0, grp.model())));
            lemma_table_update(fe, gi as int, grp.model());
        }
    }

    /// Add a received data packet; returns the recovered packet if possible
    pub fn add_packet(&mut self, group_sequence: u32, packet_index: usize, data: &[u8]) -> (r:
        Option<RecoveredPacket>)
        requires
            old(self).wf(),
        ensures
            final(self).wf(),
            final(self).spec_group_size() == old(self).spec_group_size(),
            (final(self)@, recovered_view(r)) == try_recover(
                insert_packet(old(self)@, group_sequence, packet_index, data@),
                group_sequence,
            ),
            (final(self)@, recovered_view(r)) == arrive(
                old(self)@,
                FecArrival::Data(group_sequence, packet_index, data@),
            ),
    {
        let data_vec = copy_from(data, 0);
        assert(data_vec@ =~= data@);
        let gi = self.open_group(group_sequence);
        let ghost opened = self@;
        let ghost full = self.groups@;
        proof {
            lemma_table_index(self.group_entries(), gi as int);
        }
        let (k, mut grp) = self.groups.remove(gi);
        let ghost grp0 = grp;
        assert(grp0.wf()) by {
            assert(full[gi as int].1 == grp0);
        }
        let mut j: usize = 0;
        let mut found: bool = false;
        while j < grp.packets.len()
            invariant_except_break
                !found,
            invariant
                grp == grp0,
                j <= grp.packets@.len(),
                forall|x: int| 0 <= x < j ==> grp.packets@[x].0 != packet_index,
            ensures
                found ==> j < grp.packets@.len() && grp.packets@[j as int].0 == packet_index,
                !found ==> j == grp.packets@.len(),
            decreases grp.packets@.len() - j,
        {
            if grp.packets[j].0 == packet_index {
                found = true;
                break;
            }
            j = j + 1;
        }
        if found {
            grp.packets.set(j, (packet_index, data_vec));
            proof {
                assert(grp.entries() =~= grp0.entries().update(
                    j as int,
                    (grp0.entries()[j as int].0, data@),
                ));
                lemma_table_update(grp0.entries(), j as int, data@);
            }
        } else {
            grp.packets.push((packet_index, data_vec));
            proof {
                assert(grp.entries() =~= grp0.entries().push((packet_index, data@)));
                assert(!table(grp0.entries()).contains_key(packet_index)) by {
                    if has_key(grp0.entries(), packet_index) {
                        let x = choose|x: int|
                            0 <= x < grp0.entries().len() && grp0.entries()[x].0 == packet_index;
                        assert(grp0.packets@[x].0 == packet_index);
                    }
                }
                lemma_table_push(grp0.entries(), packet_index, data@);
            }
        }
        proof {
            assert(forall|i: int| 0 <= i < full.len() ==> (#[trigger] full[i]).1.wf());
        }
        self.put_group(gi, k, grp, Ghost(full));
        proof {
            assert(table(full.map_values(|e: (u32, GroupState)| (e.0, e.1.model()))) == opened);
            assert(self@ =~= insert_packet(old(self)@, group_sequence, packet_index, data@));
        }
        self.try_recover_at(gi)
    }

    /// Add a received FEC packet; returns the recovered packet if possible
    pub fn add_fec(&mut self, fec: FecPacket) -> (r: Option<RecoveredPacket>)
        requires
            old(self).wf(),
        ensures
            final(self).wf(),
            final(self).spec_group_size() == old(self).spec_group_size(),
            (final(self)@, recovered_view(r)) == try_recover(insert_fec(old(self)@, fec@), fec@.0),
            (final(self)@, recovered_view(r)) == arrive(old(self)@, FecArrival::Fec(fec@)),
    {
        let group_sequence = fec.group_sequence;
        let ghost fv = fec@;
        let gi = self.open_group(group_sequence);
        let ghost opened = self@;
        let ghost full = self.groups@;
        proof {
            lemma_table_index(self.group_entries(), gi as int);
        }
        let (k, mut grp) = self.groups.remove(gi);
        assert(grp.wf()) by {
            assert(full[gi as int].1 == grp);
        }
        grp.fec = Some(fec);
        proof {
            assert(forall|i: int| 0 <= i < full.len() ==> (#[trigger] full[i]).1.wf());
        }
        self.put_group(gi, k, grp, Ghost(full));
        proof {
            assert(table(full.map_values(|e: (u32, GroupState)| (e.0, e.1.model()))) == opened);
            assert(self@ =~= insert_fec(old(self)@, fv));
        }
        self.try_recover_at(gi)
    }

    /// Drops the lowest group when more than `max_groups` are kept.
    fn cleanup(&mut self)
        requires
            old(self).wf(),
        ensures
            final(self).wf(),
            final(self).group_size == old(self).group_size,
            final(self)@ == cleanup_groups(old(self)@),
    {
        proof {
            lemma_table_len(self.group_entries());
        }
        if self.groups.len() > self.max_groups {
            let ghost es = self.group_entries();
            let mut mi: usize = 0;
            let mut i: usize = 1;
            while i < self.groups.len()
                invariant
                    0 < i <= self.groups@.len(),
                    mi < i,
                    forall|j: int| 0 <= j < i ==> self.groups@[mi as int].0 <= self.groups@[j].0,
                decreases self.groups@.len() - i,
            {
                if self.groups[i].0 < self.groups[mi].0 {
                    mi = i;
                }
                i = i + 1;
            }
            let ghost kmin = self.groups@[mi as int].0;
            proof {
                let d = self@;
                lemma_table_index(es, mi as int);
                assert(d.contains_key(kmin));
                assert forall|j: u32| d.contains_key(j) implies kmin <= j by {
                    let x = choose|x: int| 0 <= x < es.len() && es[x].0 == j;
                    assert(self.groups@[x].0 == j);
                }
                let c = min_group(d);
                assert(d.contains_key(c) && forall|j: u32| d.contains_key(j) ==> c <= j);
                assert(c == kmin);
            }
            self.groups.remove(mi);
            proof {
                assert(self.group_entries() =~= es.remove(mi as int));
                lemma_table_remove(es, mi as int);
                assert forall|i: int| 0 <= i < self.groups@.len() implies (
                #[trigger] self.groups@[i]).1.wf() by {
                    if i < mi {
                        assert(self.groups@[i] == old(self).groups@[i]);
                    } else {
                        assert(self.groups@[i] == old(self).groups@[i + 1]);
                    }
                }
            }
        }
    }

    /// Whether group position `gi` holds a packet with index `idx`.
    fn has_packet(&self, gi: usize, idx: usize) -> (r: bool)
        requires
            self.wf(),
            gi < self.groups@.len(),
        ensures
            r == table(self.groups@[gi as int].1.entries()).contains_key(idx),
    {
        let grp = &self.groups[gi].1;
        let ghost es = grp.entries();
        let mut j: usize = 0;
        while j < grp.packets.len()
            invariant
                es == grp.entries(),
                *grp == self.groups@[gi as int].1,
                gi < self.groups@.len(),
                j <= grp.packets@.len(),
                forall|x: int| 0 <= x < j ==> grp.packets@[x].0 != idx,
            decreases grp.packets@.len() - j,
        {
            if grp.packets[j].0 == idx {
                proof {
                    assert(es[j as int].0 == idx);
                    assert(has_key(es, idx));
                    assert(table(es).contains_key(idx));
                }
                return true;
            }
            j = j + 1;
        }
        proof {
            if has_key(es, idx) {
                let x = choose|x: int| 0 <= x < es.len() && es[x].0 == idx;
                assert(grp.packets@[x].0 == idx);
            }
        }
        false
    }

    /// Try to recover a lost packet in the group at position `gi`
    fn try_recover_at(&mut self, gi: usize) -> (r: Option<RecoveredPacket>)
        requires
            old(self).wf(),
            gi < old(self).groups@.len(),
        ensures
            final(self).wf(),
            final(self).group_size == old(self).group_size,
            (final(self)@, recovered_view(r)) == try_recover(
                old(self)@,
                old(self).groups@[gi as int].0,
            ),
    {
        let ghost d = self@;
        let group_sequence = self.groups[gi].0;
        let ghost es = self.group_entries();
        proof {
            lemma_table_index(es, gi as int);
        }
        let ghost gv = d[group_sequence];
        assert(gv == self.groups@[gi as int].1.model());
        if self.groups[gi].1.recovered {
            return None;
        }
        let n: usize = match &self.groups[gi].1.fec {
            Some(f) => f.packet_count as usize,
            None => {
                return None;
            },
        };
        let ghost pm = gv.0;
        let ghost nn = n as nat;
        // the indices below n without a packet: none, one, or (at least) two
        let mut missing: usize = n;
        let mut second: usize = n;
        let mut i: usize = 0;
        while i < n
            invariant_except_break
                second == n,
            invariant
                self == old(self),
                self.wf(),
                gi < self.groups@.len(),
                pm == table(self.groups@[gi as int].1.entries()),
                i <= n,
                missing == n ==> forall|j: usize| j < i ==> #[trigger] pm.contains_key(j),
                missing != n ==> missing < i && !pm.contains_key(missing) && forall|j: usize|
                    j < i && j != missing ==> #[trigger] pm.contains_key(j),
            ensures
                second == n ==> i == n,
                second != n ==> missing < n && second < n && missing != second && !pm.contains_key(
                    missing,
                ) && !pm.contains_key(second),
            decreases n - i,
        {
            if !self.has_packet(gi, i) {
                if missing == n {
                    missing = i;
                } else {
                    second = i;
                    break;
                }
            }
            i = i + 1;
        }
        if second != n {
            proof {
                assert forall|x: usize| !only_missing(pm, nn, x) by {
                    if only_missing(pm, nn, x) {
                        if x != missing {
                            assert(pm.contains_key(missing));
                        } else {
                            assert(pm.contains_key(second));
                        }
                    }
                }
            }
            return None;
        }
        if missing == n {
            proof {
                assert forall|x: usize| !only_missing(pm, nn, x) by {
                    if only_missing(pm, nn, x) {
                        assert(pm.contains_key(x));
                    }
                }
            }
            return None;
        }
        proof {
            assert(only_missing(pm, nn, missing));
            let c = choose|x: usize| only_missing(pm, nn, x);
            if c != missing {
                assert(pm.contains_key(missing));
            }
            assert(c == missing);
        }
        let recovered: Vec<u8>;
        {
            let grp = &self.groups[gi].1;
            let fec = match &grp.fec {
                Some(f) => f,
                None => {
                    return None;
                },
            };
            if missing >= fec.packet_lengths.len() {
                return None;
            }
            let recovered_len = fec.packet_lengths[missing] as usize;
            let mut rec = copy_from(fec.fec_data.as_slice(), 0);
            let ghost fd = fec.fec_data@;
            assert(rec@ =~= fd);
            let ghost ent = grp.entries();
            proof {
                lemma_table_index(es, gi as int);
                lemma_table_empty::<usize, Seq<u8>>();
                assert(ent.take(0) =~= Seq::<(usize, Seq<u8>)>::empty());
                assert(held_below(table(ent.take(0)), nn) =~= Set::<usize>::empty());
                assert forall|x: int| 0 <= x < fd.len() implies rec@[x] == fd[x] ^ xor_keys_at(
                    pm,
                    held_below(table(ent.take(0)), nn),
                    x,
                ) by {
                    lemma_xor_keys_empty(pm, x);
                    lemma_xor_laws(fd[x], 0, 0);
                }
            }
            let mut j: usize = 0;
            while j < grp.packets.len()
                invariant
                    ent == grp.entries(),
                    unique_keys(ent),
                    pm == table(ent),
                    nn == n,
                    !pm.contains_key(missing),
                    j <= grp.packets@.len(),
                    rec@.len() == fd.len(),
                    forall|x: int|
                        0 <= x < fd.len() ==> rec@[x] == fd[x] ^ xor_keys_at(
                            pm,
                            held_below(table(ent.take(j as int)), nn),
                            x,
                        ),
                decreases grp.packets@.len() - j,
            {
                let idx = grp.packets[j].0;
                let packet = &grp.packets[j].1;
                let ghost pre = ent.take(j as int);
                let ghost before_keys = held_below(table(pre), nn);
                proof {
                    lemma_table_index(ent, j as int);
                    assert(unique_keys(pre));
                    lemma_table_len(pre);
                    assert(!table(pre).contains_key(idx)) by {
                        if has_key(pre, idx) {
                            let x = choose|x: int| 0 <= x < pre.len() && pre[x].0 == idx;
                            assert(ent[x].0 == ent[j as int].0);
                        }
                    }
                    assert(ent.take(j as int + 1) =~= pre.push(ent[j as int]));
                    lemma_table_push(pre, idx, packet@);
                    assert(pm[idx] == packet@);
                    lemma_index_set(nn);
                    assert(before_keys.subset_of(index_set(nn)));
                    vstd::set_lib::lemma_len_subset(before_keys, index_set(nn));
                    if idx < n {
                        assert(held_below(table(ent.take(j as int + 1)), nn) =~= before_keys.insert(idx));
                    } else {
                        assert(held_below(table(ent.take(j as int + 1)), nn) =~= before_keys);
                    }
                }
                let ghost before = rec@;
                if idx < n {
                    let mut x: usize = 0;
                    while x < packet.len()
                        invariant
                            rec@.len() == fd.len(),
                            x <= packet@.len(),
                            forall|y: int|
                                0 <= y < fd.len() ==> rec@[y] == if y < x {
                                    before[y] ^ packet@[y]
                                } else {
                                    before[y]
                                },
                        decreases packet@.len() - x,
                    {
                        if x < rec.len() {
                            let b = rec[x] ^ packet[x];
                            rec.set(x, b);
                        }
                        x = x + 1;
                    }
                }
                proof {
                    assert forall|y: int| 0 <= y < fd.len() implies rec@[y] == fd[y] ^ xor_keys_at(
                        pm,
                        held_below(table(ent.take(j as int + 1)), nn),
                        y,
                    ) by {
                        if idx < n {
                            lemma_xor_keys_insert(pm, before_keys, idx, y);
                            let a = fd[y];
                            let b = xor_keys_at(pm, before_keys, y);
                            let c = byte_at(packet@, y);
                            lemma_xor_laws(a, b, c);
                            lemma_xor_laws(before[y], 0, 0);
                        } else {
                            assert(held_below(table(ent.take(j as int + 1)), nn) == before_keys);
                        }
                    }
                }
                j = j + 1;
            }
            proof {
                assert(ent.take(ent.len() as int) =~= ent);
                assert(held_below(pm, nn) =~= index_set(nn).remove(missing));
            }
            rec.truncate(recovered_len);
            recovered = rec;
        }
        let (k, mut grp) = self.groups.remove(gi);
        let ghost full = old(self).groups@;
        assert(grp.wf()) by {
            assert(full[gi as int].1 == grp);
        }
        grp.recovered = true;
        proof {
            assert(forall|i: int| 0 <= i < full.len() ==> (#[trigger] full[i]).1.wf());
        }
        self.put_group(gi, k, grp, Ghost(full));
        self.cleanup();
        let r = RecoveredPacket { group_sequence, packet_index: missing, data: recovered };
        proof {
            let grp_v = d[group_sequence];
            let f = grp_v.1->0;
            assert(grp_v.0 == pm);
            assert(f.1 as nat == nn);
            assert(only_missing(grp_v.0, f.1 as nat, missing));
            assert(missing < f.2.len());
            assert(recover_group(grp_v) is Some);
        }
        Some(r)
    }
}

impl Default for FecDecoder {
    fn default() -> (r: Self)
        ensures
            r@ == Map::<u32, GroupView>::empty(),
            r.spec_group_size() == FEC_GROUP_SIZE,
    {
        Self::new()
    }
}

/// A recovered packet
#[derive(Debug, Clone)]
pub struct RecoveredPacket {
    /// Group sequence this packet belongs to
    pub group_sequence: u32,
    /// Index within the group
    pub packet_index: usize,
    /// Recovered data
    pub data: Vec<u8>,
}

/// A group that received every packet of the group but one, together with the
/// FEC packet that the encoder emitted for the group, gives back exactly the
/// missing packet: its index and its bytes. Packets held under indices at or
/// above the group's count change nothing.
pub proof fn lemma_single_loss_recovered(d: Map<u32, GroupView>, g: u32, ps: Seq<Seq<u8>>, m: usize)
    requires
        1 <= ps.len() <= 255,
        m < ps.len(),
        ps[m as int].len() <= u16::MAX,
        d.contains_key(g),
        !d[g].0.contains_key(m),
        forall|i: usize|
            i < ps.len() && i != m ==> #[trigger] d[g].0.contains_key(i) && d[g].0[i] == ps[i as int],
        d[g].1 == Some(fec_of(g, ps)),
        !d[g].2,
    ensures
        try_recover(d, g).1 == Some((g, m, ps[m as int])),
{
    let n = ps.len();
    let mm = packets_by_index(ps);
    let pm = d[g].0;
    let f = fec_of(g, ps);
    lemma_index_set(n);
    let rest = index_set(n).remove(m);
    assert(f.1 as int == n);
    assert(only_missing(pm, n, m));
    let c = choose|x: usize| only_missing(pm, n, x);
    if c != m {
        assert(pm.contains_key(m));
    }
    assert(f.2.len() == n);
    assert(f.2[m as int] == ps[m as int].len() as u16);
    let full = Seq::new(f.3.len(), |i: int| f.3[i] ^ xor_keys_at(pm, rest, i));
    assert forall|k: usize| rest.contains(k) implies pm[k] == mm[k] by {
        assert(d[g].0.contains_key(k));
    }
    lemma_max_len_bound(ps, m as int);
    assert forall|i: int| 0 <= i < full.len() implies full[i] == byte_at(ps[m as int], i) by {
        lemma_xor_seq_as_keys(ps, n, i);
        assert(ps.take(n as int) =~= ps);
        assert(rest.insert(m) =~= index_set(n));
        lemma_xor_keys_insert(mm, rest, m, i);
        lemma_xor_keys_agree(pm, mm, rest, i);
        let x = xor_keys_at(mm, rest, i);
        let b = byte_at(ps[m as int], i);
        lemma_xor_laws(x, b, x);
        lemma_xor_laws(b, x, x);
        lemma_xor_laws(b, 0, 0);
    }
    assert(full.take(ps[m as int].len() as int) =~= ps[m as int]);
}

/// When two of the indices that the FEC packet counts hold no packet,
/// nothing is recovered, whatever else the group holds.
pub proof fn lemma_double_loss_not_recovered(grp: GroupView, a: usize, b: usize)
    requires
        grp.1 is Some,
        a != b,
        a < (grp.1->0).1,
        b < (grp.1->0).1,
        !grp.0.contains_key(a),
        !grp.0.contains_key(b),
    ensures
        recover_group(grp) is None,
{
    let n = (grp.1->0).1 as nat;
    assert forall|x: usize| !only_missing(grp.0, n, x) by {
        if only_missing(grp.0, n, x) {
            if x != a {
                assert(grp.0.contains_key(a));
            } else {
                assert(grp.0.contains_key(b));
            }
        }
    }
}

/// One arrival at the decoder: a data packet (group, index, bytes) or an FEC
/// packet.
pub enum FecArrival {
    Data(u32, usize, Seq<u8>),
    Fec(FecFields),
}

/// What the decoder does with one arrival: `add_packet` and `add_fec` in
/// turn store it and try to recover its group.
pub open spec fn arrive(d: Map<u32, GroupView>, e: FecArrival) -> (
    Map<u32, GroupView>,
    Option<RecoveredFields>,
) {
    match e {
        FecArrival::Data(g, i, b) => try_recover(insert_packet(d, g, i, b), g),
        FecArrival::Fec(f) => try_recover(insert_fec(d, f), f.0),
    }
}

/// The decoder after the arrivals `es`, in order.
pub open spec fn arrive_all(d: Map<u32, GroupView>, es: Seq<FecArrival>) -> Map<u32, GroupView>
    decreases es.len(),
{
    if es.len() == 0 {
        d
    } else {
        arrive(arrive_all(d, es.drop_last()), es.last()).0
    }
}

/// An arrival for the group `ps` numbered `g` that is neither packet `m`
/// nor packet `m2`: another data packet of the group, a packet under an index
/// at or above the group's count (with any bytes), or the FEC packet that the
/// encoder emitted for the group.
pub open spec fn other_arrival(e: FecArrival, g: u32, ps: Seq<Seq<u8>>, m: usize, m2: usize) -> bool {
    match e {
        FecArrival::Data(h, i, b) => h == g && (i < ps.len() ==> i != m && i != m2 && b
            == ps[i as int]),
        FecArrival::Fec(f) => f == fec_of(g, ps),
    }
}

/// When a group holds an FEC packet whose lengths match its count, a packet
/// is recovered exactly when none was recovered before and exactly one
/// index below the count holds no packet, that is, when the packets held
/// under the counted indices are one fewer than the count.
pub proof fn lemma_recovery_iff_one_missing(grp: GroupView)
    requires
        grp.1 is Some,
        (grp.1->0).2.len() == (grp.1->0).1,
    ensures
        recover_group(grp) is Some <==> !grp.2 && exists|m: usize|
            only_missing(grp.0, (grp.1->0).1 as nat, m),
        (exists|m: usize| only_missing(grp.0, (grp.1->0).1 as nat, m)) <==> held_below(
            grp.0,
            (grp.1->0).1 as nat,
        ).len() + 1 == (grp.1->0).1,
{
    let f = grp.1->0;
    let n = f.1 as nat;
    let h = held_below(grp.0, n);
    lemma_index_set(n);
    assert(h.subset_of(index_set(n)));
    vstd::set_lib::lemma_len_subset(h, index_set(n));
    if exists|m: usize| only_missing(grp.0, n, m) {
        let m = choose|m: usize| only_missing(grp.0, n, m);
        assert(h =~= index_set(n).remove(m));
    }
    if h.len() + 1 == n {
        if forall|i: usize| i < n ==> grp.0.contains_key(i) {
            assert(index_set(n).subset_of(h));
            vstd::set_lib::lemma_len_subset(index_set(n), h);
        }
        let a = choose|i: usize| i < n && !grp.0.contains_key(i);
        if !only_missing(grp.0, n, a) {
            let b = choose|j: usize| j < n && j != a && !grp.0.contains_key(j);
            let allowed = index_set(n).remove(a).remove(b);
            assert(h.subset_of(allowed));
            vstd::set_lib::lemma_len_subset(h, allowed);
        }
    }
}

/// Once a group gave back a packet, every later arrival for it gives back
/// nothing, and the group stays marked.
pub proof fn lemma_recovered_stays(d: Map<u32, GroupView>, g: u32, e: FecArrival)
    requires
        d.contains_key(g),
        d[g].2,
        match e {
            FecArrival::Data(h, _, _) => h == g,
            FecArrival::Fec(f) => f.0 == g,
        },
    ensures
        arrive(d, e).1 is None,
        arrive(d, e).0.contains_key(g),
        arrive(d, e).0[g].2,
{
}

/// Under the indices the group counts, group `g` holds only the packets of
/// `ps` other than `m` and `m2`; it holds at most the group's FEC packet, and
/// recovered nothing.
pub open spec fn holds_others(grp: GroupView, g: u32, ps: Seq<Seq<u8>>, m: usize, m2: usize) -> bool {
    &&& !grp.2
    &&& forall|k: usize|
        #[trigger] grp.0.contains_key(k) && k < ps.len() ==> k != m && k != m2 && grp.0[k]
            == ps[k as int]
    &&& grp.1 is Some ==> grp.1 == Some(fec_of(g, ps))
}

proof fn lemma_contains_last<A>(es: Seq<A>, a: A)
    requires
        es.len() > 0,
    ensures
        es.contains(a) <==> es.drop_last().contains(a) || es.last() == a,
{
    let pre = es.drop_last();
    if pre.contains(a) {
        let j = choose|j: int| 0 <= j < pre.len() && pre[j] == a;
        assert(es[j] == a);
    }
    if es.contains(a) {
        let j = choose|j: int| 0 <= j < es.len() && es[j] == a;
        if j < es.len() - 1 {
            assert(pre[j] == a);
        }
    }
}

/// One more `other_arrival` is stored and recovers nothing.
proof fn lemma_other_arrival_step(
    d0: Map<u32, GroupView>,
    e: FecArrival,
    g: u32,
    ps: Seq<Seq<u8>>,
    m: usize,
    m2: usize,
)
    requires
        2 <= ps.len() <= 255,
        m < ps.len(),
        m2 < ps.len(),
        m != m2,
        holds_others(group_or_empty(d0, g), g, ps, m, m2),
        other_arrival(e, g, ps, m, m2),
    ensures
        arrive(d0, e).0 == (match e {
            FecArrival::Data(h, i, b) => insert_packet(d0, h, i, b),
            FecArrival::Fec(f) => insert_fec(d0, f),
        }),
        holds_others(group_or_empty(arrive(d0, e).0, g), g, ps, m, m2),
        forall|k: usize|
            k < ps.len() ==> (#[trigger] group_or_empty(arrive(d0, e).0, g).0.contains_key(k) <==> (
            group_or_empty(d0, g).0.contains_key(k) || e == FecArrival::Data(g, k, ps[k as int]))),
        group_or_empty(arrive(d0, e).0, g).1 is Some <==> (group_or_empty(d0, g).1 is Some || e
            == FecArrival::Fec(fec_of(g, ps))),
{
    let d1 = match e {
        FecArrival::Data(h, i, b) => insert_packet(d0, h, i, b),
        FecArrival::Fec(f) => insert_fec(d0, f),
    };
    let grp = d1[g];
    assert(holds_others(grp, g, ps, m, m2));
    if grp.1 is Some {
        lemma_double_loss_not_recovered(grp, m, m2);
    }
    assert(recover_group(grp) is None);
}

/// The state of group `g` after arrivals that are all `other_arrival`s: the
/// counted packets that arrived or were there, the FEC packet once it arrived
/// or was there, nothing recovered.
proof fn lemma_other_arrivals_state(
    d: Map<u32, GroupView>,
    es: Seq<FecArrival>,
    g: u32,
    ps: Seq<Seq<u8>>,
    m: usize,
    m2: usize,
)
    requires
        2 <= ps.len() <= 255,
        m < ps.len(),
        m2 < ps.len(),
        m != m2,
        holds_others(group_or_empty(d, g), g, ps, m, m2),
        forall|j: int| 0 <= j < es.len() ==> other_arrival(#[trigger] es[j], g, ps, m, m2),
    ensures
        holds_others(group_or_empty(arrive_all(d, es), g), g, ps, m, m2),
        forall|i: usize|
            i < ps.len() ==> (#[trigger] group_or_empty(arrive_all(d, es), g).0.contains_key(i) <==> (
            group_or_empty(d, g).0.contains_key(i) || es.contains(
                FecArrival::Data(g, i, ps[i as int]),
            ))),
        group_or_empty(arrive_all(d, es), g).1 is Some <==> (group_or_empty(d, g).1 is Some
            || es.contains(FecArrival::Fec(fec_of(g, ps)))),
    decreases es.len(),
{
    if es.len() == 0 {
        assert(arrive_all(d, es) == d);
    } else {
        let pre = es.drop_last();
        let e = es.last();
        assert forall|j: int| 0 <= j < pre.len() implies other_arrival(#[trigger] pre[j], g, ps, m, m2) by {
            assert(pre[j] == es[j]);
        }
        lemma_other_arrivals_state(d, pre, g, ps, m, m2);
        assert(other_arrival(es[es.len() - 1], g, ps, m, m2));
        let d0 = arrive_all(d, pre);
        lemma_other_arrival_step(d0, e, g, ps, m, m2);
        assert(arrive_all(d, es) == arrive(d0, e).0);
        assert forall|i: usize|
            i < ps.len() implies (#[trigger] group_or_empty(arrive_all(d, es), g).0.contains_key(i)
            <==> (group_or_empty(d, g).0.contains_key(i) || es.contains(
            FecArrival::Data(g, i, ps[i as int]),
        ))) by {
            lemma_contains_last(es, FecArrival::Data(g, i, ps[i as int]));
            assert(group_or_empty(d0, g).0.contains_key(i) <==> (group_or_empty(d, g).0.contains_key(i)
                || pre.contains(FecArrival::Data(g, i, ps[i as int]))));
        }
        lemma_contains_last(es, FecArrival::Fec(fec_of(g, ps)));
    }
}

/// The arrival order does not matter: when the FEC packet of a group and all
/// its data packets but `m` and `m2` arrive, in any order, even more than
/// once, and mixed with packets under indices beyond the group's count, at
/// a decoder that holds nothing else of the group under its counted indices
/// (or only some of these packets already) and recovered nothing from it,
/// the arrival of packet `m2` then gives back exactly packet `m`.
pub proof fn lemma_any_order_recovers(
    d: Map<u32, GroupView>,
    es: Seq<FecArrival>,
    g: u32,
    ps: Seq<Seq<u8>>,
    m: usize,
    m2: usize,
)
    requires
        2 <= ps.len() <= 255,
        m < ps.len(),
        m2 < ps.len(),
        m != m2,
        ps[m as int].len() <= u16::MAX,
        holds_others(group_or_empty(d, g), g, ps, m, m2),
        forall|j: int| 0 <= j < es.len() ==> other_arrival(#[trigger] es[j], g, ps, m, m2),
        group_or_empty(d, g).1 is Some || es.contains(FecArrival::Fec(fec_of(g, ps))),
        forall|i: usize|
            i < ps.len() && i != m && i != m2 ==> group_or_empty(d, g).0.contains_key(i)
                || #[trigger] es.contains(FecArrival::Data(g, i, ps[i as int])),
    ensures
        arrive(arrive_all(d, es), FecArrival::Data(g, m2, ps[m2 as int])).1 == Some(
            (g, m, ps[m as int]),
        ),
{
    lemma_other_arrivals_state(d, es, g, ps, m, m2);
    let d0 = arrive_all(d, es);
    let grp = group_or_empty(d0, g);
    let d1 = insert_packet(d0, g, m2, ps[m2 as int]);
    assert forall|i: usize|
        i < ps.len() && i != m implies #[trigger] d1[g].0.contains_key(i) && d1[g].0[i] == ps[i as int] by {
        if i != m2 {
            assert(grp.0.contains_key(i));
        }
    }
    assert(!d1[g].0.contains_key(m));
    lemma_single_loss_recovered(d1, g, ps, m);
}

} // verus!
