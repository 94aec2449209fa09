//! The echo server's delay line: packets wait a fixed time, then go back to
//! their sender in the order they came. Times are microseconds on a clock
//! of the caller's choosing.
use std::collections::VecDeque;

use vstd::prelude::*;

use crate::packet::Packet;
use crate::stun::SocketAddress;

verus! {

/// A packet waiting to be sent back
#[derive(Debug)]
pub struct BufferedPacket {
    /// The packet as it came
    pub packet: Packet,
    /// Where it came from, and goes back to
    pub sender: SocketAddress,
    /// When it is due
    pub send_at: u64,
}

/// Packets in the order they are due: each no later than the next.
pub open spec fn in_due_order(s: Seq<BufferedPacket>) -> bool {
    forall|i: int, j: int| 0 <= i <= j < s.len() ==> #[trigger] s[i].send_at <= #[trigger] s[j].send_at
}

/// The delay line and its counters.
pub struct EchoState {
    buffer: VecDeque<BufferedPacket>,
    delay: u64,
    packets_received: u64,
    packets_sent: u64,
}

impl EchoState {
    /// The packets waiting, first in line first.
    pub closed spec fn waiting(&self) -> Seq<BufferedPacket> {
        self.buffer@
    }

    /// How long each packet waits.
    pub closed spec fn delay_spec(&self) -> u64 {
        self.delay
    }

    /// Packets taken in so far.
    pub closed spec fn received_spec(&self) -> u64 {
        self.packets_received
    }

    /// Packets sent back so far.
    pub closed spec fn sent_spec(&self) -> u64 {
        self.packets_sent
    }

    /// An empty delay line whose packets wait `delay` microseconds.
    pub fn new(delay: u64) -> (r: Self)
        ensures
            r.waiting() == Seq::<BufferedPacket>::empty(),
            r.delay_spec() == delay,
            r.received_spec() == 0,
            r.sent_spec() == 0,
    {
        EchoState { buffer: VecDeque::new(), delay, packets_received: 0, packets_sent: 0 }
    }

    /// Takes in `packet` from `sender` at time `now`: it is due at
    /// `now` plus the delay, after every packet already waiting.
    pub fn add_packet(&mut self, packet: Packet, sender: SocketAddress, now: u64)
        requires
            now + old(self).delay_spec() <= u64::MAX,
            old(self).received_spec() < u64::MAX,
        ensures
            final(self).waiting() == old(self).waiting().push(
                BufferedPacket { packet, sender, send_at: (now + old(self).delay_spec()) as u64 },
            ),
            final(self).delay_spec() == old(self).delay_spec(),
            final(self).received_spec() == old(self).received_spec() + 1,
            final(self).sent_spec() == old(self).sent_spec(),
    {
        let send_at = now + self.delay;
        self.buffer.push_back(BufferedPacket { packet, sender, send_at });
        self.packets_received = self.packets_received + 1;
    }

    /// Takes out the packets at the head of the line that are due at `now`;
    /// the first that is not due, and all behind it, stay.
    pub fn get_ready_packets(&mut self, now: u64) -> (r: Vec<BufferedPacket>)
        ensures
            r@ + final(self).waiting() == old(self).waiting(),
            forall|i: int| 0 <= i < r@.len() ==> #[trigger] r@[i].send_at <= now,
            final(self).waiting().len() > 0 ==> final(self).waiting()[0].send_at > now,
            final(self).delay_spec() == old(self).delay_spec(),
            final(self).received_spec() == old(self).received_spec(),
            final(self).sent_spec() == old(self).sent_spec(),
    {
        let ghost before = self.buffer@;
        let mut ready: Vec<BufferedPacket> = Vec::new();
        loop
            invariant
                ready@ + self.buffer@ == before,
                forall|i: int| 0 <= i < ready@.len() ==> #[trigger] ready@[i].send_at <= now,
                self.delay == old(self).delay,
                self.packets_received == old(self).packets_received,
                self.packets_sent == old(self).packets_sent,
                before == old(self).buffer@,
            ensures
                ready@ + self.buffer@ == before,
                forall|i: int| 0 <= i < ready@.len() ==> #[trigger] ready@[i].send_at <= now,
                self.buffer@.len() > 0 ==> self.buffer@[0].send_at > now,
                self.delay == old(self).delay,
                self.packets_received == old(self).packets_received,
                self.packets_sent == old(self).packets_sent,
            decreases self.buffer@.len(),
        {
            if self.buffer.len() == 0 {
                break;
            }
            if self.buffer[0].send_at > now {
                break;
            }
            let ghost rest = self.buffer@;
            let first = self.buffer.pop_front();
            match first {
                Some(p) => {
                    ready.push(p);
                    assert(ready@ + self.buffer@ =~= before) by {
                        assert(rest =~= seq![rest[0]] + self.buffer@);
                    }
                },
                None => {
                    break;
                },
            }
        }
        ready
    }

    /// How long until the head of the line is due at `now`: `None` when
    /// nothing waits, zero when it is already due.
    pub fn time_until_next(&self, now: u64) -> (r: Option<u64>)
        ensures
            self.waiting().len() == 0 ==> r is None,
            self.waiting().len() > 0 && self.waiting()[0].send_at > now ==> r == Some(
                (self.waiting()[0].send_at - now) as u64,
            ),
            self.waiting().len() > 0 && self.waiting()[0].send_at <= now ==> r == Some(0u64),
    {
        if self.buffer.len() == 0 {
            None
        } else {
            let at = self.buffer[0].send_at;
            if at > now {
                Some(at - now)
            } else {
                Some(0)
            }
        }
    }

    /// Counts one packet sent back.
    pub fn record_sent(&mut self)
        requires
            old(self).sent_spec() < u64::MAX,
        ensures
            final(self).sent_spec() == old(self).sent_spec() + 1,
            final(self).waiting() == old(self).waiting(),
            final(self).delay_spec() == old(self).delay_spec(),
            final(self).received_spec() == old(self).received_spec(),
    {
        self.packets_sent = self.packets_sent + 1;
    }

    /// Packets taken in so far.
    pub fn packets_received(&self) -> (r: u64)
        ensures
            r == self.received_spec(),
    {
        self.packets_received
    }

    /// Packets sent back so far.
    pub fn packets_sent(&self) -> (r: u64)
        ensures
            r == self.sent_spec(),
    {
        self.packets_sent
    }

    /// How many packets wait.
    pub fn buffered(&self) -> (r: usize)
        ensures
            r == self.waiting().len(),
    {
        self.buffer.len()
    }
}

/// A packet taken in no earlier than the one before it, with the same
/// delay, is due no earlier: the line stays in due order.
pub proof fn lemma_add_keeps_due_order(waiting: Seq<BufferedPacket>, p: BufferedPacket)
    requires
        in_due_order(waiting),
        waiting.len() > 0 ==> waiting.last().send_at <= p.send_at,
    ensures
        in_due_order(waiting.push(p)),
{
    let s = waiting.push(p);
    assert forall|i: int, j: int| 0 <= i <= j < s.len() implies #[trigger] s[i].send_at
        <= #[trigger] s[j].send_at by {
        if j == waiting.len() && i < j {
            assert(waiting[i].send_at <= waiting.last().send_at);
        }
    }
}

/// On a line in due order, what `get_ready_packets` hands out is exactly the
/// packets due at `now`: none early, none left behind, in arrival order.
pub proof fn lemma_ready_is_all_due(
    before: Seq<BufferedPacket>,
    ready: Seq<BufferedPacket>,
    rest: Seq<BufferedPacket>,
    now: u64,
)
    requires
        in_due_order(before),
        ready + rest == before,
        forall|i: int| 0 <= i < ready.len() ==> #[trigger] ready[i].send_at <= now,
        rest.len() > 0 ==> rest[0].send_at > now,
    ensures
        forall|i: int| 0 <= i < before.len() ==> (#[trigger] before[i].send_at <= now <==> i < ready.len()),
{
    assert forall|i: int| 0 <= i < before.len() implies (#[trigger] before[i].send_at <= now <==> i
        < ready.len()) by {
        if i < ready.len() {
            assert(before[i] == (ready + rest)[i]);
        } else {
            assert(before[i] == (ready + rest)[i]);
            assert(before[ready.len() as int] == rest[0]);
            assert(before[ready.len() as int].send_at <= before[i].send_at);
        }
    }
}

} // verus!
