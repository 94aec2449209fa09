//! The peers of a multi-peer audio session.
use vstd::prelude::*;
use crate::errors::NetworkError;
use crate::signaling::{PeerInfo, PeerModel};
use crate::stun::{address_view, same_address, SocketAddress};

verus! {

/// Session settings
#[derive(Debug, Clone, Copy, PartialEq, Eq, Structural)]
pub struct SessionConfig {
    /// Local UDP port (0 picks any free port)
    pub local_port: u16,
    /// Most peers the session admits
    pub max_peers: usize,
    /// Whether the audio of all peers is mixed
    pub enable_mixing: bool,
}

impl Default for SessionConfig {
    fn default() -> (r: Self)
        ensures
            r.local_port == 0 && r.max_peers == 10 && r.enable_mixing,
    {
        SessionConfig { local_port: 0, max_peers: 10, enable_mixing: true }
    }
}

/// A peer of the session and the address its audio comes from.
#[derive(Debug)]
pub struct SessionPeer {
    pub info: PeerInfo,
    pub addr: SocketAddress,
}

/// A session peer as plain values.
pub type SessionPeerModel = (PeerModel, SocketAddress);

/// The peers of a session, in the order they were added.
#[derive(Debug)]
pub struct SessionRoster {
    max_peers: usize,
    peers: Vec<SessionPeer>,
}

pub open spec fn roster_view(v: Seq<SessionPeer>) -> Seq<SessionPeerModel> {
    v.map_values(|p: SessionPeer| (p.info@, p.addr))
}

impl View for SessionRoster {
    type V = Seq<SessionPeerModel>;

    closed spec fn view(&self) -> Seq<SessionPeerModel> {
        roster_view(self.peers@)
    }
}

/// Whether some peer of `r` has id `id`.
pub open spec fn roster_has(r: Seq<SessionPeerModel>, id: u128) -> bool {
    exists|i: int| 0 <= i < r.len() && (#[trigger] r[i]).0.id == id
}

/// No two peers share an id.
pub open spec fn roster_ids_distinct(r: Seq<SessionPeerModel>) -> bool {
    forall|a: int, b: int| 0 <= a < r.len() && 0 <= b < r.len() && a != b ==> (#[trigger] r[a]).0.id
        != (#[trigger] r[b]).0.id
}

/// `r` without the peers whose id is `id`.
pub open spec fn roster_without(r: Seq<SessionPeerModel>, id: u128) -> Seq<SessionPeerModel>
    decreases r.len(),
{
    if r.len() == 0 {
        Seq::empty()
    } else {
        let rest = roster_without(r.drop_last(), id);
        if r.last().0.id == id {
            rest
        } else {
            rest.push(r.last())
        }
    }
}

impl SessionRoster {
    /// An empty roster admitting `max_peers` peers.
    pub fn new(max_peers: usize) -> (r: Self)
        ensures
            r@ == Seq::<SessionPeerModel>::empty(),
            r.max_peers() == max_peers,
    {
        let r = SessionRoster { max_peers, peers: Vec::new() };
        assert(r@ =~= Seq::<SessionPeerModel>::empty());
        r
    }

    pub closed spec fn max_peers(&self) -> usize {
        self.max_peers
    }

    /// The position of the first peer with id `id`.
    fn find(&self, id: u128) -> (r: Option<usize>)
        ensures
            match r {
                Some(i) => i < self@.len() && self@[i as int].0.id == id,
                None => !roster_has(self@, id),
            },
    {
        let mut i: usize = 0;
        while i < self.peers.len()
            invariant
                i <= self.peers@.len(),
                self@.len() == self.peers@.len(),
                forall|j: int| 0 <= j < i ==> (#[trigger] self@[j]).0.id != id,
            decreases self.peers.len() - i,
        {
            if self.peers[i].info.id == id {
                return Some(i);
            }
            assert(self@[i as int].0.id == self.peers@[i as int].info.id);
            i = i + 1;
        }
        None
    }

    /// Adds a peer. A full session refuses, even a peer it already has; a
    /// peer already present is kept as it is.
    pub fn add_peer(&mut self, info: PeerInfo, addr: SocketAddress) -> (r: Result<(), NetworkError>)
        ensures
            final(self).max_peers() == old(self).max_peers(),
            old(self)@.len() >= old(self).max_peers() ==> (r matches Err(NetworkError::SessionFull)
                && final(self)@ == old(self)@),
            old(self)@.len() < old(self).max_peers() && roster_has(old(self)@, info.id) ==> r is Ok
                && final(self)@ == old(self)@,
            old(self)@.len() < old(self).max_peers() && !roster_has(old(self)@, info.id) ==> r is Ok
                && final(self)@ == old(self)@.push((info@, addr)),
    {
        if self.peers.len() >= self.max_peers {
            return Err(NetworkError::SessionFull);
        }
        if self.find(info.id).is_some() {
            return Ok(());
        }
        let ghost before = self@;
        let ghost m = (info@, addr);
        self.peers.push(SessionPeer { info, addr });
        assert(self@ =~= before.push(m));
        Ok(())
    }

    /// Removes the peers with id `id`.
    pub fn remove_peer(&mut self, id: u128)
        ensures
            final(self).max_peers() == old(self).max_peers(),
            final(self)@ == roster_without(old(self)@, id),
    {
        let mut old_peers: Vec<SessionPeer> = Vec::new();
        std::mem::swap(&mut old_peers, &mut self.peers);
        let ghost all = roster_view(old_peers@);
        let n: usize = old_peers.len();
        let mut kept: Vec<SessionPeer> = Vec::new();
        let mut i: usize = 0;
        while old_peers.len() > 0
            invariant
                i + old_peers@.len() == n,
                all.len() == n,
                roster_view(old_peers@) == all.subrange(i as int, n as int),
                roster_view(kept@) == roster_without(all.subrange(0, i as int), id),
            decreases old_peers@.len(),
        {
            let ghost prev = old_peers@;
            let p = old_peers.remove(0);
            let ghost pm = (p.info@, p.addr);
            assert(pm == all[i as int]) by {
                assert(roster_view(prev)[0] == all.subrange(i as int, n as int)[0]);
            }
            assert(roster_view(old_peers@) =~= all.subrange(i as int + 1, n as int)) by {
                assert forall|k: int| 0 <= k < old_peers@.len() implies roster_view(old_peers@)[k]
                    == all.subrange(i as int + 1, n as int)[k] by {
                    assert(old_peers@[k] == prev[k + 1]);
                    assert(roster_view(prev)[k + 1] == all.subrange(i as int, n as int)[k + 1]);
                }
            }
            assert(all.subrange(0, i as int + 1).drop_last() =~= all.subrange(0, i as int));
            let ghost before = kept@;
            if p.info.id != id {
                kept.push(p);
                assert(roster_view(kept@) =~= roster_view(before).push(pm));
            }
            i = i + 1;
        }
        assert(all.subrange(0, n as int) =~= all);
        self.peers = kept;
    }

    /// The peers, in order.
    pub fn peers(&self) -> (r: Vec<PeerInfo>)
        ensures
            r@.len() == self@.len(),
            forall|i: int| 0 <= i < r@.len() ==> (#[trigger] r@[i])@ == self@[i].0,
    {
        let mut out: Vec<PeerInfo> = Vec::new();
        let mut i: usize = 0;
        while i < self.peers.len()
            invariant
                i <= self.peers@.len(),
                self@.len() == self.peers@.len(),
                out@.len() == i,
                forall|k: int| 0 <= k < i ==> (#[trigger] out@[k])@ == self@[k].0,
            decreases self.peers.len() - i,
        {
            out.push(self.peers[i].info.clone());
            i = i + 1;
        }
        out
    }

    /// The id of the first peer whose audio comes from `addr`.
    pub fn peer_at(&self, addr: SocketAddress) -> (r: Option<u128>)
        ensures
            match r {
                Some(id) => exists|i: int|
                    0 <= i < self@.len() && address_view((#[trigger] self@[i]).1) == address_view(addr)
                        && self@[i].0.id == id && forall|j: int|
                        0 <= j < i ==> address_view((#[trigger] self@[j]).1) != address_view(addr),
                None => forall|i: int|
                    0 <= i < self@.len() ==> address_view((#[trigger] self@[i]).1) != address_view(addr),
            },
    {
        let mut i: usize = 0;
        while i < self.peers.len()
            invariant
                i <= self.peers@.len(),
                self@.len() == self.peers@.len(),
                forall|j: int| 0 <= j < i ==> address_view((#[trigger] self@[j]).1) != address_view(addr),
            decreases self.peers.len() - i,
        {
            assert(self@[i as int] == (self.peers@[i as int].info@, self.peers@[i as int].addr));
            if same_address(&self.peers[i].addr, &addr) {
                return Some(self.peers[i].info.id);
            }
            i = i + 1;
        }
        None
    }

    /// The number of peers.
    pub fn len(&self) -> (r: usize)
        ensures
            r == self@.len(),
    {
        self.peers.len()
    }
}

/// Adding and removing peers keeps ids distinct and the session within its
/// size.
pub proof fn lemma_roster_without(r: Seq<SessionPeerModel>, id: u128)
    ensures
        roster_without(r, id).len() <= r.len(),
        !roster_has(roster_without(r, id), id),
    decreases r.len(),
{
    if r.len() > 0 {
        lemma_roster_without(r.drop_last(), id);
        let rest = roster_without(r.drop_last(), id);
        if r.last().0.id != id {
            assert forall|i: int| 0 <= i < rest.push(r.last()).len() implies (#[trigger] rest.push(
                r.last(),
            )[i]).0.id != id by {
                if i < rest.len() {
                    assert(!roster_has(rest, id));
                    assert(rest[i].0.id != id);
                }
            }
        }
    }
}

} // verus!
