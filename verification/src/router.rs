//! The peers known to the anonymous router and the knowledge of each hop
//! of a route: the peers it knows and the layers it can decrypt.

use vstd::prelude::*;
use crate::types::{NetworkError, PeerId};

verus! {

/// What one hop of a route knows.
#[derive(Debug, Clone)]
pub struct HopInfo {
    /// The hop's peer
    pub peer_id: PeerId,
    /// Peers it knows
    pub known_peers: Vec<PeerId>,
    /// Keys of the layers it can decrypt, by layer
    pub layer_keys: Vec<(usize, Vec<u8>)>,
}

impl HopInfo {
    /// A hop with the given knowledge.
    pub fn new(peer_id: PeerId, known_peers: Vec<PeerId>, layer_keys: Vec<(usize, Vec<u8>)>) -> (r: HopInfo)
        ensures
            r.peer_id == peer_id,
            r.known_peers@ == known_peers@,
            r.layer_keys@ == layer_keys@,
    {
        HopInfo { peer_id, known_peers, layer_keys }
    }

    /// Whether the hop holds a key for `layer`.
    pub fn can_decrypt_layer(&self, layer: usize) -> (r: bool)
        ensures
            r == exists|i: int| 0 <= i < self.layer_keys@.len() && (#[trigger] self.layer_keys@[i]).0 == layer,
    {
        let mut i: usize = 0;
        while i < self.layer_keys.len()
            invariant
                0 <= i <= self.layer_keys@.len(),
                forall|j: int| 0 <= j < i ==> (#[trigger] self.layer_keys@[j]).0 != layer,
            decreases self.layer_keys@.len() - i,
        {
            if self.layer_keys[i].0 == layer {
                return true;
            }
            i = i + 1;
        }
        false
    }

    /// Whether the hop knows `peer`.
    pub fn knows_peer(&self, peer: &PeerId) -> (r: bool)
        ensures
            r == exists|i: int| 0 <= i < self.known_peers@.len() && (#[trigger] self.known_peers@[i]).bytes@ == peer.bytes@,
    {
        let mut i: usize = 0;
        while i < self.known_peers.len()
            invariant
                0 <= i <= self.known_peers@.len(),
                forall|j: int| 0 <= j < i ==> (#[trigger] self.known_peers@[j]).bytes@ != peer.bytes@,
            decreases self.known_peers@.len() - i,
        {
            if self.known_peers[i].same_as(peer) {
                return true;
            }
            i = i + 1;
        }
        false
    }
}

/// The layer keys a newly added peer holds: layers 0 to 4, the key of layer
/// `i` being 32 bytes of value `i`.
pub open spec fn initial_layer_keys(keys: Seq<(usize, Vec<u8>)>) -> bool {
    &&& keys.len() == 5
    &&& forall|i: int| 0 <= i < 5 ==> (#[trigger] keys[i]).0 == i && keys[i].1@ == Seq::new(32, |_j: int| i as u8)
}

/// The peers of `peers` other than those whose bytes are `source` or
/// `destination` (ids of another length name no peer), in order.
pub open spec fn relays_of(peers: Seq<PeerId>, source: Seq<u8>, destination: Seq<u8>) -> Seq<PeerId> {
    peers.filter(|p: PeerId| !(source.len() == 32 && p.bytes@ == source) && !(destination.len() == 32 && p.bytes@ == destination))
}

/// Whether `p` is one of `peers`.
pub open spec fn listed_peer(peers: Seq<PeerId>, p: PeerId) -> bool {
    exists|k: int| 0 <= k < peers.len() && peers[k] == p
}

/// Every peer of `r` is one of `peers`.
pub open spec fn drawn_from(r: Seq<PeerId>, peers: Seq<PeerId>) -> bool {
    forall|i: int| 0 <= i < r.len() ==> #[trigger] listed_peer(peers, r[i])
}

/// No two peers of `s` have the same identity bytes.
pub open spec fn distinct_ids(s: Seq<PeerId>) -> bool {
    forall|i: int, j: int| 0 <= i < j < s.len() ==> (#[trigger] s[i]).bytes@ != (#[trigger] s[j]).bytes@
}

/// `rand::seq::SliceRandom::choose_multiple` with the thread-local
/// generator `rand::thread_rng`: `count` of `peers` (all of them when there
/// are fewer), chosen without repetition. Which ones come back, and in what
/// order, is left to chance.
#[verifier::external_body]
fn random_peers(peers: &[PeerId], count: usize) -> (r: Vec<PeerId>)
    ensures
        r@.len() == if count < peers@.len() { count as int } else { peers@.len() as int },
        drawn_from(r@, peers@),
        distinct_ids(peers@) ==> distinct_ids(r@),
{
    rand::seq::SliceRandom::choose_multiple(peers, &mut rand::thread_rng(), count).copied().collect()
}

/// Known peers and what each hop of an anonymous route knows.
#[derive(Debug, Clone)]
pub struct Router {
    /// Known peers, each once
    pub peers: Vec<PeerId>,
    /// Hop knowledge, one entry per peer
    pub hop_info: Vec<HopInfo>,
}

fn key_of(i: usize) -> (r: Vec<u8>)
    requires
        i < 256,
    ensures
        r@ == Seq::new(32, |_j: int| i as u8),
{
    let mut v: Vec<u8> = Vec::new();
    let mut k: usize = 0;
    while k < 32
        invariant
            0 <= k <= 32,
            i < 256,
            v@ == Seq::new(k as nat, |_j: int| i as u8),
        decreases 32 - k,
    {
        v.push(i as u8);
        k = k + 1;
        assert(v@ =~= Seq::new(k as nat, |_j: int| i as u8));
    }
    v
}

/// The peers of `peers` other than the one with identity bytes `p`.
pub open spec fn others_of(peers: Seq<PeerId>, p: Seq<u8>) -> Seq<PeerId> {
    peers.filter(|q: PeerId| q.bytes@ != p)
}

/// How many of `others` other peers a new hop knows: half of them, at
/// least one and at most three (no more than there are).
pub open spec fn known_count(others: nat) -> nat {
    let wanted = if others / 2 < 1 { 1 } else if others / 2 > 3 { 3 } else { others / 2 };
    if wanted < others { wanted } else { others }
}

impl Router {
    /// No peers.
    pub fn new() -> (r: Router)
        ensures
            r.peers@.len() == 0,
            r.hop_info@.len() == 0,
    {
        Router { peers: Vec::new(), hop_info: Vec::new() }
    }

    /// Adds a peer whose hop knows a random subset of the other known peers
    /// (see `known_count` for how many; never the peer itself) and holds the
    /// keys of layers 0 to 4; its earlier hop knowledge, if any, is replaced
    /// by this one, which comes last.
    pub fn add_peer(&mut self, peer_id: PeerId)
        ensures
            exists|i: int| 0 <= i < final(self).peers@.len() && (#[trigger] final(self).peers@[i]).bytes@ == peer_id.bytes@,
            (exists|i: int| 0 <= i < old(self).peers@.len() && (#[trigger] old(self).peers@[i]).bytes@ == peer_id.bytes@)
                ==> final(self).peers@ == old(self).peers@,
            !(exists|i: int| 0 <= i < old(self).peers@.len() && (#[trigger] old(self).peers@[i]).bytes@ == peer_id.bytes@)
                ==> final(self).peers@ == old(self).peers@.push(peer_id),
            final(self).hop_info@.len() == old(self).hop_info@.filter(|h: HopInfo| h.peer_id.bytes@ != peer_id.bytes@).len() + 1,
            final(self).hop_info@.last().peer_id == peer_id,
            initial_layer_keys(final(self).hop_info@.last().layer_keys@),
            final(self).hop_info@.drop_last() == old(self).hop_info@.filter(|h: HopInfo| h.peer_id.bytes@ != peer_id.bytes@),
            final(self).hop_info@.last().known_peers@.len() == known_count(others_of(final(self).peers@, peer_id.bytes@).len()),
            drawn_from(final(self).hop_info@.last().known_peers@, others_of(final(self).peers@, peer_id.bytes@)),
            forall|i: int| 0 <= i < final(self).hop_info@.last().known_peers@.len()
                ==> (#[trigger] final(self).hop_info@.last().known_peers@[i]).bytes@ != peer_id.bytes@,
            distinct_ids(old(self).peers@) ==> distinct_ids(final(self).peers@),
            distinct_ids(old(self).peers@) ==> distinct_ids(final(self).hop_info@.last().known_peers@),
    {
        let ghost f = |q: PeerId| q.bytes@ != peer_id.bytes@;
        let mut others: Vec<PeerId> = Vec::new();
        let mut i: usize = 0;
        proof {
            reveal(Seq::filter);
            assert(self.peers@.take(0) =~= Seq::<PeerId>::empty());
        }
        while i < self.peers.len()
            invariant
                0 <= i <= self.peers@.len(),
                others@ == self.peers@.take(i as int).filter(f),
                f == (|q: PeerId| q.bytes@ != peer_id.bytes@),
                forall|k: int| 0 <= k < others@.len() ==> exists|j: int| 0 <= j < i && #[trigger] others@[k] == self.peers@[j],
                distinct_ids(self.peers@) ==> distinct_ids(others@),
            decreases self.peers@.len() - i,
        {
            let q = self.peers[i];
            let ghost before = others@;
            proof {
                assert(self.peers@.take(i + 1).drop_last() =~= self.peers@.take(i as int));
                reveal(Seq::filter);
            }
            if !q.same_as(&peer_id) {
                others.push(q);
                proof {
                    assert(others@[others@.len() - 1] == self.peers@[i as int]);
                    assert forall|k: int| 0 <= k < others@.len() implies exists|j: int| 0 <= j < i + 1 && #[trigger] others@[k] == self.peers@[j] by {
                        if k < before.len() {
                            assert(others@[k] == before[k]);
                            let j = choose|j: int| 0 <= j < i && #[trigger] before[k] == self.peers@[j];
                        }
                    }
                    if distinct_ids(self.peers@) {
                        assert forall|a: int, b: int| 0 <= a < b < others@.len() implies (#[trigger] others@[a]).bytes@ != (#[trigger] others@[b]).bytes@ by {
                            if b < before.len() {
                                assert(others@[a] == before[a] && others@[b] == before[b]);
                            } else {
                                assert(others@[a] == before[a]);
                                let j = choose|j: int| 0 <= j < i && #[trigger] before[a] == self.peers@[j];
                                assert(self.peers@[j].bytes@ != self.peers@[i as int].bytes@);
                            }
                        }
                    }
                }
            }
            i = i + 1;
        }
        proof {
            assert(self.peers@.take(i as int) =~= self.peers@);
        }
        let n = others.len();
        let half = n / 2;
        let wanted: usize = if half < 1 { 1 } else if half > 3 { 3 } else { half };
        let pool = others.as_slice();
        let known = random_peers(pool, wanted);
        let ghost old_peers = self.peers@;
        let ghost kn = known@;
        proof {
            assert(pool@ == others@);
            old_peers.filter(f).lemma_filter_len(f);
            assert forall|k: int| 0 <= k < kn.len() implies (#[trigger] kn[k]).bytes@ != peer_id.bytes@ by {
                assert(listed_peer(others@, kn[k]));
                let j = choose|j: int| 0 <= j < others@.len() && others@[j] == kn[k];
                old_peers.lemma_filter_pred(f, j);
            }
        }
        self.add_peer_knowing(peer_id, known);
        proof {
            if !(exists|i: int| 0 <= i < old_peers.len() && (#[trigger] old_peers[i]).bytes@ == peer_id.bytes@) {
                old_peers.lemma_filter_push(peer_id, f);
            }
            assert(others_of(self.peers@, peer_id.bytes@) == old_peers.filter(f));
        }
    }

    /// Adds a peer that knows `known_subset` and holds the keys of layers 0
    /// to 4; its earlier hop knowledge, if any, is replaced by this one,
    /// which comes last.
    pub fn add_peer_knowing(&mut self, peer_id: PeerId, known_subset: Vec<PeerId>)
        ensures
            exists|i: int| 0 <= i < final(self).peers@.len() && (#[trigger] final(self).peers@[i]).bytes@ == peer_id.bytes@,
            (exists|i: int| 0 <= i < old(self).peers@.len() && (#[trigger] old(self).peers@[i]).bytes@ == peer_id.bytes@)
                ==> final(self).peers@ == old(self).peers@,
            !(exists|i: int| 0 <= i < old(self).peers@.len() && (#[trigger] old(self).peers@[i]).bytes@ == peer_id.bytes@)
                ==> final(self).peers@ == old(self).peers@.push(peer_id),
            final(self).hop_info@.len() == old(self).hop_info@.filter(|h: HopInfo| h.peer_id.bytes@ != peer_id.bytes@).len() + 1,
            final(self).hop_info@.last().peer_id == peer_id,
            final(self).hop_info@.last().known_peers@ == known_subset@,
            distinct_ids(old(self).peers@) ==> distinct_ids(final(self).peers@),
            initial_layer_keys(final(self).hop_info@.last().layer_keys@),
            final(self).hop_info@.drop_last() == old(self).hop_info@.filter(|h: HopInfo| h.peer_id.bytes@ != peer_id.bytes@),
    {
        let mut present = false;
        let mut i: usize = 0;
        while i < self.peers.len()
            invariant
                0 <= i <= self.peers@.len(),
                self.peers@ == old(self).peers@,
                self.hop_info@ == old(self).hop_info@,
                present ==> exists|j: int| 0 <= j < self.peers@.len() && (#[trigger] self.peers@[j]).bytes@ == peer_id.bytes@,
                !present ==> forall|j: int| 0 <= j < i ==> (#[trigger] self.peers@[j]).bytes@ != peer_id.bytes@,
            decreases self.peers@.len() - i,
        {
            if self.peers[i].same_as(&peer_id) {
                present = true;
            }
            i = i + 1;
        }
        if !present {
            self.peers.push(peer_id);
            proof {
                assert(self.peers@[self.peers@.len() - 1].bytes@ == peer_id.bytes@);
                if distinct_ids(old(self).peers@) {
                    assert forall|a: int, b: int| 0 <= a < b < self.peers@.len() implies (#[trigger] self.peers@[a]).bytes@ != (#[trigger] self.peers@[b]).bytes@ by {
                        if b < old(self).peers@.len() {
                            assert(self.peers@[a] == old(self).peers@[a] && self.peers@[b] == old(self).peers@[b]);
                        } else {
                            assert(self.peers@[a] == old(self).peers@[a]);
                        }
                    }
                }
            }
        }
        proof {
            if !(exists|i: int| 0 <= i < old(self).peers@.len() && (#[trigger] old(self).peers@[i]).bytes@ == peer_id.bytes@) {
                assert(!present);
            }
        }
        let ghost peers_now = self.peers@;
        let mut layer_keys: Vec<(usize, Vec<u8>)> = Vec::new();
        let mut l: usize = 0;
        while l < 5
            invariant
                0 <= l <= 5,
                layer_keys@.len() == l,
                forall|j: int| 0 <= j < l ==> (#[trigger] layer_keys@[j]).0 == j && layer_keys@[j].1@ == Seq::new(32, |_x: int| j as u8),
            decreases 5 - l,
        {
            layer_keys.push((l, key_of(l)));
            l = l + 1;
        }
        let mut rest: Vec<HopInfo> = Vec::new();
        std::mem::swap(&mut rest, &mut self.hop_info);
        let ghost all = rest@;
        let ghost mut k: int = 0;
        proof {
            assert(all.skip(0) =~= all);
            reveal(Seq::filter);
            assert(all.take(0) =~= Seq::<HopInfo>::empty());
        }
        while rest.len() > 0
            invariant
                0 <= k <= all.len(),
                rest@ == all.skip(k),
                self.hop_info@ == all.take(k).filter(|h: HopInfo| h.peer_id.bytes@ != peer_id.bytes@),
                all == old(self).hop_info@,
                self.peers@ == peers_now,
                exists|j: int| 0 <= j < peers_now.len() && (#[trigger] peers_now[j]).bytes@ == peer_id.bytes@,
                present ==> peers_now == old(self).peers@,
                (exists|j: int| 0 <= j < old(self).peers@.len() && (#[trigger] old(self).peers@[j]).bytes@ == peer_id.bytes@)
                    ==> present,
            decreases rest@.len(),
        {
            let h = rest.remove(0);
            proof {
                assert(h == all[k]);
                assert(all.take(k + 1).drop_last() =~= all.take(k));
                reveal(Seq::filter);
                assert(rest@ =~= all.skip(k + 1));
            }
            if !h.peer_id.same_as(&peer_id) {
                self.hop_info.push(h);
            }
            proof {
                k = k + 1;
            }
        }
        proof {
            assert(all.take(k) =~= all);
        }
        self.hop_info.push(HopInfo { peer_id, known_peers: known_subset, layer_keys });
        proof {
            assert(self.hop_info@.drop_last() =~= old(self).hop_info@.filter(|h: HopInfo| h.peer_id.bytes@ != peer_id.bytes@));
            let j = choose|j: int| 0 <= j < peers_now.len() && (#[trigger] peers_now[j]).bytes@ == peer_id.bytes@;
            assert(self.peers@[j].bytes@ == peer_id.bytes@);
        }
    }

    /// The hop knowledge of `peer`, or a routing error.
    pub fn get_hop_info(&self, peer: &PeerId) -> (r: Result<&HopInfo, NetworkError>)
        ensures
            r matches Ok(h) ==> exists|i: int| 0 <= i < self.hop_info@.len() && #[trigger] self.hop_info@[i] == *h
                && h.peer_id.bytes@ == peer.bytes@,
            r is Err <==> forall|i: int| 0 <= i < self.hop_info@.len() ==> (#[trigger] self.hop_info@[i]).peer_id.bytes@ != peer.bytes@,
            r matches Err(NetworkError::RoutingError(m)) ==> m@ == "Hop information not found"@,
            r is Err ==> (r matches Err(NetworkError::RoutingError(_))),
    {
        let mut i: usize = 0;
        while i < self.hop_info.len()
            invariant
                0 <= i <= self.hop_info@.len(),
                forall|j: int| 0 <= j < i ==> (#[trigger] self.hop_info@[j]).peer_id.bytes@ != peer.bytes@,
            decreases self.hop_info@.len() - i,
        {
            if self.hop_info[i].peer_id.same_as(peer) {
                return Ok(&self.hop_info[i]);
            }
            i = i + 1;
        }
        Err(NetworkError::RoutingError(String::from_str("Hop information not found")))
    }

    /// The direct route to the peer with the given 32 identity bytes; other
    /// lengths are refused.
    pub fn route_direct(peer_bytes: &[u8]) -> (r: Result<Vec<PeerId>, NetworkError>)
        ensures
            peer_bytes@.len() == 32 ==> (r matches Ok(v) && v@.len() == 1 && v@[0].bytes@ == peer_bytes@),
            peer_bytes@.len() != 32 ==> (r matches Err(NetworkError::RoutingError(m)) && m@ == "Invalid peer ID format"@),
    {
        if peer_bytes.len() != 32 {
            return Err(NetworkError::RoutingError(String::from_str("Invalid peer ID format")));
        }
        let mut bytes = [0u8; 32];
        let mut i: usize = 0;
        while i < 32
            invariant
                0 <= i <= 32,
                peer_bytes@.len() == 32,
                forall|j: int| 0 <= j < i ==> bytes@[j] == peer_bytes@[j],
            decreases 32 - i,
        {
            bytes.set(i, peer_bytes[i]);
            i = i + 1;
        }
        assert(bytes@ =~= peer_bytes@);
        let mut v: Vec<PeerId> = Vec::new();
        v.push(PeerId::from_bytes(bytes));
        Ok(v)
    }

    /// Flooding: every known peer.
    pub fn route_flood(&self) -> (r: Vec<PeerId>)
        ensures
            r@ == self.peers@,
    {
        let mut v: Vec<PeerId> = Vec::new();
        let mut i: usize = 0;
        while i < self.peers.len()
            invariant
                0 <= i <= self.peers@.len(),
                v@ == self.peers@.take(i as int),
            decreases self.peers@.len() - i,
        {
            v.push(self.peers[i]);
            i = i + 1;
            assert(v@ =~= self.peers@.take(i as int));
        }
        assert(self.peers@.take(i as int) =~= self.peers@);
        v
    }

    /// `count` known peers picked at random (all of them when fewer are
    /// known).
    pub fn route_random_subset(&self, count: usize) -> (r: Vec<PeerId>)
        ensures
            r@.len() == if count < self.peers@.len() { count as int } else { self.peers@.len() as int },
            drawn_from(r@, self.peers@),
            distinct_ids(self.peers@) ==> distinct_ids(r@),
    {
        let all = self.peers.as_slice();
        let r = random_peers(all, count);
        proof {
            assert(all@ == self.peers@);
        }
        r
    }

    /// The peers that may relay an anonymous message from `source` to
    /// `destination` (see `relays_of`); fewer than `hops` of them is an error.
    pub fn relay_candidates(&self, source: &[u8], destination: &[u8], hops: usize) -> (r: Result<Vec<PeerId>, NetworkError>)
        ensures
            relays_of(self.peers@, source@, destination@).len() < hops ==> (r matches Err(NetworkError::RoutingError(m))
                && m@ == "Not enough peers for anonymous routing"@),
            relays_of(self.peers@, source@, destination@).len() >= hops ==> (r matches Ok(v)
                && v@ == relays_of(self.peers@, source@, destination@)),
    {
        let ghost f = |p: PeerId| !(source@.len() == 32 && p.bytes@ == source@) && !(destination@.len() == 32 && p.bytes@ == destination@);
        let mut v: Vec<PeerId> = Vec::new();
        let mut i: usize = 0;
        proof {
            reveal(Seq::filter);
            assert(self.peers@.take(0) =~= Seq::<PeerId>::empty());
        }
        while i < self.peers.len()
            invariant
                0 <= i <= self.peers@.len(),
                v@ == self.peers@.take(i as int).filter(f),
                f == (|p: PeerId| !(source@.len() == 32 && p.bytes@ == source@) && !(destination@.len() == 32 && p.bytes@ == destination@)),
            decreases self.peers@.len() - i,
        {
            let p = self.peers[i];
            proof {
                assert(self.peers@.take(i + 1).drop_last() =~= self.peers@.take(i as int));
                reveal(Seq::filter);
            }
            let is_source = source.len() == 32 && slice_equals(&p.bytes, source);
            let is_destination = destination.len() == 32 && slice_equals(&p.bytes, destination);
            if !is_source && !is_destination {
                v.push(p);
            }
            i = i + 1;
        }
        proof {
            assert(self.peers@.take(i as int) =~= self.peers@);
        }
        if v.len() < hops {
            return Err(NetworkError::RoutingError(String::from_str("Not enough peers for anonymous routing")));
        }
        Ok(v)
    }
}

fn slice_equals(a: &[u8; 32], b: &[u8]) -> (r: bool)
    ensures
        r == (a@ == b@),
{
    if b.len() != 32 {
        return false;
    }
    let mut i: usize = 0;
    while i < 32
        invariant
            0 <= i <= 32,
            b@.len() == 32,
            forall|j: int| 0 <= j < i ==> a@[j] == b@[j],
        decreases 32 - i,
    {
        if a[i] != b[i] {
            return false;
        }
        i = i + 1;
    }
    assert(a@ =~= b@);
    true
}

} // verus!
