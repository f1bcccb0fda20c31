//! The registry of connections that take part in the relay, keyed by peer address.
//!
//! The registry holds no lock of its own: whoever shares it across workers wraps it in one
//! mutex, so that each call below (an insert, a fan-out scan, a removal) is one exclusive step.
use vstd::prelude::*;

verus! {

/// A network peer address: the IP address as a 128-bit number (IPv4 mapped into IPv6)
/// and the port.
#[derive(Clone, Copy, Debug, PartialEq, Eq, Hash, Structural)]
pub struct PeerAddr {
    pub ip: u128,
    pub port: u16,
}

struct Member<C> {
    peer: PeerAddr,
    conn: C,
}

/// The connections currently attached, at most one per peer address.
pub struct Registry<C> {
    members: Vec<Member<C>>,
}

spec fn peers_of<C>(members: Seq<Member<C>>) -> Seq<PeerAddr> {
    members.map_values(|m: Member<C>| m.peer)
}

/// `t` lists, in increasing order and once each, the positions of `peers` that a message
/// from `sender` goes to: every position whose peer is not `sender`.
pub open spec fn is_fan_out(peers: Seq<PeerAddr>, sender: PeerAddr, t: Seq<usize>) -> bool {
    &&& forall|j: int| 0 <= j < t.len() ==> #[trigger] t[j] < peers.len() && peers[t[j] as int] != sender
    &&& forall|j: int, k: int| 0 <= j < k < t.len() ==> #[trigger] t[j] < #[trigger] t[k]
    &&& forall|i: int|
        0 <= i < peers.len() && #[trigger] peers[i] != sender ==> exists|j: int|
            0 <= j < t.len() && #[trigger] t[j] as int == i
}

/// What remains of `peers` once every peer listed in `gone` is taken out, in the same order.
pub open spec fn without(peers: Seq<PeerAddr>, gone: Seq<PeerAddr>) -> Seq<PeerAddr> {
    peers.filter(|p: PeerAddr| !gone.contains(p))
}

impl<C> View for Registry<C> {
    type V = Seq<PeerAddr>;

    /// The peer addresses of the members, in the order they joined.
    closed spec fn view(&self) -> Seq<PeerAddr> {
        peers_of(self.members@)
    }
}

proof fn lemma_filter_subset(s: Seq<PeerAddr>, pred: spec_fn(PeerAddr) -> bool, x: PeerAddr)
    requires
        s.filter(pred).contains(x),
    ensures
        s.contains(x),
    decreases s.len(),
{
    reveal(Seq::filter);
    if s.len() > 0 {
        let sub = s.drop_last().filter(pred);
        if sub.contains(x) {
            lemma_filter_subset(s.drop_last(), pred, x);
            let i = choose|i: int| 0 <= i < s.drop_last().len() && s.drop_last()[i] == x;
            assert(s[i] == x);
        } else {
            assert(x == s.last());
            assert(s[s.len() - 1] == x);
        }
    }
}

proof fn lemma_filter_unique(s: Seq<PeerAddr>, pred: spec_fn(PeerAddr) -> bool)
    requires
        s.no_duplicates(),
    ensures
        s.filter(pred).no_duplicates(),
    decreases s.len(),
{
    reveal(Seq::filter);
    if s.len() > 0 {
        let init = s.drop_last();
        assert(init.no_duplicates());
        lemma_filter_unique(init, pred);
        if pred(s.last()) {
            let sub = init.filter(pred);
            if sub.contains(s.last()) {
                lemma_filter_subset(init, pred, s.last());
                let i = choose|i: int| 0 <= i < init.len() && init[i] == s.last();
                assert(s[i] == s[s.len() - 1]);
            }
            assert(sub.push(s.last()).no_duplicates());
        }
    }
}

impl<C> Registry<C> {
    #[verifier::type_invariant]
    spec fn unique(&self) -> bool {
        self@.no_duplicates()
    }

    /// The connection of the member at position `i`.
    pub closed spec fn conn(&self, i: int) -> C {
        self.members@[i].conn
    }

    /// An empty registry.
    pub fn new() -> (r: Self)
        ensures
            r@ == Seq::<PeerAddr>::empty(),
    {
        let r = Registry { members: Vec::new() };
        assert(r@ =~= Seq::<PeerAddr>::empty());
        r
    }

    /// The number of members.
    pub fn len(&self) -> (r: usize)
        ensures
            r == self@.len(),
    {
        self.members.len()
    }

    /// The position of the member with address `peer`, if any.
    pub fn position(&self, peer: PeerAddr) -> (r: Option<usize>)
        ensures
            self@.no_duplicates(),
            r matches Some(i) ==> i < self@.len() && self@[i as int] == peer,
            r is None ==> !self@.contains(peer),
    {
        proof {
            use_type_invariant(self);
        }
        let mut i: usize = 0;
        while i < self.members.len()
            invariant
                0 <= i <= self@.len(),
                self@.len() == self.members@.len(),
                self@.no_duplicates(),
                forall|j: int| 0 <= j < i ==> self@[j] != peer,
            decreases self@.len() - i,
        {
            if self.members[i].peer == peer {
                return Some(i);
            }
            i = i + 1;
        }
        None
    }

    /// Whether a member has address `peer`.
    pub fn contains(&self, peer: PeerAddr) -> (r: bool)
        ensures
            r == self@.contains(peer),
    {
        match self.position(peer) {
            Some(_) => true,
            None => false,
        }
    }

    /// The address of the member at position `i`.
    pub fn peer_at(&self, i: usize) -> (r: PeerAddr)
        requires
            i < self@.len(),
        ensures
            r == self@[i as int],
    {
        self.members[i].peer
    }

    /// The connection of the member at position `i`.
    pub fn conn_at(&self, i: usize) -> (r: &C)
        requires
            i < self@.len(),
        ensures
            *r == self.conn(i as int),
    {
        &self.members[i].conn
    }

    /// Attaches `conn` under address `peer`. A member with that address already present
    /// keeps its place and has its connection replaced; the replaced one is returned.
    pub fn add(&mut self, peer: PeerAddr, conn: C) -> (r: Option<C>)
        ensures
            old(self)@.contains(peer) ==> final(self)@ == old(self)@ && r is Some,
            !old(self)@.contains(peer) ==> final(self)@ == old(self)@.push(peer) && r is None,
            final(self)@.contains(peer),
            forall|i: int| 0 <= i < final(self)@.len() && final(self)@[i] == peer ==> final(self).conn(i) == conn,
    {
        proof {
            use_type_invariant(&*self);
        }
        let ghost before = self@;
        let mut members: Vec<Member<C>> = Vec::new();
        std::mem::swap(&mut members, &mut self.members);
        assert(peers_of(members@) == before);
        let mut i: usize = 0;
        while i < members.len()
            invariant
                0 <= i <= members@.len(),
                peers_of(members@) == before,
                before.no_duplicates(),
                before == old(self)@,
                forall|j: int| 0 <= j < i ==> members@[j].peer != peer,
            decreases members@.len() - i,
        {
            if members[i].peer == peer {
                let ghost prev = members@;
                let old_member = members.remove(i);
                members.insert(i, Member { peer, conn });
                proof {
                    assert(members@ =~= prev.update(i as int, Member { peer, conn }));
                    assert(peers_of(members@) =~= before);
                    assert(before[i as int] == peer);
                    assert(forall|j: int| 0 <= j < before.len() && before[j] == peer ==> j == i);
                }
                self.members = members;
                return Some(old_member.conn);
            }
            i = i + 1;
        }
        members.push(Member { peer, conn });
        proof {
            assert(peers_of(members@) =~= before.push(peer));
            assert(!before.contains(peer));
            assert(before.push(peer).no_duplicates());
            assert(before.push(peer)[before.len() as int] == peer);
        }
        self.members = members;
        None
    }

    /// The positions of the members that a message from `sender` is relayed to: every
    /// member but `sender` itself, each once, in order.
    pub fn relay_targets(&self, sender: PeerAddr) -> (r: Vec<usize>)
        ensures
            self@.no_duplicates(),
            is_fan_out(self@, sender, r@),
    {
        proof {
            use_type_invariant(self);
        }
        let mut r: Vec<usize> = Vec::new();
        let mut i: usize = 0;
        while i < self.members.len()
            invariant
                0 <= i <= self@.len(),
                self@.len() == self.members@.len(),
                forall|j: int| 0 <= j < r@.len() ==> #[trigger] r@[j] < i && self@[r@[j] as int] != sender,
                forall|j: int, k: int| 0 <= j < k < r@.len() ==> #[trigger] r@[j] < #[trigger] r@[k],
                forall|m: int|
                    0 <= m < i && #[trigger] self@[m] != sender ==> exists|j: int|
                        0 <= j < r@.len() && #[trigger] r@[j] as int == m,
            decreases self@.len() - i,
        {
            if self.members[i].peer != sender {
                let ghost prev = r@;
                r.push(i);
                proof {
                    assert(r@ =~= prev.push(i));
                    assert(r@[r@.len() - 1] == i);
                    assert forall|m: int| 0 <= m < i + 1 && #[trigger] self@[m] != sender implies exists|
                        j: int,
                    | 0 <= j < r@.len() && #[trigger] r@[j] as int == m by {
                        if m < i {
                            let j = choose|j: int| 0 <= j < prev.len() && #[trigger] prev[j] as int == m;
                            assert(r@[j] as int == m);
                        } else {
                            assert(r@[r@.len() - 1] as int == m);
                        }
                    }
                }
            }
            i = i + 1;
        }
        r
    }

    /// Takes out every member whose address is listed in `gone`; the others stay, in order.
    pub fn drop_peers(&mut self, gone: &Vec<PeerAddr>)
        ensures
            final(self)@ == without(old(self)@, gone@),
    {
        proof {
            use_type_invariant(&*self);
        }
        let ghost before = self@;
        let ghost pred = |p: PeerAddr| !gone@.contains(p);
        let mut members: Vec<Member<C>> = Vec::new();
        std::mem::swap(&mut members, &mut self.members);
        let mut i: usize = 0;
        let ghost mut k: int = 0;
        assert(before.subrange(0, 0).filter(pred) =~= Seq::<PeerAddr>::empty()) by {
            reveal(Seq::filter);
        }
        assert(peers_of(members@) =~= before.subrange(0, 0).filter(pred) + before.subrange(0, before.len() as int));
        while i < members.len()
            invariant
                0 <= k <= before.len(),
                i == before.subrange(0, k).filter(pred).len(),
                peers_of(members@) == before.subrange(0, k).filter(pred) + before.subrange(k, before.len() as int),
                pred == (|p: PeerAddr| !gone@.contains(p)),
            decreases members@.len() - i,
        {
            let ghost kept = before.subrange(0, k).filter(pred);
            let ghost next = before.subrange(0, k + 1);
            assert(next.drop_last() =~= before.subrange(0, k));
            assert(next.last() == before[k]);
            assert(peers_of(members@)[i as int] == before[k]);
            if list_contains(gone, members[i].peer) {
                let ghost prev = members@;
                let _dropped = members.remove(i);
                proof {
                    assert(peers_of(members@) =~= peers_of(prev).remove(i as int));
                    reveal(Seq::filter);
                    assert(next.filter(pred) == kept);
                    assert(peers_of(members@) =~= next.filter(pred) + before.subrange(k + 1, before.len() as int));
                }
            } else {
                i = i + 1;
                proof {
                    reveal(Seq::filter);
                    assert(next.filter(pred) == kept.push(before[k]));
                    assert(peers_of(members@) =~= next.filter(pred) + before.subrange(k + 1, before.len() as int));
                }
            }
            proof {
                k = k + 1;
            }
        }
        proof {
            assert(k == before.len()) by {
                if k < before.len() {
                    assert(peers_of(members@).len() == i + (before.len() - k));
                }
            }
            assert(before.subrange(0, k) =~= before);
            assert(peers_of(members@) =~= before.filter(pred));
            lemma_filter_unique(before, pred);
        }
        self.members = members;
    }

    /// Takes out the member with address `peer`, if there is one; the others stay, in order.
    /// Returns whether there was one.
    pub fn remove(&mut self, peer: PeerAddr) -> (r: bool)
        ensures
            r == old(self)@.contains(peer),
            final(self)@ == without(old(self)@, seq![peer]),
    {
        let r = self.contains(peer);
        let mut gone: Vec<PeerAddr> = Vec::new();
        gone.push(peer);
        assert(gone@ =~= seq![peer]);
        self.drop_peers(&gone);
        r
    }
}

/// Whether `list` holds `p`.
fn list_contains(list: &Vec<PeerAddr>, p: PeerAddr) -> (r: bool)
    ensures
        r == list@.contains(p),
{
    let mut i: usize = 0;
    while i < list.len()
        invariant
            0 <= i <= list@.len(),
            forall|j: int| 0 <= j < i ==> list@[j] != p,
        decreases list@.len() - i,
    {
        if list[i] == p {
            assert(list@[i as int] == p);
            return true;
        }
        i = i + 1;
    }
    false
}

/// Fan-out delivers one copy per recipient: a message relayed from `sender` goes to every
/// other member exactly once, and never back to `sender`.
pub proof fn lemma_fan_out_exactly_once(peers: Seq<PeerAddr>, sender: PeerAddr, t: Seq<usize>, p: PeerAddr)
    requires
        peers.no_duplicates(),
        is_fan_out(peers, sender, t),
        peers.contains(p),
    ensures
        p == sender ==> forall|j: int| 0 <= j < t.len() ==> peers[#[trigger] t[j] as int] != p,
        p != sender ==> exists|j: int|
            0 <= j < t.len() && peers[#[trigger] t[j] as int] == p && (forall|k: int|
                0 <= k < t.len() && k != j ==> peers[#[trigger] t[k] as int] != p),
{
    let i = choose|i: int| 0 <= i < peers.len() && peers[i] == p;
    if p != sender {
        assert(peers[i] != sender);
        let j = choose|j: int| 0 <= j < t.len() && #[trigger] t[j] as int == i;
        assert forall|k: int| 0 <= k < t.len() && k != j implies peers[#[trigger] t[k] as int] != p by {
            if k < j {
                assert(t[k] < t[j]);
            } else {
                assert(t[j] < t[k]);
            }
        }
        assert(peers[t[j] as int] == p);
    }
}

/// Dropping the peers whose delivery failed keeps exactly the others: a member stays
/// if and only if its delivery did not fail.
pub proof fn lemma_failure_isolated(peers: Seq<PeerAddr>, failed: Seq<PeerAddr>, p: PeerAddr)
    ensures
        without(peers, failed).contains(p) <==> peers.contains(p) && !failed.contains(p),
{
    let pred = |q: PeerAddr| !failed.contains(q);
    if without(peers, failed).contains(p) {
        lemma_filter_subset(peers, pred, p);
        let j = choose|j: int| 0 <= j < peers.filter(pred).len() && peers.filter(pred)[j] == p;
        peers.lemma_filter_pred(pred, j);
    }
    if peers.contains(p) && !failed.contains(p) {
        let i = choose|i: int| 0 <= i < peers.len() && peers[i] == p;
        peers.lemma_filter_contains(pred, i);
    }
}

/// A peer that has left the registry is sent nothing by any later fan-out.
pub proof fn lemma_departed_gets_nothing(peers: Seq<PeerAddr>, sender: PeerAddr, t: Seq<usize>, gone: PeerAddr)
    requires
        !peers.contains(gone),
        is_fan_out(peers, sender, t),
    ensures
        forall|j: int| 0 <= j < t.len() ==> peers[#[trigger] t[j] as int] != gone,
{
    assert forall|j: int| 0 <= j < t.len() implies peers[#[trigger] t[j] as int] != gone by {
        if peers[t[j] as int] == gone {
            assert(peers.contains(gone));
        }
    }
}

} // verus!
