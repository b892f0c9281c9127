//! Sets of peers, as the index hands them out: hash sets of the `hashbrown`
//! crate.
use crate::msg_hdr::PeerAddr;
use vstd::prelude::*;

verus! {

/// A set of peers: a `hashbrown::HashSet`. The set is held in a struct of
/// its own because the type itself cannot be declared: its allocator
/// parameter is bound by a trait that has no name here. Nothing is known of
/// a set but what `peer_set_items` says.
#[verifier::external_body]
pub struct PeerSet {
    set: hashbrown::HashSet<PeerAddr>,
}

/// The peers that a set holds.
pub uninterp spec fn peer_set_items(s: PeerSet) -> Set<PeerAddr>;

/// `HashSet::new`: a set that holds nothing.
#[verifier::external_body]
pub(crate) fn peer_set_new() -> (s: PeerSet)
    ensures
        peer_set_items(s) == Set::<PeerAddr>::empty(),
{
    PeerSet { set: hashbrown::HashSet::new() }
}

/// `HashSet::insert`: the peer is in the set afterwards, beside what was
/// there; the result says whether it is new.
#[verifier::external_body]
pub(crate) fn peer_set_insert(s: &mut PeerSet, p: PeerAddr) -> (fresh: bool)
    ensures
        peer_set_items(*final(s)) == peer_set_items(*old(s)).insert(p),
        fresh == !peer_set_items(*old(s)).contains(p),
{
    s.set.insert(p)
}

/// `HashSet::contains`: whether the peer is in the set.
#[verifier::external_body]
pub(crate) fn peer_set_contains(s: &PeerSet, p: &PeerAddr) -> (r: bool)
    ensures
        r == peer_set_items(*s).contains(*p),
{
    s.set.contains(p)
}

impl View for PeerSet {
    type V = Set<PeerAddr>;

    open spec fn view(&self) -> Set<PeerAddr> {
        peer_set_items(*self)
    }
}

impl PeerSet {
    /// A set with the peers of `v`.
    pub fn from_vec(v: &Vec<PeerAddr>) -> (s: PeerSet)
        ensures
            s@ == v@.to_set(),
    {
        let mut s = peer_set_new();
        let mut i: usize = 0;
        while i < v.len()
            invariant
                i <= v.len(),
                s@ == v@.take(i as int).to_set(),
            decreases v.len() - i,
        {
            let _ = peer_set_insert(&mut s, v[i]);
            assert(v@.take(i + 1) =~= v@.take(i as int).push(v@[i as int]));
            assert(v@.take(i + 1).to_set() =~= v@.take(i as int).to_set().insert(v@[i as int])) by {
                let t0 = v@.take(i as int);
                let t1 = v@.take(i + 1);
                let x = v@[i as int];
                assert forall|y: PeerAddr| t1.contains(y) <==> t0.contains(y) || y == x by {
                    if t0.contains(y) {
                        let k = choose|k: int| 0 <= k < t0.len() && t0[k] == y;
                        assert(t1[k] == y);
                    }
                    assert(t1[i as int] == v@[i as int]);
                }
            }
            i += 1;
        }
        assert(v@.take(v@.len() as int) =~= v@);
        s
    }

    /// Whether the peer is in the set.
    pub fn contains(&self, p: &PeerAddr) -> (r: bool)
        ensures
            r == self@.contains(*p),
    {
        peer_set_contains(self, p)
    }
}

} // verus!
