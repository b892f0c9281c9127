//! Two-way maps of sets of the `bisetmap` crate, as the subscription index
//! and the topic registry use them.
//!
//! A `BisetMap` associates left items with right items, each pair once, and
//! finds the partners of an item from either side. Its methods take `&self`
//! and a clone shares the pairs of the map it was made from; here a map has
//! one owner, is never cloned, and is changed through `&mut` only, so that
//! what a map holds is a function of the value. Peers and subscribers are
//! compared field by field, as their derived `Eq` and `Hash` do.
use crate::msg_hdr::PeerAddr;
use bisetmap::BisetMap;
use vstd::prelude::*;

verus! {

/// `bisetmap::BisetMap`. Nothing is known of a map but what the name of
/// its pairs says.
#[verifier::external_type_specification]
#[verifier::external_body]
#[verifier::reject_recursive_types(L)]
#[verifier::reject_recursive_types(R)]
pub struct ExBisetMap<L: Eq + std::hash::Hash + Clone, R: Eq + std::hash::Hash + Clone>(
    BisetMap<L, R>,
);

/// A subscriber: the peer and the QoS level that it was granted.
#[derive(Clone, Copy, Debug, PartialEq, Eq, Hash, Structural)]
pub struct Subscriber {
    pub socket_addr: PeerAddr,
    pub qos: u8,
}

/// The subscriber that is `peer` at `qos`.
pub open spec fn subscriber(peer: PeerAddr, qos: u8) -> Subscriber {
    Subscriber { socket_addr: peer, qos }
}

/// The pairs of a map from topic names or filters to peers.
pub uninterp spec fn topic_pairs(m: BisetMap<String, PeerAddr>) -> Set<(Seq<char>, PeerAddr)>;

/// The pairs of a map from topic ids to subscribers.
pub uninterp spec fn id_pairs(m: BisetMap<u16, Subscriber>) -> Set<(u16, Subscriber)>;

/// The pairs of a map from topic names to topic ids.
pub uninterp spec fn name_pairs(m: BisetMap<String, u16>) -> Set<(Seq<char>, u16)>;

/// `BisetMap::new`: a map without pairs.
#[verifier::external_body]
pub(crate) fn topic_map_new() -> (m: BisetMap<String, PeerAddr>)
    ensures
        topic_pairs(m) == Set::<(Seq<char>, PeerAddr)>::empty(),
{
    BisetMap::new()
}

/// `BisetMap::insert`: the pair is added; a pair that is there stays once.
#[verifier::external_body]
pub(crate) fn topic_map_insert(m: &mut BisetMap<String, PeerAddr>, k: String, v: PeerAddr)
    ensures
        topic_pairs(*final(m)) == topic_pairs(*old(m)).insert((k@, v)),
{
    m.insert(k, v)
}

/// `BisetMap::get`: the right items paired with `k`, each once, in no
/// order that could be named.
#[verifier::external_body]
pub(crate) fn topic_map_get(m: &BisetMap<String, PeerAddr>, k: &String) -> (r: Vec<PeerAddr>)
    ensures
        r@.no_duplicates(),
        forall|v: PeerAddr| r@.contains(v) <==> topic_pairs(*m).contains((k@, v)),
{
    m.get(k)
}

/// `BisetMap::rev_delete`: every pair whose right item is `v` is removed.
#[verifier::external_body]
pub(crate) fn topic_map_rev_delete(m: &mut BisetMap<String, PeerAddr>, v: &PeerAddr)
    ensures
        topic_pairs(*final(m)) == Set::new(
            |p: (Seq<char>, PeerAddr)| topic_pairs(*old(m)).contains(p) && p.1 != *v,
        ),
{
    m.rev_delete(v);
}

/// `BisetMap::collect`: each left item with the right items paired with it.
/// Every pair of the map is found in the result, and nothing else.
#[verifier::external_body]
pub(crate) fn topic_map_collect(m: &BisetMap<String, PeerAddr>) -> (r: Vec<
    (String, Vec<PeerAddr>),
>)
    ensures
        forall|k: Seq<char>, v: PeerAddr|
            topic_pairs(*m).contains((k, v)) <==> exists|i: int|
                0 <= i < r@.len() && (#[trigger] r@[i]).0@ == k && r@[i].1@.contains(v),
{
    m.collect()
}

/// `BisetMap::new`: a map without pairs.
#[verifier::external_body]
pub(crate) fn id_map_new() -> (m: BisetMap<u16, Subscriber>)
    ensures
        id_pairs(m) == Set::<(u16, Subscriber)>::empty(),
{
    BisetMap::new()
}

/// `BisetMap::insert`: the pair is added; a pair that is there stays once.
#[verifier::external_body]
pub(crate) fn id_map_insert(m: &mut BisetMap<u16, Subscriber>, k: u16, v: Subscriber)
    ensures
        id_pairs(*final(m)) == id_pairs(*old(m)).insert((k, v)),
{
    m.insert(k, v)
}

/// `BisetMap::remove`: the pair is removed, where it is there.
#[verifier::external_body]
pub(crate) fn id_map_remove(m: &mut BisetMap<u16, Subscriber>, k: &u16, v: &Subscriber)
    ensures
        id_pairs(*final(m)) == id_pairs(*old(m)).remove((*k, *v)),
{
    m.remove(k, v)
}

/// `BisetMap::get`: the right items paired with `k`, each once, in no
/// order that could be named.
#[verifier::external_body]
pub(crate) fn id_map_get(m: &BisetMap<u16, Subscriber>, k: &u16) -> (r: Vec<Subscriber>)
    ensures
        r@.no_duplicates(),
        forall|v: Subscriber| r@.contains(v) <==> id_pairs(*m).contains((*k, v)),
{
    m.get(k)
}

/// `BisetMap::rev_delete`: every pair whose right item is `v` is removed.
#[verifier::external_body]
pub(crate) fn id_map_rev_delete(m: &mut BisetMap<u16, Subscriber>, v: &Subscriber)
    ensures
        id_pairs(*final(m)) == Set::new(
            |p: (u16, Subscriber)| id_pairs(*old(m)).contains(p) && p.1 != *v,
        ),
{
    m.rev_delete(v);
}

/// `BisetMap::new`: a map without pairs.
#[verifier::external_body]
pub(crate) fn name_map_new() -> (m: BisetMap<String, u16>)
    ensures
        name_pairs(m) == Set::<(Seq<char>, u16)>::empty(),
{
    BisetMap::new()
}

/// `BisetMap::insert`: the pair is added; a pair that is there stays once.
#[verifier::external_body]
pub(crate) fn name_map_insert(m: &mut BisetMap<String, u16>, k: String, v: u16)
    ensures
        name_pairs(*final(m)) == name_pairs(*old(m)).insert((k@, v)),
{
    m.insert(k, v)
}

/// `BisetMap::get`: the right items paired with `k`, each once, in no
/// order that could be named.
#[verifier::external_body]
pub(crate) fn name_map_get(m: &BisetMap<String, u16>, k: &String) -> (r: Vec<u16>)
    ensures
        r@.no_duplicates(),
        forall|v: u16| r@.contains(v) <==> name_pairs(*m).contains((k@, v)),
{
    m.get(k)
}

/// `BisetMap::rev_get`: the left items paired with `v`, each once, in no
/// order that could be named.
#[verifier::external_body]
pub(crate) fn name_map_rev_get(m: &BisetMap<String, u16>, v: &u16) -> (r: Vec<String>)
    ensures
        forall|i: int, j: int| 0 <= i < j < r@.len() ==> r@[i]@ != r@[j]@,
        forall|k: Seq<char>|
            name_pairs(*m).contains((k, *v)) <==> exists|i: int|
                0 <= i < r@.len() && (#[trigger] r@[i])@ == k,
{
    m.rev_get(v)
}

} // verus!
