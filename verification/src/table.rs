//! A small table: entries in the order in which they came, each under a key
//! of its own.
use crate::msg_hdr::PeerAddr;
use vstd::prelude::*;

verus! {

/// A key: a plain value that can be compared, and that may belong to a peer.
pub trait TableKey: Copy {
    /// The peer that the key belongs to, if it belongs to one.
    spec fn peer_of(&self) -> Option<PeerAddr>;

    fn same(&self, other: &Self) -> (r: bool)
        ensures
            r == (*self == *other),
    ;

    /// Whether the key belongs to the peer.
    fn of_peer(&self, addr: &PeerAddr) -> (r: bool)
        ensures
            r == (self.peer_of() == Some(*addr)),
    ;
}

/// The entries whose keys do not belong to a peer.
pub open spec fn without_peer<K: TableKey, V>(s: Seq<(K, V)>, addr: PeerAddr) -> Seq<(K, V)> {
    s.filter(|e: (K, V)| e.0.peer_of() != Some(addr))
}

/// What is left when a peer's entries are gone: no entry of the peer, and
/// every other entry, in the order in which they stood.
pub proof fn lemma_without_peer<K: TableKey, V>(s: Seq<(K, V)>, addr: PeerAddr)
    ensures
        forall|i: int|
            0 <= i < without_peer(s, addr).len() ==> (#[trigger] without_peer(s, addr)[i]).0.peer_of()
                != Some(addr) && s.contains(without_peer(s, addr)[i]),
        forall|i: int|
            0 <= i < s.len() && s[i].0.peer_of() != Some(addr) ==> without_peer(s, addr).contains(
                #[trigger] s[i],
            ),
{
    let pred = |e: (K, V)| e.0.peer_of() != Some(addr);
    #[allow(deprecated)]
    s.filter_lemma(pred);
    assert forall|i: int| 0 <= i < without_peer(s, addr).len() implies s.contains(
        #[trigger] without_peer(s, addr)[i],
    ) by {
        assert(s.filter(pred).contains(s.filter(pred)[i]));
        s.lemma_filter_contains_rev(pred, s.filter(pred)[i]);
    }
}

/// No key stands twice.
pub open spec fn unique_keys<K, V>(s: Seq<(K, V)>) -> bool {
    forall|i: int, j: int| 0 <= i < j < s.len() ==> (#[trigger] s[i]).0 != (#[trigger] s[j]).0
}

/// Whether an entry stands under the key.
pub open spec fn has_key<K, V>(s: Seq<(K, V)>, k: K) -> bool {
    exists|i: int| 0 <= i < s.len() && (#[trigger] s[i]).0 == k
}

/// Where the entry of the key stands (for a key that has one).
pub open spec fn position<K, V>(s: Seq<(K, V)>, k: K) -> int {
    choose|i: int| 0 <= i < s.len() && (#[trigger] s[i]).0 == k
}

/// What stands under the key, if anything.
pub open spec fn lookup<K, V>(s: Seq<(K, V)>, k: K) -> Option<V> {
    if has_key(s, k) {
        Some(s[position(s, k)].1)
    } else {
        None
    }
}

/// The entries without the one of the key.
pub open spec fn without<K, V>(s: Seq<(K, V)>, k: K) -> Seq<(K, V)> {
    if has_key(s, k) {
        s.remove(position(s, k))
    } else {
        s
    }
}

/// The entries with `v` under `k`: in the place of what stood there, or
/// else at the end.
pub open spec fn with<K, V>(s: Seq<(K, V)>, k: K, v: V) -> Seq<(K, V)> {
    if has_key(s, k) {
        s.update(position(s, k), (k, v))
    } else {
        s.push((k, v))
    }
}

/// In a table with unique keys, the place of a key is the place where it is found.
pub proof fn lemma_position<K, V>(s: Seq<(K, V)>, i: int)
    requires
        unique_keys(s),
        0 <= i < s.len(),
    ensures
        has_key(s, s[i].0),
        position(s, s[i].0) == i,
        lookup(s, s[i].0) == Some(s[i].1),
{
    let k = s[i].0;
    let j = position(s, k);
    if i < j {
        assert(s[i].0 != s[j].0);
    } else if j < i {
        assert(s[j].0 != s[i].0);
    }
}

/// What a table holds after an entry was set: the new value under its key,
/// and under every other key what stood there.
pub proof fn lemma_with<K, V>(s: Seq<(K, V)>, k: K, v: V)
    requires
        unique_keys(s),
    ensures
        unique_keys(with(s, k, v)),
        lookup(with(s, k, v), k) == Some(v),
        forall|q: K| q != k ==> lookup(with(s, k, v), q) == lookup(s, q),
        forall|q: K| has_key(with(s, k, v), q) <==> q == k || has_key(s, q),
{
    let t = with(s, k, v);
    let at = if has_key(s, k) { position(s, k) } else { s.len() as int };
    assert(t[at] == (k, v));
    assert forall|i: int, j: int| 0 <= i < j < t.len() implies (#[trigger] t[i]).0 != (
    #[trigger] t[j]).0 by {
        if i < s.len() && j < s.len() {
            assert(s[i].0 != s[j].0);
        }
        if !has_key(s, k) && j == s.len() {
            assert(s[i].0 != k);
        }
    }
    lemma_position(t, at);
    assert forall|q: K| has_key(t, q) <==> q == k || has_key(s, q) by {
        if has_key(t, q) && q != k {
            let i = position(t, q);
            assert(s[i].0 == q);
        }
        if has_key(s, q) {
            let i = position(s, q);
            assert(t[i].0 == q);
        }
    }
    assert forall|q: K| q != k implies lookup(t, q) == lookup(s, q) by {
        if has_key(s, q) {
            let i = position(s, q);
            assert(t[i] == s[i]);
            lemma_position(t, i);
        }
    }
}

/// Setting an entry and then setting it back to what it was leaves the
/// table as it was.
pub proof fn lemma_with_back<K, V>(s: Seq<(K, V)>, k: K, v: V)
    requires
        unique_keys(s),
        has_key(s, k),
    ensures
        with(with(s, k, v), k, lookup(s, k)->0) == s,
        lookup(with(s, k, v), k) == Some(v),
{
    lemma_with(s, k, v);
    let i = position(s, k);
    lemma_position(s, i);
    let t = with(s, k, v);
    assert(t[i].0 == k);
    lemma_position(t, i);
    assert(with(t, k, lookup(s, k)->0) =~= s);
}

/// What a table holds after an entry was removed: nothing under its key,
/// and under every other key what stood there.
pub proof fn lemma_without<K, V>(s: Seq<(K, V)>, k: K)
    requires
        unique_keys(s),
    ensures
        unique_keys(without(s, k)),
        !has_key(without(s, k), k),
        forall|q: K| q != k ==> lookup(without(s, k), q) == lookup(s, q),
        forall|q: K| has_key(without(s, k), q) <==> q != k && has_key(s, q),
{
    let t = without(s, k);
    if has_key(s, k) {
        let at = position(s, k);
        assert forall|i: int| 0 <= i < t.len() implies #[trigger] t[i] == s[if i < at {
            i
        } else {
            i + 1
        }] by {}
        assert forall|i: int, j: int| 0 <= i < j < t.len() implies (#[trigger] t[i]).0 != (
        #[trigger] t[j]).0 by {
            let a = if i < at { i } else { i + 1 };
            let b = if j < at { j } else { j + 1 };
            assert(s[a].0 != s[b].0);
        }
        assert forall|q: K| has_key(t, q) <==> q != k && has_key(s, q) by {
            if has_key(t, q) {
                let i = position(t, q);
                let a = if i < at { i } else { i + 1 };
                assert(s[a].0 == q);
                if a < at {
                    assert(s[a].0 != s[at].0);
                } else {
                    assert(s[at].0 != s[a].0);
                }
            }
            if q != k && has_key(s, q) {
                let a = position(s, q);
                let i = if a < at { a } else { a - 1 };
                assert(t[i].0 == q);
            }
        }
        assert forall|q: K| q != k implies lookup(t, q) == lookup(s, q) by {
            if has_key(s, q) {
                let a = position(s, q);
                let i = if a < at { a } else { a - 1 };
                assert(t[i] == s[a]);
                lemma_position(t, i);
            }
        }
    } else {
        assert forall|i: int| 0 <= i < s.len() implies (#[trigger] s[i]).0 != k by {}
    }
}

/// The entries with each value seen through `f`.
pub open spec fn mapped<K, V, W>(s: Seq<(K, V)>, f: spec_fn(V) -> W) -> Seq<(K, W)> {
    s.map_values(|e: (K, V)| (e.0, f(e.1)))
}

/// Seeing the values through `f` changes nothing about the keys: what has
/// an entry has one still, in the same place, and its value is the old one
/// seen through `f`.
pub proof fn lemma_mapped<K, V, W>(s: Seq<(K, V)>, f: spec_fn(V) -> W)
    requires
        unique_keys(s),
    ensures
        unique_keys(mapped(s, f)),
        forall|k: K| has_key(mapped(s, f), k) <==> has_key(s, k),
        forall|k: K| has_key(s, k) ==> position(mapped(s, f), k) == position(s, k),
        forall|k: K|
            lookup(mapped(s, f), k) == match lookup(s, k) {
                Some(v) => Some(f(v)),
                None => None,
            },
{
    let t = mapped(s, f);
    assert forall|i: int, j: int| 0 <= i < j < t.len() implies (#[trigger] t[i]).0 != (
    #[trigger] t[j]).0 by {
        assert(s[i].0 != s[j].0);
    }
    assert forall|k: K| has_key(t, k) <==> has_key(s, k) by {
        if has_key(t, k) {
            let i = position(t, k);
            assert(s[i].0 == k);
        }
        if has_key(s, k) {
            let i = position(s, k);
            assert(t[i].0 == k);
        }
    }
    assert forall|k: K| has_key(s, k) implies position(t, k) == position(s, k) by {
        let i = position(s, k);
        assert(t[i].0 == k);
        lemma_position(t, i);
    }
}

/// Setting, removing and appending entries, and removing a peer's entries,
/// look the same through `f`.
pub proof fn lemma_mapped_changes<K: TableKey, V, W>(
    s: Seq<(K, V)>,
    f: spec_fn(V) -> W,
    k: K,
    v: V,
    addr: PeerAddr,
)
    requires
        unique_keys(s),
    ensures
        mapped(with(s, k, v), f) == with(mapped(s, f), k, f(v)),
        mapped(without(s, k), f) == without(mapped(s, f), k),
        mapped(s.push((k, v)), f) == mapped(s, f).push((k, f(v))),
        mapped(without_peer(s, addr), f) == without_peer(mapped(s, f), addr),
{
    lemma_mapped(s, f);
    assert(mapped(with(s, k, v), f) =~= with(mapped(s, f), k, f(v)));
    assert(mapped(without(s, k), f) =~= without(mapped(s, f), k));
    assert(mapped(s.push((k, v)), f) =~= mapped(s, f).push((k, f(v))));
    lemma_mapped_without_peer(s, f, addr);
}

/// Removing a peer's entries looks the same through `f`.
pub proof fn lemma_mapped_without_peer<K: TableKey, V, W>(
    s: Seq<(K, V)>,
    f: spec_fn(V) -> W,
    addr: PeerAddr,
)
    ensures
        mapped(without_peer(s, addr), f) == without_peer(mapped(s, f), addr),
    decreases s.len(),
{
    reveal(Seq::filter);
    let keeps = |e: (K, V)| e.0.peer_of() != Some(addr);
    let keeps_seen = |e: (K, W)| e.0.peer_of() != Some(addr);
    if s.len() == 0 {
        assert(mapped(s.filter(keeps), f) =~= mapped(s, f).filter(keeps_seen));
    } else {
        lemma_mapped_without_peer(s.drop_last(), f, addr);
        assert(mapped(s, f).drop_last() =~= mapped(s.drop_last(), f));
        assert(mapped(s, f).last() == (s.last().0, f(s.last().1)));
        assert(mapped(s.filter(keeps), f) =~= mapped(s, f).filter(keeps_seen));
    }
}

/// What is left when a peer's entries are gone has unique keys, as what was
/// there had.
pub proof fn lemma_without_peer_unique<K: TableKey, V>(s: Seq<(K, V)>, addr: PeerAddr)
    requires
        unique_keys(s),
    ensures
        unique_keys(without_peer(s, addr)),
    decreases s.len(),
{
    reveal(Seq::filter);
    let pred = |e: (K, V)| e.0.peer_of() != Some(addr);
    if s.len() > 0 {
        let init = s.drop_last();
        assert(unique_keys(init)) by {
            assert forall|i: int, j: int| 0 <= i < j < init.len() implies (#[trigger] init[i]).0
                != (#[trigger] init[j]).0 by {
                assert(s[i].0 != s[j].0);
            }
        }
        lemma_without_peer_unique(init, addr);
        lemma_without_peer(init, addr);
        let t0 = init.filter(pred);
        let t = s.filter(pred);
        if pred(s.last()) {
            assert(t == t0.push(s.last()));
            assert forall|i: int, j: int| 0 <= i < j < t.len() implies (#[trigger] t[i]).0 != (
            #[trigger] t[j]).0 by {
                if j < t0.len() {
                    assert(t0[i].0 != t0[j].0);
                } else {
                    assert(init.contains(t0[i]));
                    let k = choose|k: int| 0 <= k < init.len() && init[k] == t0[i];
                    assert(s[k].0 != s[s.len() - 1].0);
                }
            }
        }
    }
}

/// The entries with `v` under `k` at the end: what stood under `k` is gone.
pub open spec fn replaced<K, V>(s: Seq<(K, V)>, k: K, v: V) -> Seq<(K, V)> {
    without(s, k).push((k, v))
}

/// What a table holds after an entry took the place of what stood under its
/// key: the new value under the key, and under every other key what stood
/// there.
pub proof fn lemma_replaced<K, V>(s: Seq<(K, V)>, k: K, v: V)
    requires
        unique_keys(s),
    ensures
        unique_keys(replaced(s, k, v)),
        lookup(replaced(s, k, v), k) == Some(v),
        forall|q: K| q != k ==> lookup(replaced(s, k, v), q) == lookup(s, q),
        forall|q: K| has_key(replaced(s, k, v), q) <==> q == k || has_key(s, q),
{
    lemma_without(s, k);
    let w = without(s, k);
    lemma_with(w, k, v);
    assert(replaced(s, k, v) == with(w, k, v));
}

/// The entries whose keys are not among `gone`.
pub open spec fn without_keys<K, V>(s: Seq<(K, V)>, gone: spec_fn(K) -> bool) -> Seq<(K, V)> {
    s.filter(|e: (K, V)| !gone(e.0))
}

/// What is left when the entries of some keys are gone: no entry of those
/// keys, and under every other key what stood there.
pub proof fn lemma_without_keys<K, V>(s: Seq<(K, V)>, gone: spec_fn(K) -> bool)
    requires
        unique_keys(s),
    ensures
        unique_keys(without_keys(s, gone)),
        forall|i: int|
            0 <= i < without_keys(s, gone).len() ==> s.contains(
                #[trigger] without_keys(s, gone)[i],
            ),
        forall|q: K| has_key(without_keys(s, gone), q) <==> !gone(q) && has_key(s, q),
        forall|q: K| !gone(q) ==> lookup(without_keys(s, gone), q) == lookup(s, q),
    decreases s.len(),
{
    reveal(Seq::filter);
    let pred = |e: (K, V)| !gone(e.0);
    let t = s.filter(pred);
    if s.len() > 0 {
        let init = s.drop_last();
        assert(unique_keys(init)) by {
            assert forall|i: int, j: int| 0 <= i < j < init.len() implies (#[trigger] init[i]).0
                != (#[trigger] init[j]).0 by {
                assert(s[i].0 != s[j].0);
            }
        }
        lemma_without_keys(init, gone);
        let t0 = init.filter(pred);
        assert forall|i: int| 0 <= i < t0.len() implies s.contains(#[trigger] t0[i]) by {
            assert(init.contains(t0[i]));
            let k = choose|k: int| 0 <= k < init.len() && init[k] == t0[i];
            assert(s[k] == t0[i]);
        }
        if pred(s.last()) {
            assert(t == t0.push(s.last()));
            assert(s[s.len() - 1] == s.last());
            assert forall|i: int, j: int| 0 <= i < j < t.len() implies (#[trigger] t[i]).0 != (
            #[trigger] t[j]).0 by {
                if j < t0.len() {
                    assert(t0[i].0 != t0[j].0);
                } else {
                    assert(init.contains(t0[i]));
                    let k = choose|k: int| 0 <= k < init.len() && init[k] == t0[i];
                    assert(s[k].0 != s[s.len() - 1].0);
                }
            }
        } else {
            assert(t == t0);
        }
    }
    assert forall|i: int| 0 <= i < t.len() implies s.contains(#[trigger] t[i]) by {
        if s.len() > 0 && i < s.drop_last().filter(pred).len() {
            assert(t[i] == s.drop_last().filter(pred)[i]);
        } else if s.len() > 0 {
            assert(t[i] == s[s.len() - 1]);
        }
    }
    #[allow(deprecated)]
    s.filter_lemma(pred);
    assert forall|q: K| has_key(t, q) <==> !gone(q) && has_key(s, q) by {
        if has_key(t, q) {
            let i = position(t, q);
            assert(t.contains(t[i]));
            assert(pred(t[i]));
            assert(s.contains(t[i]));
            let k = choose|k: int| 0 <= k < s.len() && s[k] == t[i];
            assert(s[k].0 == q);
        }
        if !gone(q) && has_key(s, q) {
            let k = position(s, q);
            assert(pred(s[k]));
            assert(t.contains(s[k]));
            let i = choose|i: int| 0 <= i < t.len() && t[i] == s[k];
            assert(t[i].0 == q);
        }
    }
    assert forall|q: K| !gone(q) implies lookup(t, q) == lookup(s, q) by {
        if has_key(s, q) {
            let k = position(s, q);
            assert(pred(s[k]));
            assert(t.contains(s[k]));
            let i = choose|i: int| 0 <= i < t.len() && t[i] == s[k];
            lemma_position(t, i);
            lemma_position(s, k);
        }
    }
}

/// Removing the entries of some keys looks the same through `f`.
pub proof fn lemma_mapped_without_keys<K, V, W>(
    s: Seq<(K, V)>,
    f: spec_fn(V) -> W,
    gone: spec_fn(K) -> bool,
)
    ensures
        mapped(without_keys(s, gone), f) == without_keys(mapped(s, f), gone),
    decreases s.len(),
{
    reveal(Seq::filter);
    let keeps = |e: (K, V)| !gone(e.0);
    let keeps_seen = |e: (K, W)| !gone(e.0);
    if s.len() == 0 {
        assert(mapped(s.filter(keeps), f) =~= mapped(s, f).filter(keeps_seen));
    } else {
        lemma_mapped_without_keys(s.drop_last(), f, gone);
        assert(mapped(s, f).drop_last() =~= mapped(s.drop_last(), f));
        assert(mapped(s, f).last() == (s.last().0, f(s.last().1)));
        assert(mapped(s.filter(keeps), f) =~= mapped(s, f).filter(keeps_seen));
    }
}

/// Entries in the order in which they came, each under a key of its own.
pub struct Table<K, V> {
    entries: Vec<(K, V)>,
}

impl<K: TableKey, V> Table<K, V> {
    /// The entries, first to last.
    pub closed spec fn view(&self) -> Seq<(K, V)> {
        self.entries@
    }

    /// No key stands twice.
    pub open spec fn wf(&self) -> bool {
        unique_keys(self@)
    }

    pub fn new() -> (t: Table<K, V>)
        ensures
            t@ == Seq::<(K, V)>::empty(),
            t.wf(),
    {
        Table { entries: Vec::new() }
    }

    /// Number of entries.
    pub fn len(&self) -> (n: usize)
        ensures
            n == self@.len(),
    {
        self.entries.len()
    }

    /// Where the entry of a key stands, if it has one.
    pub fn find(&self, k: &K) -> (r: Option<usize>)
        ensures
            match r {
                Some(i) => i < self@.len() && self@[i as int].0 == *k && has_key(self@, *k),
                None => !has_key(self@, *k),
            },
            self.wf() ==> match r {
                Some(i) => position(self@, *k) == i && lookup(self@, *k) == Some(self@[i as int].1),
                None => lookup(self@, *k) == None::<V>,
            },
    {
        let mut i: usize = 0;
        while i < self.entries.len()
            invariant
                i <= self.entries.len(),
                forall|j: int| 0 <= j < i ==> (#[trigger] self.entries@[j]).0 != *k,
            decreases self.entries.len() - i,
        {
            if self.entries[i].0.same(k) {
                proof {
                    if self.wf() {
                        lemma_position(self@, i as int);
                    }
                }
                return Some(i);
            }
            i += 1;
        }
        None
    }

    /// The key at a place.
    pub fn key_at(&self, i: usize) -> (k: K)
        requires
            i < self@.len(),
        ensures
            k == self@[i as int].0,
    {
        self.entries[i].0
    }

    /// The value at a place.
    pub fn value_at(&self, i: usize) -> (v: &V)
        requires
            i < self@.len(),
        ensures
            *v == self@[i as int].1,
    {
        &self.entries[i].1
    }

    /// Puts `v` under `k`: in the place of what stood there, or else at the end.
    pub fn set(&mut self, k: K, v: V)
        requires
            old(self).wf(),
        ensures
            final(self).wf(),
            final(self)@ == with(old(self)@, k, v),
    {
        proof {
            lemma_with(self@, k, v);
        }
        match self.find(&k) {
            Some(i) => {
                let _ = self.entries.remove(i);
                self.entries.insert(i, (k, v));
                assert(self@ =~= with(old(self)@, k, v));
            },
            None => {
                self.entries.push((k, v));
            },
        }
    }

    /// Takes out what stands under `k`, if anything.
    pub fn take(&mut self, k: &K) -> (r: Option<V>)
        requires
            old(self).wf(),
        ensures
            final(self).wf(),
            final(self)@ == without(old(self)@, *k),
            r == lookup(old(self)@, *k),
    {
        proof {
            lemma_without(self@, *k);
        }
        match self.find(k) {
            Some(i) => {
                let e = self.entries.remove(i);
                Some(e.1)
            },
            None => None,
        }
    }

    /// Takes out the entry at a place.
    pub fn take_at(&mut self, i: usize) -> (e: (K, V))
        requires
            old(self).wf(),
            i < old(self)@.len(),
        ensures
            final(self).wf(),
            final(self)@ == old(self)@.remove(i as int),
            e == old(self)@[i as int],
    {
        proof {
            lemma_position(self@, i as int);
            lemma_without(self@, self@[i as int].0);
        }
        self.entries.remove(i)
    }

    /// Puts `v` in the place of the value at `i`; the key stays.
    pub fn replace_at(&mut self, i: usize, v: V)
        requires
            old(self).wf(),
            i < old(self)@.len(),
        ensures
            final(self).wf(),
            final(self)@ == old(self)@.update(i as int, (old(self)@[i as int].0, v)),
    {
        let k = self.entries[i].0;
        proof {
            lemma_position(self@, i as int);
            lemma_with(self@, k, v);
        }
        let _ = self.entries.remove(i);
        self.entries.insert(i, (k, v));
        assert(self@ =~= old(self)@.update(i as int, (k, v)));
    }

    /// Puts an entry under a new key at a place; what stood there and after
    /// it moves one place on.
    pub fn insert_at(&mut self, i: usize, k: K, v: V)
        requires
            old(self).wf(),
            i <= old(self)@.len(),
            !has_key(old(self)@, k),
        ensures
            final(self).wf(),
            final(self)@ == old(self)@.insert(i as int, (k, v)),
    {
        self.entries.insert(i, (k, v));
        proof {
            let s = old(self)@;
            let t = self@;
            assert forall|a: int, b: int| 0 <= a < b < t.len() implies (#[trigger] t[a]).0 != (
            #[trigger] t[b]).0 by {
                let a0 = if a < i { a } else { a - 1 };
                let b0 = if b < i { b } else { b - 1 };
                if a != i && b != i {
                    assert(s[a0].0 != s[b0].0);
                } else if a == i {
                    assert(s[b0].0 != k);
                } else {
                    assert(s[a0].0 != k);
                }
            }
        }
    }

    /// Takes out every entry whose key belongs to a peer.
    pub fn remove_peer(&mut self, addr: &PeerAddr)
        requires
            old(self).wf(),
        ensures
            final(self).wf(),
            final(self)@ == without_peer(old(self)@, *addr),
    {
        let ghost s = self@;
        let ghost pred = |e: (K, V)| e.0.peer_of() != Some(*addr);
        let ghost mut n: int = 0;
        let mut i: usize = 0;
        proof {
            assert(s.take(0) =~= Seq::<(K, V)>::empty());
            reveal(Seq::filter);
            assert(self@.take(0) =~= s.take(0).filter(pred));
            assert(self@.skip(0) =~= s.skip(0));
        }
        while i < self.entries.len()
            invariant
                self.wf(),
                0 <= n <= s.len(),
                i <= self@.len(),
                self@.len() - i == s.len() - n,
                pred == (|e: (K, V)| e.0.peer_of() != Some(*addr)),
                self@.take(i as int) == s.take(n).filter(pred),
                self@.skip(i as int) == s.skip(n),
            decreases self@.len() - i,
        {
            let ghost before = self@;
            proof {
                assert(before[i as int] == before.skip(i as int)[0]);
                assert(s[n] == s.skip(n)[0]);
                assert(s.take(n + 1).drop_last() =~= s.take(n));
                assert(s.take(n + 1).last() == s[n]);
                reveal(Seq::filter);
                assert(s.skip(n).skip(1) =~= s.skip(n + 1));
            }
            if self.entries[i].0.of_peer(addr) {
                let _ = self.take_at(i);
                proof {
                    assert(self@.take(i as int) =~= before.take(i as int));
                    assert(self@.skip(i as int) =~= before.skip(i as int).skip(1));
                    n = n + 1;
                }
            } else {
                proof {
                    assert(self@.take(i + 1) =~= before.take(i as int).push(self@[i as int]));
                    assert(self@.skip(i + 1) =~= before.skip(i as int).skip(1));
                    n = n + 1;
                }
                i += 1;
            }
        }
        proof {
            assert(s.take(n) =~= s);
            assert(self@.take(i as int) =~= self@);
        }
    }
}

} // verus!
