//! Lists of subscribers in their one order: by address, then port, then QoS.
//!
//! The index hands its items out in no order that could be named. Whoever
//! delivers to them sorts them first, so that what is sent, and in which
//! order, depends on the subscriptions alone.
use crate::biset::Subscriber;
use crate::msg_hdr::PeerAddr;
use vstd::prelude::*;

verus! {

/// The order of subscribers: by peer, then by QoS.
pub open spec fn sub_lt(a: Subscriber, b: Subscriber) -> bool {
    peer_lt(a.socket_addr, b.socket_addr) || (a.socket_addr == b.socket_addr && a.qos < b.qos)
}

/// Each item stands before every greater one, and none stands twice.
pub open spec fn strictly_sorted(s: Seq<Subscriber>) -> bool {
    forall|i: int, j: int| 0 <= i < j < s.len() ==> sub_lt(#[trigger] s[i], #[trigger] s[j])
}

/// The order of peers: IPv4 addresses before IPv6 addresses, then by IP
/// address, by port, by flow information and by scope id.
pub open spec fn peer_lt(a: PeerAddr, b: PeerAddr) -> bool {
    if a.v6 != b.v6 {
        b.v6
    } else if a.ip != b.ip {
        a.ip < b.ip
    } else if a.port != b.port {
        a.port < b.port
    } else if a.flowinfo != b.flowinfo {
        a.flowinfo < b.flowinfo
    } else {
        a.scope_id < b.scope_id
    }
}

/// Each peer stands before every greater one, and none stands twice.
pub open spec fn peers_sorted(s: Seq<PeerAddr>) -> bool {
    forall|i: int, j: int| 0 <= i < j < s.len() ==> peer_lt(#[trigger] s[i], #[trigger] s[j])
}

/// No peer stands twice in the list.
pub open spec fn peers_distinct(s: Seq<Subscriber>) -> bool {
    forall|i: int, j: int|
        0 <= i < j < s.len() ==> (#[trigger] s[i]).socket_addr != (#[trigger] s[j]).socket_addr
}

/// Whether `s` lists the items of `set`, each once, in order.
pub open spec fn lists_set(s: Seq<Subscriber>, set: Set<Subscriber>) -> bool {
    &&& strictly_sorted(s)
    &&& forall|x: Subscriber| s.contains(x) <==> set.contains(x)
}

/// Whether `s` lists the peers of `set`, each once, in order.
pub open spec fn lists_peers(s: Seq<PeerAddr>, set: Set<PeerAddr>) -> bool {
    &&& peers_sorted(s)
    &&& forall|x: PeerAddr| s.contains(x) <==> set.contains(x)
}

/// The sorted list of a set of subscribers (of a set that has one).
pub open spec fn sorted_list(set: Set<Subscriber>) -> Seq<Subscriber> {
    choose|s: Seq<Subscriber>| lists_set(s, set)
}

/// Two sorted lists with the same items are the same list.
#[verifier::rlimit(50)]
pub proof fn lemma_sorted_unique(a: Seq<Subscriber>, b: Seq<Subscriber>)
    requires
        strictly_sorted(a),
        strictly_sorted(b),
        forall|x: Subscriber| a.contains(x) <==> b.contains(x),
    ensures
        a == b,
    decreases a.len(),
{
    if a.len() == 0 {
        if b.len() > 0 {
            assert(b.contains(b[0]));
            assert(a.contains(b[0]));
        }
        assert(a =~= b);
    } else {
        assert(a.contains(a[0]));
        assert(b.contains(a[0]));
        let j = choose|j: int| 0 <= j < b.len() && b[j] == a[0];
        assert(b.contains(b[0]));
        assert(a.contains(b[0]));
        let i = choose|i: int| 0 <= i < a.len() && a[i] == b[0];
        assert(a[0] == b[0]) by {
            if i > 0 {
                assert(sub_lt(a[0], a[i]));
            }
            if j > 0 {
                assert(sub_lt(b[0], b[j]));
            }
        }
        let ta = a.drop_first();
        let tb = b.drop_first();
        assert(strictly_sorted(ta)) by {
            assert forall|p: int, q: int| 0 <= p < q < ta.len() implies sub_lt(
                #[trigger] ta[p],
                #[trigger] ta[q],
            ) by {
                assert(sub_lt(a[p + 1], a[q + 1]));
            }
        }
        assert(strictly_sorted(tb)) by {
            assert forall|p: int, q: int| 0 <= p < q < tb.len() implies sub_lt(
                #[trigger] tb[p],
                #[trigger] tb[q],
            ) by {
                assert(sub_lt(b[p + 1], b[q + 1]));
            }
        }
        assert forall|x: Subscriber| ta.contains(x) <==> tb.contains(x) by {
            if ta.contains(x) {
                let p = choose|p: int| 0 <= p < ta.len() && ta[p] == x;
                assert(a[p + 1] == x);
                assert(sub_lt(a[0], a[p + 1]));
                assert(a.contains(x));
                assert(b.contains(x));
                let q = choose|q: int| 0 <= q < b.len() && b[q] == x;
                assert(q > 0);
                assert(tb[q - 1] == x);
            }
            if tb.contains(x) {
                let p = choose|p: int| 0 <= p < tb.len() && tb[p] == x;
                assert(b[p + 1] == x);
                assert(sub_lt(b[0], b[p + 1]));
                assert(b.contains(x));
                assert(a.contains(x));
                let q = choose|q: int| 0 <= q < a.len() && a[q] == x;
                assert(q > 0);
                assert(ta[q - 1] == x);
            }
        }
        lemma_sorted_unique(ta, tb);
        assert(a =~= seq![a[0]] + ta);
        assert(b =~= seq![b[0]] + tb);
    }
}

/// A list that lists a set is the sorted list of that set.
pub proof fn lemma_is_sorted_list(s: Seq<Subscriber>, set: Set<Subscriber>)
    requires
        lists_set(s, set),
    ensures
        s == sorted_list(set),
{
    lemma_sorted_unique(s, sorted_list(set));
}

/// Whether `a` stands before `b`.
pub fn subscriber_lt(a: &Subscriber, b: &Subscriber) -> (r: bool)
    ensures
        r == sub_lt(*a, *b),
{
    peer_before(&a.socket_addr, &b.socket_addr) || (same_peer(&a.socket_addr, &b.socket_addr)
        && a.qos < b.qos)
}

/// Whether the peer `a` stands before the peer `b`.
pub fn peer_before(a: &PeerAddr, b: &PeerAddr) -> (r: bool)
    ensures
        r == peer_lt(*a, *b),
{
    if a.v6 != b.v6 {
        b.v6
    } else if a.ip != b.ip {
        a.ip < b.ip
    } else if a.port != b.port {
        a.port < b.port
    } else if a.flowinfo != b.flowinfo {
        a.flowinfo < b.flowinfo
    } else {
        a.scope_id < b.scope_id
    }
}

/// Whether two peers are the same.
pub fn same_peer(a: &PeerAddr, b: &PeerAddr) -> (r: bool)
    ensures
        r == (*a == *b),
{
    a.v6 == b.v6 && a.ip == b.ip && a.port == b.port && a.flowinfo == b.flowinfo && a.scope_id
        == b.scope_id
}

/// Puts `x` in its place in a sorted list, unless it is there.
#[verifier::rlimit(50)]
pub fn insert_sorted(v: &mut Vec<Subscriber>, x: Subscriber)
    requires
        strictly_sorted(old(v)@),
    ensures
        strictly_sorted(final(v)@),
        forall|y: Subscriber| final(v)@.contains(y) <==> old(v)@.contains(y) || y == x,
        old(v)@.contains(x) ==> final(v)@ == old(v)@,
        !old(v)@.contains(x) ==> final(v)@.len() == old(v)@.len() + 1,
{
    let mut i: usize = 0;
    while i < v.len() && subscriber_lt(&v[i], &x)
        invariant
            i <= v.len(),
            v@ == old(v)@,
            forall|k: int| 0 <= k < i ==> sub_lt(#[trigger] v@[k], x),
        decreases v.len() - i,
    {
        i += 1;
    }
    let ghost before = v@;
    if i < v.len() && !subscriber_lt(&x, &v[i]) {
        assert(v@[i as int] == x);
        assert(before.contains(x));
        return ;
    }
    assert(!before.contains(x)) by {
        if before.contains(x) {
            let k = choose|k: int| 0 <= k < before.len() && before[k] == x;
            if k > i {
                assert(sub_lt(before[i as int], before[k]));
            }
        }
    }
    v.insert(i, x);
    assert forall|p: int, q: int| 0 <= p < q < v@.len() implies sub_lt(
        #[trigger] v@[p],
        #[trigger] v@[q],
    ) by {
        let a = if p < i { p } else { p - 1 };
        let b = if q < i { q } else { q - 1 };
        if p != i && q != i {
            assert(sub_lt(before[a], before[b]));
        } else if p == i {
            assert(v@[q] == before[q - 1]);
            if q - 1 > i {
                assert(sub_lt(before[i as int], before[q - 1]));
            }
        } else {
            assert(sub_lt(before[p], x));
        }
    }
    assert forall|y: Subscriber| v@.contains(y) <==> before.contains(y) || y == x by {
        if v@.contains(y) {
            let k = choose|k: int| 0 <= k < v@.len() && v@[k] == y;
            if k < i {
                assert(before[k] == y);
            } else if k > i {
                assert(before[k - 1] == y);
            }
        }
        if before.contains(y) {
            let k = choose|k: int| 0 <= k < before.len() && before[k] == y;
            if k < i {
                assert(v@[k] == y);
            } else {
                assert(v@[k + 1] == y);
            }
        }
        if y == x {
            assert(v@[i as int] == y);
        }
    }
}

/// The items of `v`, each once, in order.
pub fn sort_subscribers(v: &Vec<Subscriber>) -> (r: Vec<Subscriber>)
    ensures
        lists_set(r@, v@.to_set()),
{
    let mut r: Vec<Subscriber> = Vec::new();
    let mut i: usize = 0;
    while i < v.len()
        invariant
            i <= v.len(),
            strictly_sorted(r@),
            forall|y: Subscriber| r@.contains(y) <==> v@.take(i as int).contains(y),
        decreases v.len() - i,
    {
        let ghost prev = r@;
        insert_sorted(&mut r, v[i]);
        assert forall|y: Subscriber| r@.contains(y) <==> v@.take(i + 1).contains(y) by {
            let t0 = v@.take(i as int);
            let t1 = v@.take(i + 1);
            if t1.contains(y) {
                let k = choose|k: int| 0 <= k < t1.len() && t1[k] == y;
                if k < i {
                    assert(t0[k] == y);
                }
            }
            if t0.contains(y) {
                let k = choose|k: int| 0 <= k < t0.len() && t0[k] == y;
                assert(t1[k] == y);
            }
            assert(t1[i as int] == v@[i as int]);
        }
        i += 1;
    }
    assert(v@.take(v@.len() as int) =~= v@);
    r
}

/// A sorted list with one more subscriber in its place.
pub open spec fn placed(s: Seq<Subscriber>, x: Subscriber) -> Seq<Subscriber>
    decreases s.len(),
{
    if s.len() == 0 {
        seq![x]
    } else if sub_lt(s.last(), x) {
        s.push(x)
    } else {
        placed(s.drop_last(), x).push(s.last())
    }
}

/// A subscriber that is put in its place in a sorted list leaves the list
/// sorted, with the subscriber in it beside what was there.
pub proof fn lemma_placed(s: Seq<Subscriber>, x: Subscriber)
    requires
        strictly_sorted(s),
        !s.contains(x),
    ensures
        strictly_sorted(placed(s, x)),
        forall|y: Subscriber| placed(s, x).contains(y) <==> s.contains(y) || y == x,
    decreases s.len(),
{
    let r = placed(s, x);
    if s.len() == 0 {
        assert(r[0] == x);
        assert forall|y: Subscriber| r.contains(y) <==> s.contains(y) || y == x by {
            if r.contains(y) {
                let i = choose|i: int| 0 <= i < r.len() && r[i] == y;
            }
        }
    } else {
        let last = s.last();
        let n = s.len() - 1;
        assert(s[n] == last);
        assert(s.contains(last));
        if sub_lt(last, x) {
            assert forall|i: int, j: int| 0 <= i < j < r.len() implies sub_lt(
                #[trigger] r[i],
                #[trigger] r[j],
            ) by {
                if j < s.len() {
                    assert(sub_lt(s[i], s[j]));
                } else if i < n {
                    assert(sub_lt(s[i], s[n]));
                }
            }
            assert forall|y: Subscriber| r.contains(y) <==> s.contains(y) || y == x by {
                if r.contains(y) {
                    let i = choose|i: int| 0 <= i < r.len() && r[i] == y;
                    if i < s.len() {
                        assert(s[i] == y);
                    }
                }
                if s.contains(y) {
                    let i = choose|i: int| 0 <= i < s.len() && s[i] == y;
                    assert(r[i] == y);
                }
                assert(r[s.len() as int] == x);
            }
        } else {
            let init = s.drop_last();
            assert(strictly_sorted(init)) by {
                assert forall|i: int, j: int| 0 <= i < j < init.len() implies sub_lt(
                    #[trigger] init[i],
                    #[trigger] init[j],
                ) by {
                    assert(sub_lt(s[i], s[j]));
                }
            }
            assert(!init.contains(x)) by {
                if init.contains(x) {
                    let i = choose|i: int| 0 <= i < init.len() && init[i] == x;
                    assert(s[i] == x);
                }
            }
            lemma_placed(init, x);
            let r0 = placed(init, x);
            assert(sub_lt(x, last));
            assert forall|i: int, j: int| 0 <= i < j < r.len() implies sub_lt(
                #[trigger] r[i],
                #[trigger] r[j],
            ) by {
                if j < r0.len() {
                    assert(sub_lt(r0[i], r0[j]));
                } else {
                    assert(r0.contains(r0[i]));
                    if init.contains(r0[i]) {
                        let k = choose|k: int| 0 <= k < init.len() && init[k] == r0[i];
                        assert(sub_lt(s[k], s[n]));
                    }
                }
            }
            assert forall|y: Subscriber| r.contains(y) <==> s.contains(y) || y == x by {
                if r.contains(y) {
                    let i = choose|i: int| 0 <= i < r.len() && r[i] == y;
                    if i < r0.len() {
                        assert(r0.contains(y));
                        if init.contains(y) {
                            let k = choose|k: int| 0 <= k < init.len() && init[k] == y;
                            assert(s[k] == y);
                        }
                    }
                }
                if s.contains(y) {
                    let i = choose|i: int| 0 <= i < s.len() && s[i] == y;
                    if i < init.len() {
                        assert(init[i] == y);
                        assert(init.contains(y));
                        assert(r0.contains(y));
                        let k = choose|k: int| 0 <= k < r0.len() && r0[k] == y;
                        assert(r[k] == y);
                    } else {
                        assert(r[r0.len() as int] == y);
                    }
                }
                if y == x {
                    assert(r0.contains(x));
                    let k = choose|k: int| 0 <= k < r0.len() && r0[k] == x;
                    assert(r[k] == x);
                }
            }
        }
    }
}

/// Every finite set of subscribers has its sorted list.
pub proof fn lemma_finite_has_list(set: Set<Subscriber>)
    requires
        set.finite(),
    ensures
        lists_set(sorted_list(set), set),
    decreases set.len(),
{
    if set.len() == 0 {
        set.lemma_len0_is_empty();
        let e = Seq::<Subscriber>::empty();
        assert(lists_set(e, set));
    } else {
        let x = set.choose();
        assert(set.contains(x));
        let rest = set.remove(x);
        lemma_finite_has_list(rest);
        let s0 = sorted_list(rest);
        assert(!s0.contains(x));
        lemma_placed(s0, x);
        let s = placed(s0, x);
        assert(lists_set(s, set));
    }
}

} // verus!
