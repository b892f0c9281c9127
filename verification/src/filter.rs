//! Topic filters (wildcard detection, validation, topic matching) and the
//! subscription index built on them.
use crate::biset::{
    id_map_get, id_map_insert, id_map_new, id_map_remove, id_map_rev_delete, id_pairs, subscriber,
    topic_map_collect, topic_map_get, topic_map_insert, topic_map_new, topic_map_rev_delete,
    topic_pairs, Subscriber,
};
use crate::error::BrokerError;
use crate::flags::{flag_qos_level, qos_of, QOS_LEVEL_0, QOS_LEVEL_1, QOS_LEVEL_2, QOS_LEVEL_3};
use crate::msg_hdr::PeerAddr;
use crate::peer_set::PeerSet;
use crate::subscriber::{
    insert_sorted, lists_peers, lists_set, peer_lt, same_peer, sort_subscribers, strictly_sorted,
    sub_lt,
};
use bisetmap::BisetMap;
use vstd::prelude::*;
use vstd::std_specs::iter::IteratorSpec;

verus! {

/// Whether a topic or filter holds one of the two wildcard characters.
pub open spec fn has_wildcard_chars(s: Seq<char>) -> bool {
    s.contains('+') || s.contains('#')
}

/// Whether the character at `i` is no wildcard, or a wildcard in the place
/// that the rules give it: a `#` is the last character and follows a `/`;
/// a `+` fills a whole level.
pub open spec fn wildcard_well_placed(s: Seq<char>, i: int) -> bool {
    &&& s[i] == '#' ==> i == s.len() - 1 && i >= 1 && s[i - 1] == '/'
    &&& s[i] == '+' ==> (i == 0 || s[i - 1] == '/') && (i == s.len() - 1 || s[i + 1] == '/')
}

/// A filter is valid when it is not empty and each of its wildcards is well placed.
pub open spec fn filter_is_valid(s: Seq<char>) -> bool {
    &&& s.len() > 0
    &&& forall|i: int| 0 <= i < s.len() ==> #[trigger] wildcard_well_placed(s, i)
}

/// Number of characters before the first `/` of `s` (all of them when there is none).
pub open spec fn first_sep(s: Seq<char>) -> int
    decreases s.len(),
{
    if s.len() == 0 || s[0] == '/' {
        0
    } else {
        1 + first_sep(s.drop_first())
    }
}

/// The levels of a topic or filter: the pieces between its `/` characters.
/// An empty string has one empty level.
pub open spec fn levels(s: Seq<char>) -> Seq<Seq<char>>
    decreases s.len(),
{
    let k = first_sep(s);
    if 0 <= k < s.len() {
        seq![s.take(k)] + levels(s.skip(k + 1))
    } else {
        seq![s]
    }
}

/// Level-by-level match. A `#` level of the filter accepts whatever is left of
/// the topic; a `+` level accepts any one level; a `#` level of the topic is
/// accepted only by a `#` of the filter.
pub open spec fn levels_match(t: Seq<Seq<char>>, f: Seq<Seq<char>>) -> bool
    decreases f.len(),
{
    if f.len() == 0 {
        t.len() == 0
    } else if f[0] == seq!['#'] {
        true
    } else if t.len() == 0 {
        false
    } else if t[0] == seq!['#'] {
        false
    } else if f[0] == seq!['+'] || f[0] == t[0] {
        levels_match(t.drop_first(), f.drop_first())
    } else {
        false
    }
}

/// Whether `topic` is accepted by `filter`. A topic that begins with `$`
/// is accepted by no filter.
pub open spec fn topic_matches(topic: Seq<char>, filter: Seq<char>) -> bool {
    !(topic.len() > 0 && topic[0] == '$') && levels_match(levels(topic), levels(filter))
}

/// The characters of a string, in order.
pub fn str_chars(s: &str) -> (v: Vec<char>)
    ensures
        v@ == s@,
{
    let mut it = s.chars();
    let mut v: Vec<char> = Vec::new();
    loop
        invariant
            it.obeys_prophetic_iter_laws(),
            it.decrease() is Some,
            v@ + it.remaining() == s@,
        ensures
            v@ == s@,
        decreases it.decrease()->0,
    {
        let ghost before = it.remaining();
        match it.next() {
            Some(c) => {
                v.push(c);
                assert(v@ + it.remaining() =~= (v@.drop_last() + before));
            },
            None => {
                assert(v@ + it.remaining() =~= v@);
                break ;
            },
        }
    }
    v
}

/// `first_sep(s)` is the one position that holds a `/` (or is the end of `s`)
/// with no `/` before it.
pub proof fn lemma_first_sep_is(s: Seq<char>, k: int)
    requires
        0 <= k <= s.len(),
        forall|j: int| 0 <= j < k ==> s[j] != '/',
        k < s.len() ==> s[k] == '/',
    ensures
        first_sep(s) == k,
    decreases s.len(),
{
    if k > 0 {
        let r = s.drop_first();
        assert forall|j: int| 0 <= j < k - 1 implies r[j] != '/' by {
            assert(r[j] == s[j + 1]);
        }
        lemma_first_sep_is(r, k - 1);
    }
}

/// `first_sep` lies within the string.
pub proof fn lemma_first_sep_bounds(s: Seq<char>)
    ensures
        0 <= first_sep(s) <= s.len(),
    decreases s.len(),
{
    if s.len() > 0 && s[0] != '/' {
        lemma_first_sep_bounds(s.drop_first());
    }
}

/// The first level of `s` is what stands before its first `/`; the other
/// levels are those of what follows that `/`.
pub proof fn lemma_levels_unfold(s: Seq<char>)
    ensures
        levels(s).len() >= 1,
        levels(s)[0] == s.take(first_sep(s)),
        first_sep(s) < s.len() ==> levels(s).drop_first() == levels(s.skip(first_sep(s) + 1)),
        first_sep(s) >= s.len() ==> levels(s).drop_first() == Seq::<Seq<char>>::empty(),
{
    lemma_first_sep_bounds(s);
    let k = first_sep(s);
    if k < s.len() {
        assert(levels(s).drop_first() =~= levels(s.skip(k + 1)));
    } else {
        assert(s.take(k) =~= s);
        assert(levels(s).drop_first() =~= Seq::<Seq<char>>::empty());
    }
}

/// End of the level that starts at `start`: the position of the next `/`,
/// or the end of the string.
fn level_end(v: &Vec<char>, start: usize) -> (end: usize)
    requires
        start <= v.len(),
    ensures
        start <= end <= v.len(),
        end == start + first_sep(v@.skip(start as int)),
{
    let mut end: usize = start;
    while end < v.len() && v[end] != '/'
        invariant
            start <= end <= v.len(),
            forall|j: int| start <= j < end ==> v@[j] != '/',
        decreases v.len() - end,
    {
        end += 1;
    }
    proof {
        lemma_first_sep_is(v@.skip(start as int), end - start);
    }
    end
}

/// Whether the level `[start, end)` of `v` is the one character `c`.
fn level_is_char(v: &Vec<char>, start: usize, end: usize, c: char) -> (r: bool)
    requires
        start <= end <= v.len(),
    ensures
        r == (v@.subrange(start as int, end as int) == seq![c]),
{
    let r = end - start == 1 && v[start] == c;
    proof {
        let lev = v@.subrange(start as int, end as int);
        if r {
            assert(lev =~= seq![c]);
        } else if lev == seq![c] {
            assert(lev.len() == 1);
            assert(lev[0] == c);
        }
    }
    r
}

/// Whether two levels hold the same characters.
fn levels_equal(a: &Vec<char>, a0: usize, a1: usize, b: &Vec<char>, b0: usize, b1: usize) -> (r:
    bool)
    requires
        a0 <= a1 <= a.len(),
        b0 <= b1 <= b.len(),
    ensures
        r == (a@.subrange(a0 as int, a1 as int) == b@.subrange(b0 as int, b1 as int)),
{
    let ghost la = a@.subrange(a0 as int, a1 as int);
    let ghost lb = b@.subrange(b0 as int, b1 as int);
    if a1 - a0 != b1 - b0 {
        assert(la.len() != lb.len());
        return false;
    }
    let n = a1 - a0;
    let mut i: usize = 0;
    while i < n
        invariant
            a0 <= a1 <= a.len(),
            b0 <= b1 <= b.len(),
            n == a1 - a0,
            n == b1 - b0,
            i <= n,
            la == a@.subrange(a0 as int, a1 as int),
            lb == b@.subrange(b0 as int, b1 as int),
            forall|j: int| 0 <= j < i ==> la[j] == lb[j],
        decreases n - i,
    {
        if a[a0 + i] != b[b0 + i] {
            assert(la[i as int] != lb[i as int]);
            return false;
        }
        i += 1;
    }
    assert(la =~= lb);
    true
}

/// Checks if a topic or topic filter has wildcards.
pub fn has_wildcards(filter: &str) -> (r: bool)
    ensures
        r == has_wildcard_chars(filter@),
{
    let v = str_chars(filter);
    let mut i: usize = 0;
    while i < v.len()
        invariant
            i <= v.len(),
            v@ == filter@,
            forall|j: int| 0 <= j < i ==> v@[j] != '+' && v@[j] != '#',
        decreases v.len() - i,
    {
        if v[i] == '+' || v[i] == '#' {
            assert(v@.contains(v@[i as int]));
            return true;
        }
        i += 1;
    }
    false
}

/// Checks a subscription filter: it may hold `#` and `+` to subscribe to
/// several topics at once, each in its place.
pub fn valid_filter(filter: &str) -> (r: bool)
    ensures
        r == filter_is_valid(filter@),
{
    let v = str_chars(filter);
    let n = v.len();
    if n == 0 {
        return false;
    }
    let mut i: usize = 0;
    while i < n
        invariant
            i <= n,
            n == v.len(),
            v@ == filter@,
            forall|j: int| 0 <= j < i ==> #[trigger] wildcard_well_placed(v@, j),
        decreases n - i,
    {
        let c = v[i];
        let after_sep = i == 0 || v[i - 1] == '/';
        let ok = if c == '#' {
            i == n - 1 && i >= 1 && after_sep
        } else if c == '+' {
            after_sep && (i == n - 1 || v[i + 1] == '/')
        } else {
            true
        };
        if !ok {
            assert(!wildcard_well_placed(v@, i as int));
            return false;
        }
        i += 1;
    }
    true
}

/// Checks if a topic matches a filter. Neither is validated here: a topic is
/// validated when it is published to, a filter when it is subscribed.
/// The first argument may itself hold wildcards, to compare two filters.
#[verifier::rlimit(50)]
pub fn match_topic(topic: &str, filter: &str) -> (r: bool)
    ensures
        r == topic_matches(topic@, filter@),
{
    let t = str_chars(topic);
    let f = str_chars(filter);
    if t.len() > 0 && t[0] == '$' {
        return false;
    }
    let mut ti: usize = 0;
    let mut fi: usize = 0;
    let mut t_done = false;
    assert(t@.skip(0) =~= t@ && f@.skip(0) =~= f@);
    loop
        invariant
            ti <= t.len(),
            fi <= f.len(),
            t@ == topic@,
            f@ == filter@,
            !(t@.len() > 0 && t@[0] == '$'),
            levels_match(levels(t@), levels(f@)) == levels_match(
                if t_done {
                    Seq::<Seq<char>>::empty()
                } else {
                    levels(t@.skip(ti as int))
                },
                levels(f@.skip(fi as int)),
            ),
        decreases f.len() - fi,
    {
        let ghost fs = f@.skip(fi as int);
        let ghost ts = t@.skip(ti as int);
        let fe = level_end(&f, fi);
        proof {
            lemma_levels_unfold(fs);
            lemma_levels_unfold(ts);
            assert(fs.take(fe - fi) =~= f@.subrange(fi as int, fe as int));
            if fe < f.len() {
                assert(fs.skip(fe - fi + 1) =~= f@.skip(fe + 1));
            }
        }
        if level_is_char(&f, fi, fe, '#') {
            return true;
        }
        if t_done {
            return false;
        }
        let te = level_end(&t, ti);
        proof {
            assert(ts.take(te - ti) =~= t@.subrange(ti as int, te as int));
            if te < t.len() {
                assert(ts.skip(te - ti + 1) =~= t@.skip(te + 1));
            }
        }
        if level_is_char(&t, ti, te, '#') {
            return false;
        }
        if !level_is_char(&f, fi, fe, '+') && !levels_equal(&f, fi, fe, &t, ti, te) {
            return false;
        }
        if te < t.len() {
            ti = te + 1;
        } else {
            t_done = true;
        }
        if fe < f.len() {
            fi = fe + 1;
        } else {
            proof {
                lemma_levels_unfold(t@.skip(ti as int));
                let rest = if t_done {
                    Seq::<Seq<char>>::empty()
                } else {
                    levels(t@.skip(ti as int))
                };
                assert(levels(ts).drop_first() == rest);
                assert(levels(fs).drop_first() == Seq::<Seq<char>>::empty());
                assert(levels_match(rest, Seq::<Seq<char>>::empty()) == (rest.len() == 0));
            }
            return t_done;
        }
    }
}

/// A topic that begins with `$` matches no filter, so none that holds a wildcard.
pub proof fn lemma_system_topics_shielded(topic: Seq<char>, filter: Seq<char>)
    requires
        topic.len() > 0,
        topic[0] == '$',
        has_wildcard_chars(filter),
    ensures
        !topic_matches(topic, filter),
{
}

/// The peers that `pairs` gives to `key`.
pub open spec fn subscribers_of(pairs: Set<(Seq<char>, PeerAddr)>, key: Seq<char>) -> Set<
    PeerAddr,
> {
    Set::new(|p: PeerAddr| pairs.contains((key, p)))
}

/// The peers that hold a filter of `wild` that accepts `topic`.
pub open spec fn wildcard_subscribers(wild: Set<(Seq<char>, PeerAddr)>, topic: Seq<char>) -> Set<
    PeerAddr,
> {
    Set::new(|p: PeerAddr| exists|f: Seq<char>| wild.contains((f, p)) && topic_matches(topic, f))
}

/// Whether `pairs` gives `key` at least one peer.
pub open spec fn has_peers(pairs: Set<(Seq<char>, PeerAddr)>, key: Seq<char>) -> bool {
    exists|p: PeerAddr| pairs.contains((key, p))
}

/// Every topic that the resolved cache knows has there the peers whose
/// filters accept it, no more and no fewer.
pub open spec fn cache_coherent(
    resolved: Set<(Seq<char>, PeerAddr)>,
    wild: Set<(Seq<char>, PeerAddr)>,
) -> bool {
    forall|t: Seq<char>, p: PeerAddr| #[trigger]
        resolved.contains((t, p)) ==> subscribers_of(resolved, t) == wildcard_subscribers(wild, t)
}

/// The pairs that are left when a peer leaves.
pub open spec fn pairs_without_peer(pairs: Set<(Seq<char>, PeerAddr)>, peer: PeerAddr) -> Set<
    (Seq<char>, PeerAddr),
> {
    Set::new(|x: (Seq<char>, PeerAddr)| pairs.contains(x) && x.1 != peer)
}

/// The subscriptions by id that are left when a peer leaves.
pub open spec fn without_id_peer(by_id: Set<(u16, Subscriber)>, peer: PeerAddr) -> Set<
    (u16, Subscriber),
> {
    Set::new(|x: (u16, Subscriber)| by_id.contains(x) && x.1.socket_addr != peer)
}

/// Whether the peer subscribes to the topic id, at whatever QoS.
pub open spec fn subscribed_to_id(by_id: Set<(u16, Subscriber)>, id: u16, peer: PeerAddr) -> bool {
    exists|q: u8| by_id.contains((id, subscriber(peer, q)))
}

/// The subscribers of a topic id.
pub open spec fn id_subscribers(by_id: Set<(u16, Subscriber)>, id: u16) -> Set<Subscriber> {
    Set::new(|s: Subscriber| by_id.contains((id, s)))
}

/// The subscriptions by id after `peer` subscribed to `id` at `qos`: the
/// new one takes the place of what the peer held for that id.
pub open spec fn with_id_subscriber(
    by_id: Set<(u16, Subscriber)>,
    id: u16,
    peer: PeerAddr,
    qos: u8,
) -> Set<(u16, Subscriber)> {
    Set::new(
        |x: (u16, Subscriber)|
            (by_id.contains(x) && !(x.0 == id && x.1.socket_addr == peer)) || x == (
                id,
                subscriber(peer, qos),
            ),
    )
}

/// Every QoS in the subscriptions by id is one of the four levels, and a
/// peer holds one subscription to an id at most.
pub open spec fn one_qos_each(by_id: Set<(u16, Subscriber)>) -> bool {
    &&& forall|x: (u16, Subscriber)| #[trigger] by_id.contains(x) ==> x.1.qos == qos_of(x.1.qos)
    &&& forall|id: u16, p: PeerAddr, q1: u8, q2: u8|
        #[trigger] by_id.contains((id, subscriber(p, q1))) && #[trigger] by_id.contains(
            (id, subscriber(p, q2)),
        ) ==> q1 == q2
}

/// The four QoS levels are the values that `qos_of` takes.
pub proof fn lemma_qos_levels(q: u8)
    ensures
        qos_of(q) == QOS_LEVEL_0 || qos_of(q) == QOS_LEVEL_1 || qos_of(q) == QOS_LEVEL_2 || qos_of(
            q,
        ) == QOS_LEVEL_3,
        qos_of(qos_of(q)) == qos_of(q),
{
    assert(q & 0x60u8 == 0x00u8 || q & 0x60u8 == 0x20u8 || q & 0x60u8 == 0x40u8 || q & 0x60u8
        == 0x60u8) by (bit_vector);
    assert((q & 0x60u8) & 0x60u8 == q & 0x60u8) by (bit_vector);
}

/// The subscription index: who subscribes to which topic name, to which
/// wildcard filter and to which topic id, each map with its reverse. Beside
/// them stands the cache of topics whose wildcard subscribers were resolved.
pub struct Filter {
    wildcard_topics: BisetMap<String, PeerAddr>,
    wildcard_filters: BisetMap<String, PeerAddr>,
    concrete_topics: BisetMap<String, PeerAddr>,
    id_topics: BisetMap<u16, Subscriber>,
}

/// Subscriptions to topic names, with their reverse.
pub struct Filter2 {
    concrete_topics: BisetMap<String, PeerAddr>,
}

impl Filter2 {
    /// The subscriptions: topic name and peer.
    pub closed spec fn concrete(&self) -> Set<(Seq<char>, PeerAddr)> {
        topic_pairs(self.concrete_topics)
    }

    pub fn new() -> (f: Filter2)
        ensures
            f.concrete() == Set::<(Seq<char>, PeerAddr)>::empty(),
    {
        Filter2 { concrete_topics: topic_map_new() }
    }

    /// Subscribes `addr` to `topic`, if it is not yet.
    pub fn insert_topic(&mut self, topic: &str, addr: PeerAddr)
        ensures
            final(self).concrete() == old(self).concrete().insert((topic@, addr)),
    {
        topic_map_insert(&mut self.concrete_topics, topic.to_owned(), addr);
    }
}

/// Whether `p` is among `v`.
fn vec_has_peer(v: &Vec<PeerAddr>, p: &PeerAddr) -> (r: bool)
    ensures
        r == v@.contains(*p),
{
    let mut i: usize = 0;
    while i < v.len()
        invariant
            i <= v.len(),
            forall|k: int| 0 <= k < i ==> v@[k] != *p,
        decreases v.len() - i,
    {
        if same_peer(&v[i], p) {
            return true;
        }
        i += 1;
    }
    false
}

/// Whether a subscriber of `v` is the peer `p`.
pub fn has_subscriber_peer(v: &Vec<Subscriber>, p: &PeerAddr) -> (r: bool)
    ensures
        r == exists|q: u8| v@.contains(subscriber(*p, q)),
{
    let mut i: usize = 0;
    while i < v.len()
        invariant
            i <= v.len(),
            forall|k: int| 0 <= k < i ==> v@[k].socket_addr != *p,
        decreases v.len() - i,
    {
        if same_peer(&v[i].socket_addr, p) {
            assert(v@[i as int] == subscriber(*p, v@[i as int].qos));
            assert(v@.contains(subscriber(*p, v@[i as int].qos)));
            return true;
        }
        i += 1;
    }
    false
}

/// The peers of both lists, each once, in order.
#[verifier::rlimit(50)]
pub fn sorted_peers(a: &Vec<PeerAddr>, b: &Vec<PeerAddr>) -> (r: Vec<PeerAddr>)
    ensures
        lists_peers(r@, a@.to_set().union(b@.to_set())),
{
    let mut subs: Vec<Subscriber> = Vec::new();
    let mut i: usize = 0;
    while i < a.len()
        invariant
            i <= a.len(),
            strictly_sorted(subs@),
            forall|y: Subscriber|
                subs@.contains(y) <==> y.qos == QOS_LEVEL_0 && a@.take(i as int).contains(
                    y.socket_addr,
                ),
        decreases a.len() - i,
    {
        insert_sorted(&mut subs, Subscriber { socket_addr: a[i], qos: QOS_LEVEL_0 });
        proof {
            lemma_take_contains(a@, i as int);
        }
        i += 1;
    }
    assert(a@.take(a@.len() as int) =~= a@);
    let mut j: usize = 0;
    while j < b.len()
        invariant
            j <= b.len(),
            strictly_sorted(subs@),
            forall|y: Subscriber|
                subs@.contains(y) <==> y.qos == QOS_LEVEL_0 && (a@.contains(y.socket_addr)
                    || b@.take(j as int).contains(y.socket_addr)),
        decreases b.len() - j,
    {
        insert_sorted(&mut subs, Subscriber { socket_addr: b[j], qos: QOS_LEVEL_0 });
        proof {
            lemma_take_contains(b@, j as int);
        }
        j += 1;
    }
    assert(b@.take(b@.len() as int) =~= b@);
    assert forall|n: int| 0 <= n < subs@.len() implies (#[trigger] subs@[n]).qos
        == QOS_LEVEL_0 by {
        assert(subs@.contains(subs@[n]));
    }
    let mut r: Vec<PeerAddr> = Vec::new();
    let mut k: usize = 0;
    while k < subs.len()
        invariant
            k <= subs.len(),
            r@.len() == k,
            forall|n: int| 0 <= n < k ==> subscriber(#[trigger] r@[n], QOS_LEVEL_0) == subs@[n],
            forall|n: int| 0 <= n < subs@.len() ==> (#[trigger] subs@[n]).qos == QOS_LEVEL_0,
        decreases subs.len() - k,
    {
        assert(subs@.contains(subs@[k as int]));
        r.push(subs[k].socket_addr);
        k += 1;
    }
    proof {
        assert forall|p: int, q: int| 0 <= p < q < r@.len() implies peer_lt(
            #[trigger] r@[p],
            #[trigger] r@[q],
        ) by {
            assert(sub_lt(subs@[p], subs@[q]));
        }
        let set = a@.to_set().union(b@.to_set());
        assert forall|x: PeerAddr| r@.contains(x) <==> set.contains(x) by {
            if r@.contains(x) {
                let n = choose|n: int| 0 <= n < r@.len() && r@[n] == x;
                assert(subs@[n] == subscriber(x, QOS_LEVEL_0));
                assert(subs@.contains(subscriber(x, QOS_LEVEL_0)));
            }
            if set.contains(x) {
                assert(subs@.contains(subscriber(x, QOS_LEVEL_0)));
                let n = choose|n: int|
                    0 <= n < subs@.len() && subs@[n] == subscriber(x, QOS_LEVEL_0);
                assert(r@[n] == x);
            }
        }
    }
    r
}

/// One more item of a list is taken: what the longer piece holds.
pub proof fn lemma_take_contains<T>(s: Seq<T>, i: int)
    requires
        0 <= i < s.len(),
    ensures
        forall|y: T| s.take(i + 1).contains(y) <==> s.take(i).contains(y) || y == s[i],
{
    let t0 = s.take(i);
    let t1 = s.take(i + 1);
    assert forall|y: T| t1.contains(y) <==> t0.contains(y) || y == s[i] by {
        if t1.contains(y) {
            let k = choose|k: int| 0 <= k < t1.len() && t1[k] == y;
            if k < i {
                assert(t0[k] == y);
            }
        }
        if t0.contains(y) {
            let k = choose|k: int| 0 <= k < t0.len() && t0[k] == y;
            assert(t1[k] == y);
        }
        assert(t1[i] == s[i]);
    }
}

/// The cache after the peers `peers` were resolved for `topic`.
pub open spec fn with_resolved(
    resolved: Set<(Seq<char>, PeerAddr)>,
    topic: Seq<char>,
    peers: Set<PeerAddr>,
) -> Set<(Seq<char>, PeerAddr)> {
    Set::new(
        |x: (Seq<char>, PeerAddr)| resolved.contains(x) || (x.0 == topic && peers.contains(x.1)),
    )
}

/// The peers of the first `i` collected filters that accept `topic`.
pub open spec fn matched_upto(all: Seq<(String, Vec<PeerAddr>)>, topic: Seq<char>, i: int) -> Set<
    PeerAddr,
> {
    Set::new(
        |p: PeerAddr|
            exists|k: int|
                0 <= k < i && topic_matches(topic, (#[trigger] all[k]).0@) && all[k].1@.contains(p),
    )
}

/// The peers of a set of subscribers.
pub open spec fn id_peers(by_id: Set<(u16, Subscriber)>, id: u16) -> Set<PeerAddr> {
    Set::new(|p: PeerAddr| subscribed_to_id(by_id, id, p))
}

impl Filter {
    /// The resolved cache: topic name and peer.
    pub closed spec fn resolved(&self) -> Set<(Seq<char>, PeerAddr)> {
        topic_pairs(self.wildcard_topics)
    }

    /// The subscriptions to wildcard filters: filter and peer.
    pub closed spec fn wildcards(&self) -> Set<(Seq<char>, PeerAddr)> {
        topic_pairs(self.wildcard_filters)
    }

    /// The subscriptions to topic names: name and peer.
    pub closed spec fn concrete(&self) -> Set<(Seq<char>, PeerAddr)> {
        topic_pairs(self.concrete_topics)
    }

    /// The subscriptions to topic ids: id and subscriber.
    pub closed spec fn by_id(&self) -> Set<(u16, Subscriber)> {
        id_pairs(self.id_topics)
    }

    /// The cache agrees with the filters, a peer holds one subscription to
    /// a topic id at most, and the subscriptions are finitely many.
    pub open spec fn wf(&self) -> bool {
        &&& cache_coherent(self.resolved(), self.wildcards())
        &&& one_qos_each(self.by_id())
        &&& self.wildcards().finite()
        &&& self.concrete().finite()
        &&& self.by_id().finite()
    }

    /// Whether the two indexes hold the same subscriptions by name, by
    /// filter and by id (the cache apart).
    pub open spec fn same_subscriptions(&self, other: &Filter) -> bool {
        &&& self.wildcards() == other.wildcards()
        &&& self.concrete() == other.concrete()
        &&& self.by_id() == other.by_id()
    }

    /// An index without subscriptions.
    pub fn new() -> (f: Filter)
        ensures
            f.wf(),
            f.resolved() == Set::<(Seq<char>, PeerAddr)>::empty(),
            f.wildcards() == Set::<(Seq<char>, PeerAddr)>::empty(),
            f.concrete() == Set::<(Seq<char>, PeerAddr)>::empty(),
            f.by_id() == Set::<(u16, Subscriber)>::empty(),
    {
        Filter {
            wildcard_topics: topic_map_new(),
            wildcard_filters: topic_map_new(),
            concrete_topics: topic_map_new(),
            id_topics: id_map_new(),
        }
    }

    /// Subscribes a peer to a topic id at QoS 0, unless it holds a
    /// subscription to that id.
    pub fn insert_id_topic(&mut self, id: u16, socket_addr: PeerAddr) -> (r: Result<
        (),
        BrokerError,
    >)
        requires
            old(self).wf(),
        ensures
            final(self).wf(),
            final(self).resolved() == old(self).resolved(),
            final(self).wildcards() == old(self).wildcards(),
            final(self).concrete() == old(self).concrete(),
            match r {
                Ok(_) => !subscribed_to_id(old(self).by_id(), id, socket_addr) && final(self).by_id()
                    == old(self).by_id().insert((id, subscriber(socket_addr, QOS_LEVEL_0))),
                Err(e) => e == BrokerError::AlreadySubscribed && subscribed_to_id(
                    old(self).by_id(),
                    id,
                    socket_addr,
                ) && final(self).by_id() == old(self).by_id(),
            },
    {
        let cur = id_map_get(&self.id_topics, &id);
        if has_subscriber_peer(&cur, &socket_addr) {
            Err(BrokerError::AlreadySubscribed)
        } else {
            proof {
                lemma_qos_levels(0);
                assert(qos_of(QOS_LEVEL_0) == QOS_LEVEL_0) by (bit_vector);
                assert forall|q: u8| !old(self).by_id().contains(
                    (id, subscriber(socket_addr, q)),
                ) by {
                    assert(!cur@.contains(subscriber(socket_addr, q)));
                }
            }
            id_map_insert(
                &mut self.id_topics,
                id,
                Subscriber { socket_addr, qos: QOS_LEVEL_0 },
            );
            Ok(())
        }
    }

    /// Insert a new filter or topic name from a peer's subscription. An
    /// invalid filter and a subscription that the peer holds are refused. A
    /// new wildcard filter empties the resolved cache.
    pub fn insert(&mut self, filter: &str, socket_addr: PeerAddr) -> (r: Result<(), BrokerError>)
        requires
            old(self).wf(),
        ensures
            final(self).wf(),
            final(self).by_id() == old(self).by_id(),
            match r {
                Ok(_) => {
                    &&& filter_is_valid(filter@)
                    &&& if has_wildcard_chars(filter@) {
                        &&& !old(self).wildcards().contains((filter@, socket_addr))
                        &&& final(self).wildcards() == old(self).wildcards().insert(
                            (filter@, socket_addr),
                        )
                        &&& final(self).concrete() == old(self).concrete()
                        &&& final(self).resolved() == Set::<(Seq<char>, PeerAddr)>::empty()
                    } else {
                        &&& !old(self).concrete().contains((filter@, socket_addr))
                        &&& final(self).concrete() == old(self).concrete().insert(
                            (filter@, socket_addr),
                        )
                        &&& final(self).wildcards() == old(self).wildcards()
                        &&& final(self).resolved() == old(self).resolved()
                    }
                },
                Err(e) => {
                    &&& final(self).same_subscriptions(old(self))
                    &&& final(self).resolved() == old(self).resolved()
                    &&& e == if !filter_is_valid(filter@) {
                        BrokerError::InvalidFilter
                    } else {
                        BrokerError::AlreadySubscribed
                    }
                    &&& filter_is_valid(filter@) ==> if has_wildcard_chars(filter@) {
                        old(self).wildcards().contains((filter@, socket_addr))
                    } else {
                        old(self).concrete().contains((filter@, socket_addr))
                    }
                },
            },
    {
        if !valid_filter(filter) {
            return Err(BrokerError::InvalidFilter);
        }
        let key = filter.to_owned();
        if has_wildcards(filter) {
            let cur = topic_map_get(&self.wildcard_filters, &key);
            if vec_has_peer(&cur, &socket_addr) {
                return Err(BrokerError::AlreadySubscribed);
            }
            topic_map_insert(&mut self.wildcard_filters, key, socket_addr);
            self.wildcard_topics = topic_map_new();
            Ok(())
        } else {
            let cur = topic_map_get(&self.concrete_topics, &key);
            if vec_has_peer(&cur, &socket_addr) {
                return Err(BrokerError::AlreadySubscribed);
            }
            topic_map_insert(&mut self.concrete_topics, key, socket_addr);
            Ok(())
        }
    }

    /// The wildcard subscribers of a topic, each once. Where the cache does
    /// not know the topic, every wildcard filter is tried and the cache
    /// learns the peers of those that accept it.
    #[verifier::rlimit(50)]
    pub fn resolve(&mut self, topic: &String) -> (r: Vec<PeerAddr>)
        requires
            old(self).wf(),
        ensures
            final(self).wf(),
            final(self).same_subscriptions(old(self)),
            final(self).resolved() == with_resolved(
                old(self).resolved(),
                topic@,
                wildcard_subscribers(old(self).wildcards(), topic@),
            ),
            r@.no_duplicates(),
            r@.to_set() == wildcard_subscribers(old(self).wildcards(), topic@),
    {
        let ghost wild = self.wildcards();
        let ghost res0 = self.resolved();
        let ghost want = wildcard_subscribers(wild, topic@);
        let cached = topic_map_get(&self.wildcard_topics, topic);
        if cached.len() > 0 {
            proof {
                assert(res0.contains((topic@, cached@[0]))) by {
                    assert(cached@.contains(cached@[0]));
                }
                assert(cached@.to_set() =~= subscribers_of(res0, topic@));
                assert(with_resolved(res0, topic@, want) =~= res0);
            }
            return cached;
        }
        assert(!has_peers(res0, topic@)) by {
            if has_peers(res0, topic@) {
                let p = choose|p: PeerAddr| res0.contains((topic@, p));
                assert(cached@.contains(p));
            }
        }
        let all = topic_map_collect(&self.wildcard_filters);
        let mut i: usize = 0;
        assert(with_resolved(res0, topic@, matched_upto(all@, topic@, 0)) =~= res0);
        while i < all.len()
            invariant
                i <= all.len(),
                self.wildcards() == wild,
                self.concrete() == old(self).concrete(),
                self.by_id() == old(self).by_id(),
                self.resolved() == with_resolved(
                    res0,
                    topic@,
                    matched_upto(all@, topic@, i as int),
                ),
            decreases all.len() - i,
        {
            let ghost upto = matched_upto(all@, topic@, i as int);
            let ghost next = matched_upto(all@, topic@, i + 1);
            if match_topic(topic.as_str(), all[i].0.as_str()) {
                let peers = &all[i].1;
                let mut j: usize = 0;
                assert(upto.union(peers@.take(0).to_set()) =~= upto);
                while j < peers.len()
                    invariant
                        j <= peers.len(),
                        self.wildcards() == wild,
                        self.concrete() == old(self).concrete(),
                        self.by_id() == old(self).by_id(),
                        self.resolved() == with_resolved(
                            res0,
                            topic@,
                            upto.union(peers@.take(j as int).to_set()),
                        ),
                    decreases peers.len() - j,
                {
                    topic_map_insert(&mut self.wildcard_topics, topic.clone(), peers[j]);
                    proof {
                        lemma_take_contains(peers@, j as int);
                        let t0 = peers@.take(j as int);
                        let t1 = peers@.take(j + 1);
                        let goal = with_resolved(res0, topic@, upto.union(t1.to_set()));
                        assert forall|x: (Seq<char>, PeerAddr)|
                            self.resolved().contains(x) <==> goal.contains(x) by {
                            assert(t1.contains(x.1) <==> t0.contains(x.1) || x.1 == peers@[
                                j as int
                            ]);
                            assert(t1.to_set().contains(x.1) <==> t1.contains(x.1));
                            assert(t0.to_set().contains(x.1) <==> t0.contains(x.1));
                        }
                        assert(self.resolved() =~= goal);
                    }
                    j += 1;
                }
                proof {
                    assert(peers@.take(peers@.len() as int) =~= peers@);
                    assert(upto.union(peers@.to_set()) =~= next) by {
                        assert forall|p: PeerAddr| upto.union(peers@.to_set()).contains(p)
                            <==> next.contains(p) by {
                            if peers@.contains(p) {
                                assert(topic_matches(topic@, all@[i as int].0@)
                                    && all@[i as int].1@.contains(p));
                            }
                        }
                    }
                }
            } else {
                assert(upto =~= next);
            }
            i += 1;
        }
        proof {
            let done = matched_upto(all@, topic@, all@.len() as int);
            assert(done =~= want) by {
                assert forall|p: PeerAddr| done.contains(p) <==> want.contains(p) by {
                    if done.contains(p) {
                        let k = choose|k: int|
                            0 <= k < all@.len() && topic_matches(topic@, (#[trigger] all@[k]).0@)
                                && all@[k].1@.contains(p);
                        assert(wild.contains((all@[k].0@, p)));
                    }
                    if want.contains(p) {
                        let f = choose|f: Seq<char>|
                            wild.contains((f, p)) && topic_matches(topic@, f);
                        let k = choose|k: int|
                            0 <= k < all@.len() && (#[trigger] all@[k]).0@ == f
                                && all@[k].1@.contains(p);
                        assert(topic_matches(topic@, all@[k].0@));
                    }
                }
            }
            let res1 = self.resolved();
            assert(subscribers_of(res1, topic@) =~= want);
            assert forall|t: Seq<char>, p: PeerAddr| #[trigger]
                res1.contains((t, p)) implies subscribers_of(res1, t) == wildcard_subscribers(
                wild,
                t,
            ) by {
                if t != topic@ {
                    assert(res0.contains((t, p)));
                    assert(subscribers_of(res1, t) =~= subscribers_of(res0, t));
                }
            }
        }
        let r = topic_map_get(&self.wildcard_topics, topic);
        assert(r@.to_set() =~= want);
        r
    }
}

/// The peers of a list of subscribers.
fn subscriber_peers(v: &Vec<Subscriber>) -> (r: Vec<PeerAddr>)
    ensures
        forall|p: PeerAddr| r@.contains(p) <==> exists|q: u8| v@.contains(subscriber(p, q)),
{
    let mut r: Vec<PeerAddr> = Vec::new();
    let mut i: usize = 0;
    while i < v.len()
        invariant
            i <= v.len(),
            r@.len() == i,
            forall|k: int| 0 <= k < i ==> #[trigger] r@[k] == v@[k].socket_addr,
        decreases v.len() - i,
    {
        r.push(v[i].socket_addr);
        i += 1;
    }
    proof {
        assert forall|p: PeerAddr| r@.contains(p) <==> exists|q: u8|
            v@.contains(subscriber(p, q)) by {
            if r@.contains(p) {
                let k = choose|k: int| 0 <= k < r@.len() && r@[k] == p;
                assert(v@[k] == subscriber(p, v@[k].qos));
                assert(v@.contains(subscriber(p, v@[k].qos)));
            }
            if exists|q: u8| v@.contains(subscriber(p, q)) {
                let q = choose|q: u8| v@.contains(subscriber(p, q));
                let k = choose|k: int| 0 <= k < v@.len() && v@[k] == subscriber(p, q);
                assert(r@[k] == p);
            }
        }
    }
    r
}

impl Filter {
    /// The peers that subscribe to a topic id, if there are any.
    pub fn match_topic_id(&mut self, topic: u16) -> (r: Option<PeerSet>)
        ensures
            *final(self) == *old(self),
            r is Some <==> exists|p: PeerAddr| subscribed_to_id(old(self).by_id(), topic, p),
            r matches Some(s) ==> s@ == id_peers(old(self).by_id(), topic),
    {
        let subs = id_map_get(&self.id_topics, &topic);
        let peers = subscriber_peers(&subs);
        let ghost want = id_peers(self.by_id(), topic);
        proof {
            assert forall|p: PeerAddr| peers@.contains(p) <==> want.contains(p) by {
                if peers@.contains(p) {
                    let q = choose|q: u8| subs@.contains(subscriber(p, q));
                    assert(self.by_id().contains((topic, subscriber(p, q))));
                }
                if want.contains(p) {
                    let q = choose|q: u8| self.by_id().contains((topic, subscriber(p, q)));
                    assert(subs@.contains(subscriber(p, q)));
                }
            }
            assert(peers@.to_set() =~= want);
        }
        if peers.len() == 0 {
            assert forall|p: PeerAddr| !subscribed_to_id(self.by_id(), topic, p) by {
                assert(!peers@.contains(p));
                assert(!want.contains(p));
            }
            None
        } else {
            assert(peers@.contains(peers@[0]));
            assert(want.contains(peers@[0]));
            Some(PeerSet::from_vec(&peers))
        }
    }

    /// The peers that subscribe to a topic by its name, if there are any.
    pub fn match_topic_concrete(&mut self, topic: &str) -> (r: Option<PeerSet>)
        ensures
            *final(self) == *old(self),
            r is Some <==> has_peers(old(self).concrete(), topic@),
            r matches Some(s) ==> s@ == subscribers_of(old(self).concrete(), topic@),
    {
        let peers = topic_map_get(&self.concrete_topics, &topic.to_owned());
        assert(peers@.to_set() =~= subscribers_of(self.concrete(), topic@));
        if peers.len() == 0 {
            assert forall|p: PeerAddr| !self.concrete().contains((topic@, p)) by {
                assert(!peers@.contains(p));
            }
            None
        } else {
            assert(peers@.contains(peers@[0]));
            Some(PeerSet::from_vec(&peers))
        }
    }

    /// The peers whose wildcard filters accept a topic, if there are any.
    /// A topic that holds a wildcard itself is looked up in the cache only.
    pub fn match_topic_wildcard(&mut self, topic: &str) -> (r: Option<PeerSet>)
        requires
            old(self).wf(),
        ensures
            final(self).wf(),
            final(self).same_subscriptions(old(self)),
            ({
                let subs = wildcard_subscribers(old(self).wildcards(), topic@);
                let known = has_peers(old(self).resolved(), topic@);
                let asked = known || !has_wildcard_chars(topic@);
                &&& r is Some <==> asked && exists|p: PeerAddr| subs.contains(p)
                &&& r matches Some(s) ==> s@ == subs
                &&& final(self).resolved() == if asked {
                    with_resolved(old(self).resolved(), topic@, subs)
                } else {
                    old(self).resolved()
                }
            }),
    {
        let key = topic.to_owned();
        let cached = topic_map_get(&self.wildcard_topics, &key);
        let ghost res0 = self.resolved();
        proof {
            if cached@.len() > 0 {
                assert(cached@.contains(cached@[0]));
                assert(res0.contains((topic@, cached@[0])));
            } else if has_peers(res0, topic@) {
                let p = choose|p: PeerAddr| res0.contains((topic@, p));
                assert(cached@.contains(p));
            }
        }
        if cached.len() == 0 && has_wildcards(topic) {
            return None;
        }
        let peers = self.resolve(&key);
        if peers.len() == 0 {
            assert forall|p: PeerAddr| !peers@.to_set().contains(p) by {
                assert(!peers@.contains(p));
            }
            None
        } else {
            assert(peers@.contains(peers@[0]));
            assert(peers@.to_set().contains(peers@[0]));
            Some(PeerSet::from_vec(&peers))
        }
    }

    /// The peers that a publication to `topic` goes to: those that
    /// subscribe to its name and those whose wildcard filters accept it.
    /// None for a topic that holds a wildcard, and where nobody subscribes.
    pub fn match_topic(&mut self, topic: &str) -> (r: Option<PeerSet>)
        requires
            old(self).wf(),
        ensures
            final(self).wf(),
            final(self).same_subscriptions(old(self)),
            ({
                let wild = wildcard_subscribers(old(self).wildcards(), topic@);
                let subs = subscribers_of(old(self).concrete(), topic@).union(wild);
                let asked = !has_wildcard_chars(topic@);
                &&& r is Some <==> asked && exists|p: PeerAddr| subs.contains(p)
                &&& r matches Some(s) ==> s@ == subs
                &&& final(self).resolved() == if asked {
                    with_resolved(old(self).resolved(), topic@, wild)
                } else {
                    old(self).resolved()
                }
            }),
    {
        if has_wildcards(topic) {
            return None;
        }
        let key = topic.to_owned();
        let peers = match_topics(self, &key);
        if peers.len() == 0 {
            assert forall|p: PeerAddr|
                !subscribers_of(old(self).concrete(), topic@).union(
                    wildcard_subscribers(old(self).wildcards(), topic@),
                ).contains(p) by {
                assert(!peers@.contains(p));
            }
            None
        } else {
            assert(peers@.contains(peers@[0]));
            let s = PeerSet::from_vec(&peers);
            assert(s@ =~= subscribers_of(old(self).concrete(), topic@).union(
                wildcard_subscribers(old(self).wildcards(), topic@),
            ));
            Some(s)
        }
    }
}

/// Subscribes a peer to a topic id at a QoS level (the QoS bits of `qos`).
/// What the peer held for that id before is replaced.
pub fn insert_subscriber_with_topic_id(
    filters: &mut Filter,
    socket_add: PeerAddr,
    id: u16,
    qos: u8,
) -> (r: Result<(), BrokerError>)
    requires
        old(filters).wf(),
    ensures
        r is Ok,
        final(filters).wf(),
        final(filters).resolved() == old(filters).resolved(),
        final(filters).wildcards() == old(filters).wildcards(),
        final(filters).concrete() == old(filters).concrete(),
        final(filters).by_id() == with_id_subscriber(
            old(filters).by_id(),
            id,
            socket_add,
            qos_of(qos),
        ),
{
    let level = flag_qos_level(qos);
    let ghost by0 = filters.by_id();
    id_map_remove(
        &mut filters.id_topics,
        &id,
        &Subscriber { socket_addr: socket_add, qos: QOS_LEVEL_0 },
    );
    id_map_remove(
        &mut filters.id_topics,
        &id,
        &Subscriber { socket_addr: socket_add, qos: QOS_LEVEL_1 },
    );
    id_map_remove(
        &mut filters.id_topics,
        &id,
        &Subscriber { socket_addr: socket_add, qos: QOS_LEVEL_2 },
    );
    id_map_remove(
        &mut filters.id_topics,
        &id,
        &Subscriber { socket_addr: socket_add, qos: QOS_LEVEL_3 },
    );
    id_map_insert(&mut filters.id_topics, id, Subscriber { socket_addr: socket_add, qos: level });
    proof {
        lemma_qos_levels(qos);
        let by1 = filters.by_id();
        let want = with_id_subscriber(by0, id, socket_add, qos_of(qos));
        assert forall|x: (u16, Subscriber)| by1.contains(x) <==> want.contains(x) by {
            lemma_qos_levels(x.1.qos);
            if by0.contains(x) && x.0 == id && x.1.socket_addr == socket_add {
                assert(x.1.qos == qos_of(x.1.qos));
                assert(x.1 == subscriber(socket_add, x.1.qos));
            }
        }
        assert(by1 =~= want);
    }
    Ok(())
}

/// The subscribers of a topic id, each once, in order.
pub fn get_subscribers_with_topic_id(filters: &Filter, id: u16) -> (r: Vec<Subscriber>)
    ensures
        lists_set(r@, id_subscribers(filters.by_id(), id)),
{
    let subs = id_map_get(&filters.id_topics, &id);
    let r = sort_subscribers(&subs);
    assert(subs@.to_set() =~= id_subscribers(filters.by_id(), id));
    r
}

/// Removes every subscription by topic id that a peer holds.
pub fn delete_subscribers_with_socket_addr(filters: &mut Filter, socket_addr: &PeerAddr)
    requires
        old(filters).wf(),
    ensures
        final(filters).wf(),
        final(filters).resolved() == old(filters).resolved(),
        final(filters).wildcards() == old(filters).wildcards(),
        final(filters).concrete() == old(filters).concrete(),
        final(filters).by_id() == without_id_peer(old(filters).by_id(), *socket_addr),
{
    let ghost by0 = filters.by_id();
    let peer = *socket_addr;
    id_map_rev_delete(&mut filters.id_topics, &Subscriber { socket_addr: peer, qos: QOS_LEVEL_0 });
    id_map_rev_delete(&mut filters.id_topics, &Subscriber { socket_addr: peer, qos: QOS_LEVEL_1 });
    id_map_rev_delete(&mut filters.id_topics, &Subscriber { socket_addr: peer, qos: QOS_LEVEL_2 });
    id_map_rev_delete(&mut filters.id_topics, &Subscriber { socket_addr: peer, qos: QOS_LEVEL_3 });
    proof {
        let by1 = filters.by_id();
        let want = without_id_peer(by0, peer);
        assert forall|x: (u16, Subscriber)| by1.contains(x) <==> want.contains(x) by {
            lemma_qos_levels(x.1.qos);
            if by0.contains(x) && x.1.socket_addr == peer {
                assert(x.1 == subscriber(peer, x.1.qos));
            }
        }
        assert(by1 =~= want);
        assert(want.subset_of(by0));
        vstd::set_lib::lemma_set_subset_finite(by0, want);
    }
}

/// Subscribes a peer to a topic name or a wildcard filter. An invalid
/// filter is refused; a subscription that is there stays as it is. A
/// wildcard filter empties the resolved cache.
pub fn insert_filter(filters: &mut Filter, filter: String, socket_add: PeerAddr) -> (r: Result<
    (),
    BrokerError,
>)
    requires
        old(filters).wf(),
    ensures
        final(filters).wf(),
        final(filters).by_id() == old(filters).by_id(),
        match r {
            Ok(_) => {
                &&& filter_is_valid(filter@)
                &&& if has_wildcard_chars(filter@) {
                    &&& final(filters).wildcards() == old(filters).wildcards().insert(
                        (filter@, socket_add),
                    )
                    &&& final(filters).concrete() == old(filters).concrete()
                    &&& final(filters).resolved() == Set::<(Seq<char>, PeerAddr)>::empty()
                } else {
                    &&& final(filters).concrete() == old(filters).concrete().insert(
                        (filter@, socket_add),
                    )
                    &&& final(filters).wildcards() == old(filters).wildcards()
                    &&& final(filters).resolved() == old(filters).resolved()
                }
            },
            Err(e) => {
                &&& !filter_is_valid(filter@)
                &&& e == BrokerError::InvalidFilter
                &&& final(filters).same_subscriptions(old(filters))
                &&& final(filters).resolved() == old(filters).resolved()
            },
        },
{
    if !valid_filter(filter.as_str()) {
        return Err(BrokerError::InvalidFilter);
    }
    if has_wildcards(filter.as_str()) {
        topic_map_insert(&mut filters.wildcard_filters, filter, socket_add);
        filters.wildcard_topics = topic_map_new();
    } else {
        topic_map_insert(&mut filters.concrete_topics, filter, socket_add);
    }
    Ok(())
}

/// Removes a peer from the topic names, the wildcard filters and the
/// resolved cache.
#[verifier::rlimit(50)]
pub fn delete_filter(filters: &mut Filter, socket_add: PeerAddr)
    requires
        old(filters).wf(),
    ensures
        final(filters).wf(),
        final(filters).by_id() == old(filters).by_id(),
        final(filters).wildcards() == pairs_without_peer(old(filters).wildcards(), socket_add),
        final(filters).concrete() == pairs_without_peer(old(filters).concrete(), socket_add),
        final(filters).resolved() == pairs_without_peer(old(filters).resolved(), socket_add),
{
    let ghost wild0 = filters.wildcards();
    let ghost res0 = filters.resolved();
    let ghost conc0 = filters.concrete();
    topic_map_rev_delete(&mut filters.wildcard_filters, &socket_add);
    topic_map_rev_delete(&mut filters.concrete_topics, &socket_add);
    topic_map_rev_delete(&mut filters.wildcard_topics, &socket_add);
    proof {
        let wild1 = filters.wildcards();
        let res1 = filters.resolved();
        assert(wild1.subset_of(wild0));
        assert(filters.concrete().subset_of(conc0));
        vstd::set_lib::lemma_set_subset_finite(wild0, wild1);
        vstd::set_lib::lemma_set_subset_finite(conc0, filters.concrete());
        assert forall|t: Seq<char>, p: PeerAddr| #[trigger]
            res1.contains((t, p)) implies subscribers_of(res1, t) == wildcard_subscribers(
            wild1,
            t,
        ) by {
            assert(res0.contains((t, p)));
            assert(subscribers_of(res0, t) == wildcard_subscribers(wild0, t));
            assert forall|q: PeerAddr| subscribers_of(res1, t).contains(q)
                <==> wildcard_subscribers(wild1, t).contains(q) by {
                assert(subscribers_of(res0, t).contains(q) <==> wildcard_subscribers(
                    wild0,
                    t,
                ).contains(q));
                if wildcard_subscribers(wild0, t).contains(q) && q != socket_add {
                    let f = choose|f: Seq<char>| wild0.contains((f, q)) && topic_matches(t, f);
                    assert(wild1.contains((f, q)));
                }
            }
            assert(subscribers_of(res1, t) =~= wildcard_subscribers(wild1, t));
        }
    }
}

/// The peers that subscribe to a topic by its name, each once, in order.
pub fn match_concrete_topics(filters: &Filter, topic: &String) -> (r: Vec<PeerAddr>)
    ensures
        lists_peers(r@, subscribers_of(filters.concrete(), topic@)),
{
    let conc = topic_map_get(&filters.concrete_topics, topic);
    let none: Vec<PeerAddr> = Vec::new();
    let r = sorted_peers(&conc, &none);
    assert(conc@.to_set().union(none@.to_set()) =~= subscribers_of(filters.concrete(), topic@));
    r
}

/// The peers that a publication to `topic` goes to, each once, in order:
/// those that subscribe to its name and those whose wildcard filters accept
/// it. The resolved cache learns the latter.
pub fn match_topics(filters: &mut Filter, topic: &String) -> (r: Vec<PeerAddr>)
    requires
        old(filters).wf(),
    ensures
        final(filters).wf(),
        final(filters).same_subscriptions(old(filters)),
        final(filters).resolved() == with_resolved(
            old(filters).resolved(),
            topic@,
            wildcard_subscribers(old(filters).wildcards(), topic@),
        ),
        lists_peers(
            r@,
            subscribers_of(old(filters).concrete(), topic@).union(
                wildcard_subscribers(old(filters).wildcards(), topic@),
            ),
        ),
{
    let wild = filters.resolve(topic);
    let conc = topic_map_get(&filters.concrete_topics, topic);
    let r = sorted_peers(&conc, &wild);
    assert(conc@.to_set() =~= subscribers_of(old(filters).concrete(), topic@));
    r
}

/// Subscribes a peer to a topic name or a wildcard filter, as
/// `Filter::insert` does.
pub fn global_filter_insert(filters: &mut Filter, filter: &str, socket_add: PeerAddr) -> (r:
    Result<(), BrokerError>)
    requires
        old(filters).wf(),
    ensures
        final(filters).wf(),
        final(filters).by_id() == old(filters).by_id(),
        r is Ok <==> filter_is_valid(filter@) && !(if has_wildcard_chars(filter@) {
            old(filters).wildcards()
        } else {
            old(filters).concrete()
        }).contains((filter@, socket_add)),
        r is Ok ==> if has_wildcard_chars(filter@) {
            &&& final(filters).wildcards() == old(filters).wildcards().insert(
                (filter@, socket_add),
            )
            &&& final(filters).concrete() == old(filters).concrete()
            &&& final(filters).resolved() == Set::<(Seq<char>, PeerAddr)>::empty()
        } else {
            &&& final(filters).concrete() == old(filters).concrete().insert((filter@, socket_add))
            &&& final(filters).wildcards() == old(filters).wildcards()
            &&& final(filters).resolved() == old(filters).resolved()
        },
        r matches Err(e) ==> {
            &&& final(filters).same_subscriptions(old(filters))
            &&& final(filters).resolved() == old(filters).resolved()
            &&& e == if !filter_is_valid(filter@) {
                BrokerError::InvalidFilter
            } else {
                BrokerError::AlreadySubscribed
            }
        },
{
    filters.insert(filter, socket_add)
}

} // verus!
