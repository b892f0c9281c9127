//! Keep-alive over the seconds: a peer that is not heard of keeps its
//! connection while its timer runs, and loses it, with its will published,
//! in the second in which the timer runs out.
use crate::asleep_msg_cache::kept_for;
use crate::biset::Subscriber;
use crate::broker_lib::keep_alive_ticked;
use crate::connection::ConnModel;
use crate::flags::RETAIN_FALSE;
use crate::keep_alive::{expired_at_tick, kept_after_tick, KeepAlive};
use crate::model::{
    forget, lemma_forget_forgets, lemma_publish_keeps_out, lose, lose_each, BrokerModel, Outbox,
};
use crate::msg_hdr::PeerAddr;
use crate::publish::{fan_out, publish_msg};
use crate::table::{has_key, lemma_position, lemma_with, lemma_without, lookup, unique_keys};
use vstd::prelude::*;

verus! {

/// No peer has two connections, two timers or two queues of kept
/// publications.
pub open spec fn keyed(m: BrokerModel) -> bool {
    &&& unique_keys(m.conns)
    &&& unique_keys(m.timers)
    &&& unique_keys(m.outbox.asleep)
}

/// The broker after `n` seconds have passed for the keep-alive timers and
/// no datagram has come.
pub open spec fn after_seconds(m: BrokerModel, n: nat) -> BrokerModel
    decreases n,
{
    if n == 0 {
        m
    } else {
        keep_alive_ticked(after_seconds(m, (n - 1) as nat))
    }
}

/// A timer with a second less.
pub open spec fn a_second_less(t: KeepAlive) -> KeepAlive {
    KeepAlive { duration: t.duration, remaining: (t.remaining - 1) as u32 }
}

/// A fan-out leaves no peer with two queues of kept publications.
pub proof fn lemma_fan_out_keeps_keys(
    o: Outbox,
    hand: usize,
    conns: Seq<(PeerAddr, ConnModel)>,
    subs: Seq<Subscriber>,
    topic_id: u16,
    msg_id: u16,
    data: Seq<u8>,
)
    requires
        unique_keys(o.asleep),
    ensures
        unique_keys(fan_out(o, hand, conns, subs, topic_id, msg_id, data).asleep),
    decreases subs.len(),
{
    if subs.len() > 0 {
        let prev = fan_out(o, hand, conns, subs.drop_last(), topic_id, msg_id, data);
        lemma_fan_out_keeps_keys(o, hand, conns, subs.drop_last(), topic_id, msg_id, data);
        let s = subs.last();
        let m = publish_msg(topic_id, msg_id, s.qos, RETAIN_FALSE, data);
        lemma_with(prev.asleep, s.socket_addr, kept_for(prev.asleep, s.socket_addr).push(m));
    }
}

/// The loss of a connection leaves the connection and the timer of every
/// other peer as they were, and no peer with two of anything.
pub proof fn lemma_lose_leaves_others(m: BrokerModel, addr: PeerAddr, will: bool, a: PeerAddr)
    requires
        keyed(m),
        a != addr,
    ensures
        keyed(lose(m, addr, will)),
        lookup(lose(m, addr, will).conns, a) == lookup(m.conns, a),
        lookup(lose(m, addr, will).timers, a) == lookup(m.timers, a),
{
    lemma_without(m.conns, addr);
    lemma_without(m.timers, addr);
    lemma_without(m.outbox.asleep, addr);
    let f = forget(m, addr);
    match lookup(m.conns, addr) {
        Some(c) => {
            if will && c.will_topic_id is Some {
                lemma_fan_out_keeps_keys(
                    f.outbox,
                    f.hand,
                    f.conns,
                    f.recipients(c.will_topic_id->0),
                    c.will_topic_id->0,
                    0,
                    c.will_message,
                );
            }
        },
        None => {},
    }
}

/// The loss of the connections of a list of peers leaves the connection
/// and the timer of a peer that is not in the list as they were.
pub proof fn lemma_lose_each_leaves_others(m: BrokerModel, peers: Seq<PeerAddr>, a: PeerAddr)
    requires
        keyed(m),
        !peers.contains(a),
    ensures
        keyed(lose_each(m, peers)),
        lookup(lose_each(m, peers).conns, a) == lookup(m.conns, a),
        lookup(lose_each(m, peers).timers, a) == lookup(m.timers, a),
    decreases peers.len(),
{
    if peers.len() > 0 {
        let init = peers.drop_last();
        assert(!init.contains(a)) by {
            if init.contains(a) {
                let i = choose|i: int| 0 <= i < init.len() && init[i] == a;
                assert(peers[i] == a);
            }
        }
        assert(peers[peers.len() - 1] == peers.last());
        lemma_lose_each_leaves_others(m, init, a);
        lemma_lose_leaves_others(lose_each(m, init), peers.last(), true, a);
    }
}

/// The loss of a connection leaves the broker without knowledge of a peer
/// of which it knew nothing.
pub proof fn lemma_lose_keeps_unknown(m: BrokerModel, addr: PeerAddr, will: bool, a: PeerAddr)
    requires
        keyed(m),
        m.knows_nothing_of(a),
    ensures
        keyed(lose(m, addr, will)),
        lose(m, addr, will).knows_nothing_of(a),
{
    lemma_without(m.conns, addr);
    lemma_without(m.timers, addr);
    lemma_without(m.outbox.asleep, addr);
    crate::table::lemma_without_peer(m.outbox.wheel, addr);
    crate::table::lemma_without_peer(m.pending, addr);
    let f = forget(m, addr);
    assert(f.knows_nothing_of(a)) by {
        assert forall|i: int| 0 <= i < f.outbox.wheel.len() implies (
        #[trigger] f.outbox.wheel[i]).0.addr != a by {
            assert(m.outbox.wheel.contains(f.outbox.wheel[i]));
            let j = choose|j: int|
                0 <= j < m.outbox.wheel.len() && m.outbox.wheel[j] == f.outbox.wheel[i];
            assert(m.outbox.wheel[j].0.addr != a);
        }
        assert forall|i: int| 0 <= i < f.pending.len() implies (#[trigger] f.pending[i]).0.addr
            != a by {
            assert(m.pending.contains(f.pending[i]));
            let j = choose|j: int| 0 <= j < m.pending.len() && m.pending[j] == f.pending[i];
            assert(m.pending[j].0.addr != a);
        }
    }
    match lookup(m.conns, addr) {
        Some(c) => {
            if will && c.will_topic_id is Some {
                lemma_publish_keeps_out(f, c.will_topic_id->0, 0, c.will_message, a);
                lemma_fan_out_keeps_keys(
                    f.outbox,
                    f.hand,
                    f.conns,
                    f.recipients(c.will_topic_id->0),
                    c.will_topic_id->0,
                    0,
                    c.will_message,
                );
            }
        },
        None => {},
    }
}

/// The loss of the connections of a list of peers leaves the broker
/// without knowledge of a peer of which it knew nothing.
pub proof fn lemma_lose_each_keeps_unknown(m: BrokerModel, peers: Seq<PeerAddr>, a: PeerAddr)
    requires
        keyed(m),
        m.knows_nothing_of(a),
    ensures
        keyed(lose_each(m, peers)),
        lose_each(m, peers).knows_nothing_of(a),
    decreases peers.len(),
{
    if peers.len() > 0 {
        lemma_lose_each_keeps_unknown(m, peers.drop_last(), a);
        lemma_lose_keeps_unknown(lose_each(m, peers.drop_last()), peers.last(), true, a);
    }
}

/// Losing the peers of two lists, one behind the other, is losing those of
/// the one and then those of the other.
pub proof fn lemma_lose_each_add(m: BrokerModel, x: Seq<PeerAddr>, y: Seq<PeerAddr>)
    ensures
        lose_each(m, x + y) == lose_each(lose_each(m, x), y),
    decreases y.len(),
{
    if y.len() == 0 {
        assert(x + y =~= x);
    } else {
        lemma_lose_each_add(m, x, y.drop_last());
        assert((x + y).drop_last() =~= x + y.drop_last());
        assert((x + y).last() == y.last());
    }
}

/// What a second makes of the timer of a peer: with more than a second
/// left it has a second less, and else it is among those whose time is up,
/// once.
pub proof fn lemma_timer_after_tick(s: Seq<(PeerAddr, KeepAlive)>, a: PeerAddr)
    requires
        unique_keys(s),
    ensures
        match lookup(s, a) {
            Some(t) => if t.remaining > 1 {
                lookup(kept_after_tick(s), a) == Some(a_second_less(t)) && !expired_at_tick(
                    s,
                ).contains(a)
            } else {
                expired_at_tick(s).contains(a) && !has_key(kept_after_tick(s), a)
            },
            None => !expired_at_tick(s).contains(a) && !has_key(kept_after_tick(s), a),
        },
{
    crate::invariants::lemma_kept_after_tick(s);
    lemma_timer_value(s, a);
}

/// The timer that is left to a peer after a second has a second less than
/// the one it had, and who is among those whose time is up had a second
/// left at most.
pub proof fn lemma_timer_value(s: Seq<(PeerAddr, KeepAlive)>, a: PeerAddr)
    requires
        unique_keys(s),
    ensures
        has_key(kept_after_tick(s), a) ==> lookup(s, a) is Some && lookup(s, a)->0.remaining > 1
            && lookup(kept_after_tick(s), a) == Some(a_second_less(lookup(s, a)->0)),
        expired_at_tick(s).contains(a) ==> lookup(s, a) is Some && lookup(s, a)->0.remaining <= 1,
    decreases s.len(),
{
    crate::invariants::lemma_kept_after_tick(s);
    if s.len() > 0 {
        let init = s.drop_last();
        let e = s.last();
        let last = s.len() - 1;
        assert(s[last] == e);
        assert(unique_keys(init)) by {
            assert forall|i: int, j: int| 0 <= i < j < init.len() implies (#[trigger] init[i]).0
                != (#[trigger] init[j]).0 by {
                assert(s[i].0 != s[j].0);
            }
        }
        lemma_timer_value(init, a);
        crate::invariants::lemma_kept_after_tick(init);
        lemma_position(s, last);
        let kept = kept_after_tick(s);
        let kept0 = kept_after_tick(init);
        let gone = expired_at_tick(s);
        let gone0 = expired_at_tick(init);
        if a == e.0 {
            if e.1.remaining > 1 {
                assert(kept == kept0.push((e.0, a_second_less(e.1))));
                assert(kept[kept.len() - 1] == (e.0, a_second_less(e.1)));
                lemma_position(kept, kept.len() - 1);
            }
        } else {
            assert(lookup(s, a) == lookup(init, a)) by {
                if has_key(init, a) {
                    let i = crate::table::position(init, a);
                    assert(s[i] == init[i]);
                    lemma_position(s, i);
                    lemma_position(init, i);
                } else if has_key(s, a) {
                    let i = crate::table::position(s, a);
                    assert(i < init.len());
                    assert(init[i].0 == a);
                }
            }
            if has_key(kept, a) {
                let i = crate::table::position(kept, a);
                assert(i < kept0.len());
                assert(kept0[i] == kept[i]);
                lemma_position(kept0, i);
                lemma_position(kept, i);
            }
            if gone.contains(a) {
                let i = choose|i: int| 0 <= i < gone.len() && gone[i] == a;
                assert(i < gone0.len());
                assert(gone0[i] == a);
            }
        }
    }
}

/// No peer is twice among those whose time is up.
pub proof fn lemma_expired_once(s: Seq<(PeerAddr, KeepAlive)>)
    requires
        unique_keys(s),
    ensures
        forall|i: int, j: int|
            0 <= i < j < expired_at_tick(s).len() ==> expired_at_tick(s)[i] != expired_at_tick(
                s,
            )[j],
    decreases s.len(),
{
    if s.len() > 0 {
        let init = s.drop_last();
        let e = s.last();
        assert(unique_keys(init)) by {
            assert forall|i: int, j: int| 0 <= i < j < init.len() implies (#[trigger] init[i]).0
                != (#[trigger] init[j]).0 by {
                assert(s[i].0 != s[j].0);
            }
        }
        lemma_expired_once(init);
        crate::invariants::lemma_kept_after_tick(init);
        let gone = expired_at_tick(s);
        let gone0 = expired_at_tick(init);
        assert(!has_key(init, e.0)) by {
            if has_key(init, e.0) {
                let i = choose|i: int| 0 <= i < init.len() && (#[trigger] init[i]).0 == e.0;
                assert(s[i].0 != s[s.len() - 1].0);
            }
        }
        assert forall|i: int, j: int| 0 <= i < j < gone.len() implies gone[i] != gone[j] by {
            if j < gone0.len() {
                assert(gone0[i] != gone0[j]);
            } else {
                assert(gone0.contains(gone0[i]));
            }
        }
    }
}

/// While the timer of a peer has more than a second left, a second
/// without a datagram leaves the peer its connection and takes a second off
/// its timer.
pub proof fn lemma_tick_counts_down(m: BrokerModel, a: PeerAddr)
    requires
        keyed(m),
        lookup(m.timers, a) is Some,
        lookup(m.timers, a)->0.remaining > 1,
    ensures
        keyed(keep_alive_ticked(m)),
        lookup(keep_alive_ticked(m).conns, a) == lookup(m.conns, a),
        lookup(keep_alive_ticked(m).timers, a) == Some(a_second_less(lookup(m.timers, a)->0)),
{
    crate::invariants::lemma_kept_after_tick(m.timers);
    lemma_timer_after_tick(m.timers, a);
    let m1 = BrokerModel { timers: kept_after_tick(m.timers), ..m };
    lemma_lose_each_leaves_others(m1, expired_at_tick(m.timers), a);
}

/// In the second in which the timer of a peer runs out the connection of
/// the peer is lost as every lost connection is: after those of the peers
/// whose timers stand before its own and before those of the peers whose
/// timers stand behind it, with the will of the connection that the peer
/// had published. Afterwards nothing in the broker belongs to the peer.
pub proof fn lemma_tick_loses(m: BrokerModel, a: PeerAddr)
    requires
        keyed(m),
        lookup(m.timers, a) is Some,
        lookup(m.timers, a)->0.remaining <= 1,
    ensures
        keyed(keep_alive_ticked(m)),
        keep_alive_ticked(m).knows_nothing_of(a),
        ({
            let gone = expired_at_tick(m.timers);
            let i = gone.index_of(a);
            let m1 = BrokerModel { timers: kept_after_tick(m.timers), ..m };
            let before = lose_each(m1, gone.take(i));
            &&& gone.contains(a)
            &&& lookup(before.conns, a) == lookup(m.conns, a)
            &&& keep_alive_ticked(m) == lose_each(lose(before, a, true), gone.skip(i + 1))
        }),
{
    crate::invariants::lemma_kept_after_tick(m.timers);
    lemma_timer_after_tick(m.timers, a);
    let gone = expired_at_tick(m.timers);
    let i = gone.index_of(a);
    assert(0 <= i < gone.len() && gone[i] == a);
    let m1 = BrokerModel { timers: kept_after_tick(m.timers), ..m };
    let head = gone.take(i);
    let tail = gone.skip(i + 1);
    assert(gone =~= head.push(a) + tail);
    lemma_expired_once(m.timers);
    assert(!head.contains(a)) by {
        if head.contains(a) {
            let j = choose|j: int| 0 <= j < head.len() && head[j] == a;
            assert(gone[j] == a);
            assert(gone[j] != gone[i]);
        }
    }
    lemma_lose_each_leaves_others(m1, head, a);
    let before = lose_each(m1, head);
    lemma_lose_each_add(m1, head.push(a), tail);
    assert(head.push(a).drop_last() =~= head);
    assert(lose_each(m1, head.push(a)) == lose(before, a, true));
    lemma_lose_leaves_nothing(before, a);
    lemma_lose_each_keeps_unknown(lose(before, a, true), tail, a);
}

/// After a peer's connection ended, with its will published, nothing in
/// the broker belongs to the peer.
pub proof fn lemma_lose_leaves_nothing(m: BrokerModel, a: PeerAddr)
    requires
        keyed(m),
    ensures
        keyed(lose(m, a, true)),
        lose(m, a, true).knows_nothing_of(a),
{
    lemma_without(m.conns, a);
    lemma_without(m.timers, a);
    lemma_without(m.outbox.asleep, a);
    crate::table::lemma_without_peer(m.outbox.wheel, a);
    crate::table::lemma_without_peer(m.pending, a);
    let f = forget(m, a);
    assert(f.knows_nothing_of(a));
    match lookup(m.conns, a) {
        Some(c) => {
            if c.will_topic_id is Some {
                lemma_publish_keeps_out(f, c.will_topic_id->0, 0, c.will_message, a);
                lemma_fan_out_keeps_keys(
                    f.outbox,
                    f.hand,
                    f.conns,
                    f.recipients(c.will_topic_id->0),
                    c.will_topic_id->0,
                    0,
                    c.will_message,
                );
            }
        },
        None => {},
    }
}

/// A peer that is not heard of keeps its connection for as many seconds
/// as its timer has left but one, its timer a second shorter with each; in
/// the second in which the timer runs out nothing of the peer is left. A
/// timer that was wound up has one and a half times the peer's duration
/// left.
pub proof fn lemma_lost_at_the_deadline(m: BrokerModel, a: PeerAddr, n: nat)
    requires
        keyed(m),
        lookup(m.timers, a) is Some,
        1 <= n <= lookup(m.timers, a)->0.remaining,
    ensures
        keyed(after_seconds(m, n)),
        n < lookup(m.timers, a)->0.remaining ==> {
            &&& lookup(after_seconds(m, n).conns, a) == lookup(m.conns, a)
            &&& lookup(after_seconds(m, n).timers, a) == Some(
                KeepAlive {
                    duration: lookup(m.timers, a)->0.duration,
                    remaining: (lookup(m.timers, a)->0.remaining - n) as u32,
                },
            )
        },
        n == lookup(m.timers, a)->0.remaining ==> after_seconds(m, n).knows_nothing_of(a),
    decreases n,
{
    let t = lookup(m.timers, a)->0;
    if n == 1 {
        assert(after_seconds(m, 0) == m);
        if t.remaining > 1 {
            lemma_tick_counts_down(m, a);
        } else {
            lemma_tick_loses(m, a);
        }
    } else {
        lemma_lost_at_the_deadline(m, a, (n - 1) as nat);
        let prev = after_seconds(m, (n - 1) as nat);
        if n < t.remaining {
            lemma_tick_counts_down(prev, a);
        } else {
            lemma_tick_loses(prev, a);
        }
    }
}

/// A peer whose connection is supervised and from whom a datagram came
/// keeps its connection for one and a half times its duration, less a
/// second, without another datagram; a second later nothing of the peer is
/// left.
pub proof fn lemma_lost_without_traffic(m: BrokerModel, a: PeerAddr, n: nat)
    requires
        keyed(m),
        lookup(m.timers, a) is Some,
        1 <= n <= crate::keep_alive::deadline(lookup(m.timers, a)->0.duration),
    ensures
        ({
            let heard = crate::broker_lib::touched(m, a);
            let limit = crate::keep_alive::deadline(lookup(m.timers, a)->0.duration);
            &&& n < limit ==> lookup(after_seconds(heard, n).conns, a) == lookup(m.conns, a)
            &&& n == limit ==> after_seconds(heard, n).knows_nothing_of(a)
        }),
{
    let t = lookup(m.timers, a)->0;
    lemma_with(m.timers, a, crate::keep_alive::fresh_timer(t.duration));
    lemma_lost_at_the_deadline(crate::broker_lib::touched(m, a), a, n);
}

/// When a connection with a will is lost and the will's message has a
/// frame as a publication, the message is sent once to each recipient of
/// the will's topic that is active, in the order of the recipients, at the
/// recipient's QoS, and nobody is sent anything else. The recipients are
/// those that the topic has once the peer is forgotten.
pub proof fn lemma_will_is_published(m: BrokerModel, a: PeerAddr)
    requires
        m.wf(),
        lookup(m.conns, a) is Some,
        lookup(m.conns, a)->0.will_topic_id is Some,
        crate::publish::publication_fits(lookup(m.conns, a)->0.will_message),
    ensures
        ({
            let c = lookup(m.conns, a)->0;
            let f = forget(m, a);
            let subs = f.recipients(c.will_topic_id->0);
            let after = lose(m, a, true);
            &&& crate::subscriber::peers_distinct(subs)
            &&& !crate::exactly_once::serves(subs, a)
            &&& after.outbox.egress == m.outbox.egress + crate::delivery::publish_frames(
                f.conns,
                subs,
                c.will_topic_id->0,
                0,
                c.will_message,
            )
            &&& after.knows_nothing_of(a)
        }),
{
    let c = lookup(m.conns, a)->0;
    let t = c.will_topic_id->0;
    let f = forget(m, a);
    let subs = f.recipients(t);
    crate::model::lemma_lost_is_forgotten(m, a, true);
    lemma_forget_forgets(m, a);
    crate::table::lemma_without_peer_unique(m.outbox.wheel, a);
    assert(f.wildcards.subset_of(m.wildcards));
    assert(f.concrete.subset_of(m.concrete));
    assert(f.by_id.subset_of(m.by_id));
    vstd::set_lib::lemma_set_subset_finite(m.wildcards, f.wildcards);
    vstd::set_lib::lemma_set_subset_finite(m.concrete, f.concrete);
    vstd::set_lib::lemma_set_subset_finite(m.by_id, f.by_id);
    crate::delivery::lemma_recipients_listed(f, t);
    let by_name = crate::model::name_subscribers(f.names, f.concrete, f.wildcards, t);
    assert(crate::filter::one_qos_each(f.by_id));
    crate::model::lemma_delivery_lists_peers_once(f.by_id, by_name, t, subs);
    crate::delivery::lemma_fan_out_frames(f.outbox, f.hand, f.conns, subs, t, 0, c.will_message);
    assert(!crate::exactly_once::serves(subs, a)) by {
        if crate::exactly_once::serves(subs, a) {
            let i = choose|i: int| 0 <= i < subs.len() && (#[trigger] subs[i]).socket_addr == a;
            assert(subs.contains(subs[i]));
            let set = crate::model::delivery_set(f.by_id, by_name, t);
            assert(set.contains(subs[i]));
            if crate::filter::id_subscribers(f.by_id, t).contains(subs[i]) {
                assert(f.by_id.contains((t, subs[i])));
            } else {
                assert(by_name.contains(a));
                let n = choose|n: Seq<char>|
                    f.names.contains((n, t)) && (crate::filter::subscribers_of(
                        f.concrete,
                        n,
                    ).contains(a) || crate::filter::wildcard_subscribers(f.wildcards, n).contains(
                        a,
                    ));
                if crate::filter::subscribers_of(f.concrete, n).contains(a) {
                    assert(f.concrete.contains((n, a)));
                } else {
                    let x = choose|x: Seq<char>|
                        f.wildcards.contains((x, a)) && crate::filter::topic_matches(n, x);
                    assert(f.wildcards.contains((x, a)));
                }
            }
        }
    }
}

} // verus!
