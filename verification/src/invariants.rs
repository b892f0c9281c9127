//! What holds of the broker between any two datagrams and seconds: a peer
//! has a timer exactly while its connection is active or asleep, and who
//! holds a subscription has a connection.
use crate::biset::Subscriber;
use crate::broker_lib::{dispatch_effect, handled, keep_alive_ticked, retransmit_ticked, touched};
use crate::connect::{connect_refusal, will_msg_refusal, will_topic_refusal};
use crate::connection::{state_of, ConnModel, StateEnum2};
use crate::disconnect::{disconnect_refusal, read_disconnect};
use crate::filter::topic_matches;
use crate::flags::{WILL_MASK, WILL_TRUE};
use crate::keep_alive::{expired_at_tick, fresh_timer, kept_after_tick, KeepAlive};
use crate::message::{read_as, Connect, WillMsg, WillTopic};
use crate::model::{forget, lose, lose_each, publish, route, sent, BrokerModel};
use crate::msg_hdr::{
    MSG_TYPE_CONNECT, MSG_TYPE_DISCONNECT, MSG_TYPE_PINGREQ, MSG_TYPE_PUBACK, MSG_TYPE_PUBCOMP,
    MSG_TYPE_PUBLISH, MSG_TYPE_PUBREC, MSG_TYPE_PUBREL, MSG_TYPE_REGISTER, MSG_TYPE_SUBSCRIBE,
    MSG_TYPE_WILL_MSG, MSG_TYPE_WILL_TOPIC, PeerAddr,
};
use crate::subscribe::subscribe_refusal;
use crate::table::{has_key, lemma_with, lemma_without, lookup, unique_keys, with, without};
use crate::wire::{encode, Msg};
use vstd::prelude::*;

verus! {

/// Whether a peer's connection is active or asleep.
pub open spec fn is_supervised(conns: Seq<(PeerAddr, ConnModel)>, p: PeerAddr) -> bool {
    state_of(conns, p) == Some(StateEnum2::ACTIVE) || state_of(conns, p) == Some(
        StateEnum2::ASLEEP,
    )
}

/// A peer has a timer exactly while its connection is active or asleep,
/// but for the peers of `due`, who have none: their time is up and their
/// connections are about to be lost.
pub open spec fn timers_match(m: BrokerModel, due: Set<PeerAddr>) -> bool {
    forall|p: PeerAddr|
        #[trigger] has_key(m.timers, p) <==> is_supervised(m.conns, p) && !due.contains(p)
}

/// Who holds a subscription, or stands in the resolved cache, has a connection.
pub open spec fn subscribers_connected(m: BrokerModel) -> bool {
    &&& forall|x: (Seq<char>, PeerAddr)| #[trigger]
        m.wildcards.contains(x) ==> has_key(m.conns, x.1)
    &&& forall|x: (Seq<char>, PeerAddr)| #[trigger]
        m.concrete.contains(x) ==> has_key(m.conns, x.1)
    &&& forall|x: (Seq<char>, PeerAddr)| #[trigger]
        m.resolved.contains(x) ==> has_key(m.conns, x.1)
    &&& forall|x: (u16, Subscriber)| #[trigger]
        m.by_id.contains(x) ==> has_key(m.conns, x.1.socket_addr)
}

/// What holds of the broker while the connections of the peers of `due`
/// are about to be lost: no peer has two connections or two timers, the
/// timers match the connections but for those peers, and who holds a
/// subscription has a connection.
pub open spec fn holds_but_for(m: BrokerModel, due: Set<PeerAddr>) -> bool {
    &&& unique_keys(m.conns)
    &&& unique_keys(m.timers)
    &&& timers_match(m, due)
    &&& subscribers_connected(m)
}

/// What holds of the broker between any two datagrams and seconds: no
/// peer has two connections or two timers, a peer has a timer exactly while
/// its connection is active or asleep, and who holds a subscription has a
/// connection.
pub open spec fn holds(m: BrokerModel) -> bool {
    holds_but_for(m, Set::empty())
}

/// Whether two brokers have the same connections, timers and subscriptions.
pub open spec fn same_sessions(a: BrokerModel, b: BrokerModel) -> bool {
    &&& a.conns == b.conns
    &&& a.timers == b.timers
    &&& a.wildcards == b.wildcards
    &&& a.concrete == b.concrete
    &&& a.resolved == b.resolved
    &&& a.by_id == b.by_id
}

/// What holds of a broker holds of one with the same connections, timers
/// and subscriptions.
pub proof fn lemma_same_sessions(a: BrokerModel, b: BrokerModel, due: Set<PeerAddr>)
    requires
        holds_but_for(a, due),
        same_sessions(a, b),
    ensures
        holds_but_for(b, due),
{
    assert forall|p: PeerAddr| #[trigger]
        has_key(b.timers, p) <==> is_supervised(b.conns, p) && !due.contains(p) by {
        assert(has_key(a.timers, p) <==> is_supervised(a.conns, p) && !due.contains(p));
    }
}

/// Forgetting a peer keeps what holds: the peer's time is no longer due.
pub proof fn lemma_forget_keeps(m: BrokerModel, addr: PeerAddr, due: Set<PeerAddr>)
    requires
        holds_but_for(m, due),
    ensures
        holds_but_for(forget(m, addr), due.remove(addr)),
{
    lemma_without(m.conns, addr);
    lemma_without(m.timers, addr);
    let f = forget(m, addr);
    assert forall|p: PeerAddr| #[trigger]
        has_key(f.timers, p) <==> is_supervised(f.conns, p) && !due.remove(addr).contains(p) by {
        if p != addr {
            assert(has_key(m.timers, p) <==> is_supervised(m.conns, p) && !due.contains(p));
        }
    }
}

/// Looking the subscribers of a topic up keeps what holds.
pub proof fn lemma_route_keeps(m: BrokerModel, topic_id: u16, due: Set<PeerAddr>)
    requires
        holds_but_for(m, due),
    ensures
        holds_but_for(route(m, topic_id), due),
{
    let r = route(m, topic_id);
    assert forall|x: (Seq<char>, PeerAddr)| #[trigger] r.resolved.contains(x) implies has_key(
        m.conns,
        x.1,
    ) by {
        if !m.resolved.contains(x) {
            let f = choose|f: Seq<char>| m.wildcards.contains((f, x.1)) && topic_matches(x.0, f);
            assert(m.wildcards.contains((f, x.1)));
        }
    }
    assert forall|p: PeerAddr| #[trigger]
        has_key(r.timers, p) <==> is_supervised(r.conns, p) && !due.contains(p) by {
        assert(has_key(m.timers, p) <==> is_supervised(m.conns, p) && !due.contains(p));
    }
}

/// A change of the outbox, the cache of waiting publications, the
/// retained store or the registry, with or without a look at the
/// subscribers of a topic, keeps what holds.
pub proof fn lemma_routed_keeps(m: BrokerModel, r: BrokerModel, topic_id: u16, due: Set<PeerAddr>)
    requires
        holds_but_for(m, due),
        same_sessions(r, m) || same_sessions(r, route(m, topic_id)),
    ensures
        holds_but_for(r, due),
{
    lemma_route_keeps(m, topic_id, due);
    if same_sessions(r, m) {
        lemma_same_sessions(m, r, due);
    } else {
        lemma_same_sessions(route(m, topic_id), r, due);
    }
}

/// Losing a connection keeps what holds: the peer's time is no longer due.
pub proof fn lemma_lose_keeps(m: BrokerModel, addr: PeerAddr, will: bool, due: Set<PeerAddr>)
    requires
        holds_but_for(m, due),
    ensures
        holds_but_for(lose(m, addr, will), due.remove(addr)),
{
    lemma_forget_keeps(m, addr, due);
    match lookup(m.conns, addr) {
        Some(c) => {
            if will && c.will_topic_id is Some {
                let f = forget(m, addr);
                lemma_routed_keeps(
                    f,
                    publish(f, c.will_topic_id->0, 0, c.will_message),
                    c.will_topic_id->0,
                    due.remove(addr),
                );
            }
        },
        None => {},
    }
}

/// Losing the connections of a list of peers keeps what holds: the time
/// of none of them is due any more.
pub proof fn lemma_lose_each_keeps(m: BrokerModel, peers: Seq<PeerAddr>, due: Set<PeerAddr>)
    requires
        holds_but_for(m, due),
    ensures
        holds_but_for(
            lose_each(m, peers),
            Set::new(|p: PeerAddr| due.contains(p) && !peers.contains(p)),
        ),
    decreases peers.len(),
{
    let left = Set::new(|p: PeerAddr| due.contains(p) && !peers.contains(p));
    if peers.len() == 0 {
        assert(left =~= due);
    } else {
        let init = peers.drop_last();
        let before = Set::new(|p: PeerAddr| due.contains(p) && !init.contains(p));
        lemma_lose_each_keeps(m, init, due);
        lemma_lose_keeps(lose_each(m, init), peers.last(), true, before);
        assert(before.remove(peers.last()) =~= left) by {
            assert forall|p: PeerAddr| peers.contains(p) <==> init.contains(p) || p
                == peers.last() by {
                if init.contains(p) {
                    let i = choose|i: int| 0 <= i < init.len() && init[i] == p;
                    assert(peers[i] == p);
                }
                if peers.contains(p) {
                    let i = choose|i: int| 0 <= i < peers.len() && peers[i] == p;
                    if i < init.len() {
                        assert(init[i] == p);
                    }
                }
                assert(peers[peers.len() - 1] == peers.last());
            }
        }
    }
}

/// The timers that are left after a second has passed are those whose
/// time is not up, and no peer has two of them.
pub proof fn lemma_kept_after_tick(s: Seq<(PeerAddr, KeepAlive)>)
    requires
        unique_keys(s),
    ensures
        unique_keys(kept_after_tick(s)),
        forall|p: PeerAddr|
            has_key(kept_after_tick(s), p) <==> has_key(s, p) && !expired_at_tick(s).contains(p),
        forall|p: PeerAddr| expired_at_tick(s).contains(p) ==> has_key(s, p),
    decreases s.len(),
{
    if s.len() > 0 {
        let init = s.drop_last();
        let e = s.last();
        assert(unique_keys(init)) by {
            assert forall|i: int, j: int| 0 <= i < j < init.len() implies (#[trigger] init[i]).0
                != (#[trigger] init[j]).0 by {
                assert(s[i].0 != s[j].0);
            }
        }
        lemma_kept_after_tick(init);
        let kept = kept_after_tick(s);
        let kept0 = kept_after_tick(init);
        let gone = expired_at_tick(s);
        let gone0 = expired_at_tick(init);
        assert(!has_key(init, e.0)) by {
            if has_key(init, e.0) {
                let i = choose|i: int| 0 <= i < init.len() && (#[trigger] init[i]).0 == e.0;
                assert(s[i].0 != s[s.len() - 1].0);
            }
        }
        assert forall|p: PeerAddr| has_key(s, p) <==> has_key(init, p) || p == e.0 by {
            if has_key(init, p) {
                let i = choose|i: int| 0 <= i < init.len() && (#[trigger] init[i]).0 == p;
                assert(s[i].0 == p);
            }
            if has_key(s, p) {
                let i = choose|i: int| 0 <= i < s.len() && (#[trigger] s[i]).0 == p;
                if i < init.len() {
                    assert(init[i].0 == p);
                }
            }
            assert(s[s.len() - 1].0 == e.0);
        }
        if e.1.remaining <= 1 {
            assert forall|p: PeerAddr| gone.contains(p) <==> gone0.contains(p) || p == e.0 by {
                if gone0.contains(p) {
                    let i = choose|i: int| 0 <= i < gone0.len() && gone0[i] == p;
                    assert(gone[i] == p);
                }
                if gone.contains(p) {
                    let i = choose|i: int| 0 <= i < gone.len() && gone[i] == p;
                    if i < gone0.len() {
                        assert(gone0[i] == p);
                    }
                }
                assert(gone[gone.len() - 1] == e.0);
            }
        } else {
            let last = kept[kept.len() - 1];
            assert(last.0 == e.0);
            assert forall|p: PeerAddr| has_key(kept, p) <==> has_key(kept0, p) || p == e.0 by {
                if has_key(kept0, p) {
                    let i = choose|i: int| 0 <= i < kept0.len() && (#[trigger] kept0[i]).0 == p;
                    assert(kept[i].0 == p);
                }
                if has_key(kept, p) {
                    let i = choose|i: int| 0 <= i < kept.len() && (#[trigger] kept[i]).0 == p;
                    if i < kept0.len() {
                        assert(kept0[i].0 == p);
                    }
                }
                assert(kept[kept.len() - 1].0 == e.0);
            }
            assert forall|i: int, j: int| 0 <= i < j < kept.len() implies (#[trigger] kept[i]).0
                != (#[trigger] kept[j]).0 by {
                if j < kept0.len() {
                    assert(kept0[i].0 != kept0[j].0);
                } else {
                    assert(kept0[i].0 == kept[i].0);
                    assert(has_key(kept0, kept0[i].0));
                }
            }
        }
    }
}

/// The passing of a second for the keep-alive timers keeps what holds.
pub proof fn lemma_keep_alive_tick_keeps(m: BrokerModel)
    requires
        holds(m),
    ensures
        holds(keep_alive_ticked(m)),
{
    let gone = expired_at_tick(m.timers);
    let due = Set::new(|p: PeerAddr| gone.contains(p));
    let m1 = BrokerModel { timers: kept_after_tick(m.timers), ..m };
    lemma_kept_after_tick(m.timers);
    assert forall|p: PeerAddr| #[trigger]
        has_key(m1.timers, p) <==> is_supervised(m1.conns, p) && !due.contains(p) by {
        assert(has_key(m.timers, p) <==> is_supervised(m.conns, p));
    }
    lemma_lose_each_keeps(m1, gone, due);
    assert(Set::new(|p: PeerAddr| due.contains(p) && !gone.contains(p)) =~= Set::<
        PeerAddr,
    >::empty());
}

/// The passing of a second for the retransmission wheel keeps what holds.
pub proof fn lemma_retransmit_tick_keeps(m: BrokerModel)
    requires
        holds(m),
    ensures
        holds(retransmit_ticked(m)),
{
    let hand = crate::retransmit::slot_after(m.hand, 1);
    let m1 = BrokerModel {
        hand,
        outbox: crate::model::Outbox {
            egress: m.outbox.egress + crate::retransmit::wheel_sent(m.outbox.wheel, hand),
            wheel: crate::retransmit::wheel_kept(m.outbox.wheel, hand),
            asleep: m.outbox.asleep,
        },
        ..m
    };
    let peers = crate::retransmit::wheel_failed(m.outbox.wheel, hand).map_values(
        |k: crate::retransmit::RetransKey| k.addr,
    );
    lemma_same_sessions(m, m1, Set::empty());
    lemma_lose_each_keeps(m1, peers, Set::empty());
    assert(Set::new(|p: PeerAddr| Set::<PeerAddr>::empty().contains(p) && !peers.contains(p))
        =~= Set::<PeerAddr>::empty());
}

/// Whether a state is one in which a connection is supervised by a timer.
pub open spec fn is_supervised_state(s: StateEnum2) -> bool {
    s == StateEnum2::ACTIVE || s == StateEnum2::ASLEEP
}

/// Setting the record of a peer's connection keeps what holds, where the
/// peer has a timer afterwards exactly if its new state is supervised:
/// a timer is set for a supervised state, and none was there for another.
pub proof fn lemma_conn_set_keeps(
    m: BrokerModel,
    r: BrokerModel,
    peer: PeerAddr,
    c: ConnModel,
    timer: Option<KeepAlive>,
)
    requires
        holds(m),
        r.conns == with(m.conns, peer, c),
        r.timers == match timer {
            Some(t) => with(m.timers, peer, t),
            None => m.timers,
        },
        r.wildcards == m.wildcards,
        r.concrete == m.concrete,
        r.resolved == m.resolved,
        r.by_id == m.by_id,
        (timer is Some || has_key(m.timers, peer)) <==> is_supervised_state(c.state),
    ensures
        holds(r),
{
    lemma_with(m.conns, peer, c);
    if timer is Some {
        lemma_with(m.timers, peer, timer->0);
    }
    let none = Set::<PeerAddr>::empty();
    assert forall|p: PeerAddr| #[trigger]
        has_key(r.timers, p) <==> is_supervised(r.conns, p) && !none.contains(p) by {
        assert(has_key(m.timers, p) <==> is_supervised(m.conns, p) && !none.contains(p));
        if p != peer {
            assert(lookup(r.conns, p) == lookup(m.conns, p));
        }
    }
}

/// A new subscription of a peer that has a connection keeps what holds.
pub proof fn lemma_subscription_keeps(m: BrokerModel, r: BrokerModel, peer: PeerAddr)
    requires
        holds(m),
        has_key(m.conns, peer),
        r.conns == m.conns,
        r.timers == m.timers,
        forall|x: (Seq<char>, PeerAddr)| #[trigger]
            r.wildcards.contains(x) ==> m.wildcards.contains(x) || x.1 == peer,
        forall|x: (Seq<char>, PeerAddr)| #[trigger]
            r.concrete.contains(x) ==> m.concrete.contains(x) || x.1 == peer,
        forall|x: (Seq<char>, PeerAddr)| #[trigger]
            r.resolved.contains(x) ==> m.resolved.contains(x) || x.1 == peer,
        forall|x: (u16, Subscriber)| #[trigger]
            r.by_id.contains(x) ==> m.by_id.contains(x) || x.1.socket_addr == peer,
    ensures
        holds(r),
{
    let none = Set::<PeerAddr>::empty();
    assert forall|p: PeerAddr| #[trigger]
        has_key(r.timers, p) <==> is_supervised(r.conns, p) && !none.contains(p) by {
        assert(has_key(m.timers, p) <==> is_supervised(m.conns, p) && !none.contains(p));
    }
}

/// A connection has a timer exactly while it is supervised.
pub proof fn lemma_timer_of(m: BrokerModel, p: PeerAddr)
    requires
        holds(m),
    ensures
        has_key(m.timers, p) <==> is_supervised(m.conns, p),
        has_key(m.timers, p) ==> has_key(m.conns, p),
{
    let none = Set::<PeerAddr>::empty();
    assert(has_key(m.timers, p) <==> is_supervised(m.conns, p) && !none.contains(p));
}

/// The winding up of a peer's timer keeps what holds.
pub proof fn lemma_touched_keeps(m: BrokerModel, addr: PeerAddr)
    requires
        holds(m),
    ensures
        holds(touched(m, addr)),
{
    let r = touched(m, addr);
    let none = Set::<PeerAddr>::empty();
    if lookup(m.timers, addr) is Some {
        lemma_with(m.timers, addr, fresh_timer(lookup(m.timers, addr)->0.duration));
    }
    assert forall|p: PeerAddr| #[trigger]
        has_key(r.timers, p) <==> is_supervised(r.conns, p) && !none.contains(p) by {
        assert(has_key(m.timers, p) <==> is_supervised(m.conns, p) && !none.contains(p));
    }
}

/// What the handler of a datagram does keeps what holds.
#[verifier::rlimit(100)]
pub proof fn lemma_dispatch_keeps(m: BrokerModel, addr: PeerAddr, buf: Seq<u8>, size: usize)
    requires
        holds(m),
    ensures
        holds(dispatch_effect(m, addr, buf, size)),
{
    let r = dispatch_effect(m, addr, buf, size);
    let none = Set::<PeerAddr>::empty();
    lemma_timer_of(m, addr);
    match crate::broker_lib::read_type(buf, size) {
        Err(_) => {},
        Ok(t) => {
            if t == MSG_TYPE_PUBLISH {
                let read = read_as(buf, size, |x: Msg| crate::message::Publish::wanted(x));
                if read is Ok {
                    lemma_routed_keeps(m, r, read->Ok_0->Publish_topic_id, none);
                }
            } else if t == MSG_TYPE_CONNECT {
                if connect_refusal(m, addr, buf, size) is None {
                    let c = read_as(buf, size, |x: Msg| Connect::wanted(x))->Ok_0;
                    let will = c->Connect_flags & WILL_MASK == WILL_TRUE;
                    let conn = lookup(r.conns, addr);
                    assert(r.conns == m.conns.push((addr, r.conns[m.conns.len() as int].1)));
                    lemma_conn_set_keeps(
                        m,
                        r,
                        addr,
                        r.conns[m.conns.len() as int].1,
                        if will {
                            None
                        } else {
                            Some(fresh_timer(c->Connect_duration))
                        },
                    );
                }
            } else if !has_key(m.conns, addr) {
            } else if t == MSG_TYPE_PUBREL || t == MSG_TYPE_PUBACK || t == MSG_TYPE_PUBREC || t
                == MSG_TYPE_PUBCOMP || t == MSG_TYPE_PINGREQ || t == MSG_TYPE_REGISTER {
                lemma_same_sessions(m, r, none);
            } else if t == MSG_TYPE_SUBSCRIBE {
                if subscribe_refusal(m, addr, buf, size) is None {
                    lemma_subscription_keeps(m, r, addr);
                }
            } else if t == MSG_TYPE_DISCONNECT {
                if disconnect_refusal(m, addr, buf, size) is None {
                    let c = lookup(m.conns, addr)->0;
                    match read_disconnect(buf, size)->Ok_0 {
                        Msg::DisconnWithDuration { duration } => {
                            lemma_conn_set_keeps(
                                m,
                                r,
                                addr,
                                c.with_state(StateEnum2::ASLEEP),
                                Some(fresh_timer(duration)),
                            );
                        },
                        _ => {
                            lemma_forget_keeps(m, addr, none);
                            assert(none.remove(addr) =~= none);
                            let f = sent(forget(m, addr), addr, encode(Msg::Disconnect));
                            lemma_same_sessions(forget(m, addr), f, none);
                            if c.state == StateEnum2::ACTIVE && c.will_topic_id is Some {
                                lemma_routed_keeps(f, r, c.will_topic_id->0, none);
                            }
                        },
                    }
                }
            } else if t == MSG_TYPE_WILL_TOPIC {
                if will_topic_refusal(m, addr, buf, size) is None {
                    let c = lookup(m.conns, addr)->0;
                    let x = read_as(buf, size, |x: Msg| WillTopic::wanted(x))->Ok_0;
                    lemma_with(m.conns, addr, c);
                    let conn = ConnModel {
                        will_topic_id: Some(crate::connect::id_for(m, x->WillTopic_will_topic)),
                        will_flags: x->WillTopic_flags,
                        state: StateEnum2::AWAITING_WILL_MSG,
                        ..c
                    };
                    lemma_conn_set_keeps(m, r, addr, conn, None);
                }
            } else if t == MSG_TYPE_WILL_MSG {
                if will_msg_refusal(m, addr, buf, size) is None {
                    let c = lookup(m.conns, addr)->0;
                    let x = read_as(buf, size, |x: Msg| WillMsg::wanted(x))->Ok_0;
                    let conn = ConnModel {
                        will_message: x->WillMsg_will_msg,
                        state: StateEnum2::ACTIVE,
                        ..c
                    };
                    lemma_conn_set_keeps(
                        m,
                        r,
                        addr,
                        conn,
                        Some(fresh_timer(c.duration)),
                    );
                }
            }
        },
    }
}

/// The handling of a datagram keeps what holds.
pub proof fn lemma_handled_keeps(m: BrokerModel, addr: PeerAddr, buf: Seq<u8>, size: usize)
    requires
        holds(m),
    ensures
        holds(handled(m, addr, buf, size)),
{
    lemma_touched_keeps(m, addr);
    let m1 = touched(m, addr);
    lemma_dispatch_keeps(m1, addr, buf, size);
    let m2 = dispatch_effect(m1, addr, buf, size);
    lemma_same_sessions(m2, handled(m, addr, buf, size), Set::empty());
}

} // verus!
