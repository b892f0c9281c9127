//! The broker as a value, and what the loss of a connection and the
//! routing of a publication make of it.
use crate::asleep_msg_cache::kept_for;
use crate::biset::{subscriber, Subscriber};
use crate::connection::ConnModel;
use crate::error::BrokerError;
use crate::filter::{
    cache_coherent, id_subscribers, one_qos_each, pairs_without_peer, subscribed_to_id,
    subscribers_of, topic_matches, wildcard_subscribers, without_id_peer,
};
use crate::flags::{QOS_LEVEL_0, RETAIN_FALSE};
use crate::keep_alive::KeepAlive;
use crate::msg_hdr::PeerAddr;
use crate::pub_msg_cache::{PendingModel, PubKey};
use crate::publish::{fan_out, publication_fits, publish_msg};
use crate::retain::RetainModel;
use crate::retransmit::{entries_in_ring, RETRANS_WHEEL_SLOTS, RetransKey, RetransModel};
use crate::subscriber::{lists_set, peers_distinct, sorted_list, sub_lt};
use crate::table::{
    has_key, lemma_with, lemma_without, lemma_without_peer, lookup, unique_keys, without,
    without_peer,
};
use crate::topic_registry::names_wf;
use crate::wire::Msg;
use vstd::prelude::*;

verus! {

/// What leaves the broker or waits to: the egress queue, the
/// retransmission wheel and what is kept for peers that are asleep.
#[verifier::ext_equal]
pub struct Outbox {
    pub egress: Seq<(PeerAddr, Seq<u8>)>,
    pub wheel: Seq<(RetransKey, RetransModel)>,
    pub asleep: Seq<(PeerAddr, Seq<Msg>)>,
}

/// The peers that subscribe to the name of a topic id, by the name itself
/// or by a wildcard filter that accepts it. None where the id has no name.
pub open spec fn name_subscribers(
    names: Set<(Seq<char>, u16)>,
    concrete: Set<(Seq<char>, PeerAddr)>,
    wildcards: Set<(Seq<char>, PeerAddr)>,
    topic_id: u16,
) -> Set<PeerAddr> {
    Set::new(
        |p: PeerAddr|
            exists|n: Seq<char>|
                names.contains((n, topic_id)) && (subscribers_of(concrete, n).contains(p)
                    || wildcard_subscribers(wildcards, n).contains(p)),
    )
}

/// The subscribers that a publication to a topic id goes to: those that
/// subscribe to the id, at the QoS of their subscription, and at QoS 0
/// those that subscribe to its name only.
pub open spec fn delivery_set(
    by_id: Set<(u16, Subscriber)>,
    by_name: Set<PeerAddr>,
    topic_id: u16,
) -> Set<Subscriber> {
    Set::new(
        |s: Subscriber|
            id_subscribers(by_id, topic_id).contains(s) || (s.qos == QOS_LEVEL_0
                && by_name.contains(s.socket_addr) && !subscribed_to_id(
                by_id,
                topic_id,
                s.socket_addr,
            )),
    )
}

/// The resolved cache after a publication to a topic id was routed: it has
/// learnt the wildcard subscribers of the topic's name.
pub open spec fn resolved_after(
    resolved: Set<(Seq<char>, PeerAddr)>,
    names: Set<(Seq<char>, u16)>,
    wildcards: Set<(Seq<char>, PeerAddr)>,
    topic_id: u16,
) -> Set<(Seq<char>, PeerAddr)> {
    Set::new(
        |x: (Seq<char>, PeerAddr)|
            resolved.contains(x) || (names.contains((x.0, topic_id)) && wildcard_subscribers(
                wildcards,
                x.0,
            ).contains(x.1)),
    )
}

/// Every waiting publication has a frame, and is kept with a list of
/// subscribers in which no peer stands twice.
pub open spec fn pending_in_order(pending: Seq<(PubKey, PendingModel)>) -> bool {
    forall|i: int|
        0 <= i < pending.len() ==> peers_distinct((#[trigger] pending[i]).1.subscribers)
            && publication_fits(pending[i].1.publish->Publish_data)
}

/// Every publication that is kept for a peer has a frame.
pub open spec fn kept_have_frames(asleep: Seq<(PeerAddr, Seq<Msg>)>) -> bool {
    forall|i: int, j: int|
        0 <= i < asleep.len() && 0 <= j < asleep[i].1.len() ==> publication_fits(
            (#[trigger] asleep[i].1[j])->Publish_data,
        )
}

/// A list of the subscribers that a publication goes to holds no peer twice.
pub proof fn lemma_delivery_lists_peers_once(
    by_id: Set<(u16, Subscriber)>,
    by_name: Set<PeerAddr>,
    topic_id: u16,
    subs: Seq<Subscriber>,
)
    requires
        one_qos_each(by_id),
        lists_set(subs, delivery_set(by_id, by_name, topic_id)),
    ensures
        peers_distinct(subs),
{
    let set = delivery_set(by_id, by_name, topic_id);
    assert forall|i: int, j: int| 0 <= i < j < subs.len() implies (#[trigger] subs[i]).socket_addr
        != (#[trigger] subs[j]).socket_addr by {
        let a = subs[i];
        let b = subs[j];
        assert(subs.contains(a) && subs.contains(b));
        assert(set.contains(a) && set.contains(b));
        assert(sub_lt(a, b));
        if a.socket_addr == b.socket_addr {
            let p = a.socket_addr;
            assert(a == subscriber(p, a.qos));
            assert(b == subscriber(p, b.qos));
            if id_subscribers(by_id, topic_id).contains(a) {
                assert(by_id.contains((topic_id, subscriber(p, a.qos))));
                assert(subscribed_to_id(by_id, topic_id, p));
                assert(id_subscribers(by_id, topic_id).contains(b));
                assert(by_id.contains((topic_id, subscriber(p, b.qos))));
            } else if id_subscribers(by_id, topic_id).contains(b) {
                assert(by_id.contains((topic_id, subscriber(p, b.qos))));
                assert(subscribed_to_id(by_id, topic_id, p));
            }
        }
    }
}

/// The state of a broker, as a value.
#[verifier::ext_equal]
pub struct BrokerModel {
    /// The peer whose datagram is being handled.
    pub remote_addr: PeerAddr,
    pub context: u16,
    /// The connections, in the order in which they were made.
    pub conns: Seq<(PeerAddr, ConnModel)>,
    /// The keep-alive and sleep timers.
    pub timers: Seq<(PeerAddr, KeepAlive)>,
    /// The slot at which the hand of the retransmission wheel stands.
    pub hand: usize,
    /// The topic registry: name and id.
    pub names: Set<(Seq<char>, u16)>,
    /// The id that the next new name gets.
    pub next_id: u16,
    /// The resolved cache: topic name and peer.
    pub resolved: Set<(Seq<char>, PeerAddr)>,
    /// The subscriptions to wildcard filters.
    pub wildcards: Set<(Seq<char>, PeerAddr)>,
    /// The subscriptions to topic names.
    pub concrete: Set<(Seq<char>, PeerAddr)>,
    /// The subscriptions to topic ids.
    pub by_id: Set<(u16, Subscriber)>,
    /// The publications at QoS 2 that wait for their release.
    pub pending: Seq<(PubKey, PendingModel)>,
    pub retained: Seq<(u16, RetainModel)>,
    pub outbox: Outbox,
}

impl BrokerModel {
    /// Every table has unique keys, the cache agrees with the filters, a
    /// peer holds one subscription to an id at most, the subscriptions are
    /// finitely many, names and ids correspond, the wheel is in order, and
    /// every publication that waits or is kept has a frame.
    pub open spec fn wf(self) -> bool {
        &&& unique_keys(self.conns)
        &&& unique_keys(self.timers)
        &&& unique_keys(self.outbox.wheel)
        &&& entries_in_ring(self.outbox.wheel)
        &&& self.hand < RETRANS_WHEEL_SLOTS
        &&& unique_keys(self.outbox.asleep)
        &&& unique_keys(self.pending)
        &&& pending_in_order(self.pending)
        &&& kept_have_frames(self.outbox.asleep)
        &&& unique_keys(self.retained)
        &&& cache_coherent(self.resolved, self.wildcards)
        &&& one_qos_each(self.by_id)
        &&& self.wildcards.finite()
        &&& self.concrete.finite()
        &&& self.by_id.finite()
        &&& names_wf(self.names, self.next_id)
    }

    /// Whether nothing in the broker belongs to a peer: no connection, no
    /// timer, no subscription by name, by filter or by id, no entry of the
    /// resolved cache, no frame in the retransmission wheel, nothing kept
    /// for its sleep and no publication of its own that waits for its
    /// release.
    pub open spec fn knows_nothing_of(self, addr: PeerAddr) -> bool {
        &&& !has_key(self.conns, addr)
        &&& !has_key(self.timers, addr)
        &&& forall|x: (Seq<char>, PeerAddr)| #[trigger] self.wildcards.contains(x) ==> x.1 != addr
        &&& forall|x: (Seq<char>, PeerAddr)| #[trigger] self.concrete.contains(x) ==> x.1 != addr
        &&& forall|x: (Seq<char>, PeerAddr)| #[trigger] self.resolved.contains(x) ==> x.1 != addr
        &&& forall|x: (u16, Subscriber)| #[trigger]
            self.by_id.contains(x) ==> x.1.socket_addr != addr
        &&& forall|i: int|
            0 <= i < self.outbox.wheel.len() ==> (#[trigger] self.outbox.wheel[i]).0.addr != addr
        &&& !has_key(self.outbox.asleep, addr)
        &&& forall|i: int|
            0 <= i < self.pending.len() ==> (#[trigger] self.pending[i]).0.addr != addr
    }

    /// The subscribers that a publication to a topic id goes to, each peer
    /// once, in order.
    pub open spec fn recipients(self, topic_id: u16) -> Seq<Subscriber> {
        sorted_list(
            delivery_set(
                self.by_id,
                name_subscribers(self.names, self.concrete, self.wildcards, topic_id),
                topic_id,
            ),
        )
    }
}

/// The broker with one more frame on its egress queue.
pub open spec fn sent(m: BrokerModel, to: PeerAddr, frame: Seq<u8>) -> BrokerModel {
    BrokerModel {
        outbox: Outbox {
            egress: m.outbox.egress.push((to, frame)),
            wheel: m.outbox.wheel,
            asleep: m.outbox.asleep,
        },
        ..m
    }
}

/// Whether a result is what a refusal says: the error of the refusal, or
/// success where nothing is refused.
pub open spec fn result_is<T>(r: Result<T, BrokerError>, refusal: Option<BrokerError>) -> bool {
    match refusal {
        Some(e) => r is Err && r->Err_0 == e,
        None => r is Ok,
    }
}

/// The broker without any trace of a peer.
pub open spec fn forget(m: BrokerModel, addr: PeerAddr) -> BrokerModel {
    BrokerModel {
        conns: without(m.conns, addr),
        timers: without(m.timers, addr),
        resolved: pairs_without_peer(m.resolved, addr),
        wildcards: pairs_without_peer(m.wildcards, addr),
        concrete: pairs_without_peer(m.concrete, addr),
        by_id: without_id_peer(m.by_id, addr),
        pending: without_peer(m.pending, addr),
        outbox: Outbox {
            egress: m.outbox.egress,
            wheel: without_peer(m.outbox.wheel, addr),
            asleep: without(m.outbox.asleep, addr),
        },
        ..m
    }
}

/// The broker after the subscribers of a topic id were looked up: the
/// resolved cache has learnt the wildcard subscribers of the topic's name.
pub open spec fn route(m: BrokerModel, topic_id: u16) -> BrokerModel {
    BrokerModel { resolved: resolved_after(m.resolved, m.names, m.wildcards, topic_id), ..m }
}

/// The broker after data was published to a topic id on its own behalf:
/// the subscribers of the topic are looked up and served.
pub open spec fn publish(m: BrokerModel, topic_id: u16, msg_id: u16, data: Seq<u8>) -> BrokerModel {
    BrokerModel {
        outbox: fan_out(m.outbox, m.hand, m.conns, m.recipients(topic_id), topic_id, msg_id, data),
        ..route(m, topic_id)
    }
}

/// The broker after the will of a connection that is gone was published,
/// if it had one.
pub open spec fn publish_will(m: BrokerModel, c: ConnModel) -> BrokerModel {
    match c.will_topic_id {
        Some(topic_id) => publish(m, topic_id, 0, c.will_message),
        None => m,
    }
}

/// The broker after a peer's connection ended: every trace of the peer is
/// gone, and where `will` says so the will of the connection is published.
pub open spec fn lose(m: BrokerModel, addr: PeerAddr, will: bool) -> BrokerModel {
    match lookup(m.conns, addr) {
        Some(c) => if will {
            publish_will(forget(m, addr), c)
        } else {
            forget(m, addr)
        },
        None => forget(m, addr),
    }
}

/// The broker after the connections of a list of peers were lost, one
/// after the other, each with its will published.
pub open spec fn lose_each(m: BrokerModel, peers: Seq<PeerAddr>) -> BrokerModel
    decreases peers.len(),
{
    if peers.len() == 0 {
        m
    } else {
        lose(lose_each(m, peers.drop_last()), peers.last(), true)
    }
}

/// Delivering a publication gives nothing to a peer without a connection:
/// no frame for it comes into the wheel, and nothing is kept for its sleep.
pub proof fn lemma_fan_out_keeps_out(
    o: Outbox,
    hand: usize,
    conns: Seq<(PeerAddr, ConnModel)>,
    subs: Seq<Subscriber>,
    topic_id: u16,
    msg_id: u16,
    data: Seq<u8>,
    addr: PeerAddr,
)
    requires
        unique_keys(o.asleep),
        !has_key(conns, addr),
        !has_key(o.asleep, addr),
        forall|i: int| 0 <= i < o.wheel.len() ==> (#[trigger] o.wheel[i]).0.addr != addr,
    ensures
        ({
            let r = fan_out(o, hand, conns, subs, topic_id, msg_id, data);
            &&& unique_keys(r.asleep)
            &&& !has_key(r.asleep, addr)
            &&& forall|i: int| 0 <= i < r.wheel.len() ==> (#[trigger] r.wheel[i]).0.addr != addr
        }),
    decreases subs.len(),
{
    if subs.len() > 0 {
        let before = fan_out(o, hand, conns, subs.drop_last(), topic_id, msg_id, data);
        lemma_fan_out_keeps_out(o, hand, conns, subs.drop_last(), topic_id, msg_id, data, addr);
        let s = subs.last();
        let m = publish_msg(topic_id, msg_id, s.qos, RETAIN_FALSE, data);
        lemma_with(before.asleep, s.socket_addr, kept_for(before.asleep, s.socket_addr).push(m));
    }
}

/// A broker that has forgotten a peer knows nothing of it.
pub proof fn lemma_forget_forgets(m: BrokerModel, addr: PeerAddr)
    requires
        m.wf(),
    ensures
        forget(m, addr).knows_nothing_of(addr),
        unique_keys(forget(m, addr).outbox.asleep),
{
    lemma_without(m.conns, addr);
    lemma_without(m.timers, addr);
    lemma_without(m.outbox.asleep, addr);
    lemma_without_peer(m.outbox.wheel, addr);
    lemma_without_peer(m.pending, addr);
}

/// A publication on the broker's own behalf gives nothing to a peer of
/// which the broker knows nothing.
pub proof fn lemma_publish_keeps_out(
    m: BrokerModel,
    topic_id: u16,
    msg_id: u16,
    data: Seq<u8>,
    addr: PeerAddr,
)
    requires
        m.knows_nothing_of(addr),
        unique_keys(m.outbox.asleep),
    ensures
        publish(m, topic_id, msg_id, data).knows_nothing_of(addr),
{
    let r = publish(m, topic_id, msg_id, data);
    lemma_fan_out_keeps_out(
        m.outbox,
        m.hand,
        m.conns,
        m.recipients(topic_id),
        topic_id,
        msg_id,
        data,
        addr,
    );
    assert forall|x: (Seq<char>, PeerAddr)| #[trigger] r.resolved.contains(x) implies x.1
        != addr by {
        if !m.resolved.contains(x) {
            let f = choose|f: Seq<char>| m.wildcards.contains((f, x.1)) && topic_matches(x.0, f);
            assert(m.wildcards.contains((f, x.1)));
        }
    }
}

/// After a peer's connection ended, nothing in the broker belongs to the
/// peer, whether or not a will was published.
pub proof fn lemma_lost_is_forgotten(m: BrokerModel, addr: PeerAddr, will: bool)
    requires
        m.wf(),
    ensures
        lose(m, addr, will).knows_nothing_of(addr),
{
    lemma_forget_forgets(m, addr);
    match lookup(m.conns, addr) {
        Some(c) => {
            if will && c.will_topic_id is Some {
                lemma_publish_keeps_out(
                    forget(m, addr),
                    c.will_topic_id->0,
                    0,
                    c.will_message,
                    addr,
                );
            }
        },
        None => {},
    }
}

} // verus!
