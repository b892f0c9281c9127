//! Exactly-once delivery at QoS 2: what is delivered when, and how often,
//! over an exchange of PUBLISH, PUBREC, PUBREL and PUBCOMP.
use crate::asleep_msg_cache::kept_for;
use crate::biset::Subscriber;
use crate::connection::{state_of, ConnModel, StateEnum2};
use crate::flags::{qos_of, QOS_LEVEL_2, RETAIN_FALSE};
use crate::model::{BrokerModel, Outbox};
use crate::msg_hdr::{MSG_TYPE_PUBREL, PeerAddr};
use crate::pub_msg_cache::{PendingModel, PubKey};
use crate::pub_rel::released;
use crate::publish::{fan_out, publication_fits, publish_msg, published};
use crate::retransmit::RetransKey;
use crate::subscriber::peers_distinct;
use crate::table::{
    has_key, lemma_position, lemma_with, lemma_without, lookup, unique_keys, without,
};
use crate::wire::Msg;
use vstd::prelude::*;

verus! {

/// Number of frames for a peer in an egress queue.
pub open spec fn frames_for(egress: Seq<(PeerAddr, Seq<u8>)>, q: PeerAddr) -> nat
    decreases egress.len(),
{
    if egress.len() == 0 {
        0
    } else {
        frames_for(egress.drop_last(), q) + if egress.last().0 == q {
            1nat
        } else {
            0nat
        }
    }
}

/// What an outbox holds for a peer: the frames on the egress queue and the
/// publications kept for its sleep.
pub open spec fn deliveries(o: Outbox, q: PeerAddr) -> nat {
    frames_for(o.egress, q) + kept_for(o.asleep, q).len()
}

/// Whether a list of subscribers holds a peer.
pub open spec fn serves(subs: Seq<Subscriber>, q: PeerAddr) -> bool {
    exists|i: int| 0 <= i < subs.len() && (#[trigger] subs[i]).socket_addr == q
}

/// Whether a peer can be delivered to: its connection is active or asleep.
pub open spec fn reachable(conns: Seq<(PeerAddr, ConnModel)>, q: PeerAddr) -> bool {
    state_of(conns, q) == Some(StateEnum2::ACTIVE) || state_of(conns, q) == Some(
        StateEnum2::ASLEEP,
    )
}

/// One more frame on a queue is one more frame for its peer, and for no other.
pub proof fn lemma_frames_for_push(
    egress: Seq<(PeerAddr, Seq<u8>)>,
    to: PeerAddr,
    frame: Seq<u8>,
    q: PeerAddr,
)
    ensures
        frames_for(egress.push((to, frame)), q) == frames_for(egress, q) + if to == q {
            1nat
        } else {
            0nat
        },
{
    assert(egress.push((to, frame)).drop_last() =~= egress);
}

/// Delivering a publication that has a frame to a list of subscribers in
/// which no peer stands twice gives each of their peers that is active or
/// asleep exactly one delivery, and every other peer none.
pub proof fn lemma_fan_out_once(
    o: Outbox,
    hand: usize,
    conns: Seq<(PeerAddr, ConnModel)>,
    subs: Seq<Subscriber>,
    topic_id: u16,
    msg_id: u16,
    data: Seq<u8>,
    q: PeerAddr,
)
    requires
        unique_keys(o.asleep),
        peers_distinct(subs),
        publication_fits(data),
    ensures
        ({
            let r = fan_out(o, hand, conns, subs, topic_id, msg_id, data);
            &&& deliveries(r, q) == deliveries(o, q) + if serves(subs, q) && reachable(conns, q) {
                1nat
            } else {
                0nat
            }
            &&& unique_keys(r.asleep)
        }),
    decreases subs.len(),
{
    if subs.len() > 0 {
        let init = subs.drop_last();
        let s = subs.last();
        let prev = fan_out(o, hand, conns, init, topic_id, msg_id, data);
        let r = fan_out(o, hand, conns, subs, topic_id, msg_id, data);
        assert(peers_distinct(init)) by {
            assert forall|i: int, j: int| 0 <= i < j < init.len() implies (
            #[trigger] init[i]).socket_addr != (#[trigger] init[j]).socket_addr by {
                assert(init[i] == subs[i] && init[j] == subs[j]);
            }
        }
        lemma_fan_out_once(o, hand, conns, init, topic_id, msg_id, data, q);
        assert(!serves(init, s.socket_addr)) by {
            if serves(init, s.socket_addr) {
                let i = choose|i: int|
                    0 <= i < init.len() && (#[trigger] init[i]).socket_addr == s.socket_addr;
                assert(subs[i].socket_addr != subs[subs.len() - 1].socket_addr);
            }
        }
        assert(serves(subs, q) <==> serves(init, q) || s.socket_addr == q) by {
            if serves(init, q) {
                let i = choose|i: int| 0 <= i < init.len() && (#[trigger] init[i]).socket_addr == q;
                assert(subs[i].socket_addr == q);
            }
            if s.socket_addr == q {
                assert(subs[subs.len() - 1].socket_addr == q);
            }
            if serves(subs, q) {
                let i = choose|i: int| 0 <= i < subs.len() && (#[trigger] subs[i]).socket_addr == q;
                if i < init.len() {
                    assert(init[i].socket_addr == q);
                }
            }
        }
        let m = publish_msg(topic_id, msg_id, s.qos, RETAIN_FALSE, data);
        match state_of(conns, s.socket_addr) {
            Some(StateEnum2::ACTIVE) => {
                let frame = crate::wire::encode(m);
                lemma_frames_for_push(prev.egress, s.socket_addr, frame, q);
            },
            Some(StateEnum2::ASLEEP) => {
                lemma_with(
                    prev.asleep,
                    s.socket_addr,
                    kept_for(prev.asleep, s.socket_addr).push(m),
                );
            },
            _ => {},
        }
    } else {
        assert(!serves(subs, q));
    }
}

/// What a publication at QoS 2 leaves behind, where none of its publisher
/// waits under its message id: it waits under its publisher and message id,
/// with the subscribers that its topic had when it came; a PUBREC is on its
/// way to the publisher and waits in the wheel for the PUBREL; no other
/// frame is sent, so nothing is delivered to anybody.
pub proof fn lemma_publish_waits(m: BrokerModel, peer: PeerAddr, p: Msg, q: PeerAddr)
    requires
        m.wf(),
        p is Publish,
        qos_of(p->Publish_flags) == QOS_LEVEL_2,
        !has_key(m.pending, PubKey { addr: peer, msg_id: p->Publish_msg_id }),
    ensures
        ({
            let after = published(m, peer, p);
            let key = RetransKey {
                addr: peer,
                msg_type: MSG_TYPE_PUBREL,
                topic_id: 0,
                msg_id: p->Publish_msg_id,
            };
            &&& lookup(after.pending, PubKey { addr: peer, msg_id: p->Publish_msg_id }) == Some(
                PendingModel { publish: p, subscribers: m.recipients(p->Publish_topic_id) },
            )
            &&& after.outbox.egress == m.outbox.egress.push(
                (peer, crate::wire::encode(Msg::PubRec { msg_id: p->Publish_msg_id })),
            )
            &&& after.outbox.asleep == m.outbox.asleep
            &&& lookup(after.outbox.wheel, key) == Some(
                crate::retransmit::RetransModel {
                    frame: crate::wire::encode(Msg::PubRec { msg_id: p->Publish_msg_id }),
                    retries: crate::publish::PUBREC_RETRIES,
                    tried: 0,
                    slot: crate::retransmit::slot_after(m.hand, 1),
                },
            )
            &&& deliveries(after.outbox, q) == deliveries(m.outbox, q) + if q == peer {
                1nat
            } else {
                0nat
            }
        }),
{
    let after = published(m, peer, p);
    let pkey = PubKey { addr: peer, msg_id: p->Publish_msg_id };
    let entry = PendingModel { publish: p, subscribers: m.recipients(p->Publish_topic_id) };
    assert(after.pending == m.pending.push((pkey, entry)));
    assert(unique_keys(after.pending)) by {
        assert forall|i: int, j: int| 0 <= i < j < after.pending.len() implies (
        #[trigger] after.pending[i]).0 != (#[trigger] after.pending[j]).0 by {
            if j < m.pending.len() {
                assert(m.pending[i].0 != m.pending[j].0);
            } else {
                assert(m.pending[i].0 != pkey);
            }
        }
    }
    lemma_position(after.pending, m.pending.len() as int);
    let key = RetransKey {
        addr: peer,
        msg_type: MSG_TYPE_PUBREL,
        topic_id: 0,
        msg_id: p->Publish_msg_id,
    };
    crate::table::lemma_replaced(
        m.outbox.wheel,
        key,
        crate::retransmit::RetransModel {
            frame: crate::wire::encode(Msg::PubRec { msg_id: p->Publish_msg_id }),
            retries: crate::publish::PUBREC_RETRIES,
            tried: 0,
            slot: crate::retransmit::slot_after(m.hand, 1),
        },
    );
    lemma_frames_for_push(
        m.outbox.egress,
        peer,
        crate::wire::encode(Msg::PubRec { msg_id: p->Publish_msg_id }),
        q,
    );
}

/// When a publication that waits with its subscribers is released, each
/// of their peers that is active or asleep gets exactly one delivery, and
/// the publisher one PUBCOMP; nobody gets anything else. The publication
/// has left the cache, and a second release delivers nothing: it is
/// answered with a PUBCOMP, no more.
pub proof fn lemma_released_once(m: BrokerModel, peer: PeerAddr, msg_id: u16, q: PeerAddr)
    requires
        m.wf(),
        has_key(m.pending, PubKey { addr: peer, msg_id }),
    ensures
        ({
            let c = lookup(m.pending, PubKey { addr: peer, msg_id })->0;
            let once = released(m, peer, msg_id);
            let twice = released(once, peer, msg_id);
            &&& deliveries(once.outbox, q) == deliveries(m.outbox, q) + (if serves(
                c.subscribers,
                q,
            ) && reachable(m.conns, q) {
                1nat
            } else {
                0nat
            }) + (if q == peer {
                1nat
            } else {
                0nat
            })
            &&& !has_key(once.pending, PubKey { addr: peer, msg_id })
            &&& deliveries(twice.outbox, q) == deliveries(once.outbox, q) + if q == peer {
                1nat
            } else {
                0nat
            }
        }),
{
    let pkey = PubKey { addr: peer, msg_id };
    let c = lookup(m.pending, pkey)->0;
    let awaited = RetransKey { addr: peer, msg_type: MSG_TYPE_PUBREL, topic_id: 0, msg_id };
    let o1 = Outbox {
        egress: m.outbox.egress,
        wheel: without(m.outbox.wheel, awaited),
        asleep: m.outbox.asleep,
    };
    let at = crate::table::position(m.pending, pkey);
    assert(m.pending[at].0 == pkey);
    lemma_position(m.pending, at);
    assert(peers_distinct(c.subscribers));
    assert(publication_fits(c.publish->Publish_data));
    lemma_fan_out_once(
        o1,
        m.hand,
        m.conns,
        c.subscribers,
        c.publish->Publish_topic_id,
        c.publish->Publish_msg_id,
        c.publish->Publish_data,
        q,
    );
    let delivered = fan_out(
        o1,
        m.hand,
        m.conns,
        c.subscribers,
        c.publish->Publish_topic_id,
        c.publish->Publish_msg_id,
        c.publish->Publish_data,
    );
    let done = crate::wire::encode(Msg::PubComp { msg_id });
    lemma_frames_for_push(delivered.egress, peer, done, q);
    lemma_without(m.pending, pkey);
    let once = released(m, peer, msg_id);
    lemma_frames_for_push(once.outbox.egress, peer, done, q);
}

} // verus!
