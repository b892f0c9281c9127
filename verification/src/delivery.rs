//! What a fan-out sends: the frames on the egress queue, in the order of the
//! subscribers, and the frames that wait for their acknowledgements.
use crate::asleep_msg_cache::kept_for;
use crate::biset::{subscriber, Subscriber};
use crate::connection::{state_of, ConnModel, StateEnum2};
use crate::error::DecodeError;
use crate::exactly_once::{frames_for, lemma_frames_for_push, serves};
use crate::filter::{
    id_subscribers, subscribed_to_id, subscribers_of, topic_matches, wildcard_subscribers,
};
use crate::flags::{qos_of, QOS_LEVEL_0, QOS_LEVEL_1, QOS_LEVEL_2, RETAIN_FALSE};
use crate::message::{read_as, Publish};
use crate::model::{
    delivery_set, lemma_delivery_lists_peers_once, name_subscribers, BrokerModel, Outbox,
};
use crate::msg_hdr::{header_of, MSG_TYPE_PUBACK, PeerAddr, RETURN_CODE_ACCEPTED};
use crate::publish::{
    awaited_key, awaited_reply, fan_out, publication_fits, publish_effect, publish_forbidden,
    publish_msg, publish_refusal, published, PUBACK_RETRIES,
};
use crate::retransmit::{slot_after, RetransKey, RetransModel};
use crate::subscriber::{lists_set, peers_distinct};
use crate::table::{has_key, lemma_replaced, lemma_with, lookup, replaced, unique_keys};
use crate::wire::{decode, encode, lemma_parsed_body, lemma_publish_body_len, Msg};
use vstd::prelude::*;

verus! {

/// The key under which the publication to a subscriber waits for its
/// reply, where it awaits one.
pub open spec fn reply_key(s: Subscriber, topic_id: u16, msg_id: u16) -> Option<RetransKey> {
    awaited_key(s.socket_addr, topic_id, msg_id, s.qos)
}

/// The frame of the PUBLISH that a subscriber is sent.
pub open spec fn frame_for(s: Subscriber, topic_id: u16, msg_id: u16, data: Seq<u8>) -> Seq<u8> {
    encode(publish_msg(topic_id, msg_id, s.qos, RETAIN_FALSE, data))
}

/// The frames that the active subscribers of a list are sent, in the order
/// of the list: one each, at the subscriber's QoS.
pub open spec fn publish_frames(
    conns: Seq<(PeerAddr, ConnModel)>,
    subs: Seq<Subscriber>,
    topic_id: u16,
    msg_id: u16,
    data: Seq<u8>,
) -> Seq<(PeerAddr, Seq<u8>)>
    decreases subs.len(),
{
    if subs.len() == 0 {
        Seq::empty()
    } else {
        let rest = publish_frames(conns, subs.drop_last(), topic_id, msg_id, data);
        let s = subs.last();
        if state_of(conns, s.socket_addr) == Some(StateEnum2::ACTIVE) {
            rest.push((s.socket_addr, frame_for(s, topic_id, msg_id, data)))
        } else {
            rest
        }
    }
}

/// The entry under which the publication to a subscriber waits in the wheel.
pub open spec fn waiting_entry(
    s: Subscriber,
    hand: usize,
    topic_id: u16,
    msg_id: u16,
    data: Seq<u8>,
) -> RetransModel {
    RetransModel {
        frame: frame_for(s, topic_id, msg_id, data),
        retries: match awaited_reply(s.qos) {
            Some((_, retries)) => retries,
            None => 0,
        },
        tried: 0,
        slot: slot_after(hand, 1),
    }
}

/// Whether the publication to an active subscriber of the list waits under
/// the key for its reply.
pub open spec fn awaited_by(
    conns: Seq<(PeerAddr, ConnModel)>,
    subs: Seq<Subscriber>,
    topic_id: u16,
    msg_id: u16,
    k: RetransKey,
) -> bool {
    exists|i: int|
        0 <= i < subs.len() && state_of(conns, (#[trigger] subs[i]).socket_addr) == Some(
            StateEnum2::ACTIVE,
        ) && reply_key(subs[i], topic_id, msg_id) == Some(k)
}

/// A fan-out of a publication that has a frame sends exactly one PUBLISH
/// to each subscriber of the list that is active, in the order of the list,
/// at the subscriber's own QoS and with the topic id and the data of the
/// publication. The wheel holds what it held and the keys of the frames
/// that await a reply; under every other key waits what waited there. Where
/// no peer stands twice in the list, each frame that awaits a reply waits
/// under its key, one slot ahead of the hand.
pub proof fn lemma_fan_out_frames(
    o: Outbox,
    hand: usize,
    conns: Seq<(PeerAddr, ConnModel)>,
    subs: Seq<Subscriber>,
    topic_id: u16,
    msg_id: u16,
    data: Seq<u8>,
)
    requires
        unique_keys(o.wheel),
        publication_fits(data),
    ensures
        ({
            let r = fan_out(o, hand, conns, subs, topic_id, msg_id, data);
            &&& r.egress == o.egress + publish_frames(conns, subs, topic_id, msg_id, data)
            &&& unique_keys(r.wheel)
            &&& forall|k: RetransKey|
                has_key(r.wheel, k) <==> has_key(o.wheel, k) || awaited_by(
                    conns,
                    subs,
                    topic_id,
                    msg_id,
                    k,
                )
            &&& forall|k: RetransKey|
                has_key(r.wheel, k) ==> has_key(o.wheel, k) || serves(subs, k.addr)
            &&& forall|k: RetransKey|
                !awaited_by(conns, subs, topic_id, msg_id, k) ==> lookup(r.wheel, k) == lookup(
                    o.wheel,
                    k,
                )
            &&& peers_distinct(subs) ==> forall|i: int|
                0 <= i < subs.len() && state_of(conns, (#[trigger] subs[i]).socket_addr) == Some(
                    StateEnum2::ACTIVE,
                ) && reply_key(subs[i], topic_id, msg_id) is Some ==> lookup(
                    r.wheel,
                    reply_key(subs[i], topic_id, msg_id)->0,
                ) == Some(waiting_entry(subs[i], hand, topic_id, msg_id, data))
        }),
    decreases subs.len(),
{
    let r = fan_out(o, hand, conns, subs, topic_id, msg_id, data);
    if subs.len() == 0 {
        assert(r.egress =~= o.egress + publish_frames(conns, subs, topic_id, msg_id, data));
    } else {
        let init = subs.drop_last();
        let s = subs.last();
        let last = subs.len() - 1;
        assert(subs[last] == s);
        let prev = fan_out(o, hand, conns, init, topic_id, msg_id, data);
        lemma_fan_out_frames(o, hand, conns, init, topic_id, msg_id, data);
        let active = state_of(conns, s.socket_addr) == Some(StateEnum2::ACTIVE);
        let own = reply_key(s, topic_id, msg_id);
        assert forall|k: RetransKey|
            awaited_by(conns, subs, topic_id, msg_id, k) <==> awaited_by(
                conns,
                init,
                topic_id,
                msg_id,
                k,
            ) || (active && own == Some(k)) by {
            if awaited_by(conns, init, topic_id, msg_id, k) {
                let i = choose|i: int|
                    0 <= i < init.len() && state_of(conns, (#[trigger] init[i]).socket_addr)
                        == Some(StateEnum2::ACTIVE) && reply_key(init[i], topic_id, msg_id) == Some(
                        k,
                    );
                assert(subs[i] == init[i]);
            }
            if awaited_by(conns, subs, topic_id, msg_id, k) {
                let i = choose|i: int|
                    0 <= i < subs.len() && state_of(conns, (#[trigger] subs[i]).socket_addr)
                        == Some(StateEnum2::ACTIVE) && reply_key(subs[i], topic_id, msg_id) == Some(
                        k,
                    );
                if i < init.len() {
                    assert(init[i] == subs[i]);
                }
            }
        }
        assert forall|q: PeerAddr| serves(init, q) implies serves(subs, q) by {
            let i = choose|i: int| 0 <= i < init.len() && (#[trigger] init[i]).socket_addr == q;
            assert(subs[i].socket_addr == q);
        }
        assert(serves(subs, s.socket_addr));
        let frames0 = publish_frames(conns, init, topic_id, msg_id, data);
        let frames = publish_frames(conns, subs, topic_id, msg_id, data);
        if active {
            let frame = frame_for(s, topic_id, msg_id, data);
            assert(frames == frames0.push((s.socket_addr, frame)));
            assert(r.egress =~= o.egress + frames);
            if let Some(key) = own {
                let entry = waiting_entry(s, hand, topic_id, msg_id, data);
                lemma_replaced(prev.wheel, key, entry);
                assert(r.wheel == replaced(prev.wheel, key, entry));
                assert(key.addr == s.socket_addr);
            } else {
                assert(r.wheel == prev.wheel);
            }
        } else {
            assert(frames == frames0);
            assert(r.egress == prev.egress);
            assert(r.wheel == prev.wheel);
        }
        if peers_distinct(subs) {
            assert(peers_distinct(init)) by {
                assert forall|i: int, j: int| 0 <= i < j < init.len() implies (
                #[trigger] init[i]).socket_addr != (#[trigger] init[j]).socket_addr by {
                    assert(init[i] == subs[i] && init[j] == subs[j]);
                }
            }
            assert forall|i: int|
                0 <= i < subs.len() && state_of(conns, (#[trigger] subs[i]).socket_addr) == Some(
                    StateEnum2::ACTIVE,
                ) && reply_key(subs[i], topic_id, msg_id) is Some implies lookup(
                r.wheel,
                reply_key(subs[i], topic_id, msg_id)->0,
            ) == Some(waiting_entry(subs[i], hand, topic_id, msg_id, data)) by {
                if i < init.len() {
                    assert(init[i] == subs[i]);
                    assert(subs[i].socket_addr != subs[last].socket_addr);
                    assert(reply_key(subs[i], topic_id, msg_id)->0.addr == subs[i].socket_addr);
                }
            }
        }
    }
}

/// Whether the list of the recipients of a topic id holds the subscribers
/// that a publication to the id goes to, each once, in order.
pub open spec fn recipients_listed(m: BrokerModel, topic_id: u16) -> bool {
    lists_set(
        m.recipients(topic_id),
        delivery_set(
            m.by_id,
            name_subscribers(m.names, m.concrete, m.wildcards, topic_id),
            topic_id,
        ),
    )
}

/// The recipients of a topic id are listed: the subscribers that a
/// publication to the id goes to are finitely many, and so have their
/// sorted list.
pub proof fn lemma_recipients_listed(m: BrokerModel, topic_id: u16)
    requires
        m.wildcards.finite(),
        m.concrete.finite(),
        m.by_id.finite(),
    ensures
        recipients_listed(m, topic_id),
{
    let by_name = name_subscribers(m.names, m.concrete, m.wildcards, topic_id);
    let set = delivery_set(m.by_id, by_name, topic_id);
    let second = |x: (Seq<char>, PeerAddr)| x.1;
    let pairs = m.concrete.union(m.wildcards);
    pairs.lemma_map_finite(second);
    let peers = pairs.map(second);
    assert(by_name.subset_of(peers)) by {
        assert forall|p: PeerAddr| by_name.contains(p) implies peers.contains(p) by {
            let n = choose|n: Seq<char>|
                m.names.contains((n, topic_id)) && (subscribers_of(m.concrete, n).contains(p)
                    || wildcard_subscribers(m.wildcards, n).contains(p));
            if subscribers_of(m.concrete, n).contains(p) {
                assert(pairs.contains((n, p)) && second((n, p)) == p);
            } else {
                let f = choose|f: Seq<char>| m.wildcards.contains((f, p)) && topic_matches(n, f);
                assert(pairs.contains((f, p)) && second((f, p)) == p);
            }
        }
    }
    vstd::set_lib::lemma_set_subset_finite(peers, by_name);
    let held = |x: (u16, Subscriber)| x.1;
    m.by_id.lemma_map_finite(held);
    let at_zero = |p: PeerAddr| subscriber(p, QOS_LEVEL_0);
    by_name.lemma_map_finite(at_zero);
    let all = m.by_id.map(held).union(by_name.map(at_zero));
    assert(set.subset_of(all)) by {
        assert forall|s: Subscriber| set.contains(s) implies all.contains(s) by {
            if id_subscribers(m.by_id, topic_id).contains(s) {
                assert(m.by_id.contains((topic_id, s)) && held((topic_id, s)) == s);
            } else {
                assert(by_name.contains(s.socket_addr) && at_zero(s.socket_addr) == s);
            }
        }
    }
    vstd::set_lib::lemma_set_subset_finite(all, set);
    crate::subscriber::lemma_finite_has_list(set);
}

/// The acknowledgement that the publisher of a PUBLISH is sent before the
/// publication is delivered: a PUBACK at QoS 1, nothing at QoS 0 and 3.
pub open spec fn ack_frames(peer: PeerAddr, p: Msg) -> Seq<(PeerAddr, Seq<u8>)> {
    if qos_of(p->Publish_flags) == QOS_LEVEL_1 {
        seq![
            (
                peer,
                encode(
                    Msg::PubAck {
                        topic_id: p->Publish_topic_id,
                        msg_id: p->Publish_msg_id,
                        return_code: RETURN_CODE_ACCEPTED,
                    },
                ),
            ),
        ]
    } else {
        Seq::empty()
    }
}

/// The PUBLISH that a datagram reads as.
pub open spec fn publication_of(buf: Seq<u8>, size: usize) -> Msg {
    read_as(buf, size, |x: Msg| Publish::wanted(x))->Ok_0
}

/// A PUBLISH that was read from a datagram has a frame: no datagram that
/// reads as a message is longer than 65535 octets. Where the peer may send
/// it, its effect is that of the publication.
pub proof fn lemma_publication_read(m: BrokerModel, peer: PeerAddr, buf: Seq<u8>, size: usize)
    requires
        read_as(buf, size, |x: Msg| Publish::wanted(x)) is Ok,
    ensures
        publication_of(buf, size) is Publish,
        publication_fits(publication_of(buf, size)->Publish_data),
        publish_forbidden(state_of(m.conns, peer), publication_of(buf, size)->Publish_flags)
            is None ==> publish_effect(m, peer, buf, size) == published(
            m,
            peer,
            publication_of(buf, size),
        ),
{
    let b = buf.take(size as int);
    let p = publication_of(buf, size);
    assert(decode(b) == Ok::<Msg, DecodeError>(p));
    let h = header_of(b)->Ok_0;
    lemma_parsed_body(h.0, b.skip(h.1 as int), p);
    lemma_publish_body_len(p);
}

/// A PUBLISH below QoS 2 from a peer that may send it is acknowledged
/// first, where it asks for it, and then delivered: each recipient that is
/// active is sent exactly one PUBLISH, in the order of the recipients, at
/// its own QoS; nobody else is sent anything. Each delivery that awaits a
/// reply waits in the wheel, whatever waited there.
pub proof fn lemma_publish_is_delivered(m: BrokerModel, peer: PeerAddr, buf: Seq<u8>, size: usize)
    requires
        m.wf(),
        publish_refusal(m, peer, buf, size) is None,
        qos_of(publication_of(buf, size)->Publish_flags) != QOS_LEVEL_2,
    ensures
        ({
            let p = publication_of(buf, size);
            let after = publish_effect(m, peer, buf, size);
            let subs = m.recipients(p->Publish_topic_id);
            let topic_id = p->Publish_topic_id;
            let msg_id = p->Publish_msg_id;
            let data = p->Publish_data;
            &&& peers_distinct(subs)
            &&& after.outbox.egress == m.outbox.egress + ack_frames(peer, p) + publish_frames(
                m.conns,
                subs,
                topic_id,
                msg_id,
                data,
            )
            &&& after.conns == m.conns
            &&& forall|i: int|
                0 <= i < subs.len() && state_of(m.conns, (#[trigger] subs[i]).socket_addr) == Some(
                    StateEnum2::ACTIVE,
                ) && reply_key(subs[i], topic_id, msg_id) is Some ==> lookup(
                    after.outbox.wheel,
                    reply_key(subs[i], topic_id, msg_id)->0,
                ) == Some(waiting_entry(subs[i], m.hand, topic_id, msg_id, data))
        }),
{
    lemma_publication_read(m, peer, buf, size);
    lemma_published_is_delivered(m, peer, publication_of(buf, size));
}

/// A PUBLISH below QoS 2 that has a frame is acknowledged first, where it
/// asks for it, and then delivered: each recipient that is active is sent
/// exactly one PUBLISH, in the order of the recipients, at its own QoS;
/// nobody else is sent anything. Each delivery that awaits a reply waits in
/// the wheel, whatever waited there. Nothing is put among the publications
/// that wait for their release.
pub proof fn lemma_published_is_delivered(m: BrokerModel, peer: PeerAddr, p: Msg)
    requires
        m.wf(),
        p is Publish,
        qos_of(p->Publish_flags) != QOS_LEVEL_2,
        publication_fits(p->Publish_data),
    ensures
        ({
            let after = published(m, peer, p);
            let subs = m.recipients(p->Publish_topic_id);
            let topic_id = p->Publish_topic_id;
            let msg_id = p->Publish_msg_id;
            let data = p->Publish_data;
            &&& peers_distinct(subs)
            &&& after.outbox.egress == m.outbox.egress + ack_frames(peer, p) + publish_frames(
                m.conns,
                subs,
                topic_id,
                msg_id,
                data,
            )
            &&& after.pending == m.pending
            &&& after.conns == m.conns
            &&& forall|k: RetransKey|
                has_key(after.outbox.wheel, k) ==> has_key(m.outbox.wheel, k) || serves(
                    subs,
                    k.addr,
                )
            &&& forall|i: int|
                0 <= i < subs.len() && state_of(m.conns, (#[trigger] subs[i]).socket_addr) == Some(
                    StateEnum2::ACTIVE,
                ) && reply_key(subs[i], topic_id, msg_id) is Some ==> lookup(
                    after.outbox.wheel,
                    reply_key(subs[i], topic_id, msg_id)->0,
                ) == Some(waiting_entry(subs[i], m.hand, topic_id, msg_id, data))
        }),
{
    let topic_id = p->Publish_topic_id;
    let subs = m.recipients(topic_id);
    lemma_recipients_listed(m, topic_id);
    lemma_delivery_lists_peers_once(
        m.by_id,
        name_subscribers(m.names, m.concrete, m.wildcards, topic_id),
        topic_id,
        subs,
    );
    let o = m.outbox;
    let acked = Outbox { egress: o.egress + ack_frames(peer, p), wheel: o.wheel, asleep: o.asleep };
    if qos_of(p->Publish_flags) == QOS_LEVEL_1 {
        assert(acked.egress =~= o.egress.push(ack_frames(peer, p)[0]));
    } else {
        assert(acked.egress =~= o.egress);
    }
    lemma_fan_out_frames(
        acked,
        m.hand,
        m.conns,
        subs,
        topic_id,
        p->Publish_msg_id,
        p->Publish_data,
    );
}

/// A PUBLISH at QoS 1 from a peer that may send it, to a topic whose only
/// subscriber is active and holds its subscription at QoS 1: the publisher
/// is sent a PUBACK, then the subscriber one PUBLISH at QoS 1 with the topic
/// id and the data, and nobody anything else; the PUBLISH waits in the
/// wheel for the subscriber's PUBACK, whatever waited there.
pub proof fn lemma_sole_subscriber_is_served(
    m: BrokerModel,
    peer: PeerAddr,
    buf: Seq<u8>,
    size: usize,
    a: PeerAddr,
)
    requires
        m.wf(),
        publish_refusal(m, peer, buf, size) is None,
        qos_of(publication_of(buf, size)->Publish_flags) == QOS_LEVEL_1,
        m.recipients(publication_of(buf, size)->Publish_topic_id) == seq![
            subscriber(a, QOS_LEVEL_1),
        ],
        state_of(m.conns, a) == Some(StateEnum2::ACTIVE),
    ensures
        ({
            let p = publication_of(buf, size);
            let after = publish_effect(m, peer, buf, size);
            let topic_id = p->Publish_topic_id;
            let msg_id = p->Publish_msg_id;
            let frame = encode(
                publish_msg(topic_id, msg_id, QOS_LEVEL_1, RETAIN_FALSE, p->Publish_data),
            );
            &&& after.outbox.egress == m.outbox.egress.push(
                (
                    peer,
                    encode(Msg::PubAck { topic_id, msg_id, return_code: RETURN_CODE_ACCEPTED }),
                ),
            ).push((a, frame))
            &&& lookup(
                after.outbox.wheel,
                RetransKey { addr: a, msg_type: MSG_TYPE_PUBACK, topic_id, msg_id },
            ) == Some(
                RetransModel {
                    frame,
                    retries: PUBACK_RETRIES,
                    tried: 0,
                    slot: slot_after(m.hand, 1),
                },
            )
        }),
{
    let p = publication_of(buf, size);
    lemma_publication_read(m, peer, buf, size);
    let subs = m.recipients(p->Publish_topic_id);
    assert(subs[0] == subscriber(a, QOS_LEVEL_1));
    assert(qos_of(QOS_LEVEL_1) == QOS_LEVEL_1) by (bit_vector);
    lemma_published_is_delivered(m, peer, p);
    let frames = publish_frames(
        m.conns,
        subs,
        p->Publish_topic_id,
        p->Publish_msg_id,
        p->Publish_data,
    );
    assert(subs.drop_last() =~= Seq::<Subscriber>::empty());
    assert(publish_frames(
        m.conns,
        subs.drop_last(),
        p->Publish_topic_id,
        p->Publish_msg_id,
        p->Publish_data,
    ) =~= Seq::<(PeerAddr, Seq<u8>)>::empty());
    assert(frames =~= seq![
        (a, frame_for(subs[0], p->Publish_topic_id, p->Publish_msg_id, p->Publish_data)),
    ]);
    let after = published(m, peer, p);
    assert(after.outbox.egress =~= m.outbox.egress.push(ack_frames(peer, p)[0]).push(frames[0]));
}

/// The frames that a list of subscribers with pairwise distinct peers is
/// sent hold one frame for each active peer of the list, and none for
/// anybody else.
pub proof fn lemma_publish_frames_count(
    conns: Seq<(PeerAddr, ConnModel)>,
    subs: Seq<Subscriber>,
    topic_id: u16,
    msg_id: u16,
    data: Seq<u8>,
    q: PeerAddr,
)
    requires
        peers_distinct(subs),
    ensures
        frames_for(publish_frames(conns, subs, topic_id, msg_id, data), q) == if serves(subs, q)
            && state_of(conns, q) == Some(StateEnum2::ACTIVE) {
            1nat
        } else {
            0nat
        },
    decreases subs.len(),
{
    if subs.len() > 0 {
        let init = subs.drop_last();
        let s = subs.last();
        let last = subs.len() - 1;
        assert(subs[last] == s);
        assert(peers_distinct(init)) by {
            assert forall|i: int, j: int| 0 <= i < j < init.len() implies (
            #[trigger] init[i]).socket_addr != (#[trigger] init[j]).socket_addr by {
                assert(init[i] == subs[i] && init[j] == subs[j]);
            }
        }
        lemma_publish_frames_count(conns, init, topic_id, msg_id, data, q);
        assert(!serves(init, s.socket_addr)) by {
            if serves(init, s.socket_addr) {
                let i = choose|i: int|
                    0 <= i < init.len() && (#[trigger] init[i]).socket_addr == s.socket_addr;
                assert(subs[i].socket_addr != subs[last].socket_addr);
            }
        }
        assert(serves(subs, q) <==> serves(init, q) || s.socket_addr == q) by {
            if serves(init, q) {
                let i = choose|i: int| 0 <= i < init.len() && (#[trigger] init[i]).socket_addr == q;
                assert(subs[i].socket_addr == q);
            }
            if serves(subs, q) {
                let i = choose|i: int| 0 <= i < subs.len() && (#[trigger] subs[i]).socket_addr == q;
                if i < init.len() {
                    assert(init[i].socket_addr == q);
                }
            }
        }
        if state_of(conns, s.socket_addr) == Some(StateEnum2::ACTIVE) {
            lemma_frames_for_push(
                publish_frames(conns, init, topic_id, msg_id, data),
                s.socket_addr,
                frame_for(s, topic_id, msg_id, data),
                q,
            );
        }
    } else {
        assert(!serves(subs, q));
    }
}

/// The frames for a peer in two queues, one behind the other, are those of
/// the one and those of the other.
pub proof fn lemma_frames_for_add(
    a: Seq<(PeerAddr, Seq<u8>)>,
    b: Seq<(PeerAddr, Seq<u8>)>,
    q: PeerAddr,
)
    ensures
        frames_for(a + b, q) == frames_for(a, q) + frames_for(b, q),
    decreases b.len(),
{
    if b.len() == 0 {
        assert(a + b =~= a);
    } else {
        lemma_frames_for_add(a, b.drop_last(), q);
        assert((a + b).drop_last() =~= a + b.drop_last());
        assert((a + b).last() == b.last());
    }
}

/// A peer that holds a wildcard filter which accepts the name of a topic
/// id is among the recipients of the id, once: at the QoS of its
/// subscription to the id, where it holds one, or else at QoS 0. After a
/// PUBLISH to the id, below QoS 2 and from a peer that may send it, the
/// resolved cache holds for the name exactly the peers whose filters accept
/// it. Where the peer is active and is not the publisher, it is sent
/// exactly one frame, its PUBLISH.
pub proof fn lemma_wildcard_subscriber_is_served(
    m: BrokerModel,
    peer: PeerAddr,
    buf: Seq<u8>,
    size: usize,
    name: Seq<char>,
    filter: Seq<char>,
    a: PeerAddr,
)
    requires
        m.wf(),
        publish_refusal(m, peer, buf, size) is None,
        qos_of(publication_of(buf, size)->Publish_flags) != QOS_LEVEL_2,
        m.names.contains((name, publication_of(buf, size)->Publish_topic_id)),
        m.wildcards.contains((filter, a)),
        topic_matches(name, filter),
    ensures
        ({
            let p = publication_of(buf, size);
            let after = publish_effect(m, peer, buf, size);
            let subs = m.recipients(p->Publish_topic_id);
            &&& serves(subs, a)
            &&& peers_distinct(subs)
            &&& !subscribed_to_id(m.by_id, p->Publish_topic_id, a) ==> subs.contains(
                subscriber(a, QOS_LEVEL_0),
            )
            &&& subscribers_of(after.resolved, name) == wildcard_subscribers(m.wildcards, name)
            &&& subscribers_of(after.resolved, name).contains(a)
            &&& a != peer && state_of(m.conns, a) == Some(StateEnum2::ACTIVE) ==> frames_for(
                after.outbox.egress,
                a,
            ) == frames_for(m.outbox.egress, a) + 1
        }),
{
    let p = publication_of(buf, size);
    lemma_publication_read(m, peer, buf, size);
    let topic_id = p->Publish_topic_id;
    let after = published(m, peer, p);
    let subs = m.recipients(topic_id);
    let by_name = name_subscribers(m.names, m.concrete, m.wildcards, topic_id);
    let set = delivery_set(m.by_id, by_name, topic_id);
    lemma_recipients_listed(m, topic_id);
    lemma_delivery_lists_peers_once(m.by_id, by_name, topic_id, subs);
    assert(wildcard_subscribers(m.wildcards, name).contains(a));
    assert(by_name.contains(a));
    if subscribed_to_id(m.by_id, topic_id, a) {
        let q = choose|q: u8| m.by_id.contains((topic_id, subscriber(a, q)));
        assert(id_subscribers(m.by_id, topic_id).contains(subscriber(a, q)));
        assert(set.contains(subscriber(a, q)));
        assert(subs.contains(subscriber(a, q)));
        let i = choose|i: int| 0 <= i < subs.len() && subs[i] == subscriber(a, q);
        assert(subs[i].socket_addr == a);
    } else {
        assert(set.contains(subscriber(a, QOS_LEVEL_0)));
        assert(subs.contains(subscriber(a, QOS_LEVEL_0)));
        let i = choose|i: int| 0 <= i < subs.len() && subs[i] == subscriber(a, QOS_LEVEL_0);
        assert(subs[i].socket_addr == a);
    }
    assert(subscribers_of(after.resolved, name) =~= wildcard_subscribers(m.wildcards, name)) by {
        assert forall|x: PeerAddr| subscribers_of(after.resolved, name).contains(x)
            <==> wildcard_subscribers(m.wildcards, name).contains(x) by {
            if m.resolved.contains((name, x)) {
                assert(subscribers_of(m.resolved, name) == wildcard_subscribers(
                    m.wildcards,
                    name,
                ));
                assert(subscribers_of(m.resolved, name).contains(x));
            }
        }
    }
    if a != peer && state_of(m.conns, a) == Some(StateEnum2::ACTIVE) {
        lemma_published_is_delivered(m, peer, p);
        let frames = publish_frames(m.conns, subs, topic_id, p->Publish_msg_id, p->Publish_data);
        lemma_publish_frames_count(m.conns, subs, topic_id, p->Publish_msg_id, p->Publish_data, a);
        lemma_frames_for_add(m.outbox.egress + ack_frames(peer, p), frames, a);
        lemma_frames_for_add(m.outbox.egress, ack_frames(peer, p), a);
        if qos_of(p->Publish_flags) == QOS_LEVEL_1 {
            let acks = ack_frames(peer, p);
            assert(acks.drop_last() =~= Seq::<(PeerAddr, Seq<u8>)>::empty());
            assert(frames_for(acks.drop_last(), a) == 0);
            assert(frames_for(acks, a) == 0);
        } else {
            assert(frames_for(ack_frames(peer, p), a) == 0);
        }
    }
}

/// The publications that a fan-out keeps for a peer that is asleep: one
/// for each place at which the peer stands in the list, in the order of the
/// list, each at the QoS of its subscriber.
pub open spec fn kept_by(
    subs: Seq<Subscriber>,
    a: PeerAddr,
    topic_id: u16,
    msg_id: u16,
    data: Seq<u8>,
) -> Seq<Msg>
    decreases subs.len(),
{
    if subs.len() == 0 {
        Seq::empty()
    } else {
        let rest = kept_by(subs.drop_last(), a, topic_id, msg_id, data);
        if subs.last().socket_addr == a {
            rest.push(publish_msg(topic_id, msg_id, subs.last().qos, RETAIN_FALSE, data))
        } else {
            rest
        }
    }
}

/// Nothing is kept for a peer that does not stand in the list.
pub proof fn lemma_kept_by_none(
    subs: Seq<Subscriber>,
    a: PeerAddr,
    topic_id: u16,
    msg_id: u16,
    data: Seq<u8>,
)
    requires
        !serves(subs, a),
    ensures
        kept_by(subs, a, topic_id, msg_id, data) == Seq::<Msg>::empty(),
    decreases subs.len(),
{
    if subs.len() > 0 {
        let init = subs.drop_last();
        assert(subs[subs.len() - 1].socket_addr != a);
        assert(!serves(init, a)) by {
            if serves(init, a) {
                let x = choose|x: int| 0 <= x < init.len() && (#[trigger] init[x]).socket_addr == a;
                assert(subs[x].socket_addr == a);
            }
        }
        lemma_kept_by_none(init, a, topic_id, msg_id, data);
    }
}

/// In a list in which no peer stands twice, one publication is kept for the
/// peer of a subscriber: at that subscriber's QoS.
pub proof fn lemma_kept_by_once(
    subs: Seq<Subscriber>,
    topic_id: u16,
    msg_id: u16,
    data: Seq<u8>,
    i: int,
)
    requires
        peers_distinct(subs),
        0 <= i < subs.len(),
    ensures
        kept_by(subs, subs[i].socket_addr, topic_id, msg_id, data) == seq![
            publish_msg(topic_id, msg_id, subs[i].qos, RETAIN_FALSE, data),
        ],
    decreases subs.len(),
{
    let init = subs.drop_last();
    let last = subs.len() - 1;
    assert(subs[last] == subs.last());
    let a = subs[i].socket_addr;
    if i == last {
        assert(!serves(init, a)) by {
            if serves(init, a) {
                let x = choose|x: int| 0 <= x < init.len() && (#[trigger] init[x]).socket_addr == a;
                assert(subs[x].socket_addr != subs[last].socket_addr);
            }
        }
        lemma_kept_by_none(init, a, topic_id, msg_id, data);
        assert(kept_by(subs, a, topic_id, msg_id, data) =~= seq![
            publish_msg(topic_id, msg_id, subs[i].qos, RETAIN_FALSE, data),
        ]);
    } else {
        assert(peers_distinct(init)) by {
            assert forall|x: int, y: int| 0 <= x < y < init.len() implies (
            #[trigger] init[x]).socket_addr != (#[trigger] init[y]).socket_addr by {
                assert(init[x] == subs[x] && init[y] == subs[y]);
            }
        }
        assert(init[i] == subs[i]);
        assert(subs[i].socket_addr != subs[last].socket_addr);
        lemma_kept_by_once(init, topic_id, msg_id, data, i);
    }
}

/// A fan-out sends no frame to a peer that is not active.
pub proof fn lemma_no_frames_for_others(
    conns: Seq<(PeerAddr, ConnModel)>,
    subs: Seq<Subscriber>,
    topic_id: u16,
    msg_id: u16,
    data: Seq<u8>,
    a: PeerAddr,
)
    requires
        state_of(conns, a) != Some(StateEnum2::ACTIVE),
    ensures
        frames_for(publish_frames(conns, subs, topic_id, msg_id, data), a) == 0,
    decreases subs.len(),
{
    if subs.len() > 0 {
        let s = subs.last();
        lemma_no_frames_for_others(conns, subs.drop_last(), topic_id, msg_id, data, a);
        if state_of(conns, s.socket_addr) == Some(StateEnum2::ACTIVE) {
            lemma_frames_for_push(
                publish_frames(conns, subs.drop_last(), topic_id, msg_id, data),
                s.socket_addr,
                frame_for(s, topic_id, msg_id, data),
                a,
            );
        }
    }
}

/// What a fan-out of a publication that has a frame does for a peer that
/// is asleep: the peer is sent nothing; the publication is kept for it
/// behind what was kept, once for each place at which the peer stands in the
/// list, at the QoS of that place; and what waits in the wheel for its
/// replies is as it was.
pub proof fn lemma_fan_out_keeps(
    o: Outbox,
    hand: usize,
    conns: Seq<(PeerAddr, ConnModel)>,
    subs: Seq<Subscriber>,
    topic_id: u16,
    msg_id: u16,
    data: Seq<u8>,
    a: PeerAddr,
)
    requires
        unique_keys(o.wheel),
        unique_keys(o.asleep),
        publication_fits(data),
        state_of(conns, a) == Some(StateEnum2::ASLEEP),
    ensures
        ({
            let r = fan_out(o, hand, conns, subs, topic_id, msg_id, data);
            &&& unique_keys(r.asleep)
            &&& kept_for(r.asleep, a) == kept_for(o.asleep, a) + kept_by(
                subs,
                a,
                topic_id,
                msg_id,
                data,
            )
            &&& frames_for(r.egress, a) == frames_for(o.egress, a)
            &&& forall|k: RetransKey| k.addr == a ==> lookup(r.wheel, k) == lookup(o.wheel, k)
        }),
    decreases subs.len(),
{
    let r = fan_out(o, hand, conns, subs, topic_id, msg_id, data);
    lemma_fan_out_frames(o, hand, conns, subs, topic_id, msg_id, data);
    lemma_no_frames_for_others(conns, subs, topic_id, msg_id, data, a);
    lemma_frames_for_add(o.egress, publish_frames(conns, subs, topic_id, msg_id, data), a);
    assert forall|k: RetransKey| k.addr == a implies !awaited_by(
        conns,
        subs,
        topic_id,
        msg_id,
        k,
    ) by {
        if awaited_by(conns, subs, topic_id, msg_id, k) {
            let j = choose|j: int|
                0 <= j < subs.len() && state_of(conns, (#[trigger] subs[j]).socket_addr) == Some(
                    StateEnum2::ACTIVE,
                ) && reply_key(subs[j], topic_id, msg_id) == Some(k);
            assert(k.addr == subs[j].socket_addr);
        }
    }
    if subs.len() > 0 {
        let init = subs.drop_last();
        let s = subs.last();
        let prev = fan_out(o, hand, conns, init, topic_id, msg_id, data);
        lemma_fan_out_keeps(o, hand, conns, init, topic_id, msg_id, data, a);
        let kept = publish_msg(topic_id, msg_id, s.qos, RETAIN_FALSE, data);
        if state_of(conns, s.socket_addr) == Some(StateEnum2::ASLEEP) {
            lemma_with(prev.asleep, s.socket_addr, kept_for(prev.asleep, s.socket_addr).push(kept));
        } else {
            assert(r.asleep == prev.asleep);
        }
        if s.socket_addr == a {
            assert(kept_for(r.asleep, a) =~= kept_for(o.asleep, a) + kept_by(
                subs,
                a,
                topic_id,
                msg_id,
                data,
            ));
        }
    } else {
        assert(kept_for(r.asleep, a) =~= kept_for(o.asleep, a) + kept_by(
            subs,
            a,
            topic_id,
            msg_id,
            data,
        ));
    }
}

/// A subscriber that is asleep, in a list in which no peer stands twice,
/// is sent nothing by a fan-out of a publication that has a frame: the
/// publication is kept for it behind what was kept, once, at the
/// subscriber's QoS, and what waits in the wheel for its replies is as it
/// was.
pub proof fn lemma_sleeper_is_kept_for(
    o: Outbox,
    hand: usize,
    conns: Seq<(PeerAddr, ConnModel)>,
    subs: Seq<Subscriber>,
    topic_id: u16,
    msg_id: u16,
    data: Seq<u8>,
    i: int,
)
    requires
        unique_keys(o.wheel),
        unique_keys(o.asleep),
        peers_distinct(subs),
        publication_fits(data),
        0 <= i < subs.len(),
        state_of(conns, subs[i].socket_addr) == Some(StateEnum2::ASLEEP),
    ensures
        ({
            let r = fan_out(o, hand, conns, subs, topic_id, msg_id, data);
            let a = subs[i].socket_addr;
            &&& kept_for(r.asleep, a) == kept_for(o.asleep, a).push(
                publish_msg(topic_id, msg_id, subs[i].qos, RETAIN_FALSE, data),
            )
            &&& frames_for(r.egress, a) == frames_for(o.egress, a)
            &&& forall|k: RetransKey| k.addr == a ==> lookup(r.wheel, k) == lookup(o.wheel, k)
        }),
{
    let a = subs[i].socket_addr;
    lemma_fan_out_keeps(o, hand, conns, subs, topic_id, msg_id, data, a);
    lemma_kept_by_once(subs, topic_id, msg_id, data, i);
    let r = fan_out(o, hand, conns, subs, topic_id, msg_id, data);
    assert(kept_for(r.asleep, a) =~= kept_for(o.asleep, a).push(
        publish_msg(topic_id, msg_id, subs[i].qos, RETAIN_FALSE, data),
    ));
}

/// Where every subscriber of a list is active, the frames that they are
/// sent are as many as they are: one for each, in the order of the list,
/// addressed to the subscriber, at its own QoS.
pub proof fn lemma_all_active_frames(
    conns: Seq<(PeerAddr, ConnModel)>,
    subs: Seq<Subscriber>,
    topic_id: u16,
    msg_id: u16,
    data: Seq<u8>,
)
    requires
        forall|i: int|
            0 <= i < subs.len() ==> state_of(conns, (#[trigger] subs[i]).socket_addr) == Some(
                StateEnum2::ACTIVE,
            ),
    ensures
        publish_frames(conns, subs, topic_id, msg_id, data).len() == subs.len(),
        forall|i: int|
            0 <= i < subs.len() ==> #[trigger] publish_frames(conns, subs, topic_id, msg_id, data)[i]
                == (subs[i].socket_addr, frame_for(subs[i], topic_id, msg_id, data)),
    decreases subs.len(),
{
    if subs.len() > 0 {
        let init = subs.drop_last();
        assert forall|i: int| 0 <= i < init.len() implies state_of(
            conns,
            (#[trigger] init[i]).socket_addr,
        ) == Some(StateEnum2::ACTIVE) by {
            assert(init[i] == subs[i]);
        }
        lemma_all_active_frames(conns, init, topic_id, msg_id, data);
        assert(subs[subs.len() - 1] == subs.last());
        let frames = publish_frames(conns, subs, topic_id, msg_id, data);
        let frames0 = publish_frames(conns, init, topic_id, msg_id, data);
        assert forall|i: int| 0 <= i < subs.len() implies #[trigger] frames[i] == (
            subs[i].socket_addr,
            frame_for(subs[i], topic_id, msg_id, data),
        ) by {
            if i < init.len() {
                assert(frames[i] == frames0[i]);
                assert(init[i] == subs[i]);
            }
        }
    }
}

} // verus!
