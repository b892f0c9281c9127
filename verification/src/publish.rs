//! PUBLISH: sending a publication to a subscriber, fanning one out to the
//! subscribers of its topic, and receiving one from a publisher.
//!
//! Frame: Length, MsgType, Flags, TopicId (2), MsgId (2), Data.
use crate::asleep_msg_cache::{keep_for, AsleepMsgCache};
use crate::biset::Subscriber;
use crate::broker_lib::MqttSnClient;
use crate::buf::{buf_bytes, buf_len};
use crate::connection::{state_of, ConnModel, Connection, StateEnum2};
use crate::error::BrokerError;
use crate::flags::{
    flag_is_retain, flag_qos_level, flags_of, flags_set, qos_of, CLEAN_SESSION_FALSE, DUP_FALSE,
    QOS_LEVEL_1, QOS_LEVEL_2, QOS_LEVEL_3, RETAIN_FALSE, RETAIN_MASK, RETAIN_TRUE,
    TOPIC_ID_TYPE_NORMAL, WILL_FALSE,
};
use crate::message::{mirrors, read_as, MessageTypeEnum, PubAck, PubRec, Publish};
use crate::model::{kept_have_frames, result_is, route, BrokerModel, Outbox};
use crate::msg_hdr::{
    body_fits, MSG_LEN_PUBACK, MSG_LEN_PUBREC, MSG_TYPE_PUBACK, MSG_TYPE_PUBLISH, MSG_TYPE_PUBREC,
    MSG_TYPE_PUBREL, MsgHeader, PeerAddr, RETURN_CODE_ACCEPTED,
};
use crate::pub_msg_cache::{PendingModel, PubKey, PubMsgCache};
use crate::retain::{retained_with, Retain};
use crate::retransmit::{slot_after, RetransKey, RetransModel};
use crate::table::{has_key, lemma_mapped, lemma_without, replaced, unique_keys};
use crate::wire::{encode, Msg};
use bytes::BytesMut;
use vstd::prelude::*;

verus! {

/// How often a publication at QoS 1 is sent again while its PUBACK is missing.
pub const PUBACK_RETRIES: u8 = 10;

/// How often a publication at QoS 2 is sent again while its PUBREC is missing.
pub const PUBREC_RETRIES: u8 = 1;

/// The PUBLISH that the broker sends: the topic by its id, not a duplicate.
pub open spec fn publish_msg(
    topic_id: u16,
    msg_id: u16,
    qos: u8,
    retain: u8,
    data: Seq<u8>,
) -> Msg {
    Msg::Publish {
        flags: flags_of(
            DUP_FALSE,
            qos,
            retain,
            WILL_FALSE,
            CLEAN_SESSION_FALSE,
            TOPIC_ID_TYPE_NORMAL,
        ),
        topic_id,
        msg_id,
        data,
    }
}

/// The reply that a publication at a QoS level awaits, and how often the
/// publication is sent again while it is missing: a PUBACK at QoS 1, a
/// PUBREC at QoS 2, none at the other levels.
pub open spec fn awaited_reply(qos: u8) -> Option<(u8, u8)> {
    if qos_of(qos) == QOS_LEVEL_1 {
        Some((MSG_TYPE_PUBACK, PUBACK_RETRIES))
    } else if qos_of(qos) == QOS_LEVEL_2 {
        Some((MSG_TYPE_PUBREC, PUBREC_RETRIES))
    } else {
        None
    }
}

/// Whether a publication with these data has a frame: flags, topic id and
/// message id stand before the data, and the frame is no longer than 65535
/// octets.
pub open spec fn publication_fits(data: Seq<u8>) -> bool {
    body_fits(5 + data.len())
}

/// The key under which a publication to a peer waits for the reply that
/// its QoS level awaits, where it awaits one.
pub open spec fn awaited_key(to: PeerAddr, topic_id: u16, msg_id: u16, qos: u8) -> Option<
    RetransKey,
> {
    match awaited_reply(qos) {
        Some((reply, _)) => Some(RetransKey { addr: to, msg_type: reply, topic_id, msg_id }),
        None => None,
    }
}

/// What sending a publication to a peer does to the outbox, and how it
/// ends. A publication that has no frame is not sent. Any other is sent,
/// and where it awaits a reply it is scheduled to be sent again, under the
/// peer, the reply, its topic id and its message id. A frame that waits
/// under that key already gives way to it: the peer is sent the same
/// publication anew, and one reply will end the wait.
pub open spec fn publish_send(
    o: Outbox,
    hand: usize,
    topic_id: u16,
    msg_id: u16,
    qos: u8,
    retain: u8,
    data: Seq<u8>,
    to: PeerAddr,
) -> (Outbox, Result<(), BrokerError>) {
    let frame = encode(publish_msg(topic_id, msg_id, qos, retain, data));
    if !publication_fits(data) {
        (o, Err(BrokerError::FrameTooLong))
    } else {
        match awaited_reply(qos) {
            Some((reply, retries)) => (
                Outbox {
                    egress: o.egress.push((to, frame)),
                    wheel: replaced(
                        o.wheel,
                        RetransKey { addr: to, msg_type: reply, topic_id, msg_id },
                        RetransModel { frame, retries, tried: 0, slot: slot_after(hand, 1) },
                    ),
                    asleep: o.asleep,
                },
                Ok(()),
            ),
            None => (
                Outbox { egress: o.egress.push((to, frame)), wheel: o.wheel, asleep: o.asleep },
                Ok(()),
            ),
        }
    }
}

/// A publication that has a frame is sent, whatever waits in the wheel:
/// its frame is the one more on the egress queue. With up to 248 octets of
/// data the frame begins with its length in one octet; with more, up to
/// 65526 octets, it begins with the octet 1 and its length in two octets,
/// high octet first. The type, the flags, the topic id and the message id
/// follow, and then the data.
pub proof fn lemma_publication_is_sent(
    o: Outbox,
    hand: usize,
    topic_id: u16,
    msg_id: u16,
    qos: u8,
    retain: u8,
    data: Seq<u8>,
    to: PeerAddr,
)
    requires
        publication_fits(data),
    ensures
        ({
            let sent = publish_send(o, hand, topic_id, msg_id, qos, retain, data, to);
            let f = encode(publish_msg(topic_id, msg_id, qos, retain, data));
            let at: int = if data.len() <= 248 {
                2
            } else {
                4
            };
            &&& sent.1 is Ok
            &&& sent.0.egress == o.egress.push((to, f))
            &&& sent.0.asleep == o.asleep
            &&& data.len() <= 248 ==> f.len() == data.len() + 7 && f[0] == f.len() && f[1]
                == MSG_TYPE_PUBLISH
            &&& data.len() > 248 ==> f.len() == data.len() + 9 && f[0] == 1 && f[1] * 256 + f[2]
                == f.len() && f[3] == MSG_TYPE_PUBLISH
            &&& f[at] == publish_msg(topic_id, msg_id, qos, retain, data)->Publish_flags
            &&& f[at + 1] == topic_id / 256
            &&& f[at + 2] == topic_id % 256
            &&& f[at + 3] == msg_id / 256
            &&& f[at + 4] == msg_id % 256
            &&& f.skip(at + 5) == data
        }),
{
    let m = publish_msg(topic_id, msg_id, qos, retain, data);
    let f = encode(m);
    crate::wire::lemma_publish_body_len(m);
    crate::msg_hdr::lemma_length_prefix(MSG_TYPE_PUBLISH, crate::wire::body_of(m));
    let at: int = if data.len() <= 248 {
        2
    } else {
        4
    };
    let body = crate::wire::body_of(m);
    assert(f.skip(at) == body);
    assert(forall|i: int| 0 <= i < body.len() ==> f[at + i] == #[trigger] f.skip(at)[i]);
    assert(body[0] == f.skip(at)[0]);
    assert(body[1] == f.skip(at)[1]);
    assert(body[2] == f.skip(at)[2]);
    assert(body[3] == f.skip(at)[3]);
    assert(body[4] == f.skip(at)[4]);
    assert(f.skip(at + 5) =~= data) by {
        assert(body.skip(5) =~= data);
        assert(f.skip(at + 5) =~= f.skip(at).skip(5));
    }
}

/// What delivering a publication to one subscriber does to the outbox: to
/// an active peer it is sent at the subscriber's QoS, for a peer that is
/// asleep it is kept, and for any other nothing happens. A publication that
/// has no frame is neither sent nor kept.
pub open spec fn deliver(
    o: Outbox,
    hand: usize,
    conns: Seq<(PeerAddr, ConnModel)>,
    s: Subscriber,
    topic_id: u16,
    msg_id: u16,
    data: Seq<u8>,
) -> Outbox {
    match state_of(conns, s.socket_addr) {
        Some(StateEnum2::ACTIVE) => publish_send(
            o,
            hand,
            topic_id,
            msg_id,
            s.qos,
            RETAIN_FALSE,
            data,
            s.socket_addr,
        ).0,
        Some(StateEnum2::ASLEEP) => if publication_fits(data) {
            Outbox {
                egress: o.egress,
                wheel: o.wheel,
                asleep: keep_for(
                    o.asleep,
                    s.socket_addr,
                    publish_msg(topic_id, msg_id, s.qos, RETAIN_FALSE, data),
                ),
            }
        } else {
            o
        },
        _ => o,
    }
}

/// What delivering a publication to a list of subscribers does to the
/// outbox: they are served one after the other.
pub open spec fn fan_out(
    o: Outbox,
    hand: usize,
    conns: Seq<(PeerAddr, ConnModel)>,
    subs: Seq<Subscriber>,
    topic_id: u16,
    msg_id: u16,
    data: Seq<u8>,
) -> Outbox
    decreases subs.len(),
{
    if subs.len() == 0 {
        o
    } else {
        deliver(
            fan_out(o, hand, conns, subs.drop_last(), topic_id, msg_id, data),
            hand,
            conns,
            subs.last(),
            topic_id,
            msg_id,
            data,
        )
    }
}

/// Whether a publication with these data has a frame.
pub fn has_frame(data: &BytesMut) -> (r: bool)
    ensures
        r == publication_fits(buf_bytes(*data)),
{
    buf_len(data) <= 65526
}

/// Keeping a publication that has a frame leaves every kept publication
/// with a frame.
pub proof fn lemma_kept(asleep: Seq<(PeerAddr, Seq<Msg>)>, addr: PeerAddr, m: Msg)
    requires
        unique_keys(asleep),
        kept_have_frames(asleep),
        publication_fits(m->Publish_data),
    ensures
        kept_have_frames(keep_for(asleep, addr, m)),
{
    let t = keep_for(asleep, addr, m);
    assert forall|i: int, j: int| 0 <= i < t.len() && 0 <= j < t[i].1.len() implies publication_fits(
        (#[trigger] t[i].1[j])->Publish_data,
    ) by {
        if has_key(asleep, addr) {
            let at = crate::table::position(asleep, addr);
            if i == at {
                if j < asleep[at].1.len() {
                    assert(t[i].1[j] == asleep[at].1[j]);
                }
            } else {
                assert(t[i] == asleep[i]);
            }
        } else if i < asleep.len() {
            assert(t[i] == asleep[i]);
        }
    }
}

impl Publish {
    /// The PUBLISH that the broker sends for a topic id.
    pub fn new(topic_id: u16, msg_id: u16, qos: u8, retain: u8, data: BytesMut) -> (p: Publish)
        ensures
            p@ == publish_msg(topic_id, msg_id, qos, retain, buf_bytes(data)),
            mirrors(p.len, p.msg_type, p@),
            p.data == data,
    {
        let n = buf_len(&data);
        let len: u8 = if n <= 248 {
            (n + 7) as u8
        } else {
            1
        };
        let flags = flags_set(
            DUP_FALSE,
            qos,
            retain,
            WILL_FALSE,
            CLEAN_SESSION_FALSE,
            TOPIC_ID_TYPE_NORMAL,
        );
        let p = Publish { len, msg_type: MSG_TYPE_PUBLISH, flags, topic_id, msg_id, data };
        proof {
            crate::wire::lemma_publish_body_len(p@);
        }
        p
    }

    /// Publish a message to a peer: the frame is put on the egress queue,
    /// and scheduled to be sent again where the QoS level awaits a reply.
    /// Only data that no frame can hold are refused.
    pub fn send(
        topic_id: u16,
        msg_id: u16,
        qos: u8,
        retain: u8,
        data: BytesMut,
        client: &mut MqttSnClient,
        remote_addr: PeerAddr,
    ) -> (r: Result<(), BrokerError>)
        requires
            old(client).wf(),
        ensures
            final(client).wf(),
            final(client).same_but_outbox(old(client)),
            (final(client).outbox(), r) == publish_send(
                old(client).outbox(),
                old(client).retransmit.hand(),
                topic_id,
                msg_id,
                qos,
                retain,
                buf_bytes(data),
                remote_addr,
            ),
    {
        let publish = MessageTypeEnum::Publish(Publish::new(topic_id, msg_id, qos, retain, data));
        proof {
            crate::wire::lemma_publish_body_len(publish@);
        }
        let frame = match publish.encode_frame() {
            Ok(frame) => frame,
            Err(e) => {
                return Err(e);
            },
        };
        let level = flag_qos_level(qos);
        if level == QOS_LEVEL_1 {
            let _ = client.retransmit.cancel_timer(remote_addr, MSG_TYPE_PUBACK, topic_id, msg_id);
            let _ = client.retransmit.schedule_timer(
                remote_addr,
                MSG_TYPE_PUBACK,
                topic_id,
                msg_id,
                PUBACK_RETRIES,
                frame.clone(),
            );
        } else if level == QOS_LEVEL_2 {
            let _ = client.retransmit.cancel_timer(remote_addr, MSG_TYPE_PUBREC, topic_id, msg_id);
            let _ = client.retransmit.schedule_timer(
                remote_addr,
                MSG_TYPE_PUBREC,
                topic_id,
                msg_id,
                PUBREC_RETRIES,
                frame.clone(),
            );
        }
        proof {
            old(client).retransmit.lemma_wf();
            lemma_without(
                old(client).retransmit@,
                RetransKey { addr: remote_addr, msg_type: MSG_TYPE_PUBACK, topic_id, msg_id },
            );
            lemma_without(
                old(client).retransmit@,
                RetransKey { addr: remote_addr, msg_type: MSG_TYPE_PUBREC, topic_id, msg_id },
            );
        }
        client.egress_tx.try_send(remote_addr, frame);
        Ok(())
    }

    /// Send a publication to the subscribers of its topic, one after the
    /// other, each at its own QoS. What is kept for a peer that is asleep is
    /// the publication that an active peer would have been sent.
    pub fn send_msg_to_subscribers(
        subscriber_vec: Vec<Subscriber>,
        publish: Publish,
        client: &mut MqttSnClient,
    ) -> (r: Result<(), BrokerError>)
        requires
            old(client).wf(),
        ensures
            r is Ok,
            final(client).wf(),
            final(client).same_but_outbox(old(client)),
            final(client).outbox() == fan_out(
                old(client).outbox(),
                old(client).retransmit.hand(),
                old(client).conns(),
                subscriber_vec@,
                publish.topic_id,
                publish.msg_id,
                buf_bytes(publish.data),
            ),
    {
        let ghost o0 = client.outbox();
        let ghost hand = client.retransmit.hand();
        let ghost conns = client.conns();
        let ghost data = buf_bytes(publish.data);
        let mut i: usize = 0;
        assert(subscriber_vec@.take(0) =~= Seq::<Subscriber>::empty());
        while i < subscriber_vec.len()
            invariant
                i <= subscriber_vec.len(),
                client.wf(),
                client.same_but_outbox(old(client)),
                hand == old(client).retransmit.hand(),
                conns == old(client).conns(),
                data == buf_bytes(publish.data),
                client.outbox() == fan_out(
                    o0,
                    hand,
                    conns,
                    subscriber_vec@.take(i as int),
                    publish.topic_id,
                    publish.msg_id,
                    data,
                ),
            decreases subscriber_vec.len() - i,
        {
            let subscriber = subscriber_vec[i];
            proof {
                let next = subscriber_vec@.take(i + 1);
                assert(next.drop_last() =~= subscriber_vec@.take(i as int));
                assert(next.last() == subscriber);
            }
            match Connection::get_state(&client.connections, &subscriber.socket_addr) {
                Ok(StateEnum2::ACTIVE) => {
                    let _ = Publish::send(
                        publish.topic_id,
                        publish.msg_id,
                        subscriber.qos,
                        RETAIN_FALSE,
                        publish.data.clone(),
                        client,
                        subscriber.socket_addr,
                    );
                },
                Ok(StateEnum2::ASLEEP) => {
                    if has_frame(&publish.data) {
                        proof {
                            lemma_kept(
                                client.outbox().asleep,
                                subscriber.socket_addr,
                                publish_msg(
                                    publish.topic_id,
                                    publish.msg_id,
                                    subscriber.qos,
                                    RETAIN_FALSE,
                                    data,
                                ),
                            );
                        }
                        AsleepMsgCache::insert(
                            &mut client.asleep_msg_cache,
                            subscriber.socket_addr,
                            Publish::new(
                                publish.topic_id,
                                publish.msg_id,
                                subscriber.qos,
                                RETAIN_FALSE,
                                publish.data.clone(),
                            ),
                        );
                    }
                },
                _ => {},
            }
            i += 1;
        }
        assert(subscriber_vec@.take(subscriber_vec@.len() as int) =~= subscriber_vec@);
        Ok(())
    }
}

/// Why a peer in a state may not publish at the QoS of the flags, if it
/// may not. A peer without a connection may publish at QoS 3 only, a
/// connected peer must be active and may not publish at QoS 3.
pub open spec fn publish_forbidden(state: Option<StateEnum2>, flags: u8) -> Option<BrokerError> {
    match state {
        None => if qos_of(flags) == QOS_LEVEL_3 {
            None
        } else {
            Some(BrokerError::NotConnected)
        },
        Some(StateEnum2::ACTIVE) => if qos_of(flags) == QOS_LEVEL_3 {
            Some(BrokerError::QosNotSupported)
        } else {
            None
        },
        Some(_) => Some(BrokerError::BadState),
    }
}

/// The broker after it received the PUBLISH `p` from `peer`, who was
/// allowed to send it.
///
/// The subscribers are those of the topic id when the publication comes.
/// The publication is retained where its flags ask for it. At QoS 2 a
/// PUBREC is sent and scheduled to be sent again, and the publication waits
/// with its subscribers for its release; nothing is delivered yet. Where a
/// publication of the peer waits under the message id already, this one is
/// a repetition: the PUBREC is sent again, and no more. At QoS 1 a PUBACK
/// is sent, and then the publication is delivered; at the other levels it
/// is delivered at once.
pub open spec fn published(m: BrokerModel, peer: PeerAddr, p: Msg) -> BrokerModel {
    let flags = p->Publish_flags;
    let topic_id = p->Publish_topic_id;
    let msg_id = p->Publish_msg_id;
    let data = p->Publish_data;
    let subs = m.recipients(topic_id);
    let level = qos_of(flags);
    let o = m.outbox;
    let m1 = BrokerModel {
        retained: if flags & RETAIN_MASK == RETAIN_TRUE {
            retained_with(m.retained, level, topic_id, msg_id, data)
        } else {
            m.retained
        },
        ..route(m, topic_id)
    };
    if level == QOS_LEVEL_2 {
        let pubrec = encode(Msg::PubRec { msg_id });
        let key = RetransKey { addr: peer, msg_type: MSG_TYPE_PUBREL, topic_id: 0, msg_id };
        let pkey = PubKey { addr: peer, msg_id };
        if has_key(m.pending, pkey) {
            BrokerModel {
                outbox: Outbox {
                    egress: o.egress.push((peer, pubrec)),
                    wheel: o.wheel,
                    asleep: o.asleep,
                },
                ..m1
            }
        } else {
            BrokerModel {
                outbox: Outbox {
                    egress: o.egress.push((peer, pubrec)),
                    wheel: replaced(
                        o.wheel,
                        key,
                        RetransModel {
                            frame: pubrec,
                            retries: PUBREC_RETRIES,
                            tried: 0,
                            slot: slot_after(m.hand, 1),
                        },
                    ),
                    asleep: o.asleep,
                },
                pending: m.pending.push((pkey, PendingModel { publish: p, subscribers: subs })),
                ..m1
            }
        }
    } else {
        let acked = if level == QOS_LEVEL_1 {
            Outbox {
                egress: o.egress.push(
                    (
                        peer,
                        encode(Msg::PubAck { topic_id, msg_id, return_code: RETURN_CODE_ACCEPTED }),
                    ),
                ),
                wheel: o.wheel,
                asleep: o.asleep,
            }
        } else {
            o
        };
        BrokerModel { outbox: fan_out(acked, m.hand, m.conns, subs, topic_id, msg_id, data), ..m1 }
    }
}

/// Why a PUBLISH is refused, if it is: it does not decode, the peer may
/// not publish, or, at QoS 2, a publication of the peer with the same
/// message id waits for its release already.
pub open spec fn publish_refusal(
    m: BrokerModel,
    peer: PeerAddr,
    buf: Seq<u8>,
    size: usize,
) -> Option<BrokerError> {
    match read_as(buf, size, |x: Msg| Publish::wanted(x)) {
        Ok(p) => match publish_forbidden(state_of(m.conns, peer), p->Publish_flags) {
            Some(e) => Some(e),
            None => {
                if qos_of(p->Publish_flags) == QOS_LEVEL_2 && has_key(
                    m.pending,
                    PubKey { addr: peer, msg_id: p->Publish_msg_id },
                ) {
                    Some(BrokerError::AlreadyPending)
                } else {
                    None
                }
            },
        },
        Err(e) => Some(BrokerError::Decode(e)),
    }
}

/// What a PUBLISH makes of the broker. One that the peer was allowed to
/// send has its effect also where it is refused in the end.
pub open spec fn publish_effect(
    m: BrokerModel,
    peer: PeerAddr,
    buf: Seq<u8>,
    size: usize,
) -> BrokerModel {
    match read_as(buf, size, |x: Msg| Publish::wanted(x)) {
        Ok(p) => if publish_forbidden(state_of(m.conns, peer), p->Publish_flags) is None {
            published(m, peer, p)
        } else {
            m
        },
        Err(_) => m,
    }
}

impl Publish {
    /// Receives a PUBLISH from the peer of the header.
    pub fn recv(buf: &[u8], size: usize, client: &mut MqttSnClient, msg_header: MsgHeader) -> (r:
        Result<(), BrokerError>)
        requires
            old(client).wf(),
        ensures
            final(client).wf(),
            final(client).model() == publish_effect(
                old(client).model(),
                msg_header.remote_socket_addr,
                buf@,
                size,
            ),
            result_is(
                r,
                publish_refusal(old(client).model(), msg_header.remote_socket_addr, buf@, size),
            ),
    {
        let publish = match Publish::try_read(buf, size) {
            Ok(publish) => publish,
            Err(e) => {
                return Err(BrokerError::Decode(e));
            },
        };
        let peer = msg_header.remote_socket_addr;
        let level = flag_qos_level(publish.flags);
        match Connection::get_state(&client.connections, &peer) {
            Ok(StateEnum2::ACTIVE) => {
                if level == QOS_LEVEL_3 {
                    return Err(BrokerError::QosNotSupported);
                }
            },
            Ok(_) => {
                return Err(BrokerError::BadState);
            },
            Err(_) => {
                if level != QOS_LEVEL_3 {
                    return Err(BrokerError::NotConnected);
                }
            },
        }
        let topic_id = publish.topic_id;
        let msg_id = publish.msg_id;
        let subs = client.delivery_list(topic_id);
        if flag_is_retain(publish.flags) {
            Retain::insert(&mut client.retain, level, topic_id, msg_id, publish.data.clone());
        }
        if level == QOS_LEVEL_2 {
            let rec = MessageTypeEnum::PubRec(
                PubRec { len: MSG_LEN_PUBREC, msg_type: MSG_TYPE_PUBREC, msg_id },
            );
            let frame = client.reply(peer, &rec);
            proof {
                lemma_mapped(client.pub_msg_cache@, |c: PubMsgCache| c@);
                client.retransmit.lemma_wf();
                lemma_without(
                    client.retransmit@,
                    RetransKey { addr: peer, msg_type: MSG_TYPE_PUBREL, topic_id: 0, msg_id },
                );
            }
            if client.pub_msg_cache.find(&PubKey { addr: peer, msg_id }).is_some() {
                assert(client.model() =~= published(old(client).model(), peer, publish@));
                return Err(BrokerError::AlreadyPending);
            }
            let _ = client.retransmit.cancel_timer(peer, MSG_TYPE_PUBREL, 0, msg_id);
            let _ = client.retransmit.schedule_timer(
                peer,
                MSG_TYPE_PUBREL,
                0,
                msg_id,
                PUBREC_RETRIES,
                frame,
            );
            let ghost p = publish@;
            let r = PubMsgCache::try_insert(
                &mut client.pub_msg_cache,
                PubKey { addr: peer, msg_id },
                PubMsgCache { publish, subscriber_vec: subs },
            );
            assert(client.model() =~= published(old(client).model(), peer, p));
            r
        } else {
            if level == QOS_LEVEL_1 {
                let ack = MessageTypeEnum::PubAck(
                    PubAck {
                        len: MSG_LEN_PUBACK,
                        msg_type: MSG_TYPE_PUBACK,
                        topic_id,
                        msg_id,
                        return_code: RETURN_CODE_ACCEPTED,
                    },
                );
                let _ = client.reply(peer, &ack);
            }
            let ghost p = publish@;
            let r = Publish::send_msg_to_subscribers(subs, publish, client);
            assert(client.model() =~= published(old(client).model(), peer, p));
            r
        }
    }
}

} // verus!
