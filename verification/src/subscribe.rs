//! SUBSCRIBE: a peer subscribes to a topic, given by its name, by a
//! wildcard filter or by a pre-defined id.
//!
//! Frame: Length, MsgType, Flags, MsgId (2), TopicName or TopicId (2).
use crate::broker_lib::MqttSnClient;
use crate::connect::{id_for, is_registered, registered, state_error};
use crate::connection::{state_of, Connection, StateEnum2};
use crate::error::BrokerError;
use crate::filter::{
    filter_is_valid, has_wildcard_chars, has_wildcards, insert_filter,
    insert_subscriber_with_topic_id, valid_filter, with_id_subscriber,
};
use crate::flags::{
    flag_topic_id_type, flags_of, flags_set, qos_of, topic_id_type_of, CLEAN_SESSION_FALSE,
    DUP_FALSE, RETAIN_TRUE, TOPIC_ID_TYPE_NORMAL, TOPIC_ID_TYPE_PRE_DEFINED, WILL_FALSE,
};
use crate::message::{mirrors, read_as, MessageTypeEnum, Publish, SubAck, Subscribe};
use crate::model::{result_is, sent, BrokerModel, Outbox};
use crate::msg_hdr::{
    body_fits, MSG_LEN_SUBACK, MSG_TYPE_SUBACK, MSG_TYPE_SUBSCRIBE, PeerAddr, RETURN_CODE_ACCEPTED,
};
use crate::publish::publish_send;
use crate::retain::Retain;
use crate::retransmit::{slot_after, RetransKey, RetransModel};
use crate::table::{has_key, lemma_mapped, lookup};
use crate::topic_registry::{try_insert_topic_name, TOPIC_ID_END};
use crate::wire::{body_of, encode, Msg};
use vstd::prelude::*;

verus! {

/// How often a SUBSCRIBE is sent again while its SUBACK is missing.
pub const SUBACK_RETRIES: u8 = 10;

/// The broker after a peer subscribed to a topic id: the subscription takes
/// the place of what the peer held for the id, a SUBACK with the id is
/// sent, and then what is retained for the id, with its retain flag set.
pub open spec fn subscribed_to(
    m: BrokerModel,
    peer: PeerAddr,
    flags: u8,
    msg_id: u16,
    topic_id: u16,
) -> BrokerModel {
    let m1 = BrokerModel {
        by_id: with_id_subscriber(m.by_id, topic_id, peer, qos_of(flags)),
        ..m
    };
    let m2 = sent(
        m1,
        peer,
        encode(Msg::SubAck { flags, topic_id, msg_id, return_code: RETURN_CODE_ACCEPTED }),
    );
    match lookup(m.retained, topic_id) {
        Some(x) => BrokerModel {
            outbox: publish_send(
                m2.outbox,
                m.hand,
                topic_id,
                x.msg_id,
                x.qos,
                RETAIN_TRUE,
                x.payload,
                peer,
            ).0,
            ..m2
        },
        None => m2,
    }
}

/// The broker after a peer subscribed to a wildcard filter: the
/// subscription is held, the resolved cache is empty, and a SUBACK with the
/// topic id 0 is sent.
pub open spec fn subscribed_to_filter(
    m: BrokerModel,
    peer: PeerAddr,
    flags: u8,
    msg_id: u16,
    filter: Seq<char>,
) -> BrokerModel {
    sent(
        BrokerModel { wildcards: m.wildcards.insert((filter, peer)), resolved: Set::empty(), ..m },
        peer,
        encode(Msg::SubAck { flags, topic_id: 0, msg_id, return_code: RETURN_CODE_ACCEPTED }),
    )
}

/// Why the SUBSCRIBE `s` of a peer is refused, if it is. The peer must be
/// active. A topic name must be valid, and a new one needs a free id. Short
/// topic names are not served.
pub open spec fn subscribe_refused(m: BrokerModel, peer: PeerAddr, s: Msg) -> Option<BrokerError> {
    let kind = topic_id_type_of(s->Subscribe_flags);
    let name = s->Subscribe_topic_name;
    match state_error(state_of(m.conns, peer), StateEnum2::ACTIVE) {
        Some(e) => Some(e),
        None => if kind == TOPIC_ID_TYPE_PRE_DEFINED {
            None
        } else if kind != TOPIC_ID_TYPE_NORMAL {
            Some(BrokerError::TopicIdTypeNotSupported)
        } else if !filter_is_valid(name) {
            Some(BrokerError::InvalidFilter)
        } else if !has_wildcard_chars(name) && !is_registered(m.names, name) && m.next_id
            == TOPIC_ID_END {
            Some(BrokerError::TopicIdsExhausted)
        } else {
            None
        },
    }
}

/// The broker after a peer subscribed with the SUBSCRIBE `s`, which was not
/// refused. A topic name is registered and subscribed to by its id.
pub open spec fn subscribed(m: BrokerModel, peer: PeerAddr, s: Msg) -> BrokerModel {
    let flags = s->Subscribe_flags;
    let msg_id = s->Subscribe_msg_id;
    let name = s->Subscribe_topic_name;
    if topic_id_type_of(flags) == TOPIC_ID_TYPE_PRE_DEFINED {
        subscribed_to(m, peer, flags, msg_id, s->Subscribe_topic_id)
    } else if has_wildcard_chars(name) {
        subscribed_to_filter(m, peer, flags, msg_id, name)
    } else {
        subscribed_to(registered(m, name), peer, flags, msg_id, id_for(m, name))
    }
}

/// Why a SUBSCRIBE is refused, if it is.
pub open spec fn subscribe_refusal(
    m: BrokerModel,
    peer: PeerAddr,
    buf: Seq<u8>,
    size: usize,
) -> Option<BrokerError> {
    match read_as(buf, size, |x: Msg| Subscribe::wanted(x)) {
        Ok(s) => subscribe_refused(m, peer, s),
        Err(e) => Some(BrokerError::Decode(e)),
    }
}

/// What a SUBSCRIBE makes of the broker.
pub open spec fn subscribe_effect(
    m: BrokerModel,
    peer: PeerAddr,
    buf: Seq<u8>,
    size: usize,
) -> BrokerModel {
    if subscribe_refusal(m, peer, buf, size) is None {
        subscribed(m, peer, read_as(buf, size, |x: Msg| Subscribe::wanted(x))->Ok_0)
    } else {
        m
    }
}

/// The SUBSCRIBE that a client sends for a topic name.
pub open spec fn subscribe_msg(qos: u8, retain: u8, msg_id: u16, topic_name: Seq<char>) -> Msg {
    Msg::Subscribe {
        flags: flags_of(
            DUP_FALSE,
            qos,
            retain,
            WILL_FALSE,
            CLEAN_SESSION_FALSE,
            TOPIC_ID_TYPE_NORMAL,
        ),
        msg_id,
        topic_name,
        topic_id: 0,
    }
}

/// What sending a SUBSCRIBE does to the outbox of a client: the frame is
/// sent, and scheduled to be sent again unless the wheel holds its key.
/// Nothing happens where the topic name is too long for a frame.
pub open spec fn subscribe_sent(o: Outbox, hand: usize, to: PeerAddr, s: Msg) -> Outbox {
    let key = RetransKey {
        addr: to,
        msg_type: MSG_TYPE_SUBACK,
        topic_id: 0,
        msg_id: s->Subscribe_msg_id,
    };
    if !body_fits(body_of(s).len()) {
        o
    } else {
        Outbox {
            egress: o.egress.push((to, encode(s))),
            wheel: if has_key(o.wheel, key) {
                o.wheel
            } else {
                o.wheel.push(
                    (
                        key,
                        RetransModel {
                            frame: encode(s),
                            retries: SUBACK_RETRIES,
                            tried: 0,
                            slot: slot_after(hand, 1),
                        },
                    ),
                )
            },
            asleep: o.asleep,
        }
    }
}

impl Subscribe {
    /// The SUBSCRIBE for a topic name.
    pub fn new(qos: u8, retain: u8, msg_id: u16, topic_name: String) -> (s: Subscribe)
        ensures
            s@ == subscribe_msg(qos, retain, msg_id, topic_name@),
            mirrors(s.len, s.msg_type, s@),
    {
        let n = topic_name.as_str().as_bytes().len();
        let len: u8 = if n <= 250 {
            (n + 5) as u8
        } else {
            1
        };
        let flags = flags_set(
            DUP_FALSE,
            qos,
            retain,
            WILL_FALSE,
            CLEAN_SESSION_FALSE,
            TOPIC_ID_TYPE_NORMAL,
        );
        let s = Subscribe {
            len,
            msg_type: MSG_TYPE_SUBSCRIBE,
            flags,
            msg_id,
            topic_name,
            topic_id: 0,
        };
        proof {
            assert(topic_id_type_of(flags) == TOPIC_ID_TYPE_NORMAL) by {
                crate::flags::lemma_flags_round_trip(
                    DUP_FALSE,
                    qos,
                    retain,
                    WILL_FALSE,
                    CLEAN_SESSION_FALSE,
                    TOPIC_ID_TYPE_NORMAL,
                );
                assert(0u8 & 3u8 == 0u8) by (bit_vector);
            }
            crate::wire::lemma_be16(msg_id, 0, 0);
            assert(!crate::wire::is_pre_defined(flags));
            assert(crate::wire::topic_field(flags, s.topic_name@, 0) == vstd::utf8::encode_utf8(
                s.topic_name@,
            ));
            assert(body_of(s@).len() == 3 + n);
        }
        s
    }

    /// Subscribes, as a client, to a topic name at the peer whose address
    /// the state holds: the SUBSCRIBE is sent, and sent again until its
    /// SUBACK comes.
    pub fn send(topic: String, msg_id: u16, qos: u8, retain: u8, client: &mut MqttSnClient) -> (r:
        Result<(), BrokerError>)
        requires
            old(client).wf(),
        ensures
            final(client).wf(),
            final(client).same_but_outbox(old(client)),
            ({
                let s = subscribe_msg(qos, retain, msg_id, topic@);
                let key = RetransKey {
                    addr: old(client).remote_addr,
                    msg_type: MSG_TYPE_SUBACK,
                    topic_id: 0,
                    msg_id,
                };
                &&& final(client).outbox() == subscribe_sent(
                    old(client).outbox(),
                    old(client).retransmit.hand(),
                    old(client).remote_addr,
                    s,
                )
                &&& r is Ok <==> body_fits(body_of(s).len()) && !has_key(
                    old(client).retransmit@,
                    key,
                )
                &&& r matches Err(e) ==> e == if !body_fits(body_of(s).len()) {
                    BrokerError::FrameTooLong
                } else {
                    BrokerError::AlreadyScheduled
                }
            }),
    {
        let subscribe = MessageTypeEnum::Subscribe(Subscribe::new(qos, retain, msg_id, topic));
        let frame = match subscribe.encode_frame() {
            Ok(frame) => frame,
            Err(e) => {
                return Err(e);
            },
        };
        let to = client.remote_addr;
        client.egress_tx.try_send(to, frame.clone());
        client.retransmit.schedule_timer(to, MSG_TYPE_SUBACK, 0, msg_id, SUBACK_RETRIES, frame)
    }

    /// The peer whose datagram is being handled subscribes.
    pub fn recv(buf: &[u8], size: usize, client: &mut MqttSnClient) -> (r: Result<(), BrokerError>)
        requires
            old(client).wf(),
        ensures
            final(client).wf(),
            final(client).model() == subscribe_effect(
                old(client).model(),
                old(client).remote_addr,
                buf@,
                size,
            ),
            result_is(
                r,
                subscribe_refusal(old(client).model(), old(client).remote_addr, buf@, size),
            ),
    {
        let subscribe = match Subscribe::try_read(buf, size) {
            Ok(subscribe) => subscribe,
            Err(e) => {
                return Err(BrokerError::Decode(e));
            },
        };
        let peer = client.remote_addr;
        match Connection::get_state(&client.connections, &peer) {
            Ok(StateEnum2::ACTIVE) => {},
            Ok(_) => {
                return Err(BrokerError::BadState);
            },
            Err(e) => {
                return Err(e);
            },
        }
        let flags = subscribe.flags;
        let msg_id = subscribe.msg_id;
        let kind = flag_topic_id_type(flags);
        let ghost m = old(client).model();
        let ghost name = subscribe.topic_name@;
        let topic_id = if kind == TOPIC_ID_TYPE_PRE_DEFINED {
            subscribe.topic_id
        } else if kind != TOPIC_ID_TYPE_NORMAL {
            return Err(BrokerError::TopicIdTypeNotSupported);
        } else {
            if !valid_filter(subscribe.topic_name.as_str()) {
                return Err(BrokerError::InvalidFilter);
            }
            if has_wildcards(subscribe.topic_name.as_str()) {
                let _ = insert_filter(&mut client.filters, subscribe.topic_name, peer);
                let ack = MessageTypeEnum::SubAck(
                    SubAck {
                        len: MSG_LEN_SUBACK,
                        msg_type: MSG_TYPE_SUBACK,
                        flags,
                        topic_id: 0,
                        msg_id,
                        return_code: RETURN_CODE_ACCEPTED,
                    },
                );
                let _ = client.reply(peer, &ack);
                assert(client.model() =~= subscribed_to_filter(m, peer, flags, msg_id, name));
                return Ok(());
            }
            match try_insert_topic_name(&mut client.topic_names, subscribe.topic_name) {
                Ok(topic_id) => topic_id,
                Err(e) => {
                    return Err(e);
                },
            }
        };
        let ghost m1 = client.model();
        proof {
            if kind != TOPIC_ID_TYPE_PRE_DEFINED {
                assert(m1 =~= registered(m, name));
                assert(topic_id == id_for(m, name));
            }
        }
        let _ = insert_subscriber_with_topic_id(&mut client.filters, peer, topic_id, flags);
        let ack = MessageTypeEnum::SubAck(
            SubAck {
                len: MSG_LEN_SUBACK,
                msg_type: MSG_TYPE_SUBACK,
                flags,
                topic_id,
                msg_id,
                return_code: RETURN_CODE_ACCEPTED,
            },
        );
        let _ = client.reply(peer, &ack);
        proof {
            lemma_mapped(client.retain@, |r: Retain| r@);
        }
        let kept = match Retain::get(&client.retain, topic_id) {
            Some(x) => Some((x.msg_id, x.qos, x.payload.clone())),
            None => None,
        };
        match kept {
            Some((id, qos, payload)) => {
                let _ = Publish::send(topic_id, id, qos, RETAIN_TRUE, payload, client, peer);
            },
            None => {},
        }
        assert(client.model() =~= subscribed_to(m1, peer, flags, msg_id, topic_id));
        Ok(())
    }
}

} // verus!
