//! The setup of a connection: CONNECT, and where the peer announces a will,
//! WILLTOPIC and WILLMSG.
use crate::broker_lib::MqttSnClient;
use crate::buf::buf_with_capacity;
use crate::connection::{ConnModel, Connection, StateEnum2};
use crate::error::BrokerError;
use crate::filter::{filter_is_valid, has_wildcard_chars, has_wildcards, valid_filter};
use crate::flags::{flag_is_will, WILL_MASK, WILL_TRUE};
use crate::keep_alive::fresh_timer;
use crate::message::{read_as, ConnAck, Connect, MessageTypeEnum, WillMsg, WillMsgReq, WillTopic};
use crate::model::{result_is, sent, BrokerModel};
use crate::msg_hdr::{
    MSG_LEN_CONNACK, MSG_LEN_WILL_MSG_REQ, MSG_TYPE_CONNACK, MSG_TYPE_WILL_MSG_REQ, MsgHeader,
    PeerAddr, RETURN_CODE_ACCEPTED,
};
use crate::table::{
    has_key, lemma_mapped, lemma_mapped_changes, lemma_position, lemma_without, lookup, with,
};
use crate::topic_registry::try_insert_topic_name;
use crate::wire::{encode, Msg};
use vstd::prelude::*;

verus! {

/// The id of a registered name.
pub open spec fn id_of(names: Set<(Seq<char>, u16)>, name: Seq<char>) -> u16 {
    choose|id: u16| names.contains((name, id))
}

/// Whether a name has an id.
pub open spec fn is_registered(names: Set<(Seq<char>, u16)>, name: Seq<char>) -> bool {
    exists|id: u16| names.contains((name, id))
}

/// The id that a name has once it was looked up in the registry: the one
/// it had, or else the next free one.
pub open spec fn id_for(m: BrokerModel, name: Seq<char>) -> u16 {
    if is_registered(m.names, name) {
        id_of(m.names, name)
    } else {
        m.next_id
    }
}

/// The broker after a name was looked up in the registry: a new name is
/// registered under the next free id.
pub open spec fn registered(m: BrokerModel, name: Seq<char>) -> BrokerModel {
    if is_registered(m.names, name) {
        m
    } else {
        BrokerModel {
            names: m.names.insert((name, m.next_id)),
            next_id: (m.next_id + 1) as u16,
            ..m
        }
    }
}

/// The broker after the peer connected with the CONNECT `c`. Without a
/// will the connection is active at once: a CONNACK is sent and the
/// keep-alive timer starts. With a will the broker asks for its topic.
pub open spec fn connected(m: BrokerModel, peer: PeerAddr, c: Msg) -> BrokerModel {
    let will = c->Connect_flags & WILL_MASK == WILL_TRUE;
    let conn = ConnModel {
        socket_addr: peer,
        flags: c->Connect_flags,
        protocol_id: c->Connect_protocol_id,
        duration: c->Connect_duration,
        client_id: c->Connect_client_id,
        state: if will {
            StateEnum2::AWAITING_WILL_TOPIC
        } else {
            StateEnum2::ACTIVE
        },
        will_topic_id: None,
        will_flags: 0,
        will_message: Seq::empty(),
    };
    let reply = if will {
        encode(Msg::WillTopicReq)
    } else {
        encode(Msg::ConnAck { return_code: RETURN_CODE_ACCEPTED })
    };
    let m1 = BrokerModel {
        conns: m.conns.push((peer, conn)),
        timers: if will {
            m.timers
        } else {
            with(m.timers, peer, fresh_timer(c->Connect_duration))
        },
        ..m
    };
    sent(m1, peer, reply)
}

/// The broker after the peer, whose connection `c` awaits the topic of its
/// will, sent the WILLTOPIC `t`: the topic's name is registered, the
/// connection holds the will's topic and flags and awaits the will's
/// message, and the broker asks for it.
pub open spec fn will_topic_set(
    m: BrokerModel,
    peer: PeerAddr,
    c: ConnModel,
    t: Msg,
) -> BrokerModel {
    let name = t->WillTopic_will_topic;
    let m1 = registered(m, name);
    let conn = ConnModel {
        will_topic_id: Some(id_for(m, name)),
        will_flags: t->WillTopic_flags,
        state: StateEnum2::AWAITING_WILL_MSG,
        ..c
    };
    sent(BrokerModel { conns: with(m.conns, peer, conn), ..m1 }, peer, encode(Msg::WillMsgReq))
}

/// The broker after the peer, whose connection `c` awaits the message of
/// its will, sent it: the connection holds the message and is active, a
/// CONNACK is sent and the keep-alive timer starts.
pub open spec fn will_msg_set(m: BrokerModel, peer: PeerAddr, c: ConnModel, w: Msg) -> BrokerModel {
    let conn = ConnModel { will_message: w->WillMsg_will_msg, state: StateEnum2::ACTIVE, ..c };
    sent(
        BrokerModel {
            conns: with(m.conns, peer, conn),
            timers: with(m.timers, peer, fresh_timer(c.duration)),
            ..m
        },
        peer,
        encode(Msg::ConnAck { return_code: RETURN_CODE_ACCEPTED }),
    )
}

/// Why a message that only a connection in the state `wanted` may send is
/// refused, if it is.
pub open spec fn state_error(state: Option<StateEnum2>, wanted: StateEnum2) -> Option<BrokerError> {
    match state {
        None => Some(BrokerError::NotConnected),
        Some(s) => if s == wanted {
            None
        } else {
            Some(BrokerError::BadState)
        },
    }
}

/// Why a CONNECT is refused, if it is: it does not decode, or the peer has
/// a connection.
pub open spec fn connect_refusal(
    m: BrokerModel,
    peer: PeerAddr,
    buf: Seq<u8>,
    size: usize,
) -> Option<BrokerError> {
    match read_as(buf, size, |x: Msg| Connect::wanted(x)) {
        Ok(_) => if has_key(m.conns, peer) {
            Some(BrokerError::AlreadyConnected)
        } else {
            None
        },
        Err(e) => Some(BrokerError::Decode(e)),
    }
}

/// What a CONNECT makes of the broker.
pub open spec fn connect_effect(
    m: BrokerModel,
    peer: PeerAddr,
    buf: Seq<u8>,
    size: usize,
) -> BrokerModel {
    if connect_refusal(m, peer, buf, size) is None {
        connected(m, peer, read_as(buf, size, |x: Msg| Connect::wanted(x))->Ok_0)
    } else {
        m
    }
}

/// Why a WILLTOPIC is refused, if it is: it does not decode, the peer's
/// connection does not await it, its topic is no valid name, or the name is
/// new and every id is given out.
pub open spec fn will_topic_refusal(
    m: BrokerModel,
    peer: PeerAddr,
    buf: Seq<u8>,
    size: usize,
) -> Option<BrokerError> {
    match read_as(buf, size, |x: Msg| WillTopic::wanted(x)) {
        Ok(t) => {
            let name = t->WillTopic_will_topic;
            match state_error(
                crate::connection::state_of(m.conns, peer),
                StateEnum2::AWAITING_WILL_TOPIC,
            ) {
                Some(e) => Some(e),
                None => if !filter_is_valid(name) || has_wildcard_chars(name) {
                    Some(BrokerError::InvalidFilter)
                } else if !is_registered(m.names, name) && m.next_id
                    == crate::topic_registry::TOPIC_ID_END {
                    Some(BrokerError::TopicIdsExhausted)
                } else {
                    None
                },
            }
        },
        Err(e) => Some(BrokerError::Decode(e)),
    }
}

/// What a WILLTOPIC makes of the broker.
pub open spec fn will_topic_effect(
    m: BrokerModel,
    peer: PeerAddr,
    buf: Seq<u8>,
    size: usize,
) -> BrokerModel {
    if will_topic_refusal(m, peer, buf, size) is None {
        will_topic_set(
            m,
            peer,
            lookup(m.conns, peer)->0,
            read_as(buf, size, |x: Msg| WillTopic::wanted(x))->Ok_0,
        )
    } else {
        m
    }
}

/// Why a WILLMSG is refused, if it is: it does not decode, or the peer's
/// connection does not await it.
pub open spec fn will_msg_refusal(
    m: BrokerModel,
    peer: PeerAddr,
    buf: Seq<u8>,
    size: usize,
) -> Option<BrokerError> {
    match read_as(buf, size, |x: Msg| WillMsg::wanted(x)) {
        Ok(_) => state_error(
            crate::connection::state_of(m.conns, peer),
            StateEnum2::AWAITING_WILL_MSG,
        ),
        Err(e) => Some(BrokerError::Decode(e)),
    }
}

/// What a WILLMSG makes of the broker.
pub open spec fn will_msg_effect(
    m: BrokerModel,
    peer: PeerAddr,
    buf: Seq<u8>,
    size: usize,
) -> BrokerModel {
    if will_msg_refusal(m, peer, buf, size) is None {
        will_msg_set(
            m,
            peer,
            lookup(m.conns, peer)->0,
            read_as(buf, size, |x: Msg| WillMsg::wanted(x))->Ok_0,
        )
    } else {
        m
    }
}

impl Connect {
    /// A peer asks for a connection. A peer that has one is refused.
    pub fn recv(buf: &[u8], size: usize, client: &mut MqttSnClient, msg_header: MsgHeader) -> (r:
        Result<(), BrokerError>)
        requires
            old(client).wf(),
        ensures
            final(client).wf(),
            final(client).model() == connect_effect(
                old(client).model(),
                msg_header.remote_socket_addr,
                buf@,
                size,
            ),
            result_is(
                r,
                connect_refusal(old(client).model(), msg_header.remote_socket_addr, buf@, size),
            ),
    {
        let connect = match Connect::try_read(buf, size) {
            Ok(connect) => connect,
            Err(e) => {
                return Err(BrokerError::Decode(e));
            },
        };
        let peer = msg_header.remote_socket_addr;
        proof {
            lemma_mapped(client.connections@, |c: Connection| c@);
        }
        if Connection::contains_key(&client.connections, peer) {
            return Err(BrokerError::AlreadyConnected);
        }
        let will = flag_is_will(connect.flags);
        let duration = connect.duration;
        let conn = Connection {
            socket_addr: peer,
            flags: connect.flags,
            protocol_id: connect.protocol_id,
            duration,
            client_id: connect.client_id,
            state: if will {
                StateEnum2::AWAITING_WILL_TOPIC
            } else {
                StateEnum2::ACTIVE
            },
            will_topic_id: None,
            will_flags: 0,
            will_message: buf_with_capacity(0),
        };
        proof {
            lemma_mapped_changes(client.connections@, |c: Connection| c@, peer, conn, peer);
        }
        let n = client.connections.len();
        client.connections.insert_at(n, peer, conn);
        assert(client.connections@ =~= old(client).connections@.push((peer, conn)));
        if will {
            let _ = client.reply(peer, &MessageTypeEnum::WillTopicReq);
        } else {
            client.keep_alive.schedule(peer, duration);
            let ack = MessageTypeEnum::ConnAct(
                ConnAck {
                    len: MSG_LEN_CONNACK,
                    msg_type: MSG_TYPE_CONNACK,
                    return_code: RETURN_CODE_ACCEPTED,
                },
            );
            let _ = client.reply(peer, &ack);
        }
        assert(client.model() =~= connected(old(client).model(), peer, connect@));
        Ok(())
    }
}

impl WillTopic {
    /// The peer whose datagram is being handled names the topic of its
    /// will. The topic must be a valid name without wildcards.
    pub fn recv(buf: &[u8], size: usize, client: &mut MqttSnClient) -> (r: Result<(), BrokerError>)
        requires
            old(client).wf(),
        ensures
            final(client).wf(),
            final(client).model() == will_topic_effect(
                old(client).model(),
                old(client).remote_addr,
                buf@,
                size,
            ),
            result_is(
                r,
                will_topic_refusal(old(client).model(), old(client).remote_addr, buf@, size),
            ),
    {
        let topic = match WillTopic::try_read(buf, size) {
            Ok(topic) => topic,
            Err(e) => {
                return Err(BrokerError::Decode(e));
            },
        };
        let peer = client.remote_addr;
        proof {
            lemma_mapped(client.connections@, |c: Connection| c@);
        }
        let i = match client.connections.find(&peer) {
            Some(i) => i,
            None => {
                return Err(BrokerError::NotConnected);
            },
        };
        match client.connections.value_at(i).state {
            StateEnum2::AWAITING_WILL_TOPIC => {},
            _ => {
                return Err(BrokerError::BadState);
            },
        }
        if !valid_filter(topic.will_topic.as_str()) || has_wildcards(topic.will_topic.as_str()) {
            return Err(BrokerError::InvalidFilter);
        }
        let ghost name = topic.will_topic@;
        let topic_id = match try_insert_topic_name(&mut client.topic_names, topic.will_topic) {
            Ok(topic_id) => topic_id,
            Err(e) => {
                return Err(e);
            },
        };
        proof {
            lemma_position(client.connections@, i as int);
            lemma_without(client.connections@, peer);
        }
        let (_, c) = client.connections.take_at(i);
        let conn = Connection {
            will_topic_id: Some(topic_id),
            will_flags: topic.flags,
            state: StateEnum2::AWAITING_WILL_MSG,
            ..c
        };
        client.connections.insert_at(i, peer, conn);
        let ask = MessageTypeEnum::WillMsgReq(
            WillMsgReq { len: MSG_LEN_WILL_MSG_REQ, msg_type: MSG_TYPE_WILL_MSG_REQ },
        );
        let _ = client.reply(peer, &ask);
        proof {
            assert(client.connections@ =~= old(client).connections@.update(i as int, (peer, conn)));
            assert(client.conns() =~= with(old(client).conns(), peer, conn@));
            assert(client.model() =~= will_topic_set(old(client).model(), peer, c@, topic@));
        }
        Ok(())
    }
}

impl WillMsg {
    /// The peer whose datagram is being handled gives the message of its
    /// will, which ends the setup of its connection.
    pub fn recv(buf: &[u8], size: usize, client: &mut MqttSnClient) -> (r: Result<(), BrokerError>)
        requires
            old(client).wf(),
        ensures
            final(client).wf(),
            final(client).model() == will_msg_effect(
                old(client).model(),
                old(client).remote_addr,
                buf@,
                size,
            ),
            result_is(
                r,
                will_msg_refusal(old(client).model(), old(client).remote_addr, buf@, size),
            ),
    {
        let msg = match WillMsg::try_read(buf, size) {
            Ok(msg) => msg,
            Err(e) => {
                return Err(BrokerError::Decode(e));
            },
        };
        let peer = client.remote_addr;
        proof {
            lemma_mapped(client.connections@, |c: Connection| c@);
        }
        let i = match client.connections.find(&peer) {
            Some(i) => i,
            None => {
                return Err(BrokerError::NotConnected);
            },
        };
        match client.connections.value_at(i).state {
            StateEnum2::AWAITING_WILL_MSG => {},
            _ => {
                return Err(BrokerError::BadState);
            },
        }
        proof {
            lemma_position(client.connections@, i as int);
            lemma_without(client.connections@, peer);
        }
        let (_, c) = client.connections.take_at(i);
        let duration = c.duration;
        let conn = Connection { will_message: msg.will_msg, state: StateEnum2::ACTIVE, ..c };
        client.connections.insert_at(i, peer, conn);
        client.keep_alive.schedule(peer, duration);
        let ack = MessageTypeEnum::ConnAct(
            ConnAck {
                len: MSG_LEN_CONNACK,
                msg_type: MSG_TYPE_CONNACK,
                return_code: RETURN_CODE_ACCEPTED,
            },
        );
        let _ = client.reply(peer, &ack);
        proof {
            assert(client.connections@ =~= old(client).connections@.update(i as int, (peer, conn)));
            assert(client.conns() =~= with(old(client).conns(), peer, conn@));
            assert(client.model() =~= will_msg_set(old(client).model(), peer, c@, msg@));
        }
        Ok(())
    }
}

} // verus!
