//! REGISTER: a peer asks for the id of a topic name, and is told it with a
//! REGACK.
//!
//! Frame: Length, MsgType, TopicId (2), MsgId (2), TopicName.
use crate::broker_lib::MqttSnClient;
use crate::connect::{id_for, is_registered, registered, state_error};
use crate::connection::{state_of, Connection, StateEnum2};
use crate::error::{BrokerError, DecodeError};
use crate::filter::{filter_is_valid, has_wildcard_chars, has_wildcards, valid_filter};
use crate::message::{read_as, MessageTypeEnum};
use crate::model::{result_is, sent, BrokerModel};
use crate::msg_hdr::{PeerAddr, RETURN_CODE_ACCEPTED};
use crate::topic_registry::{try_insert_topic_name, TOPIC_ID_END};
use crate::wire::{encode, Msg};
use vstd::prelude::*;

verus! {

/// Whether a message is a REGISTER.
pub open spec fn is_register(m: Msg) -> bool {
    m is Register
}

/// Why a REGISTER is refused, if it is: it does not decode, the peer is
/// not active, its topic is no valid name, or the name is new and every id
/// is given out.
pub open spec fn register_refusal(
    m: BrokerModel,
    peer: PeerAddr,
    buf: Seq<u8>,
    size: usize,
) -> Option<BrokerError> {
    match read_as(buf, size, |x: Msg| is_register(x)) {
        Ok(x) => {
            let name = x->Register_topic_name;
            match state_error(state_of(m.conns, peer), StateEnum2::ACTIVE) {
                Some(e) => Some(e),
                None => if !filter_is_valid(name) || has_wildcard_chars(name) {
                    Some(BrokerError::InvalidFilter)
                } else if !is_registered(m.names, name) && m.next_id == TOPIC_ID_END {
                    Some(BrokerError::TopicIdsExhausted)
                } else {
                    None
                },
            }
        },
        Err(e) => Some(BrokerError::Decode(e)),
    }
}

/// What a REGISTER makes of the broker: the name is registered, and the
/// peer is sent a REGACK with the name's id.
pub open spec fn register_effect(
    m: BrokerModel,
    peer: PeerAddr,
    buf: Seq<u8>,
    size: usize,
) -> BrokerModel {
    if register_refusal(m, peer, buf, size) is None {
        let x = read_as(buf, size, |x: Msg| is_register(x))->Ok_0;
        let name = x->Register_topic_name;
        sent(
            registered(m, name),
            peer,
            encode(
                Msg::RegAck {
                    topic_id: id_for(m, name),
                    msg_id: x->Register_msg_id,
                    return_code: RETURN_CODE_ACCEPTED,
                },
            ),
        )
    } else {
        m
    }
}

/// The peer whose datagram is being handled asks for the id of a topic name.
pub fn recv(buf: &[u8], size: usize, client: &mut MqttSnClient) -> (r: Result<(), BrokerError>)
    requires
        old(client).wf(),
    ensures
        final(client).wf(),
        final(client).model() == register_effect(
            old(client).model(),
            old(client).remote_addr,
            buf@,
            size,
        ),
        result_is(r, register_refusal(old(client).model(), old(client).remote_addr, buf@, size)),
{
    let (msg_id, topic_name) = match MessageTypeEnum::decode_frame(buf, size) {
        Ok(MessageTypeEnum::Register { topic_id, msg_id, topic_name }) => (msg_id, topic_name),
        Ok(_) => {
            return Err(BrokerError::Decode(DecodeError::BadType));
        },
        Err(e) => {
            return Err(BrokerError::Decode(e));
        },
    };
    let peer = client.remote_addr;
    match Connection::get_state(&client.connections, &peer) {
        Ok(StateEnum2::ACTIVE) => {},
        Ok(_) => {
            return Err(BrokerError::BadState);
        },
        Err(e) => {
            return Err(e);
        },
    }
    if !valid_filter(topic_name.as_str()) || has_wildcards(topic_name.as_str()) {
        return Err(BrokerError::InvalidFilter);
    }
    let ghost name = topic_name@;
    let topic_id = match try_insert_topic_name(&mut client.topic_names, topic_name) {
        Ok(topic_id) => topic_id,
        Err(e) => {
            return Err(e);
        },
    };
    let ghost m1 = client.model();
    proof {
        assert(m1 =~= registered(old(client).model(), name));
        assert(topic_id == id_for(old(client).model(), name));
    }
    let ack = MessageTypeEnum::RegAck { topic_id, msg_id, return_code: RETURN_CODE_ACCEPTED };
    let _ = client.reply(peer, &ack);
    assert(client.model() =~= register_effect(old(client).model(), peer, buf@, size));
    Ok(())
}

} // verus!
