//! DISCONNECT: a peer ends its connection, or, with a duration, goes to sleep.
//!
//! Frame: Length, MsgType, Duration (2, optional).
use crate::broker_lib::MqttSnClient;
use crate::connection::{state_of, ConnModel, Connection, StateEnum2};
use crate::error::{BrokerError, DecodeError};
use crate::keep_alive::fresh_timer;
use crate::message::{DisconnWithDuration, Disconnect, MessageTypeEnum};
use crate::model::{forget, publish_will, result_is, sent, BrokerModel};
use crate::msg_hdr::{MSG_LEN_DISCONNECT, MSG_TYPE_DISCONNECT, MsgHeader, PeerAddr};
use crate::table::{lemma_mapped, lookup, with};
use crate::wire::{decode, encode, Msg};
use vstd::prelude::*;

verus! {

/// The broker after the peer with the connection `c` disconnected: every
/// trace of the peer is gone, the DISCONNECT is answered with one, and the
/// will of a connection that was active is published.
pub open spec fn disconnected(m: BrokerModel, peer: PeerAddr, c: ConnModel) -> BrokerModel {
    let m1 = sent(forget(m, peer), peer, encode(Msg::Disconnect));
    if c.state == StateEnum2::ACTIVE {
        publish_will(m1, c)
    } else {
        m1
    }
}

/// The broker after the peer with the connection `c` went to sleep for a
/// duration: the connection is asleep, the peer's timer is set for the
/// duration, and the DISCONNECT is answered with one.
pub open spec fn fell_asleep(
    m: BrokerModel,
    peer: PeerAddr,
    c: ConnModel,
    duration: u16,
) -> BrokerModel {
    sent(
        BrokerModel {
            conns: with(m.conns, peer, c.with_state(StateEnum2::ASLEEP)),
            timers: with(m.timers, peer, fresh_timer(duration)),
            ..m
        },
        peer,
        encode(Msg::Disconnect),
    )
}

/// What a datagram says to the handler of DISCONNECT.
pub open spec fn read_disconnect(buf: Seq<u8>, size: usize) -> Result<Msg, DecodeError> {
    if size > buf.len() {
        Err(DecodeError::LenMismatch)
    } else {
        match decode(buf.take(size as int)) {
            Ok(m) => if m is Disconnect || m is DisconnWithDuration {
                Ok(m)
            } else {
                Err(DecodeError::BadType)
            },
            Err(e) => Err(e),
        }
    }
}

/// Why a DISCONNECT is refused, if it is: it does not decode, the peer has
/// no connection, or it asks for sleep and is neither active nor asleep.
pub open spec fn disconnect_refusal(
    m: BrokerModel,
    peer: PeerAddr,
    buf: Seq<u8>,
    size: usize,
) -> Option<BrokerError> {
    match read_disconnect(buf, size) {
        Ok(d) => match state_of(m.conns, peer) {
            None => Some(BrokerError::NotConnected),
            Some(s) => if d is DisconnWithDuration && s != StateEnum2::ACTIVE && s
                != StateEnum2::ASLEEP {
                Some(BrokerError::BadState)
            } else {
                None
            },
        },
        Err(e) => Some(BrokerError::Decode(e)),
    }
}

/// What a DISCONNECT makes of the broker.
pub open spec fn disconnect_effect(
    m: BrokerModel,
    peer: PeerAddr,
    buf: Seq<u8>,
    size: usize,
) -> BrokerModel {
    if disconnect_refusal(m, peer, buf, size) is None {
        let c = lookup(m.conns, peer)->0;
        match read_disconnect(buf, size)->Ok_0 {
            Msg::DisconnWithDuration { duration } => fell_asleep(m, peer, c, duration),
            _ => disconnected(m, peer, c),
        }
    } else {
        m
    }
}

impl Disconnect {
    /// A peer disconnects. Without a duration its connection ends. With a
    /// duration an active peer goes to sleep, and a peer that is asleep
    /// sleeps on.
    pub fn recv(buf: &[u8], size: usize, client: &mut MqttSnClient, msg_header: MsgHeader) -> (r:
        Result<(), BrokerError>)
        requires
            old(client).wf(),
        ensures
            final(client).wf(),
            final(client).model() == disconnect_effect(
                old(client).model(),
                msg_header.remote_socket_addr,
                buf@,
                size,
            ),
            result_is(
                r,
                disconnect_refusal(old(client).model(), msg_header.remote_socket_addr, buf@, size),
            ),
    {
        let peer = msg_header.remote_socket_addr;
        proof {
            lemma_mapped(client.connections@, |c: Connection| c@);
        }
        match MessageTypeEnum::decode_frame(buf, size) {
            Ok(MessageTypeEnum::Disconnect(_)) => {
                if !Connection::contains_key(&client.connections, peer) {
                    return Err(BrokerError::NotConnected);
                }
                match client.forget_peer(peer) {
                    Some(conn) => {
                        let _ = Disconnect::send(client, msg_header);
                        match conn.state {
                            StateEnum2::ACTIVE => {
                                client.publish_will(conn);
                            },
                            _ => {},
                        }
                        Ok(())
                    },
                    None => Err(BrokerError::NotConnected),
                }
            },
            Ok(MessageTypeEnum::DisconnWithDuration(sleep)) => {
                match Connection::get_state(&client.connections, &peer) {
                    Ok(state) => {
                        match state {
                            StateEnum2::ACTIVE | StateEnum2::ASLEEP => {},
                            _ => {
                                return Err(BrokerError::BadState);
                            },
                        }
                    },
                    Err(e) => {
                        return Err(e);
                    },
                }
                let _ = Connection::update_state(
                    &mut client.connections,
                    &peer,
                    StateEnum2::ASLEEP,
                );
                client.keep_alive.schedule(peer, sleep.duration);
                let _ = Disconnect::send(client, msg_header);
                assert(client.model() =~= fell_asleep(
                    old(client).model(),
                    peer,
                    lookup(old(client).conns(), peer)->0,
                    sleep.duration,
                ));
                Ok(())
            },
            Ok(_) => Err(BrokerError::Decode(DecodeError::BadType)),
            Err(e) => Err(BrokerError::Decode(e)),
        }
    }

    /// Sends a DISCONNECT to the peer of the header.
    pub fn send(client: &mut MqttSnClient, msg_header: MsgHeader) -> (r: Result<(), BrokerError>)
        ensures
            r is Ok,
            final(client).same_but_egress(old(client)),
            final(client).egress_tx@ == old(client).egress_tx@.push(
                (msg_header.remote_socket_addr, encode(Msg::Disconnect)),
            ),
            final(client).model() == sent(
                old(client).model(),
                msg_header.remote_socket_addr,
                encode(Msg::Disconnect),
            ),
    {
        let disconnect = MessageTypeEnum::Disconnect(
            Disconnect { len: MSG_LEN_DISCONNECT, msg_type: MSG_TYPE_DISCONNECT },
        );
        let _ = client.reply(msg_header.remote_socket_addr, &disconnect);
        assert(client.model() =~= sent(
            old(client).model(),
            msg_header.remote_socket_addr,
            encode(Msg::Disconnect),
        ));
        Ok(())
    }
}

} // verus!
