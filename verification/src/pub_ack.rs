//! PUBACK and PUBCOMP: the acknowledgements that end a flow. The frame that
//! waited for them leaves the retransmission wheel.
use crate::broker_lib::MqttSnClient;
use crate::error::BrokerError;
use crate::message::{read_as, PubAck, PubComp};
use crate::model::{result_is, BrokerModel, Outbox};
use crate::msg_hdr::{MSG_TYPE_PUBACK, MSG_TYPE_PUBCOMP, PeerAddr};
use crate::retransmit::RetransKey;
use crate::table::without;
use crate::wire::Msg;
use vstd::prelude::*;

verus! {

/// The broker with the frame of a key out of the wheel.
pub open spec fn cancelled(m: BrokerModel, key: RetransKey) -> BrokerModel {
    BrokerModel {
        outbox: Outbox {
            egress: m.outbox.egress,
            wheel: without(m.outbox.wheel, key),
            asleep: m.outbox.asleep,
        },
        ..m
    }
}

/// The key under which the frame waits that the acknowledgement `ack`
/// from a peer ends: a PUBACK names the topic id and the message id of its
/// publication; a PUBCOMP names the message id of its PUBREL, which waits
/// under topic id 0.
pub open spec fn acknowledged(peer: PeerAddr, ack: Msg) -> RetransKey {
    match ack {
        Msg::PubAck { topic_id, msg_id, return_code } => RetransKey {
            addr: peer,
            msg_type: MSG_TYPE_PUBACK,
            topic_id,
            msg_id,
        },
        Msg::PubComp { msg_id } => RetransKey {
            addr: peer,
            msg_type: MSG_TYPE_PUBCOMP,
            topic_id: 0,
            msg_id,
        },
        _ => arbitrary(),
    }
}

/// Why an acknowledgement of the wanted kind is refused, if it is: it does
/// not decode. One that no frame waits for is taken, and changes nothing.
pub open spec fn ack_refusal(
    m: BrokerModel,
    peer: PeerAddr,
    buf: Seq<u8>,
    size: usize,
    wanted: spec_fn(Msg) -> bool,
) -> Option<BrokerError> {
    match read_as(buf, size, wanted) {
        Ok(_) => None,
        Err(e) => Some(BrokerError::Decode(e)),
    }
}

/// What an acknowledgement of the wanted kind makes of the broker: the
/// frame that waited for it has left the wheel.
pub open spec fn ack_effect(
    m: BrokerModel,
    peer: PeerAddr,
    buf: Seq<u8>,
    size: usize,
    wanted: spec_fn(Msg) -> bool,
) -> BrokerModel {
    match read_as(buf, size, wanted) {
        Ok(ack) => cancelled(m, acknowledged(peer, ack)),
        Err(_) => m,
    }
}

impl PubAck {
    /// A subscriber acknowledges a publication at QoS 1: the publication, if
    /// it waits, is not sent again.
    pub fn recv(buf: &[u8], size: usize, client: &mut MqttSnClient) -> (r: Result<(), BrokerError>)
        requires
            old(client).wf(),
        ensures
            final(client).wf(),
            final(client).model() == ack_effect(
                old(client).model(),
                old(client).remote_addr,
                buf@,
                size,
                |x: Msg| PubAck::wanted(x),
            ),
            result_is(
                r,
                ack_refusal(
                    old(client).model(),
                    old(client).remote_addr,
                    buf@,
                    size,
                    |x: Msg| PubAck::wanted(x),
                ),
            ),
    {
        match PubAck::try_read(buf, size) {
            Ok(ack) => {
                let _ = client.retransmit.cancel_timer(
                    client.remote_addr,
                    MSG_TYPE_PUBACK,
                    ack.topic_id,
                    ack.msg_id,
                );
                assert(client.model() =~= cancelled(
                    old(client).model(),
                    acknowledged(client.remote_addr, ack@),
                ));
                Ok(())
            },
            Err(e) => Err(BrokerError::Decode(e)),
        }
    }
}

impl PubComp {
    /// A subscriber completes a publication at QoS 2: the PUBREL, if it
    /// waits, is not sent again.
    pub fn recv(buf: &[u8], size: usize, client: &mut MqttSnClient) -> (r: Result<(), BrokerError>)
        requires
            old(client).wf(),
        ensures
            final(client).wf(),
            final(client).model() == ack_effect(
                old(client).model(),
                old(client).remote_addr,
                buf@,
                size,
                |x: Msg| PubComp::wanted(x),
            ),
            result_is(
                r,
                ack_refusal(
                    old(client).model(),
                    old(client).remote_addr,
                    buf@,
                    size,
                    |x: Msg| PubComp::wanted(x),
                ),
            ),
    {
        match PubComp::try_read(buf, size) {
            Ok(comp) => {
                let _ = client.retransmit.cancel_timer(
                    client.remote_addr,
                    MSG_TYPE_PUBCOMP,
                    0,
                    comp.msg_id,
                );
                assert(client.model() =~= cancelled(
                    old(client).model(),
                    acknowledged(client.remote_addr, comp@),
                ));
                Ok(())
            },
            Err(e) => Err(BrokerError::Decode(e)),
        }
    }
}

} // verus!
