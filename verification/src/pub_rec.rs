//! PUBREC: the first acknowledgement of a publication at QoS 2.
//!
//! The broker sends it to a publisher, and receives it from a subscriber.
use crate::broker_lib::MqttSnClient;
use crate::buf::buf_bytes;
use crate::error::{BrokerError, DecodeError};
use crate::message::{read_as, MessageTypeEnum, PubRec, PubRel};
use crate::model::{result_is, BrokerModel, Outbox};
use crate::msg_hdr::{
    MSG_LEN_PUBREC, MSG_LEN_PUBREL, MSG_TYPE_PUBCOMP, MSG_TYPE_PUBREC, MSG_TYPE_PUBREL, PeerAddr,
};
use crate::retransmit::{slot_after, without_reply, RetransKey, RetransModel};
use crate::table::has_key;
use crate::wire::{encode, Msg};
use bytes::BytesMut;
use vstd::prelude::*;

verus! {

/// How often a PUBREL is sent again while its PUBCOMP is missing.
pub const PUBREL_RETRIES: u8 = 1;

/// What a PUBREC from a subscriber does to the outbox. A PUBREC names a
/// message id and no topic: every publication to the peer that waits for a
/// PUBREC under the message id leaves the wheel, whatever its topic. A
/// PUBREL is sent, and it is scheduled to be sent again, under topic id 0,
/// unless one waits in the wheel for the same PUBCOMP already.
pub open spec fn pubrec_outbox(o: Outbox, hand: usize, peer: PeerAddr, msg_id: u16) -> Outbox {
    let next = RetransKey { addr: peer, msg_type: MSG_TYPE_PUBCOMP, topic_id: 0, msg_id };
    let pubrel = encode(Msg::PubRel { msg_id });
    let wheel = without_reply(o.wheel, peer, MSG_TYPE_PUBREC, msg_id);
    Outbox {
        egress: o.egress.push((peer, pubrel)),
        wheel: if has_key(wheel, next) {
            wheel
        } else {
            wheel.push(
                (
                    next,
                    RetransModel {
                        frame: pubrel,
                        retries: PUBREL_RETRIES,
                        tried: 0,
                        slot: slot_after(hand, 1),
                    },
                ),
            )
        },
        asleep: o.asleep,
    }
}

/// Why a PUBREC from a subscriber is refused, if it is: it does not decode.
pub open spec fn pubrec_refusal(
    m: BrokerModel,
    peer: PeerAddr,
    buf: Seq<u8>,
    size: usize,
) -> Option<BrokerError> {
    match read_as(buf, size, |x: Msg| PubRec::wanted(x)) {
        Ok(_) => None,
        Err(e) => Some(BrokerError::Decode(e)),
    }
}

/// What a PUBREC from a subscriber makes of the broker.
pub open spec fn pubrec_effect(
    m: BrokerModel,
    peer: PeerAddr,
    buf: Seq<u8>,
    size: usize,
) -> BrokerModel {
    match read_as(buf, size, |x: Msg| PubRec::wanted(x)) {
        Ok(x) => BrokerModel {
            outbox: pubrec_outbox(m.outbox, m.hand, peer, x->PubRec_msg_id),
            ..m
        },
        Err(_) => m,
    }
}

/// Whether a datagram read as the PUBREC of a message id.
pub open spec fn is_pubrec(msg_id: u16, read: Result<Msg, crate::error::DecodeError>) -> bool {
    read == Ok::<Msg, crate::error::DecodeError>(Msg::PubRec { msg_id })
}

/// The frame of a PUBREC reads as the PUBREC of its message id, wherever it
/// stands at the front of a buffer: its two octets are the id, high octet
/// first.
pub proof fn lemma_pubrec_comes_back(msg_id: u16, buf: Seq<u8>, size: usize)
    requires
        size <= buf.len(),
        buf.take(size as int) == encode(Msg::PubRec { msg_id }),
    ensures
        size == 4,
        buf[0] == MSG_LEN_PUBREC,
        buf[1] == MSG_TYPE_PUBREC,
        buf[2] == msg_id / 256,
        buf[3] == msg_id % 256,
        is_pubrec(msg_id, read_as(buf, size, |x: Msg| PubRec::wanted(x))),
{
    crate::wire::lemma_round_trip(Msg::PubRec { msg_id });
    let f = encode(Msg::PubRec { msg_id });
    assert(f.len() == 4);
    assert(buf.take(size as int).len() == size);
    assert(buf[0] == buf.take(size as int)[0]);
    assert(buf[1] == buf.take(size as int)[1]);
    assert(buf[2] == buf.take(size as int)[2]);
    assert(buf[3] == buf.take(size as int)[3]);
}

impl PubRec {
    /// A subscriber acknowledges a publication at QoS 2. Every PUBREC is
    /// taken: what waited for it, if anything, is not sent again,
    /// and the broker releases it with a PUBREL, which it sends again until
    /// the PUBCOMP comes. Returns the message id of the PUBREC.
    pub fn rx(buf: &[u8], size: usize, client: &mut MqttSnClient) -> (r: Result<u16, BrokerError>)
        requires
            old(client).wf(),
        ensures
            final(client).wf(),
            final(client).model() == pubrec_effect(
                old(client).model(),
                old(client).remote_addr,
                buf@,
                size,
            ),
            result_is(r, pubrec_refusal(old(client).model(), old(client).remote_addr, buf@, size)),
            r matches Ok(msg_id) ==> is_pubrec(
                msg_id,
                read_as(buf@, size, |x: Msg| PubRec::wanted(x)),
            ),
    {
        let rec = match PubRec::try_read(buf, size) {
            Ok(rec) => rec,
            Err(e) => {
                return Err(BrokerError::Decode(e));
            },
        };
        let peer = client.remote_addr;
        let msg_id = rec.msg_id;
        client.retransmit.cancel_reply(peer, MSG_TYPE_PUBREC, msg_id);
        let release = MessageTypeEnum::PubRel(
            PubRel { len: MSG_LEN_PUBREL, msg_type: MSG_TYPE_PUBREL, msg_id },
        );
        let frame = client.reply(peer, &release);
        let _ = client.retransmit.schedule_timer(
            peer,
            MSG_TYPE_PUBCOMP,
            0,
            msg_id,
            PUBREL_RETRIES,
            frame,
        );
        assert(client.model() =~= pubrec_effect(old(client).model(), peer, buf@, size));
        Ok(msg_id)
    }

    /// Sends a PUBREC to the peer whose datagram is being handled, and
    /// returns its frame.
    pub fn tx(msg_id: u16, client: &mut MqttSnClient) -> (frame: BytesMut)
        ensures
            final(client).same_but_egress(old(client)),
            final(client).egress_tx@ == old(client).egress_tx@.push(
                (old(client).remote_addr, encode(Msg::PubRec { msg_id })),
            ),
            buf_bytes(frame) == encode(Msg::PubRec { msg_id }),
    {
        let rec = MessageTypeEnum::PubRec(
            PubRec { len: MSG_LEN_PUBREC, msg_type: MSG_TYPE_PUBREC, msg_id },
        );
        client.reply(client.remote_addr, &rec)
    }
}

} // verus!
