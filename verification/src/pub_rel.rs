//! PUBREL: a publisher releases a publication at QoS 2. Only now is the
//! publication delivered, and the publisher is told with a PUBCOMP.
use crate::broker_lib::MqttSnClient;
use crate::connection::ConnModel;
use crate::error::BrokerError;
use crate::message::{read_as, MessageTypeEnum, PubComp, PubRel, Publish};
use crate::model::{result_is, BrokerModel, Outbox};
use crate::msg_hdr::{MSG_LEN_PUBCOMP, MSG_TYPE_PUBCOMP, MSG_TYPE_PUBREL, PeerAddr};
use crate::pub_msg_cache::{PendingModel, PubKey, PubMsgCache};
use crate::publish::fan_out;
use crate::retransmit::RetransKey;
use crate::table::{has_key, lookup, without};
use crate::wire::{encode, Msg};
use vstd::prelude::*;

verus! {

/// What a PUBREL does to the outbox: the PUBREC that awaited it leaves the
/// wheel; the publication that waited under the publisher and the message
/// id, if there is one, is delivered to the subscribers that were kept with
/// it; and a PUBCOMP is sent to the publisher.
pub open spec fn pubrel_outbox(
    o: Outbox,
    hand: usize,
    conns: Seq<(PeerAddr, ConnModel)>,
    pending: Seq<(PubKey, PendingModel)>,
    peer: PeerAddr,
    msg_id: u16,
) -> Outbox {
    let awaited = RetransKey { addr: peer, msg_type: MSG_TYPE_PUBREL, topic_id: 0, msg_id };
    let o1 = Outbox { egress: o.egress, wheel: without(o.wheel, awaited), asleep: o.asleep };
    let delivered = match lookup(pending, PubKey { addr: peer, msg_id }) {
        Some(c) => fan_out(
            o1,
            hand,
            conns,
            c.subscribers,
            c.publish->Publish_topic_id,
            c.publish->Publish_msg_id,
            c.publish->Publish_data,
        ),
        None => o1,
    };
    Outbox {
        egress: delivered.egress.push((peer, encode(Msg::PubComp { msg_id }))),
        wheel: delivered.wheel,
        asleep: delivered.asleep,
    }
}

/// The broker after the PUBREL of a peer for a message id: the
/// publication that waited has left the cache, and the outbox holds what
/// the release sends.
pub open spec fn released(m: BrokerModel, peer: PeerAddr, msg_id: u16) -> BrokerModel {
    BrokerModel {
        pending: without(m.pending, PubKey { addr: peer, msg_id }),
        outbox: pubrel_outbox(m.outbox, m.hand, m.conns, m.pending, peer, msg_id),
        ..m
    }
}

/// Why a PUBREL is refused, if it is: it does not decode, or no
/// publication of the peer waits under its message id.
pub open spec fn pubrel_refusal(
    m: BrokerModel,
    peer: PeerAddr,
    buf: Seq<u8>,
    size: usize,
) -> Option<BrokerError> {
    match read_as(buf, size, |x: Msg| PubRel::wanted(x)) {
        Ok(x) => if has_key(m.pending, PubKey { addr: peer, msg_id: x->PubRel_msg_id }) {
            None
        } else {
            Some(BrokerError::NotPending)
        },
        Err(e) => Some(BrokerError::Decode(e)),
    }
}

/// What a PUBREL makes of the broker. One under which nothing waits is
/// answered all the same.
pub open spec fn pubrel_effect(
    m: BrokerModel,
    peer: PeerAddr,
    buf: Seq<u8>,
    size: usize,
) -> BrokerModel {
    match read_as(buf, size, |x: Msg| PubRel::wanted(x)) {
        Ok(x) => released(m, peer, x->PubRel_msg_id),
        Err(_) => m,
    }
}

impl PubRel {
    /// A publisher releases a publication at QoS 2. The publication leaves
    /// the cache as it is delivered, so that a second release delivers
    /// nothing: it is answered with a PUBCOMP and `NotPending`.
    pub fn recv(buf: &[u8], size: usize, client: &mut MqttSnClient) -> (r: Result<(), BrokerError>)
        requires
            old(client).wf(),
        ensures
            final(client).wf(),
            final(client).model() == pubrel_effect(
                old(client).model(),
                old(client).remote_addr,
                buf@,
                size,
            ),
            result_is(r, pubrel_refusal(old(client).model(), old(client).remote_addr, buf@, size)),
    {
        let rel = match PubRel::try_read(buf, size) {
            Ok(rel) => rel,
            Err(e) => {
                return Err(BrokerError::Decode(e));
            },
        };
        let peer = client.remote_addr;
        let msg_id = rel.msg_id;
        let _ = client.retransmit.cancel_timer(peer, MSG_TYPE_PUBREL, 0, msg_id);
        let done = MessageTypeEnum::PubComp(
            PubComp { len: MSG_LEN_PUBCOMP, msg_type: MSG_TYPE_PUBCOMP, msg_id },
        );
        match PubMsgCache::remove(&mut client.pub_msg_cache, &PubKey { addr: peer, msg_id }) {
            Ok(waiting) => {
                let _ = Publish::send_msg_to_subscribers(
                    waiting.subscriber_vec,
                    waiting.publish,
                    client,
                );
                let _ = client.reply(peer, &done);
                assert(client.model() =~= released(old(client).model(), peer, msg_id));
                Ok(())
            },
            Err(e) => {
                let _ = client.reply(peer, &done);
                assert(client.model() =~= released(old(client).model(), peer, msg_id));
                Err(e)
            },
        }
    }
}

} // verus!
