//! PINGREQ: a sign of life from an active peer, and from a peer that is
//! asleep the request for what was kept for it.
use crate::asleep_msg_cache::{kept_for, msgs_of, AsleepMsgCache};
use crate::broker_lib::MqttSnClient;
use crate::connection::{state_of, Connection, StateEnum2};
use crate::error::BrokerError;
use crate::flags::RETAIN_FALSE;
use crate::message::{read_as, MessageTypeEnum, PingReq, Publish};
use crate::model::{result_is, sent, BrokerModel, Outbox};
use crate::msg_hdr::{MsgHeader, PeerAddr};
use crate::publish::{awaited_key, publication_fits, publish_msg, publish_send};
use crate::retransmit::RetransKey;
use crate::table::{has_key, lemma_mapped, lemma_with_back, lookup, unique_keys, without};
use crate::wire::{encode, Msg};
use vstd::prelude::*;

verus! {

/// What sending a queue of kept publications to a peer does to the
/// outbox: they are sent first to last, each at the QoS of its flags.
pub open spec fn drained(o: Outbox, hand: usize, peer: PeerAddr, queue: Seq<Msg>) -> Outbox
    decreases queue.len(),
{
    if queue.len() == 0 {
        o
    } else {
        let m = queue.last();
        publish_send(
            drained(o, hand, peer, queue.drop_last()),
            hand,
            m->Publish_topic_id,
            m->Publish_msg_id,
            m->Publish_flags,
            RETAIN_FALSE,
            m->Publish_data,
            peer,
        ).0
    }
}

/// The broker after a peer that was asleep asked for what was kept for it:
/// the queue of the peer is gone, its publications were sent in order, and
/// then a PINGRESP. The peer is asleep as before.
pub open spec fn woken(m: BrokerModel, peer: PeerAddr) -> BrokerModel {
    let o = Outbox {
        egress: m.outbox.egress,
        wheel: m.outbox.wheel,
        asleep: without(m.outbox.asleep, peer),
    };
    sent(
        BrokerModel { outbox: drained(o, m.hand, peer, kept_for(m.outbox.asleep, peer)), ..m },
        peer,
        encode(Msg::PingResp),
    )
}

/// Why a PINGREQ is refused, if it is: it does not decode, or the peer is
/// neither active nor asleep.
pub open spec fn ping_refusal(
    m: BrokerModel,
    peer: PeerAddr,
    buf: Seq<u8>,
    size: usize,
) -> Option<BrokerError> {
    match read_as(buf, size, |x: Msg| PingReq::wanted(x)) {
        Ok(_) => match state_of(m.conns, peer) {
            None => Some(BrokerError::NotConnected),
            Some(StateEnum2::ACTIVE) => None,
            Some(StateEnum2::ASLEEP) => None,
            Some(_) => Some(BrokerError::BadState),
        },
        Err(e) => Some(BrokerError::Decode(e)),
    }
}

/// What a PINGREQ makes of the broker: an active peer is answered, a peer
/// that is asleep is sent what was kept for it and then answered.
pub open spec fn ping_effect(
    m: BrokerModel,
    peer: PeerAddr,
    buf: Seq<u8>,
    size: usize,
) -> BrokerModel {
    if ping_refusal(m, peer, buf, size) is None {
        if state_of(m.conns, peer) == Some(StateEnum2::ACTIVE) {
            sent(m, peer, encode(Msg::PingResp))
        } else {
            woken(m, peer)
        }
    } else {
        m
    }
}

impl PingReq {
    /// A peer pings. An active peer is answered with a PINGRESP. A peer
    /// that is asleep is awake while it is sent what was kept for it, is
    /// then answered, and is asleep again. A peer in another state is
    /// refused.
    pub fn recv(buf: &[u8], size: usize, client: &mut MqttSnClient, msg_header: MsgHeader) -> (r:
        Result<(), BrokerError>)
        requires
            old(client).wf(),
        ensures
            final(client).wf(),
            final(client).model() == ping_effect(
                old(client).model(),
                msg_header.remote_socket_addr,
                buf@,
                size,
            ),
            result_is(
                r,
                ping_refusal(old(client).model(), msg_header.remote_socket_addr, buf@, size),
            ),
    {
        match PingReq::try_read(buf, size) {
            Ok(_) => {},
            Err(e) => {
                return Err(BrokerError::Decode(e));
            },
        }
        let peer = msg_header.remote_socket_addr;
        match Connection::get_state(&client.connections, &peer) {
            Ok(StateEnum2::ACTIVE) => {
                let _ = client.reply(peer, &MessageTypeEnum::PingResp);
                assert(client.model() =~= sent(old(client).model(), peer, encode(Msg::PingResp)));
                Ok(())
            },
            Ok(StateEnum2::ASLEEP) => {
                proof {
                    lemma_mapped(client.connections@, |c: Connection| c@);
                    lemma_with_back(
                        old(client).conns(),
                        peer,
                        lookup(old(client).conns(), peer)->0.with_state(StateEnum2::AWAKE),
                    );
                }
                let _ = Connection::update_state(&mut client.connections, &peer, StateEnum2::AWAKE);
                let queue = AsleepMsgCache::remove(&mut client.asleep_msg_cache, &peer);
                let ghost o = client.outbox();
                let ghost hand = client.retransmit.hand();
                let ghost mid = client.model();
                let mut i: usize = 0;
                assert(msgs_of(queue@).take(0) =~= Seq::<Msg>::empty());
                while i < queue.len()
                    invariant
                        i <= queue.len(),
                        client.wf(),
                        hand == client.retransmit.hand(),
                        client.model() == (BrokerModel {
                            outbox: drained(o, hand, peer, msgs_of(queue@).take(i as int)),
                            ..mid
                        }),
                    decreases queue.len() - i,
                {
                    let p = &queue[i];
                    proof {
                        let next = msgs_of(queue@).take(i + 1);
                        assert(next.drop_last() =~= msgs_of(queue@).take(i as int));
                        assert(next.last() == queue@[i as int]@);
                    }
                    let _ = Publish::send(
                        p.topic_id,
                        p.msg_id,
                        p.flags,
                        RETAIN_FALSE,
                        p.data.clone(),
                        client,
                        peer,
                    );
                    assert(client.model() =~= (BrokerModel {
                        outbox: drained(o, hand, peer, msgs_of(queue@).take(i + 1)),
                        ..mid
                    }));
                    i += 1;
                }
                assert(msgs_of(queue@).take(queue@.len() as int) =~= msgs_of(queue@));
                let _ = client.reply(peer, &MessageTypeEnum::PingResp);
                let _ = Connection::update_state(
                    &mut client.connections,
                    &peer,
                    StateEnum2::ASLEEP,
                );
                assert(client.model() =~= woken(old(client).model(), peer));
                Ok(())
            },
            Ok(_) => Err(BrokerError::BadState),
            Err(e) => Err(e),
        }
    }
}

/// The frame in which a kept publication is sent to the peer it was kept
/// for: at the QoS of its flags, with its topic id, message id and data.
pub open spec fn kept_frame(peer: PeerAddr, k: Msg) -> (PeerAddr, Seq<u8>) {
    (
        peer,
        encode(
            publish_msg(
                k->Publish_topic_id,
                k->Publish_msg_id,
                k->Publish_flags,
                RETAIN_FALSE,
                k->Publish_data,
            ),
        ),
    )
}

/// The key under which a kept publication waits for its reply once it is
/// sent, where it awaits one.
pub open spec fn kept_key(peer: PeerAddr, k: Msg) -> Option<RetransKey> {
    awaited_key(peer, k->Publish_topic_id, k->Publish_msg_id, k->Publish_flags)
}

/// Whether each publication of a queue has a frame.
pub open spec fn drainable(queue: Seq<Msg>) -> bool {
    forall|i: int| 0 <= i < queue.len() ==> publication_fits((#[trigger] queue[i])->Publish_data)
}

/// A queue of kept publications that have their frames is sent whole and
/// in order, each publication in its frame; what is kept for other peers
/// stays, and nothing comes into the wheel but the frames that await a
/// reply.
pub proof fn lemma_drained(o: Outbox, hand: usize, peer: PeerAddr, queue: Seq<Msg>)
    requires
        unique_keys(o.wheel),
        drainable(queue),
    ensures
        ({
            let r = drained(o, hand, peer, queue);
            &&& r.egress == o.egress + queue.map_values(|k: Msg| kept_frame(peer, k))
            &&& r.asleep == o.asleep
            &&& unique_keys(r.wheel)
            &&& forall|key: RetransKey|
                has_key(r.wheel, key) <==> has_key(o.wheel, key) || exists|i: int|
                    0 <= i < queue.len() && kept_key(peer, #[trigger] queue[i]) == Some(key)
        }),
    decreases queue.len(),
{
    let r = drained(o, hand, peer, queue);
    let f = |k: Msg| kept_frame(peer, k);
    if queue.len() == 0 {
        assert(r.egress =~= o.egress + queue.map_values(f));
    } else {
        let init = queue.drop_last();
        let k = queue.last();
        let last = queue.len() - 1;
        assert(queue[last] == k);
        assert(drainable(init)) by {
            assert forall|i: int| 0 <= i < init.len() implies publication_fits(
                (#[trigger] init[i])->Publish_data,
            ) by {
                assert(init[i] == queue[i]);
            }
        }
        lemma_drained(o, hand, peer, init);
        let prev = drained(o, hand, peer, init);
        assert(queue.map_values(f) =~= init.map_values(f).push(kept_frame(peer, k)));
        assert forall|x: RetransKey|
            (exists|i: int| 0 <= i < queue.len() && kept_key(peer, #[trigger] queue[i]) == Some(x))
                <==> (exists|i: int|
                0 <= i < init.len() && kept_key(peer, #[trigger] init[i]) == Some(x)) || kept_key(
                peer,
                k,
            ) == Some(x) by {
            if exists|i: int| 0 <= i < init.len() && kept_key(peer, #[trigger] init[i]) == Some(x) {
                let i = choose|i: int|
                    0 <= i < init.len() && kept_key(peer, #[trigger] init[i]) == Some(x);
                assert(queue[i] == init[i]);
            }
            if exists|i: int|
                0 <= i < queue.len() && kept_key(peer, #[trigger] queue[i]) == Some(x) {
                let i = choose|i: int|
                    0 <= i < queue.len() && kept_key(peer, #[trigger] queue[i]) == Some(x);
                if i < init.len() {
                    assert(init[i] == queue[i]);
                }
            }
        }
        let sent = publish_send(
            prev,
            hand,
            k->Publish_topic_id,
            k->Publish_msg_id,
            k->Publish_flags,
            RETAIN_FALSE,
            k->Publish_data,
            peer,
        );
        assert(r == sent.0);
        assert(publication_fits(k->Publish_data));
        assert(r.egress == prev.egress.push(kept_frame(peer, k)));
        match kept_key(peer, k) {
            Some(key) => {
                let entry = r.wheel.last().1;
                crate::table::lemma_replaced(prev.wheel, key, entry);
                assert(r.wheel == crate::table::replaced(prev.wheel, key, entry));
            },
            None => {
                assert(r.wheel == prev.wheel);
            },
        }
        assert(r.egress =~= o.egress + queue.map_values(f));
        assert(unique_keys(r.wheel));
        assert forall|key: RetransKey|
            has_key(r.wheel, key) <==> has_key(o.wheel, key) || exists|i: int|
                0 <= i < queue.len() && kept_key(peer, #[trigger] queue[i]) == Some(key) by {
            assert(has_key(r.wheel, key) <==> has_key(prev.wheel, key) || kept_key(peer, k) == Some(
                key,
            ));
        }
    }
}

/// A peer that is asleep and pings is sent what was kept for it, whole and
/// in order, each publication at its own QoS, and then a PINGRESP; nobody
/// else is sent anything. Nothing is kept for the peer afterwards. Its
/// connection, asleep as it was, and its timer are untouched.
pub proof fn lemma_woken(m: BrokerModel, peer: PeerAddr)
    requires
        m.wf(),
    ensures
        ({
            let after = woken(m, peer);
            let queue = kept_for(m.outbox.asleep, peer);
            &&& after.outbox.egress == (m.outbox.egress + queue.map_values(
                |k: Msg| kept_frame(peer, k),
            )).push((peer, encode(Msg::PingResp)))
            &&& !has_key(after.outbox.asleep, peer)
            &&& after.outbox.asleep == without(m.outbox.asleep, peer)
            &&& after.conns == m.conns
            &&& after.timers == m.timers
        }),
{
    let o = Outbox {
        egress: m.outbox.egress,
        wheel: m.outbox.wheel,
        asleep: without(m.outbox.asleep, peer),
    };
    crate::table::lemma_without(m.outbox.asleep, peer);
    let queue = kept_for(m.outbox.asleep, peer);
    assert(drainable(queue)) by {
        if has_key(m.outbox.asleep, peer) {
            let at = crate::table::position(m.outbox.asleep, peer);
            assert forall|j: int| 0 <= j < queue.len() implies publication_fits(
                (#[trigger] queue[j])->Publish_data,
            ) by {
                assert(queue[j] == m.outbox.asleep[at].1[j]);
            }
        }
    }
    lemma_drained(o, m.hand, peer, queue);
}

} // verus!
