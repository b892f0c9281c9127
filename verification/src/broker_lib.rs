//! The broker: its tables, and what it does with a datagram and with the
//! passing of a second.
use crate::asleep_msg_cache::{asleep_models, AsleepMsgCache, AsleepTable};
use crate::biset::{subscriber, Subscriber};
use crate::buf::buf_bytes;
use crate::connect::{
    connect_effect, connect_refusal, will_msg_effect, will_msg_refusal, will_topic_effect,
    will_topic_refusal,
};
use crate::connection::{conn_models, state_of, ConnModel, Connection, ConnectionTable, StateEnum2};
use crate::disconnect::{disconnect_effect, disconnect_refusal};
use crate::egress::Egress;
use crate::error::{BrokerError, DecodeError};
use crate::filter::{
    delete_filter, delete_subscribers_with_socket_addr, get_subscribers_with_topic_id,
    has_subscriber_peer, id_subscribers, match_topics, subscribed_to_id, subscribers_of,
    wildcard_subscribers, Filter,
};
use crate::flags::QOS_LEVEL_0;
use crate::keep_alive::{expired_at_tick, fresh_timer, kept_after_tick, KeepAliveTimeWheel};
use crate::message::{
    Connect, Disconnect, MessageTypeEnum, PingReq, PubAck, PubComp, PubRec, PubRel, Publish,
    Subscribe, WillMsg, WillTopic,
};
use crate::model::{
    delivery_set, forget, kept_have_frames, lemma_delivery_lists_peers_once, lose, lose_each,
    name_subscribers, pending_in_order, publish_will, resolved_after, result_is, route, sent,
    BrokerModel, Outbox,
};
use crate::msg_hdr::{
    header_of, MSG_TYPE_CONNECT, MSG_TYPE_DISCONNECT, MSG_TYPE_PINGREQ, MSG_TYPE_PUBACK,
    MSG_TYPE_PUBCOMP, MSG_TYPE_PUBLISH, MSG_TYPE_PUBREC, MSG_TYPE_PUBREL, MSG_TYPE_REGISTER,
    MSG_TYPE_SUBSCRIBE, MSG_TYPE_WILL_MSG, MSG_TYPE_WILL_TOPIC, MsgHeader, PeerAddr,
};
use crate::ping_req::{ping_effect, ping_refusal};
use crate::pub_ack::{ack_effect, ack_refusal};
use crate::pub_msg_cache::{pending_models, PendingModel, PendingTable, PubKey};
use crate::pub_rec::{pubrec_effect, pubrec_refusal};
use crate::pub_rel::{pubrel_effect, pubrel_refusal};
use crate::publish::{publish_effect, publish_refusal};
use crate::register::{register_effect, register_refusal};
use crate::retain::{retain_models, RetainModel, RetainTable};
use crate::retransmit::{
    slot_after, wheel_failed, wheel_kept, wheel_sent, RetransKey, RetransTimeWheel,
};
use crate::subscribe::{subscribe_effect, subscribe_refusal};
use crate::subscriber::{
    insert_sorted, lemma_is_sorted_list, lists_set, peers_distinct, sorted_list,
};
use crate::table::{
    has_key, lemma_mapped, lemma_mapped_changes, lemma_mapped_without_peer, lemma_without_peer,
    lookup, with, without, Table,
};
use crate::topic_registry::TopicRegistry;
use crate::wire::{body_of, encode, Msg};
use bytes::BytesMut;
use vstd::prelude::*;

verus! {

/// The state of a broker.
pub struct MqttSnClient {
    /// The peer whose datagram is being handled.
    pub remote_addr: PeerAddr,
    pub context: u16,
    /// The frames that wait to be sent.
    pub egress_tx: Egress,
    pub connections: ConnectionTable,
    pub keep_alive: KeepAliveTimeWheel,
    pub retransmit: RetransTimeWheel,
    pub filters: Filter,
    pub topic_names: TopicRegistry,
    pub pub_msg_cache: PendingTable,
    pub asleep_msg_cache: AsleepTable,
    pub retain: RetainTable,
}

impl MqttSnClient {
    /// Every table of the broker is well formed.
    pub open spec fn wf(&self) -> bool {
        &&& self.connections.wf()
        &&& self.keep_alive.wf()
        &&& self.retransmit.wf()
        &&& self.filters.wf()
        &&& self.topic_names.wf()
        &&& self.pub_msg_cache.wf()
        &&& pending_in_order(self.pending())
        &&& kept_have_frames(self.outbox().asleep)
        &&& self.asleep_msg_cache.wf()
        &&& self.retain.wf()
    }

    /// The connections, as values.
    pub open spec fn conns(&self) -> Seq<(PeerAddr, ConnModel)> {
        conn_models(self.connections@)
    }

    /// The publications that wait for their release, as values.
    pub open spec fn pending(&self) -> Seq<(PubKey, PendingModel)> {
        pending_models(self.pub_msg_cache@)
    }

    /// The retained publications, as values.
    pub open spec fn retained(&self) -> Seq<(u16, RetainModel)> {
        retain_models(self.retain@)
    }

    /// The broker as a value.
    pub open spec fn model(&self) -> BrokerModel {
        BrokerModel {
            remote_addr: self.remote_addr,
            context: self.context,
            conns: self.conns(),
            timers: self.keep_alive@,
            hand: self.retransmit.hand(),
            names: self.topic_names.pairs(),
            next_id: self.topic_names.next(),
            resolved: self.filters.resolved(),
            wildcards: self.filters.wildcards(),
            concrete: self.filters.concrete(),
            by_id: self.filters.by_id(),
            pending: self.pending(),
            retained: self.retained(),
            outbox: self.outbox(),
        }
    }

    /// The value of a well-formed broker is well formed.
    pub proof fn lemma_model_wf(&self)
        requires
            self.wf(),
        ensures
            self.model().wf(),
    {
        lemma_mapped(self.connections@, |c: Connection| c@);
        self.keep_alive.lemma_wf();
        self.retransmit.lemma_wf();
        lemma_mapped(
            self.asleep_msg_cache@,
            |q: Vec<Publish>| crate::asleep_msg_cache::msgs_of(q@),
        );
        lemma_mapped(self.pub_msg_cache@, |c: crate::pub_msg_cache::PubMsgCache| c@);
        lemma_mapped(self.retain@, |r: crate::retain::Retain| r@);
    }

    /// What leaves the broker or waits to.
    pub open spec fn outbox(&self) -> Outbox {
        Outbox {
            egress: self.egress_tx@,
            wheel: self.retransmit@,
            asleep: asleep_models(self.asleep_msg_cache@),
        }
    }

    /// Whether the two states differ in their outboxes at most.
    pub open spec fn same_but_outbox(&self, other: &MqttSnClient) -> bool {
        &&& self.remote_addr == other.remote_addr
        &&& self.context == other.context
        &&& self.connections == other.connections
        &&& self.keep_alive == other.keep_alive
        &&& self.retransmit.hand() == other.retransmit.hand()
        &&& self.filters == other.filters
        &&& self.topic_names == other.topic_names
        &&& self.pub_msg_cache == other.pub_msg_cache
        &&& self.retain == other.retain
    }

    /// A broker without connections, subscriptions or waiting frames.
    pub fn new(remote_addr: PeerAddr) -> (client: MqttSnClient)
        ensures
            client.wf(),
            client.remote_addr == remote_addr,
            client.context == 0,
            client.conns() == Seq::<(PeerAddr, ConnModel)>::empty(),
            client.keep_alive@ == Seq::<(PeerAddr, crate::keep_alive::KeepAlive)>::empty(),
            client.outbox() == (Outbox {
                egress: Seq::empty(),
                wheel: Seq::empty(),
                asleep: Seq::empty(),
            }),
            client.retransmit.hand() == 0,
            client.pending() == Seq::<(PubKey, PendingModel)>::empty(),
            client.retained() == Seq::<(u16, RetainModel)>::empty(),
            client.filters.resolved() == Set::<(Seq<char>, PeerAddr)>::empty(),
            client.filters.wildcards() == Set::<(Seq<char>, PeerAddr)>::empty(),
            client.filters.concrete() == Set::<(Seq<char>, PeerAddr)>::empty(),
            client.filters.by_id() == Set::<(u16, crate::biset::Subscriber)>::empty(),
            client.topic_names.pairs() == Set::<(Seq<char>, u16)>::empty(),
            client.topic_names.next() == 1,
            crate::invariants::holds(client.model()),
    {
        let client = MqttSnClient {
            remote_addr,
            context: 0,
            egress_tx: Egress::new(),
            connections: Table::new(),
            keep_alive: KeepAliveTimeWheel::new(),
            retransmit: RetransTimeWheel::new(),
            filters: Filter::new(),
            topic_names: TopicRegistry::new(),
            pub_msg_cache: Table::new(),
            asleep_msg_cache: Table::new(),
            retain: Table::new(),
        };
        proof {
            assert(client.conns() =~= Seq::<(PeerAddr, ConnModel)>::empty());
            assert(client.pending() =~= Seq::<(PubKey, PendingModel)>::empty());
            assert(client.retained() =~= Seq::<(u16, RetainModel)>::empty());
            assert(client.outbox().asleep =~= Seq::<(PeerAddr, Seq<Msg>)>::empty());
        }
        client
    }
}

impl MqttSnClient {
    /// The subscribers that a publication to a topic id goes to.
    pub open spec fn delivery(&self, topic_id: u16) -> Set<Subscriber> {
        delivery_set(
            self.filters.by_id(),
            name_subscribers(
                self.topic_names.pairs(),
                self.filters.concrete(),
                self.filters.wildcards(),
                topic_id,
            ),
            topic_id,
        )
    }

    /// Whether the two states differ in the resolved cache at most.
    pub open spec fn same_but_resolved(&self, other: &MqttSnClient) -> bool {
        &&& self.remote_addr == other.remote_addr
        &&& self.context == other.context
        &&& self.egress_tx == other.egress_tx
        &&& self.connections == other.connections
        &&& self.keep_alive == other.keep_alive
        &&& self.retransmit == other.retransmit
        &&& self.filters.same_subscriptions(&other.filters)
        &&& self.topic_names == other.topic_names
        &&& self.pub_msg_cache == other.pub_msg_cache
        &&& self.asleep_msg_cache == other.asleep_msg_cache
        &&& self.retain == other.retain
    }

    /// Whether the two states differ in their egress queues at most.
    pub open spec fn same_but_egress(&self, other: &MqttSnClient) -> bool {
        &&& self.remote_addr == other.remote_addr
        &&& self.context == other.context
        &&& self.connections == other.connections
        &&& self.keep_alive == other.keep_alive
        &&& self.retransmit == other.retransmit
        &&& self.filters == other.filters
        &&& self.topic_names == other.topic_names
        &&& self.pub_msg_cache == other.pub_msg_cache
        &&& self.asleep_msg_cache == other.asleep_msg_cache
        &&& self.retain == other.retain
    }

    /// The subscribers that a publication to a topic id goes to, each peer
    /// once, in order. The resolved cache learns the wildcard subscribers of
    /// the topic's name.
    pub fn delivery_list(&mut self, topic_id: u16) -> (r: Vec<Subscriber>)
        requires
            old(self).wf(),
        ensures
            final(self).wf(),
            final(self).same_but_resolved(old(self)),
            final(self).filters.resolved() == resolved_after(
                old(self).filters.resolved(),
                old(self).topic_names.pairs(),
                old(self).filters.wildcards(),
                topic_id,
            ),
            lists_set(r@, old(self).delivery(topic_id)),
            r@ == sorted_list(old(self).delivery(topic_id)),
            r@ == old(self).model().recipients(topic_id),
            peers_distinct(r@),
            final(self).model() == route(old(self).model(), topic_id),
    {
        let mut subs = get_subscribers_with_topic_id(&self.filters, topic_id);
        let ghost by_id = self.filters.by_id();
        let ghost names = self.topic_names.pairs();
        let ghost by_name = name_subscribers(
            names,
            self.filters.concrete(),
            self.filters.wildcards(),
            topic_id,
        );
        let ghost res0 = self.filters.resolved();
        let ghost want = old(self).delivery(topic_id);
        match self.topic_names.topic_name_of(topic_id) {
            Some(name) => {
                let peers = match_topics(&mut self.filters, &name);
                proof {
                    assert forall|p: PeerAddr| peers@.contains(p) <==> by_name.contains(p) by {
                        if by_name.contains(p) {
                            let n = choose|n: Seq<char>|
                                names.contains((n, topic_id)) && (subscribers_of(
                                    old(self).filters.concrete(),
                                    n,
                                ).contains(p) || wildcard_subscribers(
                                    old(self).filters.wildcards(),
                                    n,
                                ).contains(p));
                            assert(n == name@);
                        }
                    }
                    assert(self.filters.resolved() =~= resolved_after(
                        res0,
                        names,
                        old(self).filters.wildcards(),
                        topic_id,
                    )) by {
                        assert forall|x: (Seq<char>, PeerAddr)|
                            names.contains((x.0, topic_id)) implies x.0 == name@ by {}
                    }
                }
                let mut i: usize = 0;
                while i < peers.len()
                    invariant
                        i <= peers.len(),
                        crate::subscriber::strictly_sorted(subs@),
                        forall|s: Subscriber|
                            subs@.contains(s) <==> id_subscribers(by_id, topic_id).contains(s) || (
                            s.qos == QOS_LEVEL_0 && peers@.take(i as int).contains(s.socket_addr)
                                && !subscribed_to_id(by_id, topic_id, s.socket_addr)),
                    decreases peers.len() - i,
                {
                    let p = peers[i];
                    proof {
                        crate::filter::lemma_take_contains(peers@, i as int);
                    }
                    let ghost before = subs@;
                    let held = has_subscriber_peer(&subs, &p);
                    proof {
                        if held {
                            let q = choose|q: u8| subs@.contains(subscriber(p, q));
                            if !id_subscribers(by_id, topic_id).contains(subscriber(p, q)) {
                                assert(!subscribed_to_id(by_id, topic_id, p));
                                assert(q == QOS_LEVEL_0);
                            }
                        } else if subscribed_to_id(by_id, topic_id, p) {
                            let q = choose|q: u8| by_id.contains((topic_id, subscriber(p, q)));
                            assert(subs@.contains(subscriber(p, q)));
                        }
                    }
                    if !held {
                        insert_sorted(&mut subs, Subscriber { socket_addr: p, qos: QOS_LEVEL_0 });
                    }
                    i += 1;
                }
                proof {
                    assert(peers@.take(peers@.len() as int) =~= peers@);
                }
            },
            None => {
                proof {
                    assert forall|p: PeerAddr| !by_name.contains(p) by {
                        if by_name.contains(p) {
                            let n = choose|n: Seq<char>|
                                names.contains((n, topic_id)) && (subscribers_of(
                                    old(self).filters.concrete(),
                                    n,
                                ).contains(p) || wildcard_subscribers(
                                    old(self).filters.wildcards(),
                                    n,
                                ).contains(p));
                            assert(self.topic_names.names(topic_id));
                        }
                    }
                    assert(self.filters.resolved() =~= resolved_after(
                        res0,
                        names,
                        old(self).filters.wildcards(),
                        topic_id,
                    )) by {
                        assert forall|x: (Seq<char>, PeerAddr)|
                            !names.contains((x.0, topic_id)) by {
                            if names.contains((x.0, topic_id)) {
                                assert(self.topic_names.names(topic_id));
                            }
                        }
                    }
                }
            },
        }
        proof {
            lemma_is_sorted_list(subs@, want);
            lemma_delivery_lists_peers_once(by_id, by_name, topic_id, subs@);
            assert(self.model() =~= route(old(self).model(), topic_id));
        }
        subs
    }

    /// Puts the frame of a short message on the egress queue, and hands out
    /// a copy of the frame.
    pub(crate) fn reply(&mut self, to: PeerAddr, m: &MessageTypeEnum) -> (frame: BytesMut)
        requires
            body_of(m@).len() <= 251,
        ensures
            final(self).same_but_egress(old(self)),
            final(self).egress_tx@ == old(self).egress_tx@.push((to, encode(m@))),
            buf_bytes(frame) == encode(m@),
    {
        match m.encode_frame() {
            Ok(frame) => {
                self.egress_tx.try_send(to, frame.clone());
                frame
            },
            Err(_) => {
                proof {
                    assert(false);
                }
                crate::buf::buf_with_capacity(0)
            },
        }
    }
}

impl MqttSnClient {
    /// Removes every trace of a peer: its connection, its timer, its
    /// subscriptions, the frames that wait for its acknowledgements, what is
    /// kept for its sleep and its publications that wait for their release.
    /// Returns the connection, if there was one.
    pub fn forget_peer(&mut self, addr: PeerAddr) -> (conn: Option<Connection>)
        requires
            old(self).wf(),
        ensures
            final(self).wf(),
            final(self).model() == forget(old(self).model(), addr),
            final(self).topic_names == old(self).topic_names,
            final(self).retain == old(self).retain,
            final(self).egress_tx == old(self).egress_tx,
            match conn {
                Some(c) => lookup(old(self).conns(), addr) == Some(c@),
                None => !has_key(old(self).conns(), addr),
            },
    {
        let ghost cf = |c: Connection| c@;
        let ghost af = |q: Vec<Publish>| crate::asleep_msg_cache::msgs_of(q@);
        let ghost pf = |c: crate::pub_msg_cache::PubMsgCache| c@;
        proof {
            lemma_mapped(self.connections@, cf);
            lemma_mapped_changes(self.connections@, cf, addr, arbitrary(), addr);
            lemma_mapped_without_peer(self.pub_msg_cache@, pf, addr);
        }
        let conn = self.connections.take(&addr);
        let _ = self.keep_alive.cancel(&addr);
        delete_filter(&mut self.filters, addr);
        delete_subscribers_with_socket_addr(&mut self.filters, &addr);
        self.retransmit.cancel_peer(addr);
        let _ = AsleepMsgCache::remove(&mut self.asleep_msg_cache, &addr);
        self.pub_msg_cache.remove_peer(&addr);
        proof {
            lemma_without_peer(old(self).pending(), addr);
            let before = old(self).pending();
            let after = self.pending();
            assert forall|i: int| 0 <= i < after.len() implies peers_distinct(
                (#[trigger] after[i]).1.subscribers,
            ) by {
                assert(before.contains(after[i]));
                let j = choose|j: int| 0 <= j < before.len() && before[j] == after[i];
                assert(peers_distinct(before[j].1.subscribers));
            }
        }
        assert(self.model() =~= forget(old(self).model(), addr));
        conn
    }

    /// Publishes the will of a connection that is gone, if it had one: the
    /// will's message is sent to the subscribers of the will's topic.
    pub fn publish_will(&mut self, conn: Connection)
        requires
            old(self).wf(),
        ensures
            final(self).wf(),
            final(self).model() == publish_will(old(self).model(), conn@),
    {
        match conn.will_topic_id {
            Some(topic_id) => {
                let subs = self.delivery_list(topic_id);
                let will = Publish::new(
                    topic_id,
                    0,
                    QOS_LEVEL_0,
                    crate::flags::RETAIN_FALSE,
                    conn.will_message,
                );
                let _ = Publish::send_msg_to_subscribers(subs, will, self);
                assert(self.model() =~= publish_will(old(self).model(), conn@));
            },
            None => {},
        }
    }

    /// A peer's connection ends: every trace of the peer is removed, and
    /// then, where `publish_will` says so, the will of the connection is
    /// published.
    pub fn connection_lost(&mut self, addr: PeerAddr, publish_will: bool)
        requires
            old(self).wf(),
        ensures
            final(self).wf(),
            final(self).model() == lose(old(self).model(), addr, publish_will),
            final(self).model().knows_nothing_of(addr),
    {
        proof {
            old(self).lemma_model_wf();
            crate::model::lemma_lost_is_forgotten(old(self).model(), addr, publish_will);
        }
        match self.forget_peer(addr) {
            Some(conn) => {
                if publish_will {
                    self.publish_will(conn);
                }
            },
            None => {},
        }
    }
}

/// The broker after a datagram came from a peer: the peer is the one whose
/// datagram is being handled, and its timer, if it has one, is wound up.
pub open spec fn touched(m: BrokerModel, addr: PeerAddr) -> BrokerModel {
    BrokerModel {
        remote_addr: addr,
        timers: match lookup(m.timers, addr) {
            Some(t) => with(m.timers, addr, fresh_timer(t.duration)),
            None => m.timers,
        },
        ..m
    }
}

/// The message type that the header of a datagram names.
pub open spec fn read_type(buf: Seq<u8>, size: usize) -> Result<u8, DecodeError> {
    if size > buf.len() {
        Err(DecodeError::LenMismatch)
    } else {
        match header_of(buf.take(size as int)) {
            Ok((t, _, _)) => Ok(t),
            Err(e) => Err(e),
        }
    }
}

/// Why the datagram of a peer is refused, if it is. A datagram whose
/// header does not decode is refused. PUBLISH and CONNECT are handed to
/// their handlers whoever sends them; every other message is refused from
/// a peer without a connection, and handed to its handler otherwise. The
/// broker serves no other messages.
pub open spec fn dispatch_refusal(
    m: BrokerModel,
    addr: PeerAddr,
    buf: Seq<u8>,
    size: usize,
) -> Option<BrokerError> {
    match read_type(buf, size) {
        Err(e) => Some(BrokerError::Decode(e)),
        Ok(t) => if t == MSG_TYPE_PUBLISH {
            publish_refusal(m, addr, buf, size)
        } else if t == MSG_TYPE_CONNECT {
            connect_refusal(m, addr, buf, size)
        } else if !has_key(m.conns, addr) {
            Some(BrokerError::NotConnected)
        } else if t == MSG_TYPE_PUBREL {
            pubrel_refusal(m, addr, buf, size)
        } else if t == MSG_TYPE_PUBACK {
            ack_refusal(m, addr, buf, size, |x: Msg| PubAck::wanted(x))
        } else if t == MSG_TYPE_PUBREC {
            pubrec_refusal(m, addr, buf, size)
        } else if t == MSG_TYPE_PUBCOMP {
            ack_refusal(m, addr, buf, size, |x: Msg| PubComp::wanted(x))
        } else if t == MSG_TYPE_PINGREQ {
            ping_refusal(m, addr, buf, size)
        } else if t == MSG_TYPE_SUBSCRIBE {
            subscribe_refusal(m, addr, buf, size)
        } else if t == MSG_TYPE_DISCONNECT {
            disconnect_refusal(m, addr, buf, size)
        } else if t == MSG_TYPE_WILL_TOPIC {
            will_topic_refusal(m, addr, buf, size)
        } else if t == MSG_TYPE_WILL_MSG {
            will_msg_refusal(m, addr, buf, size)
        } else if t == MSG_TYPE_REGISTER {
            register_refusal(m, addr, buf, size)
        } else {
            Some(BrokerError::NotSupported)
        },
    }
}

/// What the handler of a datagram makes of the broker.
pub open spec fn dispatch_effect(
    m: BrokerModel,
    addr: PeerAddr,
    buf: Seq<u8>,
    size: usize,
) -> BrokerModel {
    match read_type(buf, size) {
        Err(e) => m,
        Ok(t) => if t == MSG_TYPE_PUBLISH {
            publish_effect(m, addr, buf, size)
        } else if t == MSG_TYPE_CONNECT {
            connect_effect(m, addr, buf, size)
        } else if !has_key(m.conns, addr) {
            m
        } else if t == MSG_TYPE_PUBREL {
            pubrel_effect(m, addr, buf, size)
        } else if t == MSG_TYPE_PUBACK {
            ack_effect(m, addr, buf, size, |x: Msg| PubAck::wanted(x))
        } else if t == MSG_TYPE_PUBREC {
            pubrec_effect(m, addr, buf, size)
        } else if t == MSG_TYPE_PUBCOMP {
            ack_effect(m, addr, buf, size, |x: Msg| PubComp::wanted(x))
        } else if t == MSG_TYPE_PINGREQ {
            ping_effect(m, addr, buf, size)
        } else if t == MSG_TYPE_SUBSCRIBE {
            subscribe_effect(m, addr, buf, size)
        } else if t == MSG_TYPE_DISCONNECT {
            disconnect_effect(m, addr, buf, size)
        } else if t == MSG_TYPE_WILL_TOPIC {
            will_topic_effect(m, addr, buf, size)
        } else if t == MSG_TYPE_WILL_MSG {
            will_msg_effect(m, addr, buf, size)
        } else if t == MSG_TYPE_REGISTER {
            register_effect(m, addr, buf, size)
        } else {
            m
        },
    }
}

/// The broker after it handled the datagram of a peer. The peer's timer is
/// wound up before anything is read, so that a malformed datagram is a sign
/// of life too. A message that is not valid in the state of the peer's
/// connection is answered with a DISCONNECT where the peer is active; the
/// connection stays.
pub open spec fn handled(m: BrokerModel, addr: PeerAddr, buf: Seq<u8>, size: usize) -> BrokerModel {
    let m1 = touched(m, addr);
    let m2 = dispatch_effect(m1, addr, buf, size);
    if dispatch_refusal(m1, addr, buf, size) == Some(BrokerError::BadState) && state_of(
        m2.conns,
        addr,
    ) == Some(StateEnum2::ACTIVE) {
        sent(m2, addr, crate::wire::encode(Msg::Disconnect))
    } else {
        m2
    }
}

/// The broker after the keep-alive timers were counted down by a second:
/// the connections of the peers whose time was up are lost.
pub open spec fn keep_alive_ticked(m: BrokerModel) -> BrokerModel {
    lose_each(BrokerModel { timers: kept_after_tick(m.timers), ..m }, expired_at_tick(m.timers))
}

/// The broker after the hand of the retransmission wheel moved on by a
/// slot: the frames of the slot that have retries left were sent again, and
/// the connections of the peers whose frames had none are lost.
pub open spec fn retransmit_ticked(m: BrokerModel) -> BrokerModel {
    let hand = slot_after(m.hand, 1);
    lose_each(
        BrokerModel {
            hand,
            outbox: Outbox {
                egress: m.outbox.egress + wheel_sent(m.outbox.wheel, hand),
                wheel: wheel_kept(m.outbox.wheel, hand),
                asleep: m.outbox.asleep,
            },
            ..m
        },
        wheel_failed(m.outbox.wheel, hand).map_values(|k: crate::retransmit::RetransKey| k.addr),
    )
}

impl MqttSnClient {
    /// Loses the connections of a list of peers, one after the other.
    pub fn lose_peers(&mut self, peers: &Vec<PeerAddr>)
        requires
            old(self).wf(),
        ensures
            final(self).wf(),
            final(self).model() == lose_each(old(self).model(), peers@),
    {
        let mut i: usize = 0;
        assert(peers@.take(0) =~= Seq::<PeerAddr>::empty());
        while i < peers.len()
            invariant
                i <= peers.len(),
                self.wf(),
                self.model() == lose_each(old(self).model(), peers@.take(i as int)),
            decreases peers.len() - i,
        {
            proof {
                let next = peers@.take(i + 1);
                assert(next.drop_last() =~= peers@.take(i as int));
                assert(next.last() == peers@[i as int]);
            }
            self.connection_lost(peers[i], true);
            i += 1;
        }
        assert(peers@.take(peers@.len() as int) =~= peers@);
    }

    /// A second has passed for the keep-alive timers: the peers that were
    /// not heard of in time are lost, their wills published and their
    /// connections destroyed.
    pub fn keep_alive_tick(&mut self)
        requires
            old(self).wf(),
        ensures
            final(self).wf(),
            final(self).model() == keep_alive_ticked(old(self).model()),
    {
        let expired = self.keep_alive.tick();
        assert(self.model() =~= (BrokerModel {
            timers: kept_after_tick(old(self).model().timers),
            ..old(self).model()
        }));
        self.lose_peers(&expired);
    }

    /// A second has passed for the retransmission wheel: frames that are
    /// due are sent again, and the peers that did not acknowledge a frame
    /// after its last retry are lost, their wills published and their
    /// connections destroyed. A publication of such a peer that waits for
    /// its release goes with the peer.
    pub fn retransmit_tick(&mut self)
        requires
            old(self).wf(),
        ensures
            final(self).wf(),
            final(self).model() == retransmit_ticked(old(self).model()),
    {
        let failed = self.retransmit.tick(&mut self.egress_tx);
        let mut peers: Vec<PeerAddr> = Vec::new();
        let mut i: usize = 0;
        while i < failed.len()
            invariant
                i <= failed.len(),
                peers@ == failed@.take(i as int).map_values(
                    |k: crate::retransmit::RetransKey| k.addr,
                ),
            decreases failed.len() - i,
        {
            peers.push(failed[i].addr);
            assert(peers@ =~= failed@.take(i + 1).map_values(
                |k: crate::retransmit::RetransKey| k.addr,
            ));
            i += 1;
        }
        proof {
            assert(failed@.take(failed@.len() as int) =~= failed@);
            let hand = slot_after(old(self).model().hand, 1);
            let m = old(self).model();
            assert(self.model() =~= (BrokerModel {
                hand,
                outbox: Outbox {
                    egress: m.outbox.egress + wheel_sent(m.outbox.wheel, hand),
                    wheel: wheel_kept(m.outbox.wheel, hand),
                    asleep: m.outbox.asleep,
                },
                ..m
            }));
        }
        self.lose_peers(&peers);
    }

    /// Handles the datagram that fills the first `size` octets of `buf`
    /// and came from `addr`.
    pub fn handle_ingress(&mut self, addr: PeerAddr, buf: &[u8], size: usize) -> (r: Result<
        (),
        BrokerError,
    >)
        requires
            old(self).wf(),
        ensures
            final(self).wf(),
            final(self).model() == handled(old(self).model(), addr, buf@, size),
            result_is(r, dispatch_refusal(touched(old(self).model(), addr), addr, buf@, size)),
    {
        self.remote_addr = addr;
        proof {
            self.keep_alive.lemma_wf();
        }
        let _ = self.keep_alive.reschedule(addr);
        let ghost m1 = self.model();
        assert(m1 =~= touched(old(self).model(), addr));
        let header = match MsgHeader::try_read(buf, size, addr) {
            Ok(header) => header,
            Err(e) => {
                return Err(BrokerError::Decode(e));
            },
        };
        proof {
            lemma_mapped(self.connections@, |c: Connection| c@);
        }
        let t = header.msg_type;
        let known = Connection::contains_key(&self.connections, addr);
        let r = if t == MSG_TYPE_PUBLISH {
            Publish::recv(buf, size, self, header)
        } else if t == MSG_TYPE_CONNECT {
            Connect::recv(buf, size, self, header)
        } else if !known {
            Err(BrokerError::NotConnected)
        } else if t == MSG_TYPE_PUBREL {
            PubRel::recv(buf, size, self)
        } else if t == MSG_TYPE_PUBACK {
            PubAck::recv(buf, size, self)
        } else if t == MSG_TYPE_PUBREC {
            match PubRec::rx(buf, size, self) {
                Ok(_) => Ok(()),
                Err(e) => Err(e),
            }
        } else if t == MSG_TYPE_PUBCOMP {
            PubComp::recv(buf, size, self)
        } else if t == MSG_TYPE_PINGREQ {
            PingReq::recv(buf, size, self, header)
        } else if t == MSG_TYPE_SUBSCRIBE {
            Subscribe::recv(buf, size, self)
        } else if t == MSG_TYPE_DISCONNECT {
            Disconnect::recv(buf, size, self, header)
        } else if t == MSG_TYPE_WILL_TOPIC {
            WillTopic::recv(buf, size, self)
        } else if t == MSG_TYPE_WILL_MSG {
            WillMsg::recv(buf, size, self)
        } else if t == MSG_TYPE_REGISTER {
            crate::register::recv(buf, size, self)
        } else {
            Err(BrokerError::NotSupported)
        };
        assert(self.model() == dispatch_effect(m1, addr, buf@, size));
        match r {
            Err(BrokerError::BadState) => {
                match Connection::get_state(&self.connections, &addr) {
                    Ok(StateEnum2::ACTIVE) => {
                        let _ = Disconnect::send(self, header);
                    },
                    _ => {},
                }
            },
            _ => {},
        }
        r
    }

    /// Subscribes, as a client, to a topic name at the peer whose address
    /// the state holds.
    pub fn subscribe(&mut self, topic: String, msg_id: u16, qos: u8, retain: u8) -> (r: Result<
        (),
        BrokerError,
    >)
        requires
            old(self).wf(),
        ensures
            final(self).wf(),
            final(self).same_but_outbox(old(self)),
            ({
                let s = crate::subscribe::subscribe_msg(qos, retain, msg_id, topic@);
                let key = crate::retransmit::RetransKey {
                    addr: old(self).remote_addr,
                    msg_type: crate::msg_hdr::MSG_TYPE_SUBACK,
                    topic_id: 0,
                    msg_id,
                };
                &&& final(self).outbox() == crate::subscribe::subscribe_sent(
                    old(self).outbox(),
                    old(self).retransmit.hand(),
                    old(self).remote_addr,
                    s,
                )
                &&& r is Ok <==> crate::msg_hdr::body_fits(body_of(s).len()) && !has_key(
                    old(self).retransmit@,
                    key,
                )
                &&& r matches Err(e) ==> e == if !crate::msg_hdr::body_fits(body_of(s).len()) {
                    BrokerError::FrameTooLong
                } else {
                    BrokerError::AlreadyScheduled
                }
            }),
    {
        Subscribe::send(topic, msg_id, qos, retain, self)
    }
}

} // verus!
