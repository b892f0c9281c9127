use broker_lib::biset::Subscriber;
use broker_lib::broker_lib::MqttSnClient;
use broker_lib::connection::{Connection, StateEnum2};
use broker_lib::error::{BrokerError, DecodeError};
use broker_lib::filter::get_subscribers_with_topic_id;
use broker_lib::flags::{QOS_LEVEL_0, QOS_LEVEL_1, QOS_LEVEL_2, RETAIN_FALSE};
use broker_lib::message::{PubComp, Publish, Subscribe};
use broker_lib::msg_hdr::{MsgHeader, MsgHeaderLenEnum, PeerAddr};
use broker_lib::message::PubRec;
use broker_lib::retransmit::RetransKey;
use bytes::BytesMut;

fn peer(last: u8) -> PeerAddr {
    PeerAddr::ipv4(0x7f00_0000 + last as u32, 1200)
}

const A: u8 = 1;
const B: u8 = 2;
const C: u8 = 3;

fn broker() -> MqttSnClient {
    MqttSnClient::new(peer(0))
}

/// Hands a datagram to the broker and returns what the broker sent.
fn send(client: &mut MqttSnClient, from: u8, frame: &[u8]) -> (Result<(), BrokerError>, Vec<(PeerAddr, Vec<u8>)>) {
    let mut buf = vec![0u8; frame.len().max(1500)];
    buf[..frame.len()].copy_from_slice(frame);
    let r = client.handle_ingress(peer(from), &buf, frame.len());
    (r, sent(client))
}

fn sent(client: &mut MqttSnClient) -> Vec<(PeerAddr, Vec<u8>)> {
    client.egress_tx.drain().into_iter().map(|(to, f)| (to, f.to_vec())).collect()
}

fn state(client: &MqttSnClient, of: u8) -> Option<StateEnum2> {
    Connection::get_state(&client.connections, &peer(of)).ok()
}

fn connect(client: &mut MqttSnClient, who: u8, duration: u8) {
    let (r, out) = send(client, who, &[8, 0x04, 0x04, 1, 0, duration, b'c', who]);
    assert_eq!(r, Ok(()));
    assert_eq!(out, vec![(peer(who), vec![3, 0x05, 0])]);
}

fn subscribe_frame(flags: u8, msg_id: u16, name: &str) -> Vec<u8> {
    let mut f = vec![(5 + name.len()) as u8, 0x12, flags, (msg_id >> 8) as u8, msg_id as u8];
    f.extend_from_slice(name.as_bytes());
    f
}

fn register_frame(msg_id: u16, name: &str) -> Vec<u8> {
    let mut f = vec![(6 + name.len()) as u8, 0x0A, 0, 0, (msg_id >> 8) as u8, msg_id as u8];
    f.extend_from_slice(name.as_bytes());
    f
}

fn publish_frame(flags: u8, topic_id: u16, msg_id: u16, data: &[u8]) -> Vec<u8> {
    let mut f = vec![
        (7 + data.len()) as u8,
        0x0C,
        flags,
        (topic_id >> 8) as u8,
        topic_id as u8,
        (msg_id >> 8) as u8,
        msg_id as u8,
    ];
    f.extend_from_slice(data);
    f
}

#[test]
fn connect_then_ping() {
    let mut client = broker();
    // CONNECT(cleanSession=1, will=0, duration=60, clientId="c1")
    let (r, out) = send(&mut client, A, &[8, 0x04, 0x04, 1, 0, 60, b'c', b'1']);
    assert_eq!(r, Ok(()));
    assert_eq!(out, vec![(peer(A), vec![3, 0x05, 0x00])]);
    assert_eq!(state(&client, A), Some(StateEnum2::ACTIVE));
    let (r, out) = send(&mut client, A, &[2, 0x16]);
    assert_eq!(r, Ok(()));
    assert_eq!(out, vec![(peer(A), vec![2, 0x17])]);
    assert_eq!(state(&client, A), Some(StateEnum2::ACTIVE));
    assert_eq!(client.remote_addr, peer(A));
}

#[test]
fn subscribe_new_name() {
    let mut client = broker();
    connect(&mut client, A, 60);
    let (r, out) = send(&mut client, A, &subscribe_frame(0x20, 7, "sensors/temp"));
    assert_eq!(r, Ok(()));
    // SUBACK(flags echoing QoS 1, topicId=1, msgId=7, code=Accepted)
    assert_eq!(out, vec![(peer(A), vec![8, 0x13, 0x20, 0, 1, 0, 7, 0])]);
    assert_eq!(client.topic_names.topic_id_of(&"sensors/temp".to_string()), Some(1));
    assert_eq!(client.topic_names.topic_name_of(1), Some("sensors/temp".to_string()));
    assert_eq!(
        get_subscribers_with_topic_id(&client.filters, 1),
        vec![Subscriber { socket_addr: peer(A), qos: QOS_LEVEL_1 }]
    );
}

#[test]
fn publish_qos_1_fan_out() {
    let mut client = broker();
    connect(&mut client, A, 60);
    connect(&mut client, B, 60);
    send(&mut client, A, &subscribe_frame(0x20, 7, "sensors/temp"));
    let (r, out) = send(&mut client, B, &publish_frame(0x20, 1, 42, b"25"));
    assert_eq!(r, Ok(()));
    assert_eq!(
        out,
        vec![
            (peer(B), vec![7, 0x0D, 0, 1, 0, 42, 0]),
            (peer(A), vec![9, 0x0C, 0x20, 0, 1, 0, 42, b'2', b'5']),
        ]
    );
    // the publication to A waits for A's PUBACK
    assert!(client.retransmit.is_scheduled(&RetransKey {
        addr: peer(A),
        msg_type: 0x0D,
        topic_id: 1,
        msg_id: 42
    }));
    // after a second it is sent again
    client.retransmit_tick();
    assert_eq!(sent(&mut client), vec![(peer(A), vec![9, 0x0C, 0x20, 0, 1, 0, 42, b'2', b'5'])]);
    // A acknowledges: nothing is sent again
    let (r, out) = send(&mut client, A, &[7, 0x0D, 0, 1, 0, 42, 0]);
    assert_eq!(r, Ok(()));
    assert_eq!(out, vec![]);
    for _ in 0..5 {
        client.retransmit_tick();
    }
    assert_eq!(sent(&mut client), vec![]);
    // a second PUBACK is taken and changes nothing
    let (r, out) = send(&mut client, A, &[7, 0x0D, 0, 1, 0, 42, 0]);
    assert_eq!(r, Ok(()));
    assert_eq!(out, vec![]);
}

#[test]
fn wildcard_routing() {
    let mut client = broker();
    connect(&mut client, A, 60);
    connect(&mut client, B, 60);
    let (r, out) = send(&mut client, A, &subscribe_frame(0x20, 7, "sensors/#"));
    assert_eq!(r, Ok(()));
    // a wildcard filter has no topic id
    assert_eq!(out, vec![(peer(A), vec![8, 0x13, 0x20, 0, 0, 0, 7, 0])]);
    let (r, out) = send(&mut client, B, &register_frame(1, "other"));
    assert_eq!(r, Ok(()));
    assert_eq!(out, vec![(peer(B), vec![7, 0x0B, 0, 1, 0, 1, 0])]);
    let (r, out) = send(&mut client, B, &register_frame(2, "sensors/temp"));
    assert_eq!(r, Ok(()));
    assert_eq!(out, vec![(peer(B), vec![7, 0x0B, 0, 2, 0, 2, 0])]);
    let (r, out) = send(&mut client, B, &publish_frame(0x00, 2, 0, b"25"));
    assert_eq!(r, Ok(()));
    // a wildcard subscriber is served at QoS 0
    assert_eq!(out, vec![(peer(A), vec![9, 0x0C, 0x00, 0, 2, 0, 0, b'2', b'5'])]);
    // the resolved cache knows the topic now
    let cached = client.filters.match_topic_wildcard("sensors/temp").unwrap();
    assert!(cached.contains(&peer(A)));
    assert!(!cached.contains(&peer(B)));
    // a publication on a topic that no filter accepts goes nowhere
    let (r, out) = send(&mut client, B, &publish_frame(0x00, 1, 0, b"x"));
    assert_eq!(r, Ok(()));
    assert_eq!(out, vec![]);
}

#[test]
fn sleep_and_wake() {
    let mut client = broker();
    connect(&mut client, A, 60);
    connect(&mut client, B, 60);
    send(&mut client, A, &subscribe_frame(0x00, 7, "t"));
    // DISCONNECT(duration=30)
    let (r, out) = send(&mut client, A, &[4, 0x18, 0, 30]);
    assert_eq!(r, Ok(()));
    assert_eq!(out, vec![(peer(A), vec![2, 0x18])]);
    assert_eq!(state(&client, A), Some(StateEnum2::ASLEEP));
    // what is published meanwhile is kept
    let (r, out) = send(&mut client, B, &publish_frame(0x00, 1, 0, b"one"));
    assert_eq!(r, Ok(()));
    assert_eq!(out, vec![]);
    let (_, out) = send(&mut client, B, &publish_frame(0x00, 1, 0, b"two"));
    assert_eq!(out, vec![]);
    // A wakes: the queue is drained in order, then PINGRESP
    let (r, out) = send(&mut client, A, &[2, 0x16]);
    assert_eq!(r, Ok(()));
    assert_eq!(
        out,
        vec![
            (peer(A), vec![10, 0x0C, 0x00, 0, 1, 0, 0, b'o', b'n', b'e']),
            (peer(A), vec![10, 0x0C, 0x00, 0, 1, 0, 0, b't', b'w', b'o']),
            (peer(A), vec![2, 0x17]),
        ]
    );
    assert_eq!(state(&client, A), Some(StateEnum2::ASLEEP));
    // nothing is kept any more
    let (_, out) = send(&mut client, A, &[2, 0x16]);
    assert_eq!(out, vec![(peer(A), vec![2, 0x17])]);
}

fn connect_with_will(client: &mut MqttSnClient, who: u8, duration: u8, topic: &str, msg: &[u8]) {
    // CONNECT with the will flag
    let (r, out) = send(client, who, &[8, 0x04, 0x0C, 1, 0, duration, b'c', who]);
    assert_eq!(r, Ok(()));
    assert_eq!(out, vec![(peer(who), vec![2, 0x06])]);
    assert_eq!(state(client, who), Some(StateEnum2::AWAITING_WILL_TOPIC));
    let mut f = vec![(3 + topic.len()) as u8, 0x07, 0x00];
    f.extend_from_slice(topic.as_bytes());
    let (r, out) = send(client, who, &f);
    assert_eq!(r, Ok(()));
    assert_eq!(out, vec![(peer(who), vec![2, 0x08])]);
    assert_eq!(state(client, who), Some(StateEnum2::AWAITING_WILL_MSG));
    let mut f = vec![(2 + msg.len()) as u8, 0x09];
    f.extend_from_slice(msg);
    let (r, out) = send(client, who, &f);
    assert_eq!(r, Ok(()));
    assert_eq!(out, vec![(peer(who), vec![3, 0x05, 0])]);
    assert_eq!(state(client, who), Some(StateEnum2::ACTIVE));
}

#[test]
fn will_publication_on_timeout() {
    let mut client = broker();
    connect_with_will(&mut client, A, 10, "alarms", b"down");
    connect(&mut client, C, 200);
    let (_, out) = send(&mut client, C, &subscribe_frame(0x00, 1, "alarms"));
    assert_eq!(out, vec![(peer(C), vec![8, 0x13, 0x00, 0, 1, 0, 1, 0])]);
    // A is given 15 seconds
    for _ in 0..14 {
        client.keep_alive_tick();
        assert_eq!(sent(&mut client), vec![]);
        assert_eq!(state(&client, A), Some(StateEnum2::ACTIVE));
    }
    client.keep_alive_tick();
    assert_eq!(sent(&mut client), vec![(peer(C), vec![11, 0x0C, 0x00, 0, 1, 0, 0, b'd', b'o', b'w', b'n'])]);
    assert_eq!(state(&client, A), None);
    assert_eq!(state(&client, C), Some(StateEnum2::ACTIVE));
}

#[test]
fn traffic_winds_the_keep_alive_timer_up_even_when_malformed() {
    let mut client = broker();
    connect(&mut client, A, 10);
    for _ in 0..3 {
        for _ in 0..14 {
            client.keep_alive_tick();
        }
        let (r, _) = send(&mut client, A, &[9, 0x99]);
        assert_eq!(r, Err(BrokerError::Decode(DecodeError::LenMismatch)));
    }
    assert_eq!(state(&client, A), Some(StateEnum2::ACTIVE));
    for _ in 0..15 {
        client.keep_alive_tick();
    }
    assert_eq!(state(&client, A), None);
}

#[test]
fn a_sleeping_peer_is_lost_when_its_sleep_timer_expires() {
    let mut client = broker();
    connect(&mut client, A, 60);
    send(&mut client, A, &[4, 0x18, 0, 2]);
    client.keep_alive_tick();
    client.keep_alive_tick();
    assert_eq!(state(&client, A), Some(StateEnum2::ASLEEP));
    client.keep_alive_tick();
    assert_eq!(state(&client, A), None);
}

#[test]
fn disconnect_destroys_the_connection_and_publishes_the_will() {
    let mut client = broker();
    connect_with_will(&mut client, A, 10, "alarms", b"down");
    connect(&mut client, C, 200);
    send(&mut client, C, &subscribe_frame(0x20, 1, "alarms"));
    send(&mut client, A, &subscribe_frame(0x00, 2, "alarms"));
    let (r, out) = send(&mut client, A, &[2, 0x18]);
    assert_eq!(r, Ok(()));
    assert_eq!(
        out,
        vec![
            (peer(A), vec![2, 0x18]),
            (peer(C), vec![11, 0x0C, 0x20, 0, 1, 0, 0, b'd', b'o', b'w', b'n']),
        ]
    );
    assert_eq!(state(&client, A), None);
    // nothing of A is left
    assert_eq!(
        get_subscribers_with_topic_id(&client.filters, 1),
        vec![Subscriber { socket_addr: peer(C), qos: QOS_LEVEL_1 }]
    );
    let (r, _) = send(&mut client, A, &[2, 0x18]);
    assert_eq!(r, Err(BrokerError::NotConnected));
}

#[test]
fn cleanup_is_complete() {
    let mut client = broker();
    connect(&mut client, A, 60);
    connect(&mut client, B, 60);
    send(&mut client, A, &subscribe_frame(0x20, 1, "a/b"));
    send(&mut client, A, &subscribe_frame(0x00, 2, "a/#"));
    send(&mut client, A, &subscribe_frame(0x21, 3, "\u{0}\u{9}"));
    // a publication to A at QoS 1 waits in the wheel
    send(&mut client, B, &publish_frame(0x00, 1, 5, b"x"));
    assert!(client.retransmit.is_scheduled(&RetransKey { addr: peer(A), msg_type: 0x0D, topic_id: 1, msg_id: 5 }));
    // A publishes at QoS 2 and never releases
    send(&mut client, A, &publish_frame(0x40, 1, 6, b"y"));
    assert_eq!(client.pub_msg_cache.len(), 1);
    sent(&mut client);
    client.connection_lost(peer(A), false);
    assert_eq!(state(&client, A), None);
    assert_eq!(get_subscribers_with_topic_id(&client.filters, 1), vec![]);
    assert_eq!(get_subscribers_with_topic_id(&client.filters, 9), vec![]);
    assert!(client.filters.match_topic_wildcard("a/x").is_none());
    assert!(!client.retransmit.is_scheduled(&RetransKey { addr: peer(A), msg_type: 0x0D, topic_id: 1, msg_id: 5 }));
    assert!(!client.retransmit.is_scheduled(&RetransKey { addr: peer(A), msg_type: 0x10, topic_id: 0, msg_id: 6 }));
    assert_eq!(client.pub_msg_cache.len(), 0);
    assert_eq!(client.asleep_msg_cache.len(), 0);
    assert_eq!(state(&client, B), Some(StateEnum2::ACTIVE));
    for _ in 0..20 {
        client.retransmit_tick();
    }
    assert_eq!(sent(&mut client), vec![]);
}

#[test]
fn qos_2_is_delivered_exactly_once() {
    let mut client = broker();
    connect(&mut client, A, 60);
    connect(&mut client, B, 60);
    connect(&mut client, C, 60);
    send(&mut client, A, &subscribe_frame(0x40, 1, "t"));
    send(&mut client, C, &subscribe_frame(0x00, 2, "t"));
    // PUBLISH at QoS 2: PUBREC, and nothing is delivered yet
    let (r, out) = send(&mut client, B, &publish_frame(0x40, 1, 9, b"v"));
    assert_eq!(r, Ok(()));
    assert_eq!(out, vec![(peer(B), vec![4, 0x0F, 0, 9])]);
    // a subscriber that comes later is not in the snapshot
    send(&mut client, B, &subscribe_frame(0x00, 3, "t"));
    // the publisher sends its PUBLISH again: it is told PUBREC again, no more
    let (r, out) = send(&mut client, B, &publish_frame(0xC0, 1, 9, b"v"));
    assert_eq!(r, Err(BrokerError::AlreadyPending));
    assert_eq!(out, vec![(peer(B), vec![4, 0x0F, 0, 9])]);
    // PUBREL: one delivery each, then PUBCOMP
    let (r, out) = send(&mut client, B, &[4, 0x10, 0, 9]);
    assert_eq!(r, Ok(()));
    assert_eq!(
        out,
        vec![
            (peer(A), vec![8, 0x0C, 0x40, 0, 1, 0, 9, b'v']),
            (peer(C), vec![8, 0x0C, 0x00, 0, 1, 0, 9, b'v']),
            (peer(B), vec![4, 0x0E, 0, 9]),
        ]
    );
    // a second PUBREL delivers nothing
    let (r, out) = send(&mut client, B, &[4, 0x10, 0, 9]);
    assert_eq!(r, Err(BrokerError::NotPending));
    assert_eq!(out, vec![(peer(B), vec![4, 0x0E, 0, 9])]);
    // A, a subscriber at QoS 2, goes through its own handshake
    let (r, out) = send(&mut client, A, &[4, 0x0F, 0, 9]);
    assert_eq!(r, Ok(()));
    assert_eq!(out, vec![(peer(A), vec![4, 0x10, 0, 9])]);
    let (r, out) = send(&mut client, A, &[4, 0x0E, 0, 9]);
    assert_eq!(r, Ok(()));
    assert_eq!(out, vec![]);
    for _ in 0..20 {
        client.retransmit_tick();
    }
    assert_eq!(sent(&mut client), vec![]);
    assert_eq!(state(&client, A), Some(StateEnum2::ACTIVE));
}

#[test]
fn an_unreleased_publication_is_evicted_and_its_publisher_lost() {
    let mut client = broker();
    connect(&mut client, A, 60);
    connect(&mut client, B, 60);
    send(&mut client, A, &subscribe_frame(0x00, 1, "t"));
    let (_, out) = send(&mut client, B, &publish_frame(0x40, 1, 9, b"v"));
    assert_eq!(out, vec![(peer(B), vec![4, 0x0F, 0, 9])]);
    // one retry after a second
    client.retransmit_tick();
    assert_eq!(sent(&mut client), vec![(peer(B), vec![4, 0x0F, 0, 9])]);
    // the retry moved two slots ahead; then the flow has failed
    client.retransmit_tick();
    assert_eq!(sent(&mut client), vec![]);
    assert_eq!(client.pub_msg_cache.len(), 1);
    client.retransmit_tick();
    assert_eq!(sent(&mut client), vec![]);
    assert_eq!(client.pub_msg_cache.len(), 0);
    assert_eq!(state(&client, B), None);
    let (r, _) = send(&mut client, B, &[4, 0x10, 0, 9]);
    assert_eq!(r, Err(BrokerError::NotConnected));
}

#[test]
fn retransmissions_back_off() {
    let mut client = broker();
    connect(&mut client, A, 60);
    connect(&mut client, B, 60);
    send(&mut client, A, &subscribe_frame(0x20, 1, "t"));
    send(&mut client, B, &publish_frame(0x00, 1, 9, b"v"));
    sent(&mut client);
    let mut fired = Vec::new();
    for second in 1..=40 {
        client.retransmit_tick();
        if !sent(&mut client).is_empty() {
            fired.push(second);
        }
    }
    // one slot ahead, then 2, 4, 8, 16 slots ahead of where it was sent from
    assert_eq!(fired, vec![1, 3, 7, 15, 31]);
}

#[test]
fn retained_publications_go_to_new_subscribers() {
    let mut client = broker();
    connect(&mut client, A, 60);
    connect(&mut client, B, 60);
    send(&mut client, B, &register_frame(1, "t"));
    // RETAIN=1, QoS 0
    let (r, out) = send(&mut client, B, &publish_frame(0x10, 1, 0, b"last"));
    assert_eq!(r, Ok(()));
    assert_eq!(out, vec![]);
    let (_, out) = send(&mut client, A, &subscribe_frame(0x00, 7, "t"));
    assert_eq!(
        out,
        vec![
            (peer(A), vec![8, 0x13, 0x00, 0, 1, 0, 7, 0]),
            (peer(A), vec![11, 0x0C, 0x10, 0, 1, 0, 0, b'l', b'a', b's', b't']),
        ]
    );
    // an empty retained publication clears the store
    send(&mut client, B, &publish_frame(0x10, 1, 0, b""));
    sent(&mut client);
    let (_, out) = send(&mut client, B, &subscribe_frame(0x00, 8, "t"));
    assert_eq!(out, vec![(peer(B), vec![8, 0x13, 0x00, 0, 1, 0, 8, 0])]);
}

#[test]
fn pre_defined_topic_ids_skip_the_registry() {
    let mut client = broker();
    connect(&mut client, A, 60);
    let (r, out) = send(&mut client, A, &[7, 0x12, 0x21, 0, 7, 0x01, 0x05]);
    assert_eq!(r, Ok(()));
    assert_eq!(out, vec![(peer(A), vec![8, 0x13, 0x21, 0x01, 0x05, 0, 7, 0])]);
    assert_eq!(client.topic_names.topic_name_of(0x0105), None);
    // an anonymous publication at QoS 3 reaches the subscriber
    let (r, out) = send(&mut client, B, &publish_frame(0x60, 0x0105, 0, b"hi"));
    assert_eq!(r, Ok(()));
    assert_eq!(out, vec![(peer(A), vec![9, 0x0C, 0x20, 0x01, 0x05, 0, 0, b'h', b'i'])]);
}

#[test]
fn unknown_peers_may_connect_or_publish_anonymously_only() {
    let mut client = broker();
    assert_eq!(send(&mut client, A, &[2, 0x16]).0, Err(BrokerError::NotConnected));
    assert_eq!(send(&mut client, A, &subscribe_frame(0, 1, "t")).0, Err(BrokerError::NotConnected));
    assert_eq!(send(&mut client, A, &[2, 0x18]).0, Err(BrokerError::NotConnected));
    assert_eq!(send(&mut client, A, &publish_frame(0x00, 1, 0, b"x")).0, Err(BrokerError::NotConnected));
    assert_eq!(send(&mut client, A, &publish_frame(0x20, 1, 0, b"x")).0, Err(BrokerError::NotConnected));
    assert_eq!(send(&mut client, A, &publish_frame(0x60, 1, 0, b"x")).0, Ok(()));
    assert_eq!(send(&mut client, A, &[2, 0x03]).0, Err(BrokerError::Decode(DecodeError::BadType)));
    assert_eq!(sent(&mut client), vec![]);
}

#[test]
fn errors_of_known_peers() {
    let mut client = broker();
    connect(&mut client, A, 60);
    assert_eq!(send(&mut client, A, &[8, 0x04, 0x04, 1, 0, 60, b'c', b'1']).0, Err(BrokerError::AlreadyConnected));
    assert_eq!(send(&mut client, A, &publish_frame(0x60, 1, 0, b"x")).0, Err(BrokerError::QosNotSupported));
    assert_eq!(send(&mut client, A, &subscribe_frame(0x02, 1, "ab")).0, Err(BrokerError::TopicIdTypeNotSupported));
    assert_eq!(send(&mut client, A, &subscribe_frame(0x03, 1, "ab")).0, Err(BrokerError::TopicIdTypeNotSupported));
    assert_eq!(send(&mut client, A, &subscribe_frame(0x00, 1, "a/#/b")).0, Err(BrokerError::InvalidFilter));
    assert_eq!(send(&mut client, A, &subscribe_frame(0x00, 1, "")).0, Err(BrokerError::InvalidFilter));
    assert_eq!(send(&mut client, A, &register_frame(1, "a/+")).0, Err(BrokerError::InvalidFilter));
    assert_eq!(send(&mut client, A, &[3, 0x05, 0]).0, Err(BrokerError::NotSupported));
    assert_eq!(send(&mut client, A, &[8, 0x13, 0, 0, 1, 0, 7, 0]).0, Err(BrokerError::NotSupported));
    assert_eq!(send(&mut client, A, &[4, 0x0F, 0]).0, Err(BrokerError::Decode(DecodeError::LenMismatch)));
    assert_eq!(send(&mut client, A, &[3, 0x0F, 0]).0, Err(BrokerError::Decode(DecodeError::TruncatedField)));
    assert_eq!(send(&mut client, A, &[3, 0x0E, 0]).0, Err(BrokerError::Decode(DecodeError::TruncatedField)));
    assert_eq!(send(&mut client, A, &[3, 0x16 + 1, 0]).0, Err(BrokerError::NotSupported));
    assert_eq!(sent(&mut client), vec![]);
    assert_eq!(state(&client, A), Some(StateEnum2::ACTIVE));
}

#[test]
fn a_message_out_of_turn_is_answered_with_disconnect_when_the_peer_is_active() {
    let mut client = broker();
    connect(&mut client, A, 60);
    // WILLMSG from a peer that is active
    let (r, out) = send(&mut client, A, &[6, 0x09, b'd', b'o', b'w', b'n']);
    assert_eq!(r, Err(BrokerError::BadState));
    assert_eq!(out, vec![(peer(A), vec![2, 0x18])]);
    // the connection stays
    assert_eq!(state(&client, A), Some(StateEnum2::ACTIVE));
    // PUBLISH from a peer that awaits its will: dropped
    let (_, out) = send(&mut client, B, &[8, 0x04, 0x0C, 1, 0, 60, b'c', b'2']);
    assert_eq!(out, vec![(peer(B), vec![2, 0x06])]);
    let (r, out) = send(&mut client, B, &publish_frame(0x00, 1, 0, b"x"));
    assert_eq!(r, Err(BrokerError::BadState));
    assert_eq!(out, vec![]);
    assert_eq!(state(&client, B), Some(StateEnum2::AWAITING_WILL_TOPIC));
    let (r, out) = send(&mut client, B, &[2, 0x16]);
    assert_eq!(r, Err(BrokerError::BadState));
    assert_eq!(out, vec![]);
}

#[test]
fn publish_send_schedules_by_qos() {
    let mut client = broker();
    let data = || BytesMut::from(&b"d"[..]);
    assert_eq!(Publish::send(1, 2, QOS_LEVEL_0, RETAIN_FALSE, data(), &mut client, peer(A)), Ok(()));
    assert_eq!(Publish::send(1, 2, QOS_LEVEL_1, RETAIN_FALSE, data(), &mut client, peer(A)), Ok(()));
    assert_eq!(Publish::send(1, 2, QOS_LEVEL_2, RETAIN_FALSE, data(), &mut client, peer(A)), Ok(()));
    assert_eq!(
        sent(&mut client),
        vec![
            (peer(A), vec![8, 0x0C, 0x00, 0, 1, 0, 2, b'd']),
            (peer(A), vec![8, 0x0C, 0x20, 0, 1, 0, 2, b'd']),
            (peer(A), vec![8, 0x0C, 0x40, 0, 1, 0, 2, b'd']),
        ]
    );
    // each waits under its reply, its topic id and its message id
    assert!(client.retransmit.is_scheduled(&RetransKey { addr: peer(A), msg_type: 0x0D, topic_id: 1, msg_id: 2 }));
    assert!(client.retransmit.is_scheduled(&RetransKey { addr: peer(A), msg_type: 0x0F, topic_id: 1, msg_id: 2 }));
    assert!(!client.retransmit.is_scheduled(&RetransKey { addr: peer(A), msg_type: 0x0D, topic_id: 0, msg_id: 2 }));
}

#[test]
fn publications_on_two_topics_with_one_message_id_both_wait() {
    let mut client = broker();
    let data = |d: &[u8]| BytesMut::from(d);
    assert_eq!(Publish::send(1, 2, QOS_LEVEL_1, RETAIN_FALSE, data(b"a"), &mut client, peer(A)), Ok(()));
    assert_eq!(Publish::send(3, 2, QOS_LEVEL_1, RETAIN_FALSE, data(b"b"), &mut client, peer(A)), Ok(()));
    assert_eq!(
        sent(&mut client),
        vec![
            (peer(A), vec![8, 0x0C, 0x20, 0, 1, 0, 2, b'a']),
            (peer(A), vec![8, 0x0C, 0x20, 0, 3, 0, 2, b'b']),
        ]
    );
    // both are sent again after a second
    client.retransmit_tick();
    assert_eq!(
        sent(&mut client),
        vec![
            (peer(A), vec![8, 0x0C, 0x20, 0, 1, 0, 2, b'a']),
            (peer(A), vec![8, 0x0C, 0x20, 0, 3, 0, 2, b'b']),
        ]
    );
    // the PUBACK of the one leaves the other waiting
    client.remote_addr = peer(A);
    assert_eq!(broker_lib::message::PubAck::recv(&[7, 0x0D, 0, 1, 0, 2, 0], 7, &mut client), Ok(()));
    assert!(!client.retransmit.is_scheduled(&RetransKey { addr: peer(A), msg_type: 0x0D, topic_id: 1, msg_id: 2 }));
    assert!(client.retransmit.is_scheduled(&RetransKey { addr: peer(A), msg_type: 0x0D, topic_id: 3, msg_id: 2 }));
}

#[test]
fn a_publication_sent_anew_takes_the_place_of_the_one_that_waits() {
    let mut client = broker();
    let data = |d: &[u8]| BytesMut::from(d);
    assert_eq!(Publish::send(1, 2, QOS_LEVEL_1, RETAIN_FALSE, data(b"a"), &mut client, peer(A)), Ok(()));
    assert_eq!(Publish::send(1, 2, QOS_LEVEL_1, RETAIN_FALSE, data(b"b"), &mut client, peer(A)), Ok(()));
    // both are sent
    assert_eq!(
        sent(&mut client),
        vec![
            (peer(A), vec![8, 0x0C, 0x20, 0, 1, 0, 2, b'a']),
            (peer(A), vec![8, 0x0C, 0x20, 0, 1, 0, 2, b'b']),
        ]
    );
    // one waits: the later
    client.retransmit_tick();
    assert_eq!(sent(&mut client), vec![(peer(A), vec![8, 0x0C, 0x20, 0, 1, 0, 2, b'b'])]);
    client.remote_addr = peer(A);
    assert_eq!(broker_lib::message::PubAck::recv(&[7, 0x0D, 0, 1, 0, 2, 0], 7, &mut client), Ok(()));
    client.retransmit_tick();
    client.retransmit_tick();
    assert_eq!(sent(&mut client), vec![]);
}

#[test]
fn a_pubrec_ends_the_wait_on_every_topic() {
    let mut client = MqttSnClient::new(peer(A));
    Publish::send(1, 7, QOS_LEVEL_2, RETAIN_FALSE, BytesMut::new(), &mut client, peer(A)).unwrap();
    Publish::send(2, 7, QOS_LEVEL_2, RETAIN_FALSE, BytesMut::new(), &mut client, peer(A)).unwrap();
    Publish::send(2, 8, QOS_LEVEL_2, RETAIN_FALSE, BytesMut::new(), &mut client, peer(A)).unwrap();
    Publish::send(2, 7, QOS_LEVEL_2, RETAIN_FALSE, BytesMut::new(), &mut client, peer(B)).unwrap();
    Publish::send(2, 7, QOS_LEVEL_1, RETAIN_FALSE, BytesMut::new(), &mut client, peer(A)).unwrap();
    sent(&mut client);
    assert_eq!(PubRec::rx(&[4, 0x0F, 0, 7], 4, &mut client), Ok(7));
    let key = |a: u8, t: u8, topic_id: u16, msg_id: u16| RetransKey { addr: peer(a), msg_type: t, topic_id, msg_id };
    assert!(!client.retransmit.is_scheduled(&key(A, 0x0F, 1, 7)));
    assert!(!client.retransmit.is_scheduled(&key(A, 0x0F, 2, 7)));
    // another message id, another peer, another reply: they wait on
    assert!(client.retransmit.is_scheduled(&key(A, 0x0F, 2, 8)));
    assert!(client.retransmit.is_scheduled(&key(B, 0x0F, 2, 7)));
    assert!(client.retransmit.is_scheduled(&key(A, 0x0D, 2, 7)));
    // one PUBREL is sent and waits for its PUBCOMP
    assert_eq!(sent(&mut client), vec![(peer(A), vec![4, 0x10, 0, 7])]);
    assert!(client.retransmit.is_scheduled(&key(A, 0x0E, 0, 7)));
}

#[test]
fn publish_send_frames_up_to_65535_octets() {
    let mut client = broker();
    // 248 octets of data are the last that a short frame holds
    let short = BytesMut::from(&[7u8; 248][..]);
    assert_eq!(Publish::send(1, 2, QOS_LEVEL_0, RETAIN_FALSE, short, &mut client, peer(A)), Ok(()));
    let out = sent(&mut client);
    assert_eq!(out[0].1.len(), 255);
    assert_eq!(&out[0].1[..7], &[255, 0x0C, 0x00, 0, 1, 0, 2]);
    // one more, and the frame has the long prefix
    let data = vec![7u8; 249];
    let long = BytesMut::from(&data[..]);
    assert_eq!(Publish::send(1, 2, QOS_LEVEL_0, RETAIN_FALSE, long, &mut client, peer(A)), Ok(()));
    let out = sent(&mut client);
    assert_eq!(out.len(), 1);
    assert_eq!(out[0].1.len(), 249 + 9);
    assert_eq!(&out[0].1[..9], &[1, 0x01, 0x02, 0x0C, 0x00, 0, 1, 0, 2]);
    assert_eq!(&out[0].1[9..], &data[..]);
    // 1393 octets of data and more are sent like any other
    let data = vec![9u8; 1393];
    let long = BytesMut::from(&data[..]);
    assert_eq!(Publish::send(1, 2, QOS_LEVEL_1, RETAIN_FALSE, long, &mut client, peer(A)), Ok(()));
    let out = sent(&mut client);
    assert_eq!(out[0].1.len(), 1393 + 9);
    assert_eq!(&out[0].1[..4], &[1, 0x05, 0x7A, 0x0C]);
    assert_eq!(&out[0].1[9..], &data[..]);
    assert!(client.retransmit.is_scheduled(&RetransKey { addr: peer(A), msg_type: 0x0D, topic_id: 1, msg_id: 2 }));
    // the longest frame has 65535 octets
    let data = vec![3u8; 65526];
    let longest = BytesMut::from(&data[..]);
    assert_eq!(Publish::send(1, 2, QOS_LEVEL_0, RETAIN_FALSE, longest, &mut client, peer(A)), Ok(()));
    let out = sent(&mut client);
    assert_eq!(out[0].1.len(), 65535);
    assert_eq!(&out[0].1[..4], &[1, 0xFF, 0xFF, 0x0C]);
    assert_eq!(u16::from_be_bytes([out[0].1[1], out[0].1[2]]) as usize, out[0].1.len());
    assert_eq!(&out[0].1[9..], &data[..]);
    // what has no frame is refused
    let over = BytesMut::from(&vec![0u8; 65527][..]);
    assert_eq!(
        Publish::send(1, 2, QOS_LEVEL_0, RETAIN_FALSE, over, &mut client, peer(A)),
        Err(BrokerError::FrameTooLong)
    );
    assert_eq!(sent(&mut client), vec![]);
}

#[test]
fn a_long_publication_reaches_its_subscribers() {
    let mut client = broker();
    connect(&mut client, A, 60);
    connect(&mut client, B, 60);
    connect(&mut client, C, 60);
    send(&mut client, A, &subscribe_frame(0x00, 1, "sensors/#"));
    send(&mut client, C, &subscribe_frame(0x20, 2, "sensors/temp"));
    send(&mut client, C, &[4, 0x18, 0, 30]);
    sent(&mut client);
    // a PUBLISH at QoS 1 with 2000 octets of data, in a long frame
    let data = vec![5u8; 2000];
    let mut frame = vec![1, 0x07, 0xD9, 0x0C, 0x20, 0, 1, 0, 42];
    frame.extend_from_slice(&data);
    let (r, out) = send(&mut client, B, &frame);
    assert_eq!(r, Ok(()));
    let mut to_a = vec![1, 0x07, 0xD9, 0x0C, 0x00, 0, 1, 0, 42];
    to_a.extend_from_slice(&data);
    assert_eq!(out, vec![(peer(B), vec![7, 0x0D, 0, 1, 0, 42, 0]), (peer(A), to_a)]);
    // C sleeps; when it wakes it is sent the publication at its QoS
    let (r, out) = send(&mut client, C, &[2, 0x16]);
    assert_eq!(r, Ok(()));
    let mut to_c = vec![1, 0x07, 0xD9, 0x0C, 0x20, 0, 1, 0, 42];
    to_c.extend_from_slice(&data);
    assert_eq!(out, vec![(peer(C), to_c), (peer(C), vec![2, 0x17])]);
}

#[test]
fn publish_new_mirrors_the_frame() {
    let p = Publish::new(3, 4, QOS_LEVEL_1, RETAIN_FALSE, BytesMut::from(&b"abc"[..]));
    assert_eq!(p.len, 10);
    assert_eq!(p.msg_type, 0x0C);
    assert_eq!(p.flags, 0x20);
    assert_eq!(p.topic_id, 3);
    assert_eq!(p.msg_id, 4);
    let long = Publish::new(3, 4, QOS_LEVEL_1, RETAIN_FALSE, BytesMut::from(&[0u8; 300][..]));
    assert_eq!(long.len, 1);
}

#[test]
fn a_client_subscribes() {
    let mut client = MqttSnClient::new(peer(B));
    assert_eq!(client.subscribe("a/b".to_string(), 5, QOS_LEVEL_1, RETAIN_FALSE), Ok(()));
    assert_eq!(sent(&mut client), vec![(peer(B), vec![8, 0x12, 0x20, 0, 5, b'a', b'/', b'b'])]);
    assert!(client.retransmit.is_scheduled(&RetransKey { addr: peer(B), msg_type: 0x13, topic_id: 0, msg_id: 5 }));
    assert_eq!(
        client.subscribe("a/b".to_string(), 5, QOS_LEVEL_1, RETAIN_FALSE),
        Err(BrokerError::AlreadyScheduled)
    );
    let s = Subscribe::new(QOS_LEVEL_2, RETAIN_FALSE, 9, "abc".to_string());
    assert_eq!((s.len, s.msg_type, s.flags, s.msg_id, s.topic_id), (8, 0x12, 0x40, 9, 0));
    assert_eq!(s.topic_name, "abc");
}

#[test]
fn pubrec_tx_and_rx() {
    let mut client = MqttSnClient::new(peer(A));
    let frame = PubRec::tx(0x0102, &mut client);
    assert_eq!(&frame[..], &[4, 0x0F, 1, 2]);
    assert_eq!(sent(&mut client), vec![(peer(A), vec![4, 0x0F, 1, 2])]);
    // what tx wrote, rx reads
    assert_eq!(PubRec::rx(&frame, 4, &mut client), Ok(0x0102));
    // the PUBREC is answered with a PUBREL, which waits for its PUBCOMP
    assert_eq!(sent(&mut client), vec![(peer(A), vec![4, 0x10, 1, 2])]);
    assert!(client.retransmit.is_scheduled(&RetransKey { addr: peer(A), msg_type: 0x0E, topic_id: 0, msg_id: 0x0102 }));
    // a PUBREC that is sent again is answered again; one PUBREL waits
    assert_eq!(PubRec::rx(&[4, 0x0F, 1, 2], 4, &mut client), Ok(0x0102));
    assert_eq!(sent(&mut client), vec![(peer(A), vec![4, 0x10, 1, 2])]);
    client.retransmit_tick();
    assert_eq!(sent(&mut client), vec![(peer(A), vec![4, 0x10, 1, 2])]);
    // wrong type, wrong size
    assert_eq!(PubRec::rx(&[4, 0x0E, 1, 2], 4, &mut client), Err(BrokerError::Decode(DecodeError::BadType)));
    assert_eq!(PubRec::rx(&[5, 0x0F, 1, 2, 3], 5, &mut client), Err(BrokerError::Decode(DecodeError::TruncatedField)));
    assert_eq!(PubRec::rx(&[4, 0x0F, 1, 2], 3, &mut client), Err(BrokerError::Decode(DecodeError::LenMismatch)));
    assert_eq!(sent(&mut client), vec![]);
}

#[test]
fn pubrec_rx_on_a_new_broker() {
    let mut client = MqttSnClient::new(peer(A));
    // the message id stands high octet first
    assert_eq!(PubRec::rx(&[0x04, 0x0F, 0x12, 0x34], 4, &mut client), Ok(0x1234));
    assert_eq!(sent(&mut client), vec![(peer(A), vec![4, 0x10, 0x12, 0x34])]);
}

#[test]
fn pubrec_rx_ends_the_wait_of_a_publication() {
    let mut client = MqttSnClient::new(peer(A));
    Publish::send(1, 0x0102, QOS_LEVEL_2, RETAIN_FALSE, BytesMut::new(), &mut client, peer(A)).unwrap();
    let key = RetransKey { addr: peer(A), msg_type: 0x0F, topic_id: 1, msg_id: 0x0102 };
    assert!(client.retransmit.is_scheduled(&key));
    sent(&mut client);
    assert_eq!(PubRec::rx(&[4, 0x0F, 1, 2], 4, &mut client), Ok(0x0102));
    assert!(!client.retransmit.is_scheduled(&key));
    assert_eq!(sent(&mut client), vec![(peer(A), vec![4, 0x10, 1, 2])]);
    // the PUBCOMP ends the exchange
    let pubrel = RetransKey { addr: peer(A), msg_type: 0x0E, topic_id: 0, msg_id: 0x0102 };
    assert!(client.retransmit.is_scheduled(&pubrel));
    assert_eq!(PubComp::recv(&[4, 0x0E, 1, 2], 4, &mut client), Ok(()));
    assert!(!client.retransmit.is_scheduled(&pubrel));
    assert_eq!(sent(&mut client), vec![]);
}

#[test]
fn send_msg_to_subscribers_serves_each_by_its_state() {
    let mut client = broker();
    connect(&mut client, A, 60);
    connect(&mut client, B, 60);
    send(&mut client, B, &[4, 0x18, 0, 30]);
    sent(&mut client);
    let subs = vec![
        Subscriber { socket_addr: peer(A), qos: QOS_LEVEL_1 },
        Subscriber { socket_addr: peer(B), qos: QOS_LEVEL_2 },
        Subscriber { socket_addr: peer(C), qos: QOS_LEVEL_0 },
    ];
    let p = Publish::new(1, 2, QOS_LEVEL_0, RETAIN_FALSE, BytesMut::from(&b"d"[..]));
    assert_eq!(Publish::send_msg_to_subscribers(subs, p, &mut client), Ok(()));
    // A is active, B is asleep, C has no connection
    assert_eq!(sent(&mut client), vec![(peer(A), vec![8, 0x0C, 0x20, 0, 1, 0, 2, b'd'])]);
    let (_, out) = send(&mut client, B, &[2, 0x16]);
    assert_eq!(
        out,
        vec![(peer(B), vec![8, 0x0C, 0x40, 0, 1, 0, 2, b'd']), (peer(B), vec![2, 0x17])]
    );
}

#[test]
fn header_struct_is_plain() {
    let h = MsgHeader { len: 2, header_len: MsgHeaderLenEnum::Short, msg_type: 0x18, remote_socket_addr: peer(A) };
    let mut client = broker();
    assert_eq!(broker_lib::message::Disconnect::send(&mut client, h), Ok(()));
    assert_eq!(sent(&mut client), vec![(peer(A), vec![2, 0x18])]);
}

#[test]
fn what_is_kept_for_a_sleeper_is_sent_at_its_qos() {
    let mut client = broker();
    connect(&mut client, A, 60);
    connect(&mut client, B, 60);
    send(&mut client, A, &subscribe_frame(0x20, 7, "t"));
    send(&mut client, A, &[4, 0x18, 0, 30]);
    let (_, out) = send(&mut client, B, &publish_frame(0x00, 1, 5, b"x"));
    assert_eq!(out, vec![]);
    // nothing waits in the wheel while A sleeps
    assert!(!client.retransmit.is_scheduled(&RetransKey { addr: peer(A), msg_type: 0x0D, topic_id: 1, msg_id: 5 }));
    let (_, out) = send(&mut client, A, &[2, 0x16]);
    assert_eq!(
        out,
        vec![(peer(A), vec![8, 0x0C, 0x20, 0, 1, 0, 5, b'x']), (peer(A), vec![2, 0x17])]
    );
    assert!(client.retransmit.is_scheduled(&RetransKey { addr: peer(A), msg_type: 0x0D, topic_id: 1, msg_id: 5 }));
}

#[test]
fn a_subscriber_that_never_acknowledges_is_lost() {
    let mut client = broker();
    connect_with_will(&mut client, A, 200, "gone", b"a");
    connect(&mut client, B, 200);
    connect(&mut client, C, 200);
    send(&mut client, A, &subscribe_frame(0x40, 1, "t"));
    send(&mut client, C, &subscribe_frame(0x00, 2, "gone"));
    // "gone" has id 1, "t" has id 2
    let (_, out) = send(&mut client, B, &publish_frame(0x00, 2, 9, b"v"));
    assert_eq!(out, vec![(peer(A), vec![8, 0x0C, 0x40, 0, 2, 0, 9, b'v'])]);
    client.retransmit_tick();
    assert_eq!(sent(&mut client), vec![(peer(A), vec![8, 0x0C, 0x40, 0, 2, 0, 9, b'v'])]);
    client.retransmit_tick();
    assert_eq!(sent(&mut client), vec![]);
    assert_eq!(state(&client, A), Some(StateEnum2::ACTIVE));
    // the retry is out: A is lost, and its will is published
    client.retransmit_tick();
    assert_eq!(sent(&mut client), vec![(peer(C), vec![8, 0x0C, 0x00, 0, 1, 0, 0, b'a'])]);
    assert_eq!(state(&client, A), None);
    assert_eq!(get_subscribers_with_topic_id(&client.filters, 2), vec![]);
}

#[test]
fn the_will_topic_is_a_plain_name() {
    let mut client = broker();
    let (_, out) = send(&mut client, A, &[8, 0x04, 0x0C, 1, 0, 60, b'c', b'1']);
    assert_eq!(out, vec![(peer(A), vec![2, 0x06])]);
    let (r, out) = send(&mut client, A, &[6, 0x07, 0x00, b'a', b'/', b'#']);
    assert_eq!(r, Err(BrokerError::InvalidFilter));
    assert_eq!(out, vec![]);
    assert_eq!(state(&client, A), Some(StateEnum2::AWAITING_WILL_TOPIC));
    // sleep is for peers that are active or asleep
    let (r, out) = send(&mut client, A, &[4, 0x18, 0, 30]);
    assert_eq!(r, Err(BrokerError::BadState));
    assert_eq!(out, vec![]);
    // the will's message comes out of turn
    let (r, _) = send(&mut client, A, &[6, 0x09, b'd', b'o', b'w', b'n']);
    assert_eq!(r, Err(BrokerError::BadState));
    // a DISCONNECT without duration ends the setup; there is no will yet
    let (r, out) = send(&mut client, A, &[2, 0x18]);
    assert_eq!(r, Ok(()));
    assert_eq!(out, vec![(peer(A), vec![2, 0x18])]);
    assert_eq!(state(&client, A), None);
}

#[test]
fn ticks_on_an_idle_broker_do_nothing() {
    let mut client = broker();
    for _ in 0..3000 {
        client.keep_alive_tick();
        client.retransmit_tick();
    }
    assert_eq!(sent(&mut client), vec![]);
    connect(&mut client, A, 60);
    assert_eq!(state(&client, A), Some(StateEnum2::ACTIVE));
}

#[test]
fn a_publication_at_qos_2_takes_the_place_of_a_stale_pubrec() {
    let mut client = broker();
    connect(&mut client, A, 60);
    connect(&mut client, B, 60);
    send(&mut client, A, &subscribe_frame(0x00, 1, "t"));
    // a PUBREC of B waits in the wheel, and no publication of B waits with it
    client
        .retransmit
        .schedule_timer(peer(B), 0x10, 0, 9, 5, BytesMut::from(&b"stale"[..]))
        .unwrap();
    let (r, out) = send(&mut client, B, &publish_frame(0x40, 1, 9, b"v"));
    assert_eq!(r, Ok(()));
    assert_eq!(out, vec![(peer(B), vec![4, 0x0F, 0, 9])]);
    assert_eq!(client.pub_msg_cache.len(), 1);
    // what is sent again is the new PUBREC
    client.retransmit_tick();
    assert_eq!(sent(&mut client), vec![(peer(B), vec![4, 0x0F, 0, 9])]);
    let (r, out) = send(&mut client, B, &[4, 0x10, 0, 9]);
    assert_eq!(r, Ok(()));
    assert_eq!(
        out,
        vec![(peer(A), vec![8, 0x0C, 0x00, 0, 1, 0, 9, b'v']), (peer(B), vec![4, 0x0E, 0, 9])]
    );
}

#[test]
fn stray_acknowledgements_are_taken() {
    let mut client = MqttSnClient::new(peer(A));
    assert_eq!(broker_lib::message::PubAck::recv(&[7, 0x0D, 0, 1, 0, 42, 0], 7, &mut client), Ok(()));
    assert_eq!(PubComp::recv(&[4, 0x0E, 0, 42], 4, &mut client), Ok(()));
    assert_eq!(
        PubComp::recv(&[4, 0x0F, 0, 42], 4, &mut client),
        Err(BrokerError::Decode(DecodeError::BadType))
    );
    assert_eq!(sent(&mut client), vec![]);
}

#[test]
fn what_has_no_frame_is_neither_sent_nor_kept() {
    let mut client = broker();
    connect(&mut client, A, 60);
    connect(&mut client, B, 60);
    send(&mut client, B, &[4, 0x18, 0, 30]);
    sent(&mut client);
    assert!(broker_lib::publish::has_frame(&BytesMut::from(&vec![0u8; 65526][..])));
    assert!(!broker_lib::publish::has_frame(&BytesMut::from(&vec![0u8; 65527][..])));
    let subs = vec![
        Subscriber { socket_addr: peer(A), qos: QOS_LEVEL_1 },
        Subscriber { socket_addr: peer(B), qos: QOS_LEVEL_1 },
    ];
    let p = Publish::new(1, 2, QOS_LEVEL_0, RETAIN_FALSE, BytesMut::from(&vec![0u8; 65527][..]));
    assert_eq!(Publish::send_msg_to_subscribers(subs, p, &mut client), Ok(()));
    assert_eq!(sent(&mut client), vec![]);
    assert_eq!(client.asleep_msg_cache.len(), 0);
    assert!(!client.retransmit.is_scheduled(&RetransKey { addr: peer(A), msg_type: 0x0D, topic_id: 1, msg_id: 2 }));
    let (_, out) = send(&mut client, B, &[2, 0x16]);
    assert_eq!(out, vec![(peer(B), vec![2, 0x17])]);
}

#[test]
fn a_subscriber_that_stands_twice_is_kept_for_twice() {
    let mut client = broker();
    connect(&mut client, A, 60);
    send(&mut client, A, &[4, 0x18, 0, 30]);
    sent(&mut client);
    let subs = vec![
        Subscriber { socket_addr: peer(A), qos: QOS_LEVEL_0 },
        Subscriber { socket_addr: peer(A), qos: QOS_LEVEL_1 },
    ];
    let p = Publish::new(1, 2, QOS_LEVEL_0, RETAIN_FALSE, BytesMut::from(&b"d"[..]));
    assert_eq!(Publish::send_msg_to_subscribers(subs, p, &mut client), Ok(()));
    assert_eq!(sent(&mut client), vec![]);
    let (_, out) = send(&mut client, A, &[2, 0x16]);
    assert_eq!(
        out,
        vec![
            (peer(A), vec![8, 0x0C, 0x00, 0, 1, 0, 2, b'd']),
            (peer(A), vec![8, 0x0C, 0x20, 0, 1, 0, 2, b'd']),
            (peer(A), vec![2, 0x17]),
        ]
    );
}
