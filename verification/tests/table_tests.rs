use broker_lib::asleep_msg_cache::AsleepMsgCache;
use broker_lib::egress::Egress;
use broker_lib::error::BrokerError;
use broker_lib::flags::{QOS_LEVEL_0, RETAIN_FALSE};
use broker_lib::keep_alive::{KeepAliveTimeWheel};
use broker_lib::message::Publish;
use broker_lib::msg_hdr::PeerAddr;
use broker_lib::pub_msg_cache::{PubKey, PubMsgCache};
use broker_lib::retain::Retain;
use broker_lib::retransmit::{RetransKey, RetransTimeWheel, RETRANS_WHEEL_SLOTS};
use broker_lib::table::Table;
use bytes::BytesMut;

fn peer(n: u128) -> PeerAddr {
    PeerAddr::ipv6(n, 1, 0, 0)
}

#[test]
fn table_keeps_the_order_of_arrival() {
    let mut t: Table<u16, &'static str> = Table::new();
    t.set(3, "c");
    t.set(1, "a");
    t.set(2, "b");
    assert_eq!(t.len(), 3);
    assert_eq!(t.find(&1), Some(1));
    assert_eq!(t.find(&9), None);
    // a value is replaced in its place
    t.set(3, "C");
    assert_eq!(t.find(&3), Some(0));
    assert_eq!(*t.value_at(0), "C");
    assert_eq!(t.key_at(2), 2);
    assert_eq!(t.take(&1), Some("a"));
    assert_eq!(t.take(&1), None);
    assert_eq!(t.find(&2), Some(1));
    t.insert_at(0, 7, "g");
    assert_eq!(t.key_at(0), 7);
    t.replace_at(0, "G");
    assert_eq!(t.take_at(0), (7, "G"));
    assert_eq!(t.len(), 2);
}

#[test]
fn table_forgets_a_peer() {
    let mut t: Table<PubKey, u8> = Table::new();
    t.set(PubKey { addr: peer(1), msg_id: 1 }, 1);
    t.set(PubKey { addr: peer(2), msg_id: 1 }, 2);
    t.set(PubKey { addr: peer(1), msg_id: 2 }, 3);
    t.set(PubKey { addr: peer(3), msg_id: 1 }, 4);
    t.remove_peer(&peer(1));
    assert_eq!(t.len(), 2);
    assert_eq!(t.key_at(0), PubKey { addr: peer(2), msg_id: 1 });
    assert_eq!(t.key_at(1), PubKey { addr: peer(3), msg_id: 1 });
    // keys by topic id belong to no peer
    let mut r: Table<u16, u8> = Table::new();
    r.set(1, 1);
    r.remove_peer(&peer(1));
    assert_eq!(r.len(), 1);
}

#[test]
fn keep_alive_gives_one_and_a_half_times_the_duration() {
    assert_eq!(KeepAliveTimeWheel::deadline_of(60), 90);
    assert_eq!(KeepAliveTimeWheel::deadline_of(3), 4);
    assert_eq!(KeepAliveTimeWheel::deadline_of(1), 1);
    assert_eq!(KeepAliveTimeWheel::deadline_of(0), 1);
    assert_eq!(KeepAliveTimeWheel::deadline_of(65535), 98302);
}

#[test]
fn keep_alive_timers_expire_in_their_order() {
    let mut w = KeepAliveTimeWheel::new();
    w.schedule(peer(1), 2);
    w.schedule(peer(2), 1);
    w.schedule(peer(3), 2);
    w.schedule(peer(4), 4);
    assert_eq!(w.tick(), vec![peer(2)]);
    assert_eq!(w.tick(), vec![]);
    assert_eq!(w.reschedule(peer(3)), Ok(()));
    assert_eq!(w.reschedule(peer(9)), Err(BrokerError::NotScheduled));
    assert_eq!(w.tick(), vec![peer(1)]);
    assert_eq!(w.cancel(&peer(4)), Ok(()));
    assert_eq!(w.cancel(&peer(4)), Err(BrokerError::NotScheduled));
    assert_eq!(w.tick(), vec![]);
    assert_eq!(w.tick(), vec![peer(3)]);
    assert_eq!(w.tick(), vec![]);
}

#[test]
fn the_wheel_sends_again_and_gives_up() {
    let mut w = RetransTimeWheel::new();
    let mut egress = Egress::new();
    let frame = |b: &[u8]| BytesMut::from(b);
    assert_eq!(w.schedule_timer(peer(1), 0x0D, 0, 1, 2, frame(b"a")), Ok(()));
    assert_eq!(w.schedule_timer(peer(2), 0x0D, 0, 1, 0, frame(b"b")), Ok(()));
    assert_eq!(
        w.schedule_timer(peer(1), 0x0D, 0, 1, 5, frame(b"c")),
        Err(BrokerError::AlreadyScheduled)
    );
    // first second: a is sent again, b has no retries and fails
    assert_eq!(w.tick(&mut egress), vec![RetransKey { addr: peer(2), msg_type: 0x0D, topic_id: 0, msg_id: 1 }]);
    let out: Vec<_> = egress.drain().into_iter().map(|(p, f)| (p, f.to_vec())).collect();
    assert_eq!(out, vec![(peer(1), b"a".to_vec())]);
    // a lies two slots ahead now
    assert_eq!(w.tick(&mut egress), vec![]);
    assert_eq!(egress.len(), 0);
    assert_eq!(w.tick(&mut egress), vec![]);
    assert_eq!(egress.len(), 1);
    egress.drain();
    // and then four slots ahead, out of retries
    for _ in 0..3 {
        assert_eq!(w.tick(&mut egress), vec![]);
    }
    assert_eq!(w.tick(&mut egress), vec![RetransKey { addr: peer(1), msg_type: 0x0D, topic_id: 0, msg_id: 1 }]);
    assert_eq!(egress.len(), 0);
    assert!(!w.is_scheduled(&RetransKey { addr: peer(1), msg_type: 0x0D, topic_id: 0, msg_id: 1 }));
}

#[test]
fn the_wheel_is_a_ring() {
    let mut w = RetransTimeWheel::new();
    let mut egress = Egress::new();
    for _ in 0..RETRANS_WHEEL_SLOTS - 1 {
        w.tick(&mut egress);
    }
    // the hand stands at the last slot; the next slot is the first
    assert_eq!(w.schedule_timer(peer(1), 0x0D, 0, 1, 1, BytesMut::from(&b"a"[..])), Ok(()));
    w.tick(&mut egress);
    assert_eq!(egress.len(), 1);
}

#[test]
fn the_wheel_caps_the_back_off() {
    let mut w = RetransTimeWheel::new();
    let mut egress = Egress::new();
    w.schedule_timer(peer(1), 0x0D, 0, 1, 12, BytesMut::from(&b"a"[..])).unwrap();
    let mut fired = Vec::new();
    for second in 1..=4000u32 {
        w.tick(&mut egress);
        if egress.len() > 0 {
            egress.drain();
            fired.push(second);
        }
    }
    assert_eq!(fired, vec![1, 3, 7, 15, 31, 63, 127, 255, 511, 1023, 2047, 3071]);
    assert_eq!(w.cancel_timer(peer(1), 0x0D, 0, 1), Ok(()));
    assert_eq!(w.cancel_timer(peer(1), 0x0D, 0, 1), Err(BrokerError::NotScheduled));
}

#[test]
fn cancel_peer_removes_the_frames_of_one_peer() {
    let mut w = RetransTimeWheel::new();
    w.schedule_timer(peer(1), 0x0D, 0, 1, 1, BytesMut::new()).unwrap();
    w.schedule_timer(peer(2), 0x0D, 0, 1, 1, BytesMut::new()).unwrap();
    w.schedule_timer(peer(1), 0x0F, 0, 2, 1, BytesMut::new()).unwrap();
    w.cancel_peer(peer(1));
    assert!(!w.is_scheduled(&RetransKey { addr: peer(1), msg_type: 0x0D, topic_id: 0, msg_id: 1 }));
    assert!(!w.is_scheduled(&RetransKey { addr: peer(1), msg_type: 0x0F, topic_id: 0, msg_id: 2 }));
    assert!(w.is_scheduled(&RetransKey { addr: peer(2), msg_type: 0x0D, topic_id: 0, msg_id: 1 }));
}

#[test]
fn cancel_reply_removes_the_frames_of_every_topic() {
    let mut w = RetransTimeWheel::new();
    w.schedule_timer(peer(1), 0x0F, 4, 7, 1, BytesMut::new()).unwrap();
    w.schedule_timer(peer(1), 0x0F, 5, 7, 1, BytesMut::new()).unwrap();
    w.schedule_timer(peer(1), 0x0F, 5, 8, 1, BytesMut::new()).unwrap();
    w.schedule_timer(peer(1), 0x0D, 5, 7, 1, BytesMut::new()).unwrap();
    w.schedule_timer(peer(2), 0x0F, 5, 7, 1, BytesMut::new()).unwrap();
    w.cancel_reply(peer(1), 0x0F, 7);
    let key = |a: u128, msg_type: u8, topic_id: u16, msg_id: u16| RetransKey {
        addr: peer(a),
        msg_type,
        topic_id,
        msg_id,
    };
    assert!(!w.is_scheduled(&key(1, 0x0F, 4, 7)));
    assert!(!w.is_scheduled(&key(1, 0x0F, 5, 7)));
    assert!(w.is_scheduled(&key(1, 0x0F, 5, 8)));
    assert!(w.is_scheduled(&key(1, 0x0D, 5, 7)));
    assert!(w.is_scheduled(&key(2, 0x0F, 5, 7)));
    // nothing waits for it: nothing happens
    w.cancel_reply(peer(1), 0x0F, 7);
    assert!(w.is_scheduled(&key(1, 0x0F, 5, 8)));
}

#[test]
fn caches() {
    let publish = |d: &[u8]| Publish::new(1, 2, QOS_LEVEL_0, RETAIN_FALSE, BytesMut::from(d));
    let mut asleep = Table::new();
    AsleepMsgCache::insert(&mut asleep, peer(1), publish(b"a"));
    AsleepMsgCache::insert(&mut asleep, peer(2), publish(b"b"));
    AsleepMsgCache::insert(&mut asleep, peer(1), publish(b"c"));
    let q = AsleepMsgCache::remove(&mut asleep, &peer(1));
    assert_eq!(q.iter().map(|p| p.data.to_vec()).collect::<Vec<_>>(), vec![b"a".to_vec(), b"c".to_vec()]);
    assert_eq!(AsleepMsgCache::remove(&mut asleep, &peer(1)).len(), 0);
    assert_eq!(asleep.len(), 1);

    let mut pending = Table::new();
    let key = PubKey { addr: peer(1), msg_id: 7 };
    let entry = || PubMsgCache { publish: publish(b"x"), subscriber_vec: Vec::new() };
    assert_eq!(PubMsgCache::try_insert(&mut pending, key, entry()), Ok(()));
    assert_eq!(PubMsgCache::try_insert(&mut pending, key, entry()), Err(BrokerError::AlreadyPending));
    assert_eq!(&PubMsgCache::remove(&mut pending, &key).unwrap().publish.data[..], b"x");
    assert_eq!(PubMsgCache::remove(&mut pending, &key).err(), Some(BrokerError::NotPending));

    let mut retained = Table::new();
    Retain::insert(&mut retained, QOS_LEVEL_0, 5, 1, BytesMut::from(&b"one"[..]));
    Retain::insert(&mut retained, QOS_LEVEL_0, 5, 2, BytesMut::from(&b"two"[..]));
    assert_eq!(Retain::get(&retained, 5).unwrap().msg_id, 2);
    assert!(Retain::get(&retained, 6).is_none());
    Retain::insert(&mut retained, QOS_LEVEL_0, 5, 3, BytesMut::new());
    assert!(Retain::get(&retained, 5).is_none());
}
