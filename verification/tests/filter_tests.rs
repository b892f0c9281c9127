use broker_lib::error::BrokerError;
use broker_lib::filter::{
    delete_filter, delete_subscribers_with_socket_addr, get_subscribers_with_topic_id,
    global_filter_insert, has_wildcards, insert_filter, insert_subscriber_with_topic_id,
    match_concrete_topics, match_topic, match_topics, valid_filter, Filter, Filter2,
};
use broker_lib::flags::{QOS_LEVEL_0, QOS_LEVEL_1, QOS_LEVEL_2};
use broker_lib::biset::Subscriber;
use broker_lib::msg_hdr::PeerAddr;
use broker_lib::topic_registry::{try_insert_topic_name, TopicRegistry};

fn peer(last: u8, port: u16) -> PeerAddr {
    // 127.0.0.x
    PeerAddr::ipv4(0x7f00_0000 + last as u32, port)
}

#[test]
fn test_topic_name_and_id() {
    let mut names = TopicRegistry::new();
    let topic_id = try_insert_topic_name(&mut names, "test".to_string()).unwrap();
    assert_eq!(topic_id, 1);
    let topic_id = try_insert_topic_name(&mut names, "test".to_string()).unwrap();
    assert_eq!(topic_id, 1);
    let topic_id = try_insert_topic_name(&mut names, "test/now".to_string()).unwrap();
    assert_eq!(topic_id, 2);
}

#[test]
fn registry_finds_names_and_ids_again() {
    let mut names = TopicRegistry::new();
    assert_eq!(try_insert_topic_name(&mut names, "a".to_string()), Ok(1));
    assert_eq!(try_insert_topic_name(&mut names, "b".to_string()), Ok(2));
    assert_eq!(names.topic_id_of(&"b".to_string()), Some(2));
    assert_eq!(names.topic_id_of(&"c".to_string()), None);
    assert_eq!(names.topic_name_of(1), Some("a".to_string()));
    assert_eq!(names.topic_name_of(3), None);
    assert_eq!(names.topic_name_of(0), None);
}

#[test]
fn registry_runs_out_of_ids() {
    let mut names = TopicRegistry::new();
    for i in 1..0xFFFFu32 {
        assert_eq!(try_insert_topic_name(&mut names, format!("t{}", i)), Ok(i as u16));
    }
    assert_eq!(
        try_insert_topic_name(&mut names, "one too many".to_string()),
        Err(BrokerError::TopicIdsExhausted)
    );
    // a known name still has its id
    assert_eq!(try_insert_topic_name(&mut names, "t7".to_string()), Ok(7));
}

#[test]
fn wildcards_are_detected_correctly() {
    assert!(!has_wildcards("a/b/c"));
    assert!(has_wildcards("a/+/c"));
    assert!(has_wildcards("a/b/#"));
    assert!(!has_wildcards(""));
}

#[test]
fn filters_are_validated_correctly() {
    assert!(!valid_filter("wrong/#/filter"));
    assert!(!valid_filter("wrong/wr#ng/filter"));
    assert!(!valid_filter("wrong/filter#"));
    assert!(valid_filter("correct/filter/#"));
    assert!(valid_filter("correct/filter/"));
    assert!(valid_filter("correct/filter"));
    assert!(!valid_filter(""));
    assert!(!valid_filter("#"));
}

#[test]
fn single_level_wildcards_fill_a_level() {
    assert!(valid_filter("a/+/e"));
    assert!(valid_filter("+"));
    assert!(valid_filter("+/a"));
    assert!(valid_filter("bb/+"));
    assert!(valid_filter("+/+/#"));
    assert!(!valid_filter("a+/b"));
    assert!(!valid_filter("a/+b"));
    assert!(!valid_filter("a/b+"));
    assert!(!valid_filter("a+b/#"));
}

#[test]
fn dollar_subscriptions_doesnt_match_dollar_topic() {
    assert!(match_topic("sy$tem/metrics", "sy$tem/+"));
    assert!(!match_topic("$system/metrics", "$system/+"));
    assert!(!match_topic("$system/metrics", "+/+"));
    assert!(!match_topic("$system/metrics", "#"));
    assert!(!match_topic("$", "+"));
}

#[test]
fn topics_match_with_filters_as_expected() {
    assert!(match_topic("a/b/c", "a/b/c"));
    assert!(!match_topic("a/b/c", "d/b/c"));
    assert!(!match_topic("a/b/c", "a/b/e"));
    assert!(!match_topic("a/b/c", "a/b/c/d"));
    assert!(match_topic("a/b/c", "#"));
    assert!(match_topic("a/b/c", "a/b/c/#"));
    assert!(!match_topic("a/b/c/d", "a/b/c"));
    assert!(match_topic("a/b/c/d", "a/b/c/#"));
    assert!(match_topic("a/b/c/d/e/f", "a/b/c/#"));
    assert!(match_topic("a/b/c", "a/+/c"));
    assert!(match_topic("a/b/c/d/e", "a/+/c/+/e"));
    assert!(!match_topic("a/b", "a/b/+"));
    assert!(match_topic("a/b/+", "a/b/#"));
    assert!(!match_topic("a/b/#", "a/b/+"));
    assert!(match_topic("a/b/+", "#"));
    assert!(match_topic("a/+/c/d", "a/+/+/d"));
    assert!(!match_topic("a/+/+/d", "a/+/c/d"));
}

#[test]
fn empty_levels_count_as_levels() {
    assert!(match_topic("", ""));
    assert!(match_topic("a/", "a/+"));
    assert!(!match_topic("a", "a/+"));
    assert!(match_topic("/a", "+/a"));
    assert!(!match_topic("a/b", "a"));
    assert!(match_topic("é/ü", "é/+"));
}

#[test]
fn test_topic_id() {
    let socket = peer(1, 1200);
    let socket2 = peer(2, 1200);
    let socket3 = peer(3, 1200);
    let mut filters = Filter::new();
    insert_subscriber_with_topic_id(&mut filters, socket, 1, QOS_LEVEL_2).unwrap();
    insert_subscriber_with_topic_id(&mut filters, socket2, 1, QOS_LEVEL_1).unwrap();
    insert_subscriber_with_topic_id(&mut filters, socket3, 1, QOS_LEVEL_0).unwrap();
    insert_subscriber_with_topic_id(&mut filters, socket, 2, QOS_LEVEL_2).unwrap();
    insert_subscriber_with_topic_id(&mut filters, socket2, 2, QOS_LEVEL_1).unwrap();
    insert_subscriber_with_topic_id(&mut filters, socket3, 3, QOS_LEVEL_0).unwrap();
    assert_eq!(
        get_subscribers_with_topic_id(&filters, 1),
        vec![
            Subscriber { socket_addr: socket, qos: QOS_LEVEL_2 },
            Subscriber { socket_addr: socket2, qos: QOS_LEVEL_1 },
            Subscriber { socket_addr: socket3, qos: QOS_LEVEL_0 },
        ]
    );
    assert_eq!(
        get_subscribers_with_topic_id(&filters, 2),
        vec![
            Subscriber { socket_addr: socket, qos: QOS_LEVEL_2 },
            Subscriber { socket_addr: socket2, qos: QOS_LEVEL_1 },
        ]
    );
    assert_eq!(
        get_subscribers_with_topic_id(&filters, 3),
        vec![Subscriber { socket_addr: socket3, qos: QOS_LEVEL_0 }]
    );
    assert_eq!(get_subscribers_with_topic_id(&filters, 4), vec![]);
}

#[test]
fn a_new_subscription_to_an_id_replaces_the_old_one() {
    let a = peer(1, 1200);
    let mut filters = Filter::new();
    insert_subscriber_with_topic_id(&mut filters, a, 1, QOS_LEVEL_2).unwrap();
    insert_subscriber_with_topic_id(&mut filters, a, 1, QOS_LEVEL_1).unwrap();
    assert_eq!(
        get_subscribers_with_topic_id(&filters, 1),
        vec![Subscriber { socket_addr: a, qos: QOS_LEVEL_1 }]
    );
    // only the QoS bits of the argument count
    insert_subscriber_with_topic_id(&mut filters, a, 1, 0xFF).unwrap();
    assert_eq!(
        get_subscribers_with_topic_id(&filters, 1),
        vec![Subscriber { socket_addr: a, qos: 0x60 }]
    );
}

#[test]
fn delete_subscribers_removes_the_peer_from_every_id() {
    let a = peer(1, 1200);
    let b = peer(2, 1200);
    let mut filters = Filter::new();
    insert_subscriber_with_topic_id(&mut filters, a, 1, QOS_LEVEL_2).unwrap();
    insert_subscriber_with_topic_id(&mut filters, b, 1, QOS_LEVEL_1).unwrap();
    insert_subscriber_with_topic_id(&mut filters, a, 2, QOS_LEVEL_0).unwrap();
    delete_subscribers_with_socket_addr(&mut filters, &a);
    assert_eq!(
        get_subscribers_with_topic_id(&filters, 1),
        vec![Subscriber { socket_addr: b, qos: QOS_LEVEL_1 }]
    );
    assert_eq!(get_subscribers_with_topic_id(&filters, 2), vec![]);
}

#[test]
fn test_insert_filter() {
    let socket = peer(1, 1200);
    let socket2 = peer(2, 1200);
    let socket3 = peer(3, 1200);
    let socket4 = peer(4, 1200);
    let mut filters = Filter::new();
    insert_filter(&mut filters, "hello".to_string(), socket).unwrap();
    insert_filter(&mut filters, "hello".to_string(), socket2).unwrap();
    insert_filter(&mut filters, "hello/world".to_string(), socket).unwrap();
    insert_filter(&mut filters, "hello/world".to_string(), socket2).unwrap();
    insert_filter(&mut filters, "hello/world".to_string(), socket4).unwrap();
    insert_filter(&mut filters, "hello/#".to_string(), socket).unwrap();
    insert_filter(&mut filters, "hello/#".to_string(), socket2).unwrap();
    insert_filter(&mut filters, "hello/world/#".to_string(), socket).unwrap();
    insert_filter(&mut filters, "hello/world/#".to_string(), socket2).unwrap();
    insert_filter(&mut filters, "hello/world/#".to_string(), socket3).unwrap();
    assert_eq!(match_topics(&mut filters, &"hello".to_string()), vec![socket, socket2]);
    assert_eq!(
        match_topics(&mut filters, &"hello/world".to_string()),
        vec![socket, socket2, socket3, socket4]
    );
    assert_eq!(match_topics(&mut filters, &"hi".to_string()), vec![]);
    assert_eq!(match_topics(&mut filters, &"hello/there".to_string()), vec![socket, socket2]);
    assert_eq!(
        match_topics(&mut filters, &"hello/world/there".to_string()),
        vec![socket, socket2, socket3]
    );
    assert_eq!(match_concrete_topics(&filters, &"hello/world".to_string()), vec![socket, socket2, socket4]);
    delete_filter(&mut filters, socket2);
    assert_eq!(match_topics(&mut filters, &"hello".to_string()), vec![socket]);
    assert_eq!(
        match_topics(&mut filters, &"hello/world".to_string()),
        vec![socket, socket3, socket4]
    );
    assert_eq!(match_topics(&mut filters, &"hello/world/there".to_string()), vec![socket, socket3]);
    assert_eq!(insert_filter(&mut filters, "bad/#/filter".to_string(), socket), Err(BrokerError::InvalidFilter));
}

#[test]
fn a_new_wildcard_subscriber_gets_topics_that_were_resolved_before() {
    let a = peer(1, 1200);
    let b = peer(2, 1200);
    let mut filters = Filter::new();
    insert_filter(&mut filters, "a/#".to_string(), a).unwrap();
    assert_eq!(match_topics(&mut filters, &"a/x".to_string()), vec![a]);
    insert_filter(&mut filters, "a/+".to_string(), b).unwrap();
    assert_eq!(match_topics(&mut filters, &"a/x".to_string()), vec![a, b]);
}

#[test]
fn test_filter2_insert_topic() {
    let socket = peer(1, 1200);
    let socket2 = peer(2, 1200);
    let mut filter2 = Filter2::new();
    filter2.insert_topic("/test", socket);
    filter2.insert_topic("/test", socket);
    filter2.insert_topic("/test", socket2);
    filter2.insert_topic("/test2", socket);
    filter2.insert_topic("/test2", socket2);
}

#[test]
fn test_insert() {
    let socket = peer(1, 1200);
    let mut filter = Filter::new();
    assert_eq!(filter.insert("aa/bb", socket), Ok(()));
    assert_eq!(filter.insert("aa/cc", socket), Ok(()));
    assert_eq!(filter.insert("aa/bb", socket), Err(BrokerError::AlreadySubscribed));
    let r = filter.match_topic("aa/bb").unwrap();
    assert!(r.contains(&socket));

    assert_eq!(filter.insert("aa/#", socket), Ok(()));
    assert_eq!(filter.insert("aa/#", socket), Err(BrokerError::AlreadySubscribed));
    assert_eq!(filter.insert("bb/+", socket), Ok(()));
    assert_eq!(filter.insert("", socket), Err(BrokerError::InvalidFilter));
    assert!(filter.match_topic_concrete("bb/bb").is_none());
    assert!(filter.match_topic_concrete("bb/bb/cc").is_none());
    assert!(filter.match_topic_concrete("aa/bb").unwrap().contains(&socket));
    assert!(filter.match_topic_wildcard("aa/dd").unwrap().contains(&socket));
    assert!(filter.match_topic_wildcard("aa/ee/ff").unwrap().contains(&socket));
    assert!(filter.match_topic_wildcard("zz/dd").is_none());
    assert!(filter.match_topic_wildcard("bb/x").unwrap().contains(&socket));
    assert!(filter.match_topic("aa/+").is_none());
    assert!(filter.match_topic_id(1).is_none());
    assert_eq!(filter.insert_id_topic(1, socket), Ok(()));
    assert_eq!(filter.insert_id_topic(1, socket), Err(BrokerError::AlreadySubscribed));
    assert!(filter.match_topic_id(1).unwrap().contains(&socket));
    assert_eq!(global_filter_insert(&mut filter, "cc", socket), Ok(()));
    assert_eq!(global_filter_insert(&mut filter, "cc", socket), Err(BrokerError::AlreadySubscribed));
}

#[test]
fn matching_depends_on_its_arguments_alone() {
    let cases = [
        ("a/b/c", "a/+/c"),
        ("a/b/c", "a/#"),
        ("a/b", "a/b/c"),
        ("$SYS/x", "#"),
        ("", "+"),
    ];
    let mut filters = Filter::new();
    for (topic, filter) in cases {
        let first = match_topic(topic, filter);
        // an index that fills in between has no say
        let _ = insert_filter(&mut filters, filter.to_string(), peer(1, 1));
        let _ = match_topics(&mut filters, &topic.to_string());
        assert_eq!(match_topic(topic, filter), first);
        assert_eq!(match_topic(&topic.to_string(), &filter.to_string()), first);
    }
}

#[test]
fn subscribers_are_listed_ipv4_first() {
    let mut filters = Filter::new();
    let six = PeerAddr::ipv6(1, 1200, 0, 0);
    let mapped = PeerAddr::ipv6(0xffff_7f00_0001, 1200, 0, 0);
    let four = PeerAddr::ipv4(0x7f00_0001, 1200);
    let scoped = PeerAddr::ipv6(1, 1200, 0, 3);
    for p in [scoped, six, mapped, four] {
        insert_subscriber_with_topic_id(&mut filters, p, 5, QOS_LEVEL_1).unwrap();
    }
    // an address of one family is no address of the other
    assert_ne!(mapped, four);
    assert_eq!(
        get_subscribers_with_topic_id(&filters, 5),
        vec![
            Subscriber { socket_addr: four, qos: QOS_LEVEL_1 },
            Subscriber { socket_addr: six, qos: QOS_LEVEL_1 },
            Subscriber { socket_addr: scoped, qos: QOS_LEVEL_1 },
            Subscriber { socket_addr: mapped, qos: QOS_LEVEL_1 },
        ]
    );
    delete_subscribers_with_socket_addr(&mut filters, &six);
    assert_eq!(
        get_subscribers_with_topic_id(&filters, 5),
        vec![
            Subscriber { socket_addr: four, qos: QOS_LEVEL_1 },
            Subscriber { socket_addr: scoped, qos: QOS_LEVEL_1 },
            Subscriber { socket_addr: mapped, qos: QOS_LEVEL_1 },
        ]
    );
}
