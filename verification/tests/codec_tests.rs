use broker_lib::error::{BrokerError, DecodeError};
use broker_lib::flags::{
    flag_is_clean_session, flag_is_dup, flag_is_retain, flag_is_will, flag_qos_level,
    flag_topic_id_type, flags_set, CLEAN_SESSION_FALSE, CLEAN_SESSION_TRUE, DUP_FALSE, DUP_TRUE,
    QOS_LEVEL_0, QOS_LEVEL_1, QOS_LEVEL_2, QOS_LEVEL_3, RETAIN_FALSE, RETAIN_TRUE,
    TOPIC_ID_TYPE_NORMAL, TOPIC_ID_TYPE_PRE_DEFINED, TOPIC_ID_TYPE_RESERVED, TOPIC_ID_TYPE_SHORT,
    WILL_FALSE, WILL_TRUE,
};
use broker_lib::message::{
    ConnAck, Connect, DisconnWithDuration, Disconnect, MessageTypeEnum, PingReq, PubAck, PubComp,
    PubRec, PubRel, Publish, SubAck, Subscribe, WillMsg, WillMsgReq, WillTopic,
};
use broker_lib::msg_hdr::{
    decode_header, MsgHeader, MsgHeaderLenEnum, PeerAddr, MSG_TYPE_CONNECT, MSG_TYPE_PUBLISH,
};
use bytes::BytesMut;

fn bytes(b: &[u8]) -> BytesMut {
    BytesMut::from(b)
}

fn frame(m: &MessageTypeEnum) -> Vec<u8> {
    m.encode_frame().unwrap().to_vec()
}

fn round_trip(m: MessageTypeEnum, expected: &[u8]) {
    let f = frame(&m);
    assert_eq!(f, expected);
    let back = MessageTypeEnum::decode_frame(&f, f.len()).unwrap();
    assert_eq!(frame(&back), expected);
    assert_eq!(format!("{:?}", strip(back)), format!("{:?}", strip(m)));
}

// The len and msg_type of a struct mirror the frame; a value written by hand
// may hold anything there.
fn strip(m: MessageTypeEnum) -> MessageTypeEnum {
    match m {
        MessageTypeEnum::Connect(x) => MessageTypeEnum::Connect(Connect { len: 0, msg_type: 0, ..x }),
        MessageTypeEnum::ConnAct(x) => MessageTypeEnum::ConnAct(ConnAck { len: 0, msg_type: 0, ..x }),
        MessageTypeEnum::WillTopic(x) => {
            MessageTypeEnum::WillTopic(WillTopic { len: 0, msg_type: 0, ..x })
        }
        MessageTypeEnum::WillMsgReq(_) => {
            MessageTypeEnum::WillMsgReq(WillMsgReq { len: 0, msg_type: 0 })
        }
        MessageTypeEnum::WillMsg(x) => MessageTypeEnum::WillMsg(WillMsg { len: 0, msg_type: 0, ..x }),
        MessageTypeEnum::Publish(x) => MessageTypeEnum::Publish(Publish { len: 0, msg_type: 0, ..x }),
        MessageTypeEnum::PubAck(x) => MessageTypeEnum::PubAck(PubAck { len: 0, msg_type: 0, ..x }),
        MessageTypeEnum::PubComp(x) => MessageTypeEnum::PubComp(PubComp { len: 0, msg_type: 0, ..x }),
        MessageTypeEnum::PubRec(x) => MessageTypeEnum::PubRec(PubRec { len: 0, msg_type: 0, ..x }),
        MessageTypeEnum::PubRel(x) => MessageTypeEnum::PubRel(PubRel { len: 0, msg_type: 0, ..x }),
        MessageTypeEnum::Subscribe(x) => {
            MessageTypeEnum::Subscribe(Subscribe { len: 0, msg_type: 0, ..x })
        }
        MessageTypeEnum::SubAck(x) => MessageTypeEnum::SubAck(SubAck { len: 0, msg_type: 0, ..x }),
        MessageTypeEnum::PingReq(x) => MessageTypeEnum::PingReq(PingReq { len: 0, msg_type: 0, ..x }),
        MessageTypeEnum::Disconnect(_) => {
            MessageTypeEnum::Disconnect(Disconnect { len: 0, msg_type: 0 })
        }
        MessageTypeEnum::DisconnWithDuration(x) => {
            MessageTypeEnum::DisconnWithDuration(DisconnWithDuration { len: 0, msg_type: 0, ..x })
        }
        other => other,
    }
}

#[test]
fn flags_pack_and_unpack() {
    let f = flags_set(DUP_TRUE, QOS_LEVEL_2, RETAIN_TRUE, WILL_FALSE, CLEAN_SESSION_TRUE, TOPIC_ID_TYPE_SHORT);
    assert_eq!(f, 0b1101_0110);
    assert!(flag_is_dup(f));
    assert_eq!(flag_qos_level(f), QOS_LEVEL_2);
    assert!(flag_is_retain(f));
    assert!(!flag_is_will(f));
    assert!(flag_is_clean_session(f));
    assert_eq!(flag_topic_id_type(f), TOPIC_ID_TYPE_SHORT);
    let g = flags_set(DUP_FALSE, QOS_LEVEL_1, RETAIN_FALSE, WILL_TRUE, CLEAN_SESSION_FALSE, TOPIC_ID_TYPE_PRE_DEFINED);
    assert_eq!(g, 0b0010_1001);
    assert_eq!(flag_qos_level(0xFF), QOS_LEVEL_3);
    assert_eq!(flag_qos_level(0x00), QOS_LEVEL_0);
    assert_eq!(flag_topic_id_type(0xFF), TOPIC_ID_TYPE_RESERVED);
    assert_eq!(flag_topic_id_type(0xFC), TOPIC_ID_TYPE_NORMAL);
}

#[test]
fn flags_cut_each_field_to_its_bits() {
    // a QoS argument that spills over sets the QoS bits only
    assert_eq!(flags_set(0, 0xFF, 0, 0, 0, 0), 0b0110_0000);
    assert_eq!(flags_set(0xFF, 0, 0, 0, 0, 0), 0b1000_0000);
    assert_eq!(flags_set(0, 0, 0, 0, 0, 0xFF), 0b0000_0011);
}

#[test]
fn header_of_a_short_frame() {
    assert_eq!(decode_header(&[2, 0x17]), Ok((0x17, 2, 2)));
    assert_eq!(decode_header(&[4, 0x0F, 0, 9]), Ok((0x0F, 2, 4)));
}

#[test]
fn header_of_a_long_frame() {
    let mut f = vec![1u8, 1, 0, MSG_TYPE_PUBLISH];
    f.resize(256, 0);
    assert_eq!(decode_header(&f), Ok((MSG_TYPE_PUBLISH, 4, 256)));
    let mut g = vec![1u8, 0xFF, 0xFF, MSG_TYPE_PUBLISH];
    g.resize(65535, 0);
    assert_eq!(decode_header(&g), Ok((MSG_TYPE_PUBLISH, 4, 65535)));
}

#[test]
fn header_errors() {
    assert_eq!(decode_header(&[]), Err(DecodeError::TruncatedField));
    assert_eq!(decode_header(&[2]), Err(DecodeError::TruncatedField));
    assert_eq!(decode_header(&[1, 0, 3]), Err(DecodeError::TruncatedField));
    assert_eq!(decode_header(&[3, 0x17]), Err(DecodeError::LenMismatch));
    assert_eq!(decode_header(&[0, 0x17]), Err(DecodeError::LenMismatch));
    assert_eq!(decode_header(&[2, 0x03]), Err(DecodeError::BadType));
    assert_eq!(decode_header(&[2, 0x11]), Err(DecodeError::BadType));
    assert_eq!(decode_header(&[2, 0x19]), Err(DecodeError::BadType));
    // the long form is for frames of 256 octets and more
    assert_eq!(decode_header(&[1, 0, 5, 0x0C, 0]), Err(DecodeError::LenMismatch));
    // a length mismatch is seen before the type is looked at
    assert_eq!(decode_header(&[5, 0x03]), Err(DecodeError::LenMismatch));
}

#[test]
fn msg_header_try_read() {
    let peer = PeerAddr::ipv6(1, 2, 0, 0);
    let h = MsgHeader::try_read(&[8, MSG_TYPE_CONNECT, 4, 1, 0, 60, b'c', b'1', 0, 0], 8, peer).unwrap();
    assert_eq!(h.len, 8);
    assert_eq!(h.msg_type, MSG_TYPE_CONNECT);
    assert_eq!(h.header_len, MsgHeaderLenEnum::Short);
    assert_eq!(h.remote_socket_addr, peer);
    assert_eq!(MsgHeader::try_read(&[2, 0x17], 3, peer).err(), Some(DecodeError::LenMismatch));
    assert_eq!(MsgHeader::try_read(&[2, 0x17, 0], 3, peer).err(), Some(DecodeError::LenMismatch));
}

#[test]
fn every_kind_of_message_goes_round() {
    round_trip(MessageTypeEnum::Advertise { gw_id: 5, duration: 0x0102 }, &[5, 0x00, 5, 1, 2]);
    round_trip(MessageTypeEnum::SearchGw { radius: 3 }, &[3, 0x01, 3]);
    round_trip(
        MessageTypeEnum::GwInfo { gw_id: 9, gw_add: bytes(&[10, 0, 0, 1]) },
        &[7, 0x02, 9, 10, 0, 0, 1],
    );
    round_trip(
        MessageTypeEnum::Connect(Connect {
            len: 8,
            msg_type: 0x04,
            flags: 0x04,
            protocol_id: 1,
            duration: 60,
            client_id: bytes(b"c1"),
        }),
        &[8, 0x04, 0x04, 1, 0, 60, b'c', b'1'],
    );
    round_trip(
        MessageTypeEnum::ConnAct(ConnAck { len: 3, msg_type: 0x05, return_code: 0 }),
        &[3, 0x05, 0],
    );
    round_trip(MessageTypeEnum::WillTopicReq, &[2, 0x06]);
    round_trip(
        MessageTypeEnum::WillTopic(WillTopic {
            len: 0,
            msg_type: 0,
            flags: 0x20,
            will_topic: "alarms".to_string(),
        }),
        &[9, 0x07, 0x20, b'a', b'l', b'a', b'r', b'm', b's'],
    );
    round_trip(MessageTypeEnum::WillMsgReq(WillMsgReq { len: 2, msg_type: 0x08 }), &[2, 0x08]);
    round_trip(
        MessageTypeEnum::WillMsg(WillMsg { len: 0, msg_type: 0, will_msg: bytes(b"down") }),
        &[6, 0x09, b'd', b'o', b'w', b'n'],
    );
    round_trip(
        MessageTypeEnum::Register { topic_id: 0, msg_id: 0x0203, topic_name: "a/b".to_string() },
        &[9, 0x0A, 0, 0, 2, 3, b'a', b'/', b'b'],
    );
    round_trip(
        MessageTypeEnum::RegAck { topic_id: 7, msg_id: 0x0203, return_code: 0 },
        &[7, 0x0B, 0, 7, 2, 3, 0],
    );
    round_trip(
        MessageTypeEnum::Publish(Publish {
            len: 0,
            msg_type: 0,
            flags: 0x20,
            topic_id: 1,
            msg_id: 42,
            data: bytes(b"25"),
        }),
        &[9, 0x0C, 0x20, 0, 1, 0, 42, b'2', b'5'],
    );
    round_trip(
        MessageTypeEnum::PubAck(PubAck { len: 0, msg_type: 0, topic_id: 1, msg_id: 42, return_code: 0 }),
        &[7, 0x0D, 0, 1, 0, 42, 0],
    );
    round_trip(
        MessageTypeEnum::PubComp(PubComp { len: 0, msg_type: 0, msg_id: 0xABCD }),
        &[4, 0x0E, 0xAB, 0xCD],
    );
    round_trip(
        MessageTypeEnum::PubRec(PubRec { len: 0, msg_type: 0, msg_id: 0xABCD }),
        &[4, 0x0F, 0xAB, 0xCD],
    );
    round_trip(
        MessageTypeEnum::PubRel(PubRel { len: 0, msg_type: 0, msg_id: 0xABCD }),
        &[4, 0x10, 0xAB, 0xCD],
    );
    round_trip(
        MessageTypeEnum::Subscribe(Subscribe {
            len: 0,
            msg_type: 0,
            flags: 0x20,
            msg_id: 7,
            topic_name: "sensors/temp".to_string(),
            topic_id: 0,
        }),
        &[17, 0x12, 0x20, 0, 7, b's', b'e', b'n', b's', b'o', b'r', b's', b'/', b't', b'e', b'm', b'p'],
    );
    round_trip(
        MessageTypeEnum::Subscribe(Subscribe {
            len: 0,
            msg_type: 0,
            flags: 0x21,
            msg_id: 7,
            topic_name: String::new(),
            topic_id: 0x0105,
        }),
        &[7, 0x12, 0x21, 0, 7, 1, 5],
    );
    round_trip(
        MessageTypeEnum::SubAck(SubAck {
            len: 0,
            msg_type: 0,
            flags: 0x20,
            topic_id: 1,
            msg_id: 7,
            return_code: 0,
        }),
        &[8, 0x13, 0x20, 0, 1, 0, 7, 0],
    );
    round_trip(
        MessageTypeEnum::Unsubscribe {
            flags: 0,
            msg_id: 8,
            topic_name: "x".to_string(),
            topic_id: 0,
        },
        &[6, 0x14, 0, 0, 8, b'x'],
    );
    round_trip(MessageTypeEnum::UnsubAck { msg_id: 8 }, &[4, 0x15, 0, 8]);
    round_trip(
        MessageTypeEnum::PingReq(PingReq { len: 0, msg_type: 0, client_id: bytes(b"") }),
        &[2, 0x16],
    );
    round_trip(
        MessageTypeEnum::PingReq(PingReq { len: 0, msg_type: 0, client_id: bytes(b"c1") }),
        &[4, 0x16, b'c', b'1'],
    );
    round_trip(MessageTypeEnum::PingResp, &[2, 0x17]);
    round_trip(MessageTypeEnum::Disconnect(Disconnect { len: 2, msg_type: 0x18 }), &[2, 0x18]);
    round_trip(
        MessageTypeEnum::DisconnWithDuration(DisconnWithDuration { len: 4, msg_type: 0x18, duration: 30 }),
        &[4, 0x18, 0, 30],
    );
}

#[test]
fn a_decoded_struct_mirrors_its_frame() {
    let f = [9, 0x0C, 0x20, 0, 1, 0, 42, b'2', b'5'];
    match MessageTypeEnum::decode_frame(&f, 9).unwrap() {
        MessageTypeEnum::Publish(p) => {
            assert_eq!(p.len, 9);
            assert_eq!(p.msg_type, 0x0C);
            assert_eq!(p.flags, 0x20);
            assert_eq!(p.topic_id, 1);
            assert_eq!(p.msg_id, 42);
            assert_eq!(&p.data[..], b"25");
        }
        other => panic!("{:?}", other),
    }
    let p = Publish::try_read(&f, 9).unwrap();
    assert_eq!(p.msg_id, 42);
    assert_eq!(PubRec::try_read(&f, 9).err(), Some(DecodeError::BadType));
    assert_eq!(PubRec::try_read(&[4, 0x0F, 1, 2], 4).unwrap().msg_id, 0x0102);
    assert_eq!(Disconnect::try_read(&[4, 0x18, 0, 30], 4).err(), Some(DecodeError::BadType));
    assert_eq!(DisconnWithDuration::try_read(&[4, 0x18, 0, 30], 4).unwrap().duration, 30);
}

#[test]
fn frames_of_up_to_255_octets_have_one_length_octet() {
    let m = MessageTypeEnum::Publish(Publish {
        len: 0,
        msg_type: 0,
        flags: 0,
        topic_id: 1,
        msg_id: 2,
        data: bytes(&[7u8; 248]),
    });
    let f = frame(&m);
    assert_eq!(f.len(), 255);
    assert_eq!(f[0], 255);
    assert_eq!(f[1], 0x0C);
    match MessageTypeEnum::decode_frame(&f, f.len()).unwrap() {
        MessageTypeEnum::Publish(p) => {
            assert_eq!(p.len, 255);
            assert_eq!(p.data.len(), 248);
        }
        other => panic!("{:?}", other),
    }
}

#[test]
fn longer_frames_have_three_length_octets() {
    let m = MessageTypeEnum::Publish(Publish {
        len: 0,
        msg_type: 0,
        flags: 0,
        topic_id: 1,
        msg_id: 2,
        data: bytes(&[7u8; 249]),
    });
    let f = frame(&m);
    // 4 octets of header, 5 of fields, 249 of data
    assert_eq!(f.len(), 258);
    assert_eq!(&f[..4], &[1, 1, 2, 0x0C]);
    match MessageTypeEnum::decode_frame(&f, f.len()).unwrap() {
        MessageTypeEnum::Publish(p) => {
            assert_eq!(p.len, 1);
            assert_eq!(p.data.len(), 249);
            assert_eq!(p.topic_id, 1);
        }
        other => panic!("{:?}", other),
    }
    let big = MessageTypeEnum::WillMsg(WillMsg { len: 0, msg_type: 0, will_msg: bytes(&[1u8; 65531]) });
    let g = frame(&big);
    assert_eq!(g.len(), 65535);
    assert_eq!(&g[..4], &[1, 0xFF, 0xFF, 0x09]);
    assert!(MessageTypeEnum::decode_frame(&g, g.len()).is_ok());
}

#[test]
fn a_frame_over_65535_octets_is_refused() {
    let m = MessageTypeEnum::WillMsg(WillMsg { len: 0, msg_type: 0, will_msg: bytes(&[1u8; 65532]) });
    assert_eq!(m.encode_frame().err(), Some(BrokerError::FrameTooLong));
}

#[test]
fn decode_errors() {
    let d = |b: &[u8]| MessageTypeEnum::decode_frame(b, b.len()).err();
    assert_eq!(d(&[3, 0x0F, 1]), Some(DecodeError::TruncatedField));
    assert_eq!(d(&[5, 0x0F, 1, 2, 3]), Some(DecodeError::TruncatedField));
    assert_eq!(d(&[6, 0x0C, 0, 0, 1, 0]), Some(DecodeError::TruncatedField));
    assert_eq!(d(&[3, 0x18, 0]), Some(DecodeError::TruncatedField));
    assert_eq!(d(&[3, 0x17, 0]), Some(DecodeError::TruncatedField));
    assert_eq!(d(&[4, 0x12, 0, 0]), Some(DecodeError::TruncatedField));
    // a pre-defined topic id takes two octets
    assert_eq!(d(&[6, 0x12, 1, 0, 7, 1]), Some(DecodeError::TruncatedField));
    assert_eq!(d(&[6, 0x12, 0, 0, 7, 0xFF]), Some(DecodeError::BadName));
    assert_eq!(d(&[4, 0x07, 0, 0xC3]), Some(DecodeError::BadName));
    assert_eq!(d(&[2, 0x03]), Some(DecodeError::BadType));
    assert_eq!(d(&[9, 0x0C, 0]), Some(DecodeError::LenMismatch));
    assert_eq!(
        MessageTypeEnum::decode_frame(&[2, 0x17], 5).err(),
        Some(DecodeError::LenMismatch)
    );
}

#[test]
fn the_frame_fills_the_first_octets_of_the_buffer() {
    let mut buf = [0u8; 1500];
    buf[..4].copy_from_slice(&[4, 0x10, 0, 9]);
    match MessageTypeEnum::decode_frame(&buf, 4).unwrap() {
        MessageTypeEnum::PubRel(r) => assert_eq!(r.msg_id, 9),
        other => panic!("{:?}", other),
    }
}

#[test]
fn names_are_utf8() {
    let m = MessageTypeEnum::Register { topic_id: 0, msg_id: 1, topic_name: "zähler/é".to_string() };
    let f = frame(&m);
    assert_eq!(f.len(), 2 + 4 + "zähler/é".len());
    match MessageTypeEnum::decode_frame(&f, f.len()).unwrap() {
        MessageTypeEnum::Register { topic_name, .. } => assert_eq!(topic_name, "zähler/é"),
        other => panic!("{:?}", other),
    }
}

#[test]
fn errors_have_messages() {
    assert_eq!(BrokerError::Decode(DecodeError::LenMismatch).message(), "length mismatch");
    assert_eq!(BrokerError::FrameTooLong.message(), "len too long");
    assert_eq!(BrokerError::NotConnected.message(), "not in connection map");
}
