//! The grammar of the messages: what each one is, the octets of its body,
//! and what a body of a given type says.
//!
//! All numbers of two octets stand high octet first. Topic names are UTF-8.
use crate::error::DecodeError;
use crate::flags::{topic_id_type_of, TOPIC_ID_TYPE_PRE_DEFINED};
use crate::msg_hdr::{
    be16, body_fits, frame_of, header_of, lemma_length_prefix, u16_of, MSG_TYPE_ADVERTISE,
    MSG_TYPE_CONNACK, MSG_TYPE_CONNECT, MSG_TYPE_DISCONNECT, MSG_TYPE_GW_INFO, MSG_TYPE_PINGREQ,
    MSG_TYPE_PINGRESP, MSG_TYPE_PUBACK, MSG_TYPE_PUBCOMP, MSG_TYPE_PUBLISH, MSG_TYPE_PUBREC,
    MSG_TYPE_PUBREL, MSG_TYPE_REGACK, MSG_TYPE_REGISTER, MSG_TYPE_SEARCH_GW, MSG_TYPE_SUBACK,
    MSG_TYPE_SUBSCRIBE, MSG_TYPE_UNSUBACK, MSG_TYPE_UNSUBSCRIBE, MSG_TYPE_WILL_MSG,
    MSG_TYPE_WILL_MSG_REQ, MSG_TYPE_WILL_TOPIC, MSG_TYPE_WILL_TOPIC_REQ,
};
use vstd::prelude::*;
use vstd::utf8::*;

verus! {

/// A message, as a value: its kind and its fields.
pub enum Msg {
    Advertise { gw_id: u8, duration: u16 },
    SearchGw { radius: u8 },
    GwInfo { gw_id: u8, gw_add: Seq<u8> },
    Connect { flags: u8, protocol_id: u8, duration: u16, client_id: Seq<u8> },
    ConnAck { return_code: u8 },
    WillTopicReq,
    WillTopic { flags: u8, will_topic: Seq<char> },
    WillMsgReq,
    WillMsg { will_msg: Seq<u8> },
    Register { topic_id: u16, msg_id: u16, topic_name: Seq<char> },
    RegAck { topic_id: u16, msg_id: u16, return_code: u8 },
    Publish { flags: u8, topic_id: u16, msg_id: u16, data: Seq<u8> },
    PubAck { topic_id: u16, msg_id: u16, return_code: u8 },
    PubComp { msg_id: u16 },
    PubRec { msg_id: u16 },
    PubRel { msg_id: u16 },
    /// The topic is `topic_id` where the flags say "pre-defined", else `topic_name`.
    Subscribe { flags: u8, msg_id: u16, topic_name: Seq<char>, topic_id: u16 },
    SubAck { flags: u8, topic_id: u16, msg_id: u16, return_code: u8 },
    /// The topic is `topic_id` where the flags say "pre-defined", else `topic_name`.
    Unsubscribe { flags: u8, msg_id: u16, topic_name: Seq<char>, topic_id: u16 },
    UnsubAck { msg_id: u16 },
    PingReq { client_id: Seq<u8> },
    PingResp,
    Disconnect,
    /// A DISCONNECT that announces sleep for `duration` seconds.
    DisconnWithDuration { duration: u16 },
}

/// The type octet of a message.
pub open spec fn msg_type_of(m: Msg) -> u8 {
    match m {
        Msg::Advertise { .. } => MSG_TYPE_ADVERTISE,
        Msg::SearchGw { .. } => MSG_TYPE_SEARCH_GW,
        Msg::GwInfo { .. } => MSG_TYPE_GW_INFO,
        Msg::Connect { .. } => MSG_TYPE_CONNECT,
        Msg::ConnAck { .. } => MSG_TYPE_CONNACK,
        Msg::WillTopicReq => MSG_TYPE_WILL_TOPIC_REQ,
        Msg::WillTopic { .. } => MSG_TYPE_WILL_TOPIC,
        Msg::WillMsgReq => MSG_TYPE_WILL_MSG_REQ,
        Msg::WillMsg { .. } => MSG_TYPE_WILL_MSG,
        Msg::Register { .. } => MSG_TYPE_REGISTER,
        Msg::RegAck { .. } => MSG_TYPE_REGACK,
        Msg::Publish { .. } => MSG_TYPE_PUBLISH,
        Msg::PubAck { .. } => MSG_TYPE_PUBACK,
        Msg::PubComp { .. } => MSG_TYPE_PUBCOMP,
        Msg::PubRec { .. } => MSG_TYPE_PUBREC,
        Msg::PubRel { .. } => MSG_TYPE_PUBREL,
        Msg::Subscribe { .. } => MSG_TYPE_SUBSCRIBE,
        Msg::SubAck { .. } => MSG_TYPE_SUBACK,
        Msg::Unsubscribe { .. } => MSG_TYPE_UNSUBSCRIBE,
        Msg::UnsubAck { .. } => MSG_TYPE_UNSUBACK,
        Msg::PingReq { .. } => MSG_TYPE_PINGREQ,
        Msg::PingResp => MSG_TYPE_PINGRESP,
        Msg::Disconnect => MSG_TYPE_DISCONNECT,
        Msg::DisconnWithDuration { .. } => MSG_TYPE_DISCONNECT,
    }
}

/// Whether the flags say that the topic is a pre-defined id.
pub open spec fn is_pre_defined(flags: u8) -> bool {
    topic_id_type_of(flags) == TOPIC_ID_TYPE_PRE_DEFINED
}

/// The topic field of SUBSCRIBE and UNSUBSCRIBE: the id in two octets where
/// the flags say "pre-defined", else the name.
pub open spec fn topic_field(flags: u8, topic_name: Seq<char>, topic_id: u16) -> Seq<u8> {
    if is_pre_defined(flags) {
        be16(topic_id)
    } else {
        encode_utf8(topic_name)
    }
}

/// The octets of a message that follow its type octet.
pub open spec fn body_of(m: Msg) -> Seq<u8> {
    match m {
        Msg::Advertise { gw_id, duration } => seq![gw_id] + be16(duration),
        Msg::SearchGw { radius } => seq![radius],
        Msg::GwInfo { gw_id, gw_add } => seq![gw_id] + gw_add,
        Msg::Connect { flags, protocol_id, duration, client_id } => seq![flags, protocol_id]
            + be16(duration) + client_id,
        Msg::ConnAck { return_code } => seq![return_code],
        Msg::WillTopicReq => Seq::empty(),
        Msg::WillTopic { flags, will_topic } => seq![flags] + encode_utf8(will_topic),
        Msg::WillMsgReq => Seq::empty(),
        Msg::WillMsg { will_msg } => will_msg,
        Msg::Register { topic_id, msg_id, topic_name } => be16(topic_id) + be16(msg_id)
            + encode_utf8(topic_name),
        Msg::RegAck { topic_id, msg_id, return_code } => be16(topic_id) + be16(msg_id)
            + seq![return_code],
        Msg::Publish { flags, topic_id, msg_id, data } => seq![flags] + be16(topic_id) + be16(
            msg_id,
        ) + data,
        Msg::PubAck { topic_id, msg_id, return_code } => be16(topic_id) + be16(msg_id)
            + seq![return_code],
        Msg::PubComp { msg_id } => be16(msg_id),
        Msg::PubRec { msg_id } => be16(msg_id),
        Msg::PubRel { msg_id } => be16(msg_id),
        Msg::Subscribe { flags, msg_id, topic_name, topic_id } => seq![flags] + be16(msg_id)
            + topic_field(flags, topic_name, topic_id),
        Msg::SubAck { flags, topic_id, msg_id, return_code } => seq![flags] + be16(topic_id)
            + be16(msg_id) + seq![return_code],
        Msg::Unsubscribe { flags, msg_id, topic_name, topic_id } => seq![flags] + be16(msg_id)
            + topic_field(flags, topic_name, topic_id),
        Msg::UnsubAck { msg_id } => be16(msg_id),
        Msg::PingReq { client_id } => client_id,
        Msg::PingResp => Seq::empty(),
        Msg::Disconnect => Seq::empty(),
        Msg::DisconnWithDuration { duration } => be16(duration),
    }
}

/// Of the two topic fields of SUBSCRIBE and UNSUBSCRIBE only the one that
/// the flags choose holds anything.
pub open spec fn topic_is_canonical(flags: u8, topic_name: Seq<char>, topic_id: u16) -> bool {
    if is_pre_defined(flags) {
        topic_name.len() == 0
    } else {
        topic_id == 0
    }
}

/// A message can be sent when its frame is no longer than 65535 octets and
/// it holds nothing that the frame leaves out.
pub open spec fn encodable(m: Msg) -> bool {
    &&& body_fits(body_of(m).len())
    &&& match m {
        Msg::Subscribe { flags, msg_id, topic_name, topic_id } => topic_is_canonical(
            flags,
            topic_name,
            topic_id,
        ),
        Msg::Unsubscribe { flags, msg_id, topic_name, topic_id } => topic_is_canonical(
            flags,
            topic_name,
            topic_id,
        ),
        _ => true,
    }
}

/// The frame of a message.
pub open spec fn encode(m: Msg) -> Seq<u8> {
    frame_of(msg_type_of(m), body_of(m))
}

/// The number in the two octets at `i`.
pub open spec fn u16_at(b: Seq<u8>, i: int) -> u16 {
    u16_of(b[i], b[i + 1])
}

/// The text that the octets from `i` on spell, where they are UTF-8.
pub open spec fn name_at(b: Seq<u8>, i: int) -> Result<Seq<char>, DecodeError> {
    if valid_utf8(b.skip(i)) {
        Ok(decode_utf8(b.skip(i)))
    } else {
        Err(DecodeError::BadName)
    }
}

/// What a body holding one number of two octets says.
pub open spec fn parse_msg_id(b: Seq<u8>) -> Result<u16, DecodeError> {
    if b.len() == 2 {
        Ok(u16_at(b, 0))
    } else {
        Err(DecodeError::TruncatedField)
    }
}

/// What the body of a SUBSCRIBE or UNSUBSCRIBE says: flags, message id,
/// topic name, topic id.
pub open spec fn parse_topic_request(b: Seq<u8>) -> Result<(u8, u16, Seq<char>, u16), DecodeError> {
    if b.len() < 3 {
        Err(DecodeError::TruncatedField)
    } else if is_pre_defined(b[0]) {
        if b.len() == 5 {
            Ok((b[0], u16_at(b, 1), Seq::empty(), u16_at(b, 3)))
        } else {
            Err(DecodeError::TruncatedField)
        }
    } else {
        match name_at(b, 3) {
            Ok(name) => Ok((b[0], u16_at(b, 1), name, 0u16)),
            Err(e) => Err(e),
        }
    }
}

/// What a body says, read as the body of a message of type `t`. A body that
/// is too short for the fields of its message, or too long for a message of
/// one size, is a truncated field.
pub open spec fn parse_body(t: u8, b: Seq<u8>) -> Result<Msg, DecodeError> {
    if t == MSG_TYPE_ADVERTISE {
        if b.len() == 3 {
            Ok(Msg::Advertise { gw_id: b[0], duration: u16_at(b, 1) })
        } else {
            Err(DecodeError::TruncatedField)
        }
    } else if t == MSG_TYPE_SEARCH_GW {
        if b.len() == 1 {
            Ok(Msg::SearchGw { radius: b[0] })
        } else {
            Err(DecodeError::TruncatedField)
        }
    } else if t == MSG_TYPE_GW_INFO {
        if b.len() >= 1 {
            Ok(Msg::GwInfo { gw_id: b[0], gw_add: b.skip(1) })
        } else {
            Err(DecodeError::TruncatedField)
        }
    } else if t == MSG_TYPE_CONNECT {
        if b.len() >= 4 {
            Ok(
                Msg::Connect {
                    flags: b[0],
                    protocol_id: b[1],
                    duration: u16_at(b, 2),
                    client_id: b.skip(4),
                },
            )
        } else {
            Err(DecodeError::TruncatedField)
        }
    } else if t == MSG_TYPE_CONNACK {
        if b.len() == 1 {
            Ok(Msg::ConnAck { return_code: b[0] })
        } else {
            Err(DecodeError::TruncatedField)
        }
    } else if t == MSG_TYPE_WILL_TOPIC_REQ {
        if b.len() == 0 {
            Ok(Msg::WillTopicReq)
        } else {
            Err(DecodeError::TruncatedField)
        }
    } else if t == MSG_TYPE_WILL_TOPIC {
        if b.len() >= 1 {
            match name_at(b, 1) {
                Ok(name) => Ok(Msg::WillTopic { flags: b[0], will_topic: name }),
                Err(e) => Err(e),
            }
        } else {
            Err(DecodeError::TruncatedField)
        }
    } else if t == MSG_TYPE_WILL_MSG_REQ {
        if b.len() == 0 {
            Ok(Msg::WillMsgReq)
        } else {
            Err(DecodeError::TruncatedField)
        }
    } else if t == MSG_TYPE_WILL_MSG {
        Ok(Msg::WillMsg { will_msg: b })
    } else if t == MSG_TYPE_REGISTER {
        if b.len() >= 4 {
            match name_at(b, 4) {
                Ok(name) => Ok(
                    Msg::Register {
                        topic_id: u16_at(b, 0),
                        msg_id: u16_at(b, 2),
                        topic_name: name,
                    },
                ),
                Err(e) => Err(e),
            }
        } else {
            Err(DecodeError::TruncatedField)
        }
    } else if t == MSG_TYPE_REGACK {
        if b.len() == 5 {
            Ok(Msg::RegAck { topic_id: u16_at(b, 0), msg_id: u16_at(b, 2), return_code: b[4] })
        } else {
            Err(DecodeError::TruncatedField)
        }
    } else if t == MSG_TYPE_PUBLISH {
        if b.len() >= 5 {
            Ok(
                Msg::Publish {
                    flags: b[0],
                    topic_id: u16_at(b, 1),
                    msg_id: u16_at(b, 3),
                    data: b.skip(5),
                },
            )
        } else {
            Err(DecodeError::TruncatedField)
        }
    } else if t == MSG_TYPE_PUBACK {
        if b.len() == 5 {
            Ok(Msg::PubAck { topic_id: u16_at(b, 0), msg_id: u16_at(b, 2), return_code: b[4] })
        } else {
            Err(DecodeError::TruncatedField)
        }
    } else if t == MSG_TYPE_PUBCOMP {
        match parse_msg_id(b) {
            Ok(msg_id) => Ok(Msg::PubComp { msg_id }),
            Err(e) => Err(e),
        }
    } else if t == MSG_TYPE_PUBREC {
        match parse_msg_id(b) {
            Ok(msg_id) => Ok(Msg::PubRec { msg_id }),
            Err(e) => Err(e),
        }
    } else if t == MSG_TYPE_PUBREL {
        match parse_msg_id(b) {
            Ok(msg_id) => Ok(Msg::PubRel { msg_id }),
            Err(e) => Err(e),
        }
    } else if t == MSG_TYPE_SUBSCRIBE {
        match parse_topic_request(b) {
            Ok((flags, msg_id, topic_name, topic_id)) => Ok(
                Msg::Subscribe { flags, msg_id, topic_name, topic_id },
            ),
            Err(e) => Err(e),
        }
    } else if t == MSG_TYPE_SUBACK {
        if b.len() == 6 {
            Ok(
                Msg::SubAck {
                    flags: b[0],
                    topic_id: u16_at(b, 1),
                    msg_id: u16_at(b, 3),
                    return_code: b[5],
                },
            )
        } else {
            Err(DecodeError::TruncatedField)
        }
    } else if t == MSG_TYPE_UNSUBSCRIBE {
        match parse_topic_request(b) {
            Ok((flags, msg_id, topic_name, topic_id)) => Ok(
                Msg::Unsubscribe { flags, msg_id, topic_name, topic_id },
            ),
            Err(e) => Err(e),
        }
    } else if t == MSG_TYPE_UNSUBACK {
        match parse_msg_id(b) {
            Ok(msg_id) => Ok(Msg::UnsubAck { msg_id }),
            Err(e) => Err(e),
        }
    } else if t == MSG_TYPE_PINGREQ {
        Ok(Msg::PingReq { client_id: b })
    } else if t == MSG_TYPE_PINGRESP {
        if b.len() == 0 {
            Ok(Msg::PingResp)
        } else {
            Err(DecodeError::TruncatedField)
        }
    } else if t == MSG_TYPE_DISCONNECT {
        if b.len() == 0 {
            Ok(Msg::Disconnect)
        } else if b.len() == 2 {
            Ok(Msg::DisconnWithDuration { duration: u16_at(b, 0) })
        } else {
            Err(DecodeError::TruncatedField)
        }
    } else {
        Err(DecodeError::BadType)
    }
}

/// What a datagram says: its header is read, then its body as the header's
/// type directs.
pub open spec fn decode(b: Seq<u8>) -> Result<Msg, DecodeError> {
    match header_of(b) {
        Ok((t, offset, _)) => parse_body(t, b.skip(offset as int)),
        Err(e) => Err(e),
    }
}

/// Two octets, high first, give their number back, and the other way round.
pub proof fn lemma_be16(x: u16, hi: u8, lo: u8)
    ensures
        be16(x).len() == 2,
        u16_of(be16(x)[0], be16(x)[1]) == x,
        be16(u16_of(hi, lo)) == seq![hi, lo],
{
    assert(be16(u16_of(hi, lo)) =~= seq![hi, lo]);
}

/// A name that was written out is read back.
pub proof fn lemma_name_at(b: Seq<u8>, i: int, name: Seq<char>)
    requires
        0 <= i <= b.len(),
        b.skip(i) == encode_utf8(name),
    ensures
        name_at(b, i) == Ok::<Seq<char>, DecodeError>(name),
{
    encode_utf8_valid_utf8(name);
    encode_utf8_decode_utf8(name);
}

/// The body of a message, read as a body of the message's type, says the message.
#[verifier::rlimit(60)]
pub proof fn lemma_parse_body_of(m: Msg)
    requires
        encodable(m),
    ensures
        parse_body(msg_type_of(m), body_of(m)) == Ok::<Msg, DecodeError>(m),
{
    let b = body_of(m);
    match m {
        Msg::Advertise { gw_id, duration } => {
            lemma_be16(duration, 0, 0);
        },
        Msg::SearchGw { radius } => {},
        Msg::GwInfo { gw_id, gw_add } => {
            assert(b.skip(1) =~= gw_add);
        },
        Msg::Connect { flags, protocol_id, duration, client_id } => {
            lemma_be16(duration, 0, 0);
            assert(b.skip(4) =~= client_id);
        },
        Msg::ConnAck { return_code } => {},
        Msg::WillTopicReq => {},
        Msg::WillTopic { flags, will_topic } => {
            assert(b.skip(1) =~= encode_utf8(will_topic));
            lemma_name_at(b, 1, will_topic);
        },
        Msg::WillMsgReq => {},
        Msg::WillMsg { will_msg } => {},
        Msg::Register { topic_id, msg_id, topic_name } => {
            lemma_be16(topic_id, 0, 0);
            lemma_be16(msg_id, 0, 0);
            assert(b.skip(4) =~= encode_utf8(topic_name));
            lemma_name_at(b, 4, topic_name);
        },
        Msg::RegAck { topic_id, msg_id, return_code } => {
            lemma_be16(topic_id, 0, 0);
            lemma_be16(msg_id, 0, 0);
        },
        Msg::Publish { flags, topic_id, msg_id, data } => {
            lemma_be16(topic_id, 0, 0);
            lemma_be16(msg_id, 0, 0);
            assert(b.skip(5) =~= data);
        },
        Msg::PubAck { topic_id, msg_id, return_code } => {
            lemma_be16(topic_id, 0, 0);
            lemma_be16(msg_id, 0, 0);
        },
        Msg::PubComp { msg_id } => {
            lemma_be16(msg_id, 0, 0);
        },
        Msg::PubRec { msg_id } => {
            lemma_be16(msg_id, 0, 0);
        },
        Msg::PubRel { msg_id } => {
            lemma_be16(msg_id, 0, 0);
        },
        Msg::Subscribe { flags, msg_id, topic_name, topic_id } => {
            lemma_topic_request(flags, msg_id, topic_name, topic_id);
        },
        Msg::SubAck { flags, topic_id, msg_id, return_code } => {
            lemma_be16(topic_id, 0, 0);
            lemma_be16(msg_id, 0, 0);
        },
        Msg::Unsubscribe { flags, msg_id, topic_name, topic_id } => {
            lemma_topic_request(flags, msg_id, topic_name, topic_id);
        },
        Msg::UnsubAck { msg_id } => {
            lemma_be16(msg_id, 0, 0);
        },
        Msg::PingReq { client_id } => {},
        Msg::PingResp => {},
        Msg::Disconnect => {},
        Msg::DisconnWithDuration { duration } => {
            lemma_be16(duration, 0, 0);
        },
    }
}

/// The body of a SUBSCRIBE or UNSUBSCRIBE is read back.
pub proof fn lemma_topic_request(flags: u8, msg_id: u16, topic_name: Seq<char>, topic_id: u16)
    requires
        topic_is_canonical(flags, topic_name, topic_id),
    ensures
        parse_topic_request(seq![flags] + be16(msg_id) + topic_field(flags, topic_name, topic_id))
            == Ok::<(u8, u16, Seq<char>, u16), DecodeError>((flags, msg_id, topic_name, topic_id)),
{
    let b = seq![flags] + be16(msg_id) + topic_field(flags, topic_name, topic_id);
    lemma_be16(msg_id, 0, 0);
    lemma_be16(topic_id, 0, 0);
    if is_pre_defined(flags) {
        assert(topic_name =~= Seq::<char>::empty());
    } else {
        assert(b.skip(3) =~= encode_utf8(topic_name));
        lemma_name_at(b, 3, topic_name);
    }
}

/// The frame of a message that can be sent decodes to the message.
pub proof fn lemma_round_trip(m: Msg)
    requires
        encodable(m),
    ensures
        decode(encode(m)) == Ok::<Msg, DecodeError>(m),
{
    lemma_length_prefix(msg_type_of(m), body_of(m));
    lemma_parse_body_of(m);
}

/// A body that reads as a message is the body of that message: the decoder
/// drops nothing and makes nothing up.
#[verifier::rlimit(60)]
pub proof fn lemma_parsed_body(t: u8, b: Seq<u8>, m: Msg)
    requires
        parse_body(t, b) == Ok::<Msg, DecodeError>(m),
    ensures
        msg_type_of(m) == t,
        body_of(m) == b,
{
    match m {
        Msg::Advertise { gw_id, duration } => {
            lemma_be16(0, b[1], b[2]);
            assert(body_of(m) =~= b);
        },
        Msg::SearchGw { radius } => {
            assert(body_of(m) =~= b);
        },
        Msg::GwInfo { gw_id, gw_add } => {
            assert(body_of(m) =~= b);
        },
        Msg::Connect { flags, protocol_id, duration, client_id } => {
            lemma_be16(0, b[2], b[3]);
            assert(body_of(m) =~= b);
        },
        Msg::ConnAck { return_code } => {
            assert(body_of(m) =~= b);
        },
        Msg::WillTopicReq => {
            assert(body_of(m) =~= b);
        },
        Msg::WillTopic { flags, will_topic } => {
            decode_utf8_encode_utf8(b.skip(1));
            assert(body_of(m) =~= b);
        },
        Msg::WillMsgReq => {
            assert(body_of(m) =~= b);
        },
        Msg::WillMsg { will_msg } => {},
        Msg::Register { topic_id, msg_id, topic_name } => {
            lemma_be16(0, b[0], b[1]);
            lemma_be16(0, b[2], b[3]);
            decode_utf8_encode_utf8(b.skip(4));
            assert(body_of(m) =~= b);
        },
        Msg::RegAck { topic_id, msg_id, return_code } => {
            lemma_be16(0, b[0], b[1]);
            lemma_be16(0, b[2], b[3]);
            assert(body_of(m) =~= b);
        },
        Msg::Publish { flags, topic_id, msg_id, data } => {
            lemma_be16(0, b[1], b[2]);
            lemma_be16(0, b[3], b[4]);
            assert(body_of(m) =~= b);
        },
        Msg::PubAck { topic_id, msg_id, return_code } => {
            lemma_be16(0, b[0], b[1]);
            lemma_be16(0, b[2], b[3]);
            assert(body_of(m) =~= b);
        },
        Msg::PubComp { msg_id } => {
            lemma_be16(0, b[0], b[1]);
            assert(body_of(m) =~= b);
        },
        Msg::PubRec { msg_id } => {
            lemma_be16(0, b[0], b[1]);
            assert(body_of(m) =~= b);
        },
        Msg::PubRel { msg_id } => {
            lemma_be16(0, b[0], b[1]);
            assert(body_of(m) =~= b);
        },
        Msg::Subscribe { flags, msg_id, topic_name, topic_id } => {
            lemma_parsed_topic_request(b);
        },
        Msg::SubAck { flags, topic_id, msg_id, return_code } => {
            lemma_be16(0, b[1], b[2]);
            lemma_be16(0, b[3], b[4]);
            assert(body_of(m) =~= b);
        },
        Msg::Unsubscribe { flags, msg_id, topic_name, topic_id } => {
            lemma_parsed_topic_request(b);
        },
        Msg::UnsubAck { msg_id } => {
            lemma_be16(0, b[0], b[1]);
            assert(body_of(m) =~= b);
        },
        Msg::PingReq { client_id } => {},
        Msg::PingResp => {
            assert(body_of(m) =~= b);
        },
        Msg::Disconnect => {
            assert(body_of(m) =~= b);
        },
        Msg::DisconnWithDuration { duration } => {
            lemma_be16(0, b[0], b[1]);
            assert(body_of(m) =~= b);
        },
    }
}

/// What is read from the body of a SUBSCRIBE or UNSUBSCRIBE writes that body again.
pub proof fn lemma_parsed_topic_request(b: Seq<u8>)
    requires
        parse_topic_request(b) is Ok,
    ensures
        ({
            let (flags, msg_id, topic_name, topic_id) = parse_topic_request(b)->Ok_0;
            &&& seq![flags] + be16(msg_id) + topic_field(flags, topic_name, topic_id) == b
            &&& topic_is_canonical(flags, topic_name, topic_id)
        }),
{
    let (flags, msg_id, topic_name, topic_id) = parse_topic_request(b)->Ok_0;
    lemma_be16(0, b[1], b[2]);
    if is_pre_defined(b[0]) {
        lemma_be16(0, b[3], b[4]);
    } else {
        decode_utf8_encode_utf8(b.skip(3));
    }
    assert(seq![flags] + be16(msg_id) + topic_field(flags, topic_name, topic_id) =~= b);
}

/// The body of a PUBLISH is five octets longer than its data.
pub proof fn lemma_publish_body_len(m: Msg)
    requires
        m is Publish,
    ensures
        body_of(m).len() == 5 + m->Publish_data.len(),
{
}

} // verus!
