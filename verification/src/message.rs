//! The messages as values that a program holds, and their codec: each is
//! written as the frame that the grammar gives it, and a datagram is read as
//! the message that the grammar says it is.
use crate::buf::{buf_as_slice, buf_bytes, buf_put_slice, buf_with_capacity};
use crate::error::{BrokerError, DecodeError};
use crate::flags::{flag_topic_id_type, TOPIC_ID_TYPE_PRE_DEFINED};
use crate::msg_hdr::{
    be16, body_fits, decode_header, first_octet, header_bytes, MSG_TYPE_ADVERTISE, MSG_TYPE_CONNACK,
    MSG_TYPE_CONNECT, MSG_TYPE_DISCONNECT, MSG_TYPE_GW_INFO, MSG_TYPE_PINGREQ, MSG_TYPE_PINGRESP,
    MSG_TYPE_PUBACK, MSG_TYPE_PUBCOMP, MSG_TYPE_PUBLISH, MSG_TYPE_PUBREC, MSG_TYPE_PUBREL,
    MSG_TYPE_REGACK, MSG_TYPE_REGISTER, MSG_TYPE_SEARCH_GW, MSG_TYPE_SUBACK, MSG_TYPE_SUBSCRIBE,
    MSG_TYPE_UNSUBACK, MSG_TYPE_UNSUBSCRIBE, MSG_TYPE_WILL_MSG, MSG_TYPE_WILL_MSG_REQ,
    MSG_TYPE_WILL_TOPIC, MSG_TYPE_WILL_TOPIC_REQ,
};
use crate::wire::{
    body_of, decode, encode, lemma_parsed_body, msg_type_of, name_at, parse_body, parse_msg_id,
    parse_topic_request, topic_field, u16_at, Msg,
};
use bytes::BytesMut;
use vstd::prelude::*;
use vstd::slice::slice_subrange;
use vstd::utf8::{encode_utf8, encode_utf8_decode_utf8, valid_utf8};

verus! {

#[derive(Debug, Clone, PartialEq)]
pub struct Connect {
    pub len: u8,
    pub msg_type: u8,
    pub flags: u8,
    pub protocol_id: u8,
    pub duration: u16,
    pub client_id: BytesMut,
}

#[derive(Debug, Clone, Copy, PartialEq)]
pub struct ConnAck {
    pub len: u8,
    pub msg_type: u8,
    pub return_code: u8,
}

#[derive(Debug, Clone, PartialEq)]
pub struct WillTopic {
    pub len: u8,
    pub msg_type: u8,
    pub flags: u8,
    pub will_topic: String,
}

#[derive(Debug, Clone, Copy)]
pub struct WillMsgReq {
    pub len: u8,
    pub msg_type: u8,
}

#[derive(Debug, Clone, PartialEq)]
pub struct WillMsg {
    pub len: u8,
    pub msg_type: u8,
    pub will_msg: BytesMut,
}

#[derive(Debug, Clone, PartialEq, Hash, Eq)]
pub struct Publish {
    /// First octet of the frame: its length, or 1 where the length takes
    /// three octets.
    pub len: u8,
    pub msg_type: u8,
    pub flags: u8,
    pub topic_id: u16,
    pub msg_id: u16,
    pub data: BytesMut,
}

/// A publication as a subscriber is handed it.
#[derive(Debug, Clone)]
pub struct PublishRecv {
    pub topic_id: u16,
    pub msg_id: u16,
    pub data: String,
}

impl Default for PublishRecv {
    fn default() -> (r: PublishRecv)
        ensures
            r.topic_id == 0,
            r.msg_id == 0,
            r.data@ == Seq::<char>::empty(),
    {
        PublishRecv { topic_id: 0, msg_id: 0, data: String::new() }
    }
}

#[derive(Debug, Clone, Copy, PartialEq)]
pub struct PubAck {
    pub len: u8,
    pub msg_type: u8,
    pub topic_id: u16,
    pub msg_id: u16,
    pub return_code: u8,
}

#[derive(Debug, Clone, Copy, PartialEq)]
pub struct PubRec {
    pub len: u8,
    pub msg_type: u8,
    pub msg_id: u16,
}

#[derive(Debug, Clone, Copy, PartialEq)]
pub struct PubRel {
    pub len: u8,
    pub msg_type: u8,
    pub msg_id: u16,
}

#[derive(Debug, Clone, Copy, PartialEq)]
pub struct PubComp {
    pub len: u8,
    pub msg_type: u8,
    pub msg_id: u16,
}

#[derive(Debug, Clone, PartialEq)]
pub struct Subscribe {
    pub len: u8,
    pub msg_type: u8,
    pub flags: u8,
    pub msg_id: u16,
    /// The topic, where the flags do not say "pre-defined".
    pub topic_name: String,
    /// The topic, where the flags say "pre-defined".
    pub topic_id: u16,
}

#[derive(Debug, Clone, Copy, PartialEq)]
pub struct SubAck {
    pub len: u8,
    pub msg_type: u8,
    pub flags: u8,
    pub topic_id: u16,
    pub msg_id: u16,
    pub return_code: u8,
}

#[derive(Debug, Clone, PartialEq)]
pub struct PingReq {
    pub len: u8,
    pub msg_type: u8,
    pub client_id: BytesMut,
}

#[derive(Debug, Clone, Copy)]
pub struct Disconnect {
    pub len: u8,
    pub msg_type: u8,
}

#[derive(Debug, Clone, Copy)]
pub struct DisconnWithDuration {
    pub len: u8,
    pub msg_type: u8,
    pub duration: u16,
}

/// A message of any kind.
#[derive(Debug, Clone)]
pub enum MessageTypeEnum {
    Advertise { gw_id: u8, duration: u16 },
    SearchGw { radius: u8 },
    GwInfo { gw_id: u8, gw_add: BytesMut },
    Connect(Connect),
    ConnAct(ConnAck),
    WillTopicReq,
    WillTopic(WillTopic),
    WillMsgReq(WillMsgReq),
    WillMsg(WillMsg),
    Register { topic_id: u16, msg_id: u16, topic_name: String },
    RegAck { topic_id: u16, msg_id: u16, return_code: u8 },
    Publish(Publish),
    PubAck(PubAck),
    PubComp(PubComp),
    PubRec(PubRec),
    PubRel(PubRel),
    Subscribe(Subscribe),
    SubAck(SubAck),
    Unsubscribe { flags: u8, msg_id: u16, topic_name: String, topic_id: u16 },
    UnsubAck { msg_id: u16 },
    PingReq(PingReq),
    PingResp,
    Disconnect(Disconnect),
    DisconnWithDuration(DisconnWithDuration),
}

impl View for Connect {
    type V = Msg;

    open spec fn view(&self) -> Msg {
        Msg::Connect {
            flags: self.flags,
            protocol_id: self.protocol_id,
            duration: self.duration,
            client_id: buf_bytes(self.client_id),
        }
    }
}

impl View for ConnAck {
    type V = Msg;

    open spec fn view(&self) -> Msg {
        Msg::ConnAck { return_code: self.return_code }
    }
}

impl View for WillTopic {
    type V = Msg;

    open spec fn view(&self) -> Msg {
        Msg::WillTopic { flags: self.flags, will_topic: self.will_topic@ }
    }
}

impl View for WillMsgReq {
    type V = Msg;

    open spec fn view(&self) -> Msg {
        Msg::WillMsgReq
    }
}

impl View for WillMsg {
    type V = Msg;

    open spec fn view(&self) -> Msg {
        Msg::WillMsg { will_msg: buf_bytes(self.will_msg) }
    }
}

impl View for Publish {
    type V = Msg;

    open spec fn view(&self) -> Msg {
        Msg::Publish {
            flags: self.flags,
            topic_id: self.topic_id,
            msg_id: self.msg_id,
            data: buf_bytes(self.data),
        }
    }
}

impl View for PubAck {
    type V = Msg;

    open spec fn view(&self) -> Msg {
        Msg::PubAck { topic_id: self.topic_id, msg_id: self.msg_id, return_code: self.return_code }
    }
}

impl View for PubRec {
    type V = Msg;

    open spec fn view(&self) -> Msg {
        Msg::PubRec { msg_id: self.msg_id }
    }
}

impl View for PubRel {
    type V = Msg;

    open spec fn view(&self) -> Msg {
        Msg::PubRel { msg_id: self.msg_id }
    }
}

impl View for PubComp {
    type V = Msg;

    open spec fn view(&self) -> Msg {
        Msg::PubComp { msg_id: self.msg_id }
    }
}

impl View for Subscribe {
    type V = Msg;

    open spec fn view(&self) -> Msg {
        Msg::Subscribe {
            flags: self.flags,
            msg_id: self.msg_id,
            topic_name: self.topic_name@,
            topic_id: self.topic_id,
        }
    }
}

impl View for SubAck {
    type V = Msg;

    open spec fn view(&self) -> Msg {
        Msg::SubAck {
            flags: self.flags,
            topic_id: self.topic_id,
            msg_id: self.msg_id,
            return_code: self.return_code,
        }
    }
}

impl View for PingReq {
    type V = Msg;

    open spec fn view(&self) -> Msg {
        Msg::PingReq { client_id: buf_bytes(self.client_id) }
    }
}

impl View for Disconnect {
    type V = Msg;

    open spec fn view(&self) -> Msg {
        Msg::Disconnect
    }
}

impl View for DisconnWithDuration {
    type V = Msg;

    open spec fn view(&self) -> Msg {
        Msg::DisconnWithDuration { duration: self.duration }
    }
}

impl View for MessageTypeEnum {
    type V = Msg;

    open spec fn view(&self) -> Msg {
        match *self {
            MessageTypeEnum::Advertise { gw_id, duration } => Msg::Advertise { gw_id, duration },
            MessageTypeEnum::SearchGw { radius } => Msg::SearchGw { radius },
            MessageTypeEnum::GwInfo { gw_id, gw_add } => Msg::GwInfo {
                gw_id,
                gw_add: buf_bytes(gw_add),
            },
            MessageTypeEnum::Connect(m) => m@,
            MessageTypeEnum::ConnAct(m) => m@,
            MessageTypeEnum::WillTopicReq => Msg::WillTopicReq,
            MessageTypeEnum::WillTopic(m) => m@,
            MessageTypeEnum::WillMsgReq(m) => m@,
            MessageTypeEnum::WillMsg(m) => m@,
            MessageTypeEnum::Register { topic_id, msg_id, topic_name } => Msg::Register {
                topic_id,
                msg_id,
                topic_name: topic_name@,
            },
            MessageTypeEnum::RegAck { topic_id, msg_id, return_code } => Msg::RegAck {
                topic_id,
                msg_id,
                return_code,
            },
            MessageTypeEnum::Publish(m) => m@,
            MessageTypeEnum::PubAck(m) => m@,
            MessageTypeEnum::PubComp(m) => m@,
            MessageTypeEnum::PubRec(m) => m@,
            MessageTypeEnum::PubRel(m) => m@,
            MessageTypeEnum::Subscribe(m) => m@,
            MessageTypeEnum::SubAck(m) => m@,
            MessageTypeEnum::Unsubscribe { flags, msg_id, topic_name, topic_id } => Msg::Unsubscribe {
                flags,
                msg_id,
                topic_name: topic_name@,
                topic_id,
            },
            MessageTypeEnum::UnsubAck { msg_id } => Msg::UnsubAck { msg_id },
            MessageTypeEnum::PingReq(m) => m@,
            MessageTypeEnum::PingResp => Msg::PingResp,
            MessageTypeEnum::Disconnect(m) => m@,
            MessageTypeEnum::DisconnWithDuration(m) => m@,
        }
    }
}

/// The `len` and `msg_type` that a struct must hold to mirror the frame of
/// the message `m`.
pub open spec fn mirrors(len: u8, msg_type: u8, m: Msg) -> bool {
    &&& len == first_octet(body_of(m).len())
    &&& msg_type == msg_type_of(m)
}

impl MessageTypeEnum {
    /// Whether the `len` and `msg_type` of the struct inside, where there is
    /// one, mirror the frame.
    pub open spec fn wf(&self) -> bool {
        match *self {
            MessageTypeEnum::Connect(m) => mirrors(m.len, m.msg_type, m@),
            MessageTypeEnum::ConnAct(m) => mirrors(m.len, m.msg_type, m@),
            MessageTypeEnum::WillTopic(m) => mirrors(m.len, m.msg_type, m@),
            MessageTypeEnum::WillMsgReq(m) => mirrors(m.len, m.msg_type, m@),
            MessageTypeEnum::WillMsg(m) => mirrors(m.len, m.msg_type, m@),
            MessageTypeEnum::Publish(m) => mirrors(m.len, m.msg_type, m@),
            MessageTypeEnum::PubAck(m) => mirrors(m.len, m.msg_type, m@),
            MessageTypeEnum::PubComp(m) => mirrors(m.len, m.msg_type, m@),
            MessageTypeEnum::PubRec(m) => mirrors(m.len, m.msg_type, m@),
            MessageTypeEnum::PubRel(m) => mirrors(m.len, m.msg_type, m@),
            MessageTypeEnum::Subscribe(m) => mirrors(m.len, m.msg_type, m@),
            MessageTypeEnum::SubAck(m) => mirrors(m.len, m.msg_type, m@),
            MessageTypeEnum::PingReq(m) => mirrors(m.len, m.msg_type, m@),
            MessageTypeEnum::Disconnect(m) => mirrors(m.len, m.msg_type, m@),
            MessageTypeEnum::DisconnWithDuration(m) => mirrors(m.len, m.msg_type, m@),
            _ => true,
        }
    }
}

/// Appends the octets of `src`.
pub(crate) fn append_bytes(v: &mut Vec<u8>, src: &[u8])
    ensures
        final(v)@ == old(v)@ + src@,
{
    let mut i: usize = 0;
    while i < src.len()
        invariant
            i <= src.len(),
            v@ == old(v)@ + src@.take(i as int),
        decreases src.len() - i,
    {
        v.push(src[i]);
        assert(v@ =~= old(v)@ + src@.take(i + 1));
        i += 1;
    }
    assert(src@.take(src@.len() as int) =~= src@);
}

/// Appends a number as two octets, high octet first.
pub(crate) fn append_u16(v: &mut Vec<u8>, x: u16)
    ensures
        final(v)@ == old(v)@ + be16(x),
{
    v.push((x / 256) as u8);
    v.push((x % 256) as u8);
    assert(v@ =~= old(v)@ + be16(x));
}

/// Appends a name as UTF-8.
pub(crate) fn append_name(v: &mut Vec<u8>, name: &String)
    ensures
        final(v)@ == old(v)@ + encode_utf8(name@),
{
    append_bytes(v, name.as_str().as_bytes());
}

/// Appends the topic field of a SUBSCRIBE or UNSUBSCRIBE.
pub(crate) fn append_topic_field(v: &mut Vec<u8>, flags: u8, topic_name: &String, topic_id: u16)
    ensures
        final(v)@ == old(v)@ + topic_field(flags, topic_name@, topic_id),
{
    if flag_topic_id_type(flags) == TOPIC_ID_TYPE_PRE_DEFINED {
        append_u16(v, topic_id);
    } else {
        append_name(v, topic_name);
    }
}

/// The number in the two octets at `i`.
pub(crate) fn read_u16(b: &[u8], i: usize) -> (x: u16)
    requires
        i + 1 < b@.len(),
    ensures
        x == u16_at(b@, i as int),
{
    (b[i] as u16) * 256 + (b[i + 1] as u16)
}

/// A buffer that holds the octets of `b` from `i` on.
pub(crate) fn read_bytes(b: &[u8], i: usize) -> (r: BytesMut)
    requires
        i <= b@.len() <= isize::MAX,
    ensures
        buf_bytes(r) == b@.skip(i as int),
{
    let tail = slice_subrange(b, i, b.len());
    let mut r = buf_with_capacity(tail.len());
    buf_put_slice(&mut r, tail);
    assert(Seq::<u8>::empty() + tail@ =~= b@.skip(i as int));
    r
}

/// `std::str::from_utf8`: the octets as text where they are UTF-8, and no
/// text where they are not. The text's octets are the ones given.
#[verifier::external_body]
pub(crate) fn str_from_utf8<'a>(b: &'a [u8]) -> (r: Option<&'a str>)
    ensures
        r is Some <==> valid_utf8(b@),
        r matches Some(s) ==> encode_utf8(s@) == b@,
{
    match std::str::from_utf8(b) {
        Ok(s) => Some(s),
        Err(_) => None,
    }
}

/// The name that the octets of `b` from `i` on spell.
pub(crate) fn read_name(b: &[u8], i: usize) -> (r: Result<String, DecodeError>)
    requires
        i <= b@.len(),
    ensures
        match r {
            Ok(s) => name_at(b@, i as int) == Ok::<Seq<char>, DecodeError>(s@),
            Err(e) => name_at(b@, i as int) == Err::<Seq<char>, DecodeError>(e),
        },
{
    let tail = slice_subrange(b, i, b.len());
    assert(tail@ =~= b@.skip(i as int));
    match str_from_utf8(tail) {
        Some(s) => {
            proof {
                encode_utf8_decode_utf8(s@);
            }
            Ok(s.to_owned())
        },
        None => Err(DecodeError::BadName),
    }
}

/// The first octet of the frame that carries a body of `body_len` octets.
pub fn first_octet_of(body_len: usize) -> (len: u8)
    ensures
        len == first_octet(body_len as nat),
{
    if body_len <= 253 {
        (body_len + 2) as u8
    } else {
        1
    }
}

impl MessageTypeEnum {
    /// The type octet of the message.
    pub fn msg_type(&self) -> (t: u8)
        ensures
            t == msg_type_of(self@),
    {
        match self {
            MessageTypeEnum::Advertise { .. } => MSG_TYPE_ADVERTISE,
            MessageTypeEnum::SearchGw { .. } => MSG_TYPE_SEARCH_GW,
            MessageTypeEnum::GwInfo { .. } => MSG_TYPE_GW_INFO,
            MessageTypeEnum::Connect(_) => MSG_TYPE_CONNECT,
            MessageTypeEnum::ConnAct(_) => MSG_TYPE_CONNACK,
            MessageTypeEnum::WillTopicReq => MSG_TYPE_WILL_TOPIC_REQ,
            MessageTypeEnum::WillTopic(_) => MSG_TYPE_WILL_TOPIC,
            MessageTypeEnum::WillMsgReq(_) => MSG_TYPE_WILL_MSG_REQ,
            MessageTypeEnum::WillMsg(_) => MSG_TYPE_WILL_MSG,
            MessageTypeEnum::Register { .. } => MSG_TYPE_REGISTER,
            MessageTypeEnum::RegAck { .. } => MSG_TYPE_REGACK,
            MessageTypeEnum::Publish(_) => MSG_TYPE_PUBLISH,
            MessageTypeEnum::PubAck(_) => MSG_TYPE_PUBACK,
            MessageTypeEnum::PubComp(_) => MSG_TYPE_PUBCOMP,
            MessageTypeEnum::PubRec(_) => MSG_TYPE_PUBREC,
            MessageTypeEnum::PubRel(_) => MSG_TYPE_PUBREL,
            MessageTypeEnum::Subscribe(_) => MSG_TYPE_SUBSCRIBE,
            MessageTypeEnum::SubAck(_) => MSG_TYPE_SUBACK,
            MessageTypeEnum::Unsubscribe { .. } => MSG_TYPE_UNSUBSCRIBE,
            MessageTypeEnum::UnsubAck { .. } => MSG_TYPE_UNSUBACK,
            MessageTypeEnum::PingReq(_) => MSG_TYPE_PINGREQ,
            MessageTypeEnum::PingResp => MSG_TYPE_PINGRESP,
            MessageTypeEnum::Disconnect(_) => MSG_TYPE_DISCONNECT,
            MessageTypeEnum::DisconnWithDuration(_) => MSG_TYPE_DISCONNECT,
        }
    }

    /// The octets of the message that follow its type octet.
    #[verifier::rlimit(50)]
    pub fn body_bytes(&self) -> (v: Vec<u8>)
        ensures
            v@ == body_of(self@),
    {
        let mut v: Vec<u8> = Vec::new();
        let ghost e = Seq::<u8>::empty();
        match self {
            MessageTypeEnum::Advertise { gw_id, duration } => {
                v.push(*gw_id);
                append_u16(&mut v, *duration);
                assert(v@ =~= seq![*gw_id] + be16(*duration));
            },
            MessageTypeEnum::SearchGw { radius } => {
                v.push(*radius);
                assert(v@ =~= seq![*radius]);
            },
            MessageTypeEnum::GwInfo { gw_id, gw_add } => {
                v.push(*gw_id);
                append_bytes(&mut v, buf_as_slice(gw_add));
                assert(v@ =~= seq![*gw_id] + buf_bytes(*gw_add));
            },
            MessageTypeEnum::Connect(m) => {
                v.push(m.flags);
                v.push(m.protocol_id);
                append_u16(&mut v, m.duration);
                append_bytes(&mut v, buf_as_slice(&m.client_id));
                assert(v@ =~= seq![m.flags, m.protocol_id] + be16(m.duration) + buf_bytes(
                    m.client_id,
                ));
            },
            MessageTypeEnum::ConnAct(m) => {
                v.push(m.return_code);
                assert(v@ =~= seq![m.return_code]);
            },
            MessageTypeEnum::WillTopicReq => {},
            MessageTypeEnum::WillTopic(m) => {
                v.push(m.flags);
                append_name(&mut v, &m.will_topic);
                assert(v@ =~= seq![m.flags] + encode_utf8(m.will_topic@));
            },
            MessageTypeEnum::WillMsgReq(_) => {},
            MessageTypeEnum::WillMsg(m) => {
                append_bytes(&mut v, buf_as_slice(&m.will_msg));
                assert(v@ =~= buf_bytes(m.will_msg));
            },
            MessageTypeEnum::Register { topic_id, msg_id, topic_name } => {
                append_u16(&mut v, *topic_id);
                append_u16(&mut v, *msg_id);
                append_name(&mut v, topic_name);
                assert(v@ =~= be16(*topic_id) + be16(*msg_id) + encode_utf8(topic_name@));
            },
            MessageTypeEnum::RegAck { topic_id, msg_id, return_code } => {
                append_u16(&mut v, *topic_id);
                append_u16(&mut v, *msg_id);
                v.push(*return_code);
                assert(v@ =~= be16(*topic_id) + be16(*msg_id) + seq![*return_code]);
            },
            MessageTypeEnum::Publish(m) => {
                v.push(m.flags);
                append_u16(&mut v, m.topic_id);
                append_u16(&mut v, m.msg_id);
                append_bytes(&mut v, buf_as_slice(&m.data));
                assert(v@ =~= seq![m.flags] + be16(m.topic_id) + be16(m.msg_id) + buf_bytes(
                    m.data,
                ));
            },
            MessageTypeEnum::PubAck(m) => {
                append_u16(&mut v, m.topic_id);
                append_u16(&mut v, m.msg_id);
                v.push(m.return_code);
                assert(v@ =~= be16(m.topic_id) + be16(m.msg_id) + seq![m.return_code]);
            },
            MessageTypeEnum::PubComp(m) => {
                append_u16(&mut v, m.msg_id);
                assert(v@ =~= be16(m.msg_id));
            },
            MessageTypeEnum::PubRec(m) => {
                append_u16(&mut v, m.msg_id);
                assert(v@ =~= be16(m.msg_id));
            },
            MessageTypeEnum::PubRel(m) => {
                append_u16(&mut v, m.msg_id);
                assert(v@ =~= be16(m.msg_id));
            },
            MessageTypeEnum::Subscribe(m) => {
                v.push(m.flags);
                append_u16(&mut v, m.msg_id);
                append_topic_field(&mut v, m.flags, &m.topic_name, m.topic_id);
                assert(v@ =~= seq![m.flags] + be16(m.msg_id) + topic_field(
                    m.flags,
                    m.topic_name@,
                    m.topic_id,
                ));
            },
            MessageTypeEnum::SubAck(m) => {
                v.push(m.flags);
                append_u16(&mut v, m.topic_id);
                append_u16(&mut v, m.msg_id);
                v.push(m.return_code);
                assert(v@ =~= seq![m.flags] + be16(m.topic_id) + be16(m.msg_id)
                    + seq![m.return_code]);
            },
            MessageTypeEnum::Unsubscribe { flags, msg_id, topic_name, topic_id } => {
                v.push(*flags);
                append_u16(&mut v, *msg_id);
                append_topic_field(&mut v, *flags, topic_name, *topic_id);
                assert(v@ =~= seq![*flags] + be16(*msg_id) + topic_field(
                    *flags,
                    topic_name@,
                    *topic_id,
                ));
            },
            MessageTypeEnum::UnsubAck { msg_id } => {
                append_u16(&mut v, *msg_id);
                assert(v@ =~= be16(*msg_id));
            },
            MessageTypeEnum::PingReq(m) => {
                append_bytes(&mut v, buf_as_slice(&m.client_id));
                assert(v@ =~= buf_bytes(m.client_id));
            },
            MessageTypeEnum::PingResp => {},
            MessageTypeEnum::Disconnect(_) => {},
            MessageTypeEnum::DisconnWithDuration(m) => {
                append_u16(&mut v, m.duration);
                assert(v@ =~= be16(m.duration));
            },
        }
        v
    }

    /// The frame of the message, ready to send, or `FrameTooLong` where it
    /// would pass 65535 octets.
    pub fn encode_frame(&self) -> (r: Result<BytesMut, BrokerError>)
        ensures
            match r {
                Ok(b) => body_fits(body_of(self@).len()) && buf_bytes(b) == encode(self@),
                Err(e) => !body_fits(body_of(self@).len()) && e == BrokerError::FrameTooLong,
            },
    {
        let body = self.body_bytes();
        if body.len() > 65531 {
            return Err(BrokerError::FrameTooLong);
        }
        let header = header_bytes(self.msg_type(), body.len());
        let mut b = buf_with_capacity(header.len() + body.len());
        buf_put_slice(&mut b, header.as_slice());
        buf_put_slice(&mut b, body.as_slice());
        assert(buf_bytes(b) =~= header@ + body@);
        Ok(b)
    }
}

/// Reads a body that holds one message id.
fn read_msg_id(b: &[u8]) -> (r: Result<u16, DecodeError>)
    ensures
        r == parse_msg_id(b@),
{
    if b.len() == 2 {
        Ok(read_u16(b, 0))
    } else {
        Err(DecodeError::TruncatedField)
    }
}

/// Reads the body of a SUBSCRIBE or UNSUBSCRIBE: flags, message id, topic
/// name, topic id.
fn read_topic_request(b: &[u8]) -> (r: Result<(u8, u16, String, u16), DecodeError>)
    ensures
        match r {
            Ok((flags, msg_id, topic_name, topic_id)) => parse_topic_request(b@) == Ok::<
                (u8, u16, Seq<char>, u16),
                DecodeError,
            >((flags, msg_id, topic_name@, topic_id)),
            Err(e) => parse_topic_request(b@) == Err::<(u8, u16, Seq<char>, u16), DecodeError>(e),
        },
{
    if b.len() < 3 {
        return Err(DecodeError::TruncatedField);
    }
    let flags = b[0];
    let msg_id = read_u16(b, 1);
    if flag_topic_id_type(flags) == TOPIC_ID_TYPE_PRE_DEFINED {
        if b.len() == 5 {
            Ok((flags, msg_id, String::new(), read_u16(b, 3)))
        } else {
            Err(DecodeError::TruncatedField)
        }
    } else {
        match read_name(b, 3) {
            Ok(name) => Ok((flags, msg_id, name, 0)),
            Err(e) => Err(e),
        }
    }
}

/// Reads the body of a gateway message (ADVERTISE, SEARCHGW, GWINFO).
#[verifier::rlimit(50)]
fn read_gateway_body(t: u8, b: &[u8]) -> (r: Result<MessageTypeEnum, DecodeError>)
    requires
        b@.len() <= 65535,
        t == MSG_TYPE_ADVERTISE || t == MSG_TYPE_SEARCH_GW || t == MSG_TYPE_GW_INFO,
    ensures
        match r {
            Ok(m) => parse_body(t, b@) == Ok::<Msg, DecodeError>(m@) && m.wf(),
            Err(e) => parse_body(t, b@) == Err::<Msg, DecodeError>(e),
        },
{
    let n = b.len();
    let len = first_octet_of(n);
    let short = Err(DecodeError::TruncatedField);
    if t == MSG_TYPE_ADVERTISE {
        if n == 3 {
            Ok(MessageTypeEnum::Advertise { gw_id: b[0], duration: read_u16(b, 1) })
        } else {
            short
        }
    } else if t == MSG_TYPE_SEARCH_GW {
        if n == 1 {
            Ok(MessageTypeEnum::SearchGw { radius: b[0] })
        } else {
            short
        }
    } else {
        if n >= 1 {
            Ok(MessageTypeEnum::GwInfo { gw_id: b[0], gw_add: read_bytes(b, 1) })
        } else {
            short
        }
    }
}

/// Reads the body of a message of the connection setup (CONNECT, CONNACK,
/// WILLTOPICREQ, WILLTOPIC, WILLMSGREQ, WILLMSG).
#[verifier::rlimit(50)]
fn read_connect_body(t: u8, b: &[u8]) -> (r: Result<MessageTypeEnum, DecodeError>)
    requires
        b@.len() <= 65535,
        t == MSG_TYPE_CONNECT || t == MSG_TYPE_CONNACK || t == MSG_TYPE_WILL_TOPIC_REQ || t
            == MSG_TYPE_WILL_TOPIC || t == MSG_TYPE_WILL_MSG_REQ || t == MSG_TYPE_WILL_MSG,
    ensures
        match r {
            Ok(m) => parse_body(t, b@) == Ok::<Msg, DecodeError>(m@) && m.wf(),
            Err(e) => parse_body(t, b@) == Err::<Msg, DecodeError>(e),
        },
{
    let n = b.len();
    let len = first_octet_of(n);
    let short = Err(DecodeError::TruncatedField);
    if t == MSG_TYPE_CONNECT {
        if n >= 4 {
            let m = Connect {
                len,
                msg_type: t,
                flags: b[0],
                protocol_id: b[1],
                duration: read_u16(b, 2),
                client_id: read_bytes(b, 4),
            };
            proof {
                lemma_parsed_body(t, b@, m@);
            }
            Ok(MessageTypeEnum::Connect(m))
        } else {
            short
        }
    } else if t == MSG_TYPE_CONNACK {
        if n == 1 {
            Ok(MessageTypeEnum::ConnAct(ConnAck { len, msg_type: t, return_code: b[0] }))
        } else {
            short
        }
    } else if t == MSG_TYPE_WILL_TOPIC_REQ {
        if n == 0 {
            Ok(MessageTypeEnum::WillTopicReq)
        } else {
            short
        }
    } else if t == MSG_TYPE_WILL_TOPIC {
        if n >= 1 {
            match read_name(b, 1) {
                Ok(name) => {
                    let m = WillTopic { len, msg_type: t, flags: b[0], will_topic: name };
                    proof {
                        lemma_parsed_body(t, b@, m@);
                    }
                    Ok(MessageTypeEnum::WillTopic(m))
                },
                Err(e) => Err(e),
            }
        } else {
            short
        }
    } else if t == MSG_TYPE_WILL_MSG_REQ {
        if n == 0 {
            Ok(MessageTypeEnum::WillMsgReq(WillMsgReq { len, msg_type: t }))
        } else {
            short
        }
    } else {
        let m = WillMsg { len, msg_type: t, will_msg: read_bytes(b, 0) };
        assert(b@.skip(0) =~= b@);
        Ok(MessageTypeEnum::WillMsg(m))
    }
}

/// Reads the body of a REGISTER or REGACK.
#[verifier::rlimit(50)]
fn read_register_body(t: u8, b: &[u8]) -> (r: Result<MessageTypeEnum, DecodeError>)
    requires
        b@.len() <= 65535,
        t == MSG_TYPE_REGISTER || t == MSG_TYPE_REGACK,
    ensures
        match r {
            Ok(m) => parse_body(t, b@) == Ok::<Msg, DecodeError>(m@) && m.wf(),
            Err(e) => parse_body(t, b@) == Err::<Msg, DecodeError>(e),
        },
{
    let n = b.len();
    let len = first_octet_of(n);
    let short = Err(DecodeError::TruncatedField);
    if t == MSG_TYPE_REGISTER {
        if n >= 4 {
            match read_name(b, 4) {
                Ok(name) => Ok(
                    MessageTypeEnum::Register {
                        topic_id: read_u16(b, 0),
                        msg_id: read_u16(b, 2),
                        topic_name: name,
                    },
                ),
                Err(e) => Err(e),
            }
        } else {
            short
        }
    } else {
        if n == 5 {
            Ok(
                MessageTypeEnum::RegAck {
                    topic_id: read_u16(b, 0),
                    msg_id: read_u16(b, 2),
                    return_code: b[4],
                },
            )
        } else {
            short
        }
    }
}

/// Reads the body of a message of a publication (PUBLISH, PUBACK, PUBCOMP, PUBREC, PUBREL).
#[verifier::rlimit(50)]
fn read_publish_body(t: u8, b: &[u8]) -> (r: Result<MessageTypeEnum, DecodeError>)
    requires
        b@.len() <= 65535,
        t == MSG_TYPE_PUBLISH || t == MSG_TYPE_PUBACK || t == MSG_TYPE_PUBCOMP || t
            == MSG_TYPE_PUBREC || t == MSG_TYPE_PUBREL,
    ensures
        match r {
            Ok(m) => parse_body(t, b@) == Ok::<Msg, DecodeError>(m@) && m.wf(),
            Err(e) => parse_body(t, b@) == Err::<Msg, DecodeError>(e),
        },
{
    let n = b.len();
    let len = first_octet_of(n);
    let short = Err(DecodeError::TruncatedField);
    if t == MSG_TYPE_PUBLISH {
        if n >= 5 {
            let m = Publish {
                len,
                msg_type: t,
                flags: b[0],
                topic_id: read_u16(b, 1),
                msg_id: read_u16(b, 3),
                data: read_bytes(b, 5),
            };
            proof {
                lemma_parsed_body(t, b@, m@);
            }
            Ok(MessageTypeEnum::Publish(m))
        } else {
            short
        }
    } else if t == MSG_TYPE_PUBACK {
        if n == 5 {
            let m = PubAck {
                len,
                msg_type: t,
                topic_id: read_u16(b, 0),
                msg_id: read_u16(b, 2),
                return_code: b[4],
            };
            proof {
                lemma_parsed_body(t, b@, m@);
            }
            Ok(MessageTypeEnum::PubAck(m))
        } else {
            short
        }
    } else if t == MSG_TYPE_PUBCOMP {
        match read_msg_id(b) {
            Ok(msg_id) => {
                proof {
                    lemma_parsed_body(t, b@, Msg::PubComp { msg_id });
                }
                Ok(MessageTypeEnum::PubComp(PubComp { len, msg_type: t, msg_id }))
            },
            Err(e) => Err(e),
        }
    } else if t == MSG_TYPE_PUBREC {
        match read_msg_id(b) {
            Ok(msg_id) => {
                proof {
                    lemma_parsed_body(t, b@, Msg::PubRec { msg_id });
                }
                Ok(MessageTypeEnum::PubRec(PubRec { len, msg_type: t, msg_id }))
            },
            Err(e) => Err(e),
        }
    } else {
        match read_msg_id(b) {
            Ok(msg_id) => {
                proof {
                    lemma_parsed_body(t, b@, Msg::PubRel { msg_id });
                }
                Ok(MessageTypeEnum::PubRel(PubRel { len, msg_type: t, msg_id }))
            },
            Err(e) => Err(e),
        }
    }
}

/// Reads the body of a message of a subscription (SUBSCRIBE, SUBACK, UNSUBSCRIBE, UNSUBACK).
#[verifier::rlimit(50)]
fn read_subscribe_body(t: u8, b: &[u8]) -> (r: Result<MessageTypeEnum, DecodeError>)
    requires
        b@.len() <= 65535,
        t == MSG_TYPE_SUBSCRIBE || t == MSG_TYPE_SUBACK || t == MSG_TYPE_UNSUBSCRIBE || t
            == MSG_TYPE_UNSUBACK,
    ensures
        match r {
            Ok(m) => parse_body(t, b@) == Ok::<Msg, DecodeError>(m@) && m.wf(),
            Err(e) => parse_body(t, b@) == Err::<Msg, DecodeError>(e),
        },
{
    let n = b.len();
    let len = first_octet_of(n);
    let short = Err(DecodeError::TruncatedField);
    if t == MSG_TYPE_SUBSCRIBE {
        match read_topic_request(b) {
            Ok((flags, msg_id, topic_name, topic_id)) => {
                let m = Subscribe { len, msg_type: t, flags, msg_id, topic_name, topic_id };
                proof {
                    lemma_parsed_body(t, b@, m@);
                }
                Ok(MessageTypeEnum::Subscribe(m))
            },
            Err(e) => Err(e),
        }
    } else if t == MSG_TYPE_SUBACK {
        if n == 6 {
            let m = SubAck {
                len,
                msg_type: t,
                flags: b[0],
                topic_id: read_u16(b, 1),
                msg_id: read_u16(b, 3),
                return_code: b[5],
            };
            proof {
                lemma_parsed_body(t, b@, m@);
            }
            Ok(MessageTypeEnum::SubAck(m))
        } else {
            short
        }
    } else if t == MSG_TYPE_UNSUBSCRIBE {
        match read_topic_request(b) {
            Ok((flags, msg_id, topic_name, topic_id)) => Ok(
                MessageTypeEnum::Unsubscribe { flags, msg_id, topic_name, topic_id },
            ),
            Err(e) => Err(e),
        }
    } else {
        match read_msg_id(b) {
            Ok(msg_id) => Ok(MessageTypeEnum::UnsubAck { msg_id }),
            Err(e) => Err(e),
        }
    }
}

/// Reads the body of a PINGREQ, PINGRESP or DISCONNECT.
#[verifier::rlimit(50)]
fn read_session_body(t: u8, b: &[u8]) -> (r: Result<MessageTypeEnum, DecodeError>)
    requires
        b@.len() <= 65535,
        t == MSG_TYPE_PINGREQ || t == MSG_TYPE_PINGRESP || t == MSG_TYPE_DISCONNECT,
    ensures
        match r {
            Ok(m) => parse_body(t, b@) == Ok::<Msg, DecodeError>(m@) && m.wf(),
            Err(e) => parse_body(t, b@) == Err::<Msg, DecodeError>(e),
        },
{
    let n = b.len();
    let len = first_octet_of(n);
    let short = Err(DecodeError::TruncatedField);
    if t == MSG_TYPE_PINGREQ {
        let m = PingReq { len, msg_type: t, client_id: read_bytes(b, 0) };
        assert(b@.skip(0) =~= b@);
        Ok(MessageTypeEnum::PingReq(m))
    } else if t == MSG_TYPE_PINGRESP {
        if n == 0 {
            Ok(MessageTypeEnum::PingResp)
        } else {
            short
        }
    } else {
        if n == 0 {
            Ok(MessageTypeEnum::Disconnect(Disconnect { len, msg_type: t }))
        } else if n == 2 {
            let m = DisconnWithDuration { len, msg_type: t, duration: read_u16(b, 0) };
            proof {
                lemma_parsed_body(t, b@, m@);
            }
            Ok(MessageTypeEnum::DisconnWithDuration(m))
        } else {
            short
        }
    }
}

/// Reads a body as the body of a message of type `t`.
pub(crate) fn read_body(t: u8, b: &[u8]) -> (r: Result<MessageTypeEnum, DecodeError>)
    requires
        b@.len() <= 65535,
    ensures
        match r {
            Ok(m) => parse_body(t, b@) == Ok::<Msg, DecodeError>(m@) && m.wf(),
            Err(e) => parse_body(t, b@) == Err::<Msg, DecodeError>(e),
        },
{
    if t == MSG_TYPE_ADVERTISE || t == MSG_TYPE_SEARCH_GW || t == MSG_TYPE_GW_INFO {
        read_gateway_body(t, b)
    } else if t == MSG_TYPE_CONNECT || t == MSG_TYPE_CONNACK || t == MSG_TYPE_WILL_TOPIC_REQ || t
        == MSG_TYPE_WILL_TOPIC || t == MSG_TYPE_WILL_MSG_REQ || t == MSG_TYPE_WILL_MSG {
        read_connect_body(t, b)
    } else if t == MSG_TYPE_REGISTER || t == MSG_TYPE_REGACK {
        read_register_body(t, b)
    } else if t == MSG_TYPE_PUBLISH || t == MSG_TYPE_PUBACK || t == MSG_TYPE_PUBCOMP || t
        == MSG_TYPE_PUBREC || t == MSG_TYPE_PUBREL {
        read_publish_body(t, b)
    } else if t == MSG_TYPE_SUBSCRIBE || t == MSG_TYPE_SUBACK || t == MSG_TYPE_UNSUBSCRIBE || t
        == MSG_TYPE_UNSUBACK {
        read_subscribe_body(t, b)
    } else if t == MSG_TYPE_PINGREQ || t == MSG_TYPE_PINGRESP || t == MSG_TYPE_DISCONNECT {
        read_session_body(t, b)
    } else {
        Err(DecodeError::BadType)
    }
}

impl MessageTypeEnum {
    /// Reads the frame that fills the first `size` octets of `buf`. A size
    /// above the buffer's is a length mismatch.
    pub fn decode_frame(buf: &[u8], size: usize) -> (r: Result<MessageTypeEnum, DecodeError>)
        ensures
            size > buf@.len() ==> r is Err && r->Err_0 == DecodeError::LenMismatch,
            size <= buf@.len() ==> match r {
                Ok(m) => decode(buf@.take(size as int)) == Ok::<Msg, DecodeError>(m@) && m.wf(),
                Err(e) => decode(buf@.take(size as int)) == Err::<Msg, DecodeError>(e),
            },
    {
        if size > buf.len() {
            return Err(DecodeError::LenMismatch);
        }
        let frame = slice_subrange(buf, 0, size);
        assert(frame@ =~= buf@.take(size as int));
        match decode_header(frame) {
            Ok((t, offset, n)) => {
                let body = slice_subrange(frame, offset, n);
                assert(body@ =~= frame@.skip(offset as int));
                read_body(t, body)
            },
            Err(e) => Err(e),
        }
    }
}

/// What a datagram says to a reader that wants one kind of message: the
/// message, where the datagram decodes to one of that kind; `BadType`,
/// where it decodes to another.
pub open spec fn read_as(buf: Seq<u8>, size: usize, wanted: spec_fn(Msg) -> bool) -> Result<
    Msg,
    DecodeError,
> {
    if size > buf.len() {
        Err(DecodeError::LenMismatch)
    } else {
        match decode(buf.take(size as int)) {
            Ok(m) => if wanted(m) {
                Ok(m)
            } else {
                Err(DecodeError::BadType)
            },
            Err(e) => Err(e),
        }
    }
}

impl Connect {
    /// Whether a message is a CONNECT.
    pub open spec fn wanted(m: Msg) -> bool {
        m is Connect
    }

    /// Reads the frame that fills the first `size` octets of `buf` as
    /// a CONNECT.
    pub fn try_read(buf: &[u8], size: usize) -> (r: Result<Connect, DecodeError>)
        ensures
            match r {
                Ok(m) => read_as(buf@, size, |x: Msg| Self::wanted(x)) == Ok::<Msg, DecodeError>(m@)
                    && mirrors(m.len, m.msg_type, m@),
                Err(e) => read_as(buf@, size, |x: Msg| Self::wanted(x)) == Err::<Msg, DecodeError>(
                    e,
                ),
            },
    {
        match MessageTypeEnum::decode_frame(buf, size) {
            Ok(MessageTypeEnum::Connect(m)) => Ok(m),
            Ok(_) => Err(DecodeError::BadType),
            Err(e) => Err(e),
        }
    }
}

impl ConnAck {
    /// Whether a message is a CONNACK.
    pub open spec fn wanted(m: Msg) -> bool {
        m is ConnAck
    }

    /// Reads the frame that fills the first `size` octets of `buf` as
    /// a CONNACK.
    pub fn try_read(buf: &[u8], size: usize) -> (r: Result<ConnAck, DecodeError>)
        ensures
            match r {
                Ok(m) => read_as(buf@, size, |x: Msg| Self::wanted(x)) == Ok::<Msg, DecodeError>(m@)
                    && mirrors(m.len, m.msg_type, m@),
                Err(e) => read_as(buf@, size, |x: Msg| Self::wanted(x)) == Err::<Msg, DecodeError>(
                    e,
                ),
            },
    {
        match MessageTypeEnum::decode_frame(buf, size) {
            Ok(MessageTypeEnum::ConnAct(m)) => Ok(m),
            Ok(_) => Err(DecodeError::BadType),
            Err(e) => Err(e),
        }
    }
}

impl WillTopic {
    /// Whether a message is a WILLTOPIC.
    pub open spec fn wanted(m: Msg) -> bool {
        m is WillTopic
    }

    /// Reads the frame that fills the first `size` octets of `buf` as
    /// a WILLTOPIC.
    pub fn try_read(buf: &[u8], size: usize) -> (r: Result<WillTopic, DecodeError>)
        ensures
            match r {
                Ok(m) => read_as(buf@, size, |x: Msg| Self::wanted(x)) == Ok::<Msg, DecodeError>(m@)
                    && mirrors(m.len, m.msg_type, m@),
                Err(e) => read_as(buf@, size, |x: Msg| Self::wanted(x)) == Err::<Msg, DecodeError>(
                    e,
                ),
            },
    {
        match MessageTypeEnum::decode_frame(buf, size) {
            Ok(MessageTypeEnum::WillTopic(m)) => Ok(m),
            Ok(_) => Err(DecodeError::BadType),
            Err(e) => Err(e),
        }
    }
}

impl WillMsgReq {
    /// Whether a message is a WILLMSGREQ.
    pub open spec fn wanted(m: Msg) -> bool {
        m is WillMsgReq
    }

    /// Reads the frame that fills the first `size` octets of `buf` as
    /// a WILLMSGREQ.
    pub fn try_read(buf: &[u8], size: usize) -> (r: Result<WillMsgReq, DecodeError>)
        ensures
            match r {
                Ok(m) => read_as(buf@, size, |x: Msg| Self::wanted(x)) == Ok::<Msg, DecodeError>(m@)
                    && mirrors(m.len, m.msg_type, m@),
                Err(e) => read_as(buf@, size, |x: Msg| Self::wanted(x)) == Err::<Msg, DecodeError>(
                    e,
                ),
            },
    {
        match MessageTypeEnum::decode_frame(buf, size) {
            Ok(MessageTypeEnum::WillMsgReq(m)) => Ok(m),
            Ok(_) => Err(DecodeError::BadType),
            Err(e) => Err(e),
        }
    }
}

impl WillMsg {
    /// Whether a message is a WILLMSG.
    pub open spec fn wanted(m: Msg) -> bool {
        m is WillMsg
    }

    /// Reads the frame that fills the first `size` octets of `buf` as
    /// a WILLMSG.
    pub fn try_read(buf: &[u8], size: usize) -> (r: Result<WillMsg, DecodeError>)
        ensures
            match r {
                Ok(m) => read_as(buf@, size, |x: Msg| Self::wanted(x)) == Ok::<Msg, DecodeError>(m@)
                    && mirrors(m.len, m.msg_type, m@),
                Err(e) => read_as(buf@, size, |x: Msg| Self::wanted(x)) == Err::<Msg, DecodeError>(
                    e,
                ),
            },
    {
        match MessageTypeEnum::decode_frame(buf, size) {
            Ok(MessageTypeEnum::WillMsg(m)) => Ok(m),
            Ok(_) => Err(DecodeError::BadType),
            Err(e) => Err(e),
        }
    }
}

impl Publish {
    /// Whether a message is a PUBLISH.
    pub open spec fn wanted(m: Msg) -> bool {
        m is Publish
    }

    /// Reads the frame that fills the first `size` octets of `buf` as
    /// a PUBLISH.
    pub fn try_read(buf: &[u8], size: usize) -> (r: Result<Publish, DecodeError>)
        ensures
            match r {
                Ok(m) => read_as(buf@, size, |x: Msg| Self::wanted(x)) == Ok::<Msg, DecodeError>(m@)
                    && mirrors(m.len, m.msg_type, m@),
                Err(e) => read_as(buf@, size, |x: Msg| Self::wanted(x)) == Err::<Msg, DecodeError>(
                    e,
                ),
            },
    {
        match MessageTypeEnum::decode_frame(buf, size) {
            Ok(MessageTypeEnum::Publish(m)) => Ok(m),
            Ok(_) => Err(DecodeError::BadType),
            Err(e) => Err(e),
        }
    }
}

impl PubAck {
    /// Whether a message is a PUBACK.
    pub open spec fn wanted(m: Msg) -> bool {
        m is PubAck
    }

    /// Reads the frame that fills the first `size` octets of `buf` as
    /// a PUBACK.
    pub fn try_read(buf: &[u8], size: usize) -> (r: Result<PubAck, DecodeError>)
        ensures
            match r {
                Ok(m) => read_as(buf@, size, |x: Msg| Self::wanted(x)) == Ok::<Msg, DecodeError>(m@)
                    && mirrors(m.len, m.msg_type, m@),
                Err(e) => read_as(buf@, size, |x: Msg| Self::wanted(x)) == Err::<Msg, DecodeError>(
                    e,
                ),
            },
    {
        match MessageTypeEnum::decode_frame(buf, size) {
            Ok(MessageTypeEnum::PubAck(m)) => Ok(m),
            Ok(_) => Err(DecodeError::BadType),
            Err(e) => Err(e),
        }
    }
}

impl PubRec {
    /// Whether a message is a PUBREC.
    pub open spec fn wanted(m: Msg) -> bool {
        m is PubRec
    }

    /// Reads the frame that fills the first `size` octets of `buf` as
    /// a PUBREC.
    pub fn try_read(buf: &[u8], size: usize) -> (r: Result<PubRec, DecodeError>)
        ensures
            match r {
                Ok(m) => read_as(buf@, size, |x: Msg| Self::wanted(x)) == Ok::<Msg, DecodeError>(m@)
                    && mirrors(m.len, m.msg_type, m@),
                Err(e) => read_as(buf@, size, |x: Msg| Self::wanted(x)) == Err::<Msg, DecodeError>(
                    e,
                ),
            },
    {
        match MessageTypeEnum::decode_frame(buf, size) {
            Ok(MessageTypeEnum::PubRec(m)) => Ok(m),
            Ok(_) => Err(DecodeError::BadType),
            Err(e) => Err(e),
        }
    }
}

impl PubRel {
    /// Whether a message is a PUBREL.
    pub open spec fn wanted(m: Msg) -> bool {
        m is PubRel
    }

    /// Reads the frame that fills the first `size` octets of `buf` as
    /// a PUBREL.
    pub fn try_read(buf: &[u8], size: usize) -> (r: Result<PubRel, DecodeError>)
        ensures
            match r {
                Ok(m) => read_as(buf@, size, |x: Msg| Self::wanted(x)) == Ok::<Msg, DecodeError>(m@)
                    && mirrors(m.len, m.msg_type, m@),
                Err(e) => read_as(buf@, size, |x: Msg| Self::wanted(x)) == Err::<Msg, DecodeError>(
                    e,
                ),
            },
    {
        match MessageTypeEnum::decode_frame(buf, size) {
            Ok(MessageTypeEnum::PubRel(m)) => Ok(m),
            Ok(_) => Err(DecodeError::BadType),
            Err(e) => Err(e),
        }
    }
}

impl PubComp {
    /// Whether a message is a PUBCOMP.
    pub open spec fn wanted(m: Msg) -> bool {
        m is PubComp
    }

    /// Reads the frame that fills the first `size` octets of `buf` as
    /// a PUBCOMP.
    pub fn try_read(buf: &[u8], size: usize) -> (r: Result<PubComp, DecodeError>)
        ensures
            match r {
                Ok(m) => read_as(buf@, size, |x: Msg| Self::wanted(x)) == Ok::<Msg, DecodeError>(m@)
                    && mirrors(m.len, m.msg_type, m@),
                Err(e) => read_as(buf@, size, |x: Msg| Self::wanted(x)) == Err::<Msg, DecodeError>(
                    e,
                ),
            },
    {
        match MessageTypeEnum::decode_frame(buf, size) {
            Ok(MessageTypeEnum::PubComp(m)) => Ok(m),
            Ok(_) => Err(DecodeError::BadType),
            Err(e) => Err(e),
        }
    }
}

impl Subscribe {
    /// Whether a message is a SUBSCRIBE.
    pub open spec fn wanted(m: Msg) -> bool {
        m is Subscribe
    }

    /// Reads the frame that fills the first `size` octets of `buf` as
    /// a SUBSCRIBE.
    pub fn try_read(buf: &[u8], size: usize) -> (r: Result<Subscribe, DecodeError>)
        ensures
            match r {
                Ok(m) => read_as(buf@, size, |x: Msg| Self::wanted(x)) == Ok::<Msg, DecodeError>(m@)
                    && mirrors(m.len, m.msg_type, m@),
                Err(e) => read_as(buf@, size, |x: Msg| Self::wanted(x)) == Err::<Msg, DecodeError>(
                    e,
                ),
            },
    {
        match MessageTypeEnum::decode_frame(buf, size) {
            Ok(MessageTypeEnum::Subscribe(m)) => Ok(m),
            Ok(_) => Err(DecodeError::BadType),
            Err(e) => Err(e),
        }
    }
}

impl SubAck {
    /// Whether a message is a SUBACK.
    pub open spec fn wanted(m: Msg) -> bool {
        m is SubAck
    }

    /// Reads the frame that fills the first `size` octets of `buf` as
    /// a SUBACK.
    pub fn try_read(buf: &[u8], size: usize) -> (r: Result<SubAck, DecodeError>)
        ensures
            match r {
                Ok(m) => read_as(buf@, size, |x: Msg| Self::wanted(x)) == Ok::<Msg, DecodeError>(m@)
                    && mirrors(m.len, m.msg_type, m@),
                Err(e) => read_as(buf@, size, |x: Msg| Self::wanted(x)) == Err::<Msg, DecodeError>(
                    e,
                ),
            },
    {
        match MessageTypeEnum::decode_frame(buf, size) {
            Ok(MessageTypeEnum::SubAck(m)) => Ok(m),
            Ok(_) => Err(DecodeError::BadType),
            Err(e) => Err(e),
        }
    }
}

impl PingReq {
    /// Whether a message is a PINGREQ.
    pub open spec fn wanted(m: Msg) -> bool {
        m is PingReq
    }

    /// Reads the frame that fills the first `size` octets of `buf` as
    /// a PINGREQ.
    pub fn try_read(buf: &[u8], size: usize) -> (r: Result<PingReq, DecodeError>)
        ensures
            match r {
                Ok(m) => read_as(buf@, size, |x: Msg| Self::wanted(x)) == Ok::<Msg, DecodeError>(m@)
                    && mirrors(m.len, m.msg_type, m@),
                Err(e) => read_as(buf@, size, |x: Msg| Self::wanted(x)) == Err::<Msg, DecodeError>(
                    e,
                ),
            },
    {
        match MessageTypeEnum::decode_frame(buf, size) {
            Ok(MessageTypeEnum::PingReq(m)) => Ok(m),
            Ok(_) => Err(DecodeError::BadType),
            Err(e) => Err(e),
        }
    }
}

impl Disconnect {
    /// Whether a message is a DISCONNECT without duration.
    pub open spec fn wanted(m: Msg) -> bool {
        m is Disconnect
    }

    /// Reads the frame that fills the first `size` octets of `buf` as
    /// a DISCONNECT without duration.
    pub fn try_read(buf: &[u8], size: usize) -> (r: Result<Disconnect, DecodeError>)
        ensures
            match r {
                Ok(m) => read_as(buf@, size, |x: Msg| Self::wanted(x)) == Ok::<Msg, DecodeError>(m@)
                    && mirrors(m.len, m.msg_type, m@),
                Err(e) => read_as(buf@, size, |x: Msg| Self::wanted(x)) == Err::<Msg, DecodeError>(
                    e,
                ),
            },
    {
        match MessageTypeEnum::decode_frame(buf, size) {
            Ok(MessageTypeEnum::Disconnect(m)) => Ok(m),
            Ok(_) => Err(DecodeError::BadType),
            Err(e) => Err(e),
        }
    }
}

impl DisconnWithDuration {
    /// Whether a message is a DISCONNECT with a duration.
    pub open spec fn wanted(m: Msg) -> bool {
        m is DisconnWithDuration
    }

    /// Reads the frame that fills the first `size` octets of `buf` as
    /// a DISCONNECT with a duration.
    pub fn try_read(buf: &[u8], size: usize) -> (r: Result<DisconnWithDuration, DecodeError>)
        ensures
            match r {
                Ok(m) => read_as(buf@, size, |x: Msg| Self::wanted(x)) == Ok::<Msg, DecodeError>(m@)
                    && mirrors(m.len, m.msg_type, m@),
                Err(e) => read_as(buf@, size, |x: Msg| Self::wanted(x)) == Err::<Msg, DecodeError>(
                    e,
                ),
            },
    {
        match MessageTypeEnum::decode_frame(buf, size) {
            Ok(MessageTypeEnum::DisconnWithDuration(m)) => Ok(m),
            Ok(_) => Err(DecodeError::BadType),
            Err(e) => Err(e),
        }
    }
}

} // verus!
