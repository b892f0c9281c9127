//! The frame header: the length field in its two forms, and the type octet.
//!
//! A frame begins with one octet that is its whole length (2 to 255), or with
//! the octet 1 and the length as two octets, high octet first (256 to 65535).
//! The type octet follows.
use crate::error::DecodeError;
use vstd::prelude::*;

verus! {

/// A peer: its socket address as plain values. An IPv4 address stands in
/// the low 32 bits of `ip`; an IPv6 address fills `ip` and comes with its
/// flow information and its scope id, which are 0 for an IPv4 address.
#[derive(Clone, Copy, Debug, PartialEq, Eq, Hash, Structural)]
pub struct PeerAddr {
    /// Whether the address is an IPv6 address.
    pub v6: bool,
    pub ip: u128,
    pub port: u16,
    pub flowinfo: u32,
    pub scope_id: u32,
}

impl PeerAddr {
    /// The peer at an IPv4 address and a port.
    pub fn ipv4(ip: u32, port: u16) -> (p: PeerAddr)
        ensures
            p == (PeerAddr { v6: false, ip: ip as u128, port, flowinfo: 0, scope_id: 0 }),
    {
        PeerAddr { v6: false, ip: ip as u128, port, flowinfo: 0, scope_id: 0 }
    }

    /// The peer at an IPv6 address and a port.
    pub fn ipv6(ip: u128, port: u16, flowinfo: u32, scope_id: u32) -> (p: PeerAddr)
        ensures
            p == (PeerAddr { v6: true, ip, port, flowinfo, scope_id }),
    {
        PeerAddr { v6: true, ip, port, flowinfo, scope_id }
    }
}

pub type MsgTypeConst = u8;

pub const MSG_TYPE_ADVERTISE: MsgTypeConst = 0x00;

pub const MSG_TYPE_SEARCH_GW: MsgTypeConst = 0x01;

pub const MSG_TYPE_GW_INFO: MsgTypeConst = 0x02;

pub const MSG_TYPE_CONNECT: MsgTypeConst = 0x04;

pub const MSG_TYPE_CONNACK: MsgTypeConst = 0x05;

pub const MSG_TYPE_WILL_TOPIC_REQ: MsgTypeConst = 0x06;

pub const MSG_TYPE_WILL_TOPIC: MsgTypeConst = 0x07;

pub const MSG_TYPE_WILL_MSG_REQ: MsgTypeConst = 0x08;

pub const MSG_TYPE_WILL_MSG: MsgTypeConst = 0x09;

pub const MSG_TYPE_REGISTER: MsgTypeConst = 0x0A;

pub const MSG_TYPE_REGACK: MsgTypeConst = 0x0B;

pub const MSG_TYPE_PUBLISH: MsgTypeConst = 0x0C;

pub const MSG_TYPE_PUBACK: MsgTypeConst = 0x0D;

pub const MSG_TYPE_PUBCOMP: MsgTypeConst = 0x0E;

pub const MSG_TYPE_PUBREC: MsgTypeConst = 0x0F;

pub const MSG_TYPE_PUBREL: MsgTypeConst = 0x10;

pub const MSG_TYPE_SUBSCRIBE: MsgTypeConst = 0x12;

pub const MSG_TYPE_SUBACK: MsgTypeConst = 0x13;

pub const MSG_TYPE_UNSUBSCRIBE: MsgTypeConst = 0x14;

pub const MSG_TYPE_UNSUBACK: MsgTypeConst = 0x15;

pub const MSG_TYPE_PINGREQ: MsgTypeConst = 0x16;

pub const MSG_TYPE_PINGRESP: MsgTypeConst = 0x17;

pub const MSG_TYPE_DISCONNECT: MsgTypeConst = 0x18;

pub type ReturnCodeConst = u8;

pub const RETURN_CODE_ACCEPTED: ReturnCodeConst = 0x00;

pub const RETURN_CODE_CONGESTION: ReturnCodeConst = 0x01;

pub const RETURN_CODE_INVALID_TOPIC_ID: ReturnCodeConst = 0x02;

pub const RETURN_CODE_NOT_SUPPORTED: ReturnCodeConst = 0x03;

/// Lengths of the frames that have one size only.
pub const MSG_LEN_PUBACK: u8 = 7;

pub const MSG_LEN_PUBREC: u8 = 4;

pub const MSG_LEN_PUBREL: u8 = 4;

pub const MSG_LEN_PUBCOMP: u8 = 4;

pub const MSG_LEN_SUBACK: u8 = 8;

pub const MSG_LEN_CONNACK: u8 = 3;

pub const MSG_LEN_DISCONNECT: u8 = 2;

pub const MSG_LEN_DISCONNECT_DURATION: u8 = 4;

pub const MSG_LEN_WILL_TOPIC_REQ: u8 = 2;

pub const MSG_LEN_WILL_MSG_REQ: u8 = 2;

pub const MSG_LEN_PINGRESP: u8 = 2;

/// Length of a short PUBLISH frame without its data.
pub const MSG_LEN_PUBLISH_HEADER: u8 = 7;

/// The longest frame.
pub const MSG_LEN_MAX: usize = 65535;

/// Whether a type octet names one of the messages.
pub open spec fn is_known_type(t: u8) -> bool {
    t <= MSG_TYPE_DISCONNECT && t != 0x03 && t != 0x11
}

pub fn known_type(t: u8) -> (r: bool)
    ensures
        r == is_known_type(t),
{
    t <= MSG_TYPE_DISCONNECT && t != 0x03 && t != 0x11
}

/// Length of the frame that carries a body of `body_len` octets: two octets
/// of header where the sum fits one octet, else four.
pub open spec fn frame_len(body_len: nat) -> nat {
    if body_len + 2 <= 255 {
        body_len + 2
    } else {
        body_len + 4
    }
}

/// The first octet of a frame of the given body length: the frame's length
/// in the short form, 1 in the long form.
pub open spec fn first_octet(body_len: nat) -> u8 {
    if body_len + 2 <= 255 {
        (body_len + 2) as u8
    } else {
        1u8
    }
}

/// High octet, then low octet.
pub open spec fn be16(x: u16) -> Seq<u8> {
    seq![(x / 256) as u8, (x % 256) as u8]
}

/// The number that two octets give, high octet first.
pub open spec fn u16_of(hi: u8, lo: u8) -> u16 {
    (hi * 256 + lo) as u16
}

/// The frame of a message: length field, type octet, body.
pub open spec fn frame_of(msg_type: u8, body: Seq<u8>) -> Seq<u8> {
    if body.len() + 2 <= 255 {
        seq![(body.len() + 2) as u8, msg_type] + body
    } else {
        seq![1u8] + be16((body.len() + 4) as u16) + seq![msg_type] + body
    }
}

/// A body is framed when its frame is no longer than 65535 octets.
pub open spec fn body_fits(body_len: nat) -> bool {
    body_len + 4 <= MSG_LEN_MAX
}

/// What the header of a datagram says: the message type, where the body
/// begins, and the frame's length, which is the datagram's size.
pub open spec fn header_of(b: Seq<u8>) -> Result<(u8, usize, usize), DecodeError> {
    if b.len() < 2 {
        Err(DecodeError::TruncatedField)
    } else if b[0] != 1 {
        if b[0] != b.len() {
            Err(DecodeError::LenMismatch)
        } else if !is_known_type(b[1]) {
            Err(DecodeError::BadType)
        } else {
            Ok((b[1], 2usize, b.len() as usize))
        }
    } else if b.len() < 4 {
        Err(DecodeError::TruncatedField)
    } else if u16_of(b[1], b[2]) != b.len() || b.len() < 256 {
        Err(DecodeError::LenMismatch)
    } else if !is_known_type(b[3]) {
        Err(DecodeError::BadType)
    } else {
        Ok((b[3], 4usize, b.len() as usize))
    }
}

/// Reads the header of a datagram in either form: the message type, the
/// offset of the body, and the length of the frame.
pub fn decode_header(buffer: &[u8]) -> (r: Result<(u8, usize, usize), DecodeError>)
    ensures
        r == header_of(buffer@),
{
    let n = buffer.len();
    if n < 2 {
        return Err(DecodeError::TruncatedField);
    }
    if buffer[0] != 1 {
        if buffer[0] as usize != n {
            Err(DecodeError::LenMismatch)
        } else if !known_type(buffer[1]) {
            Err(DecodeError::BadType)
        } else {
            Ok((buffer[1], 2, n))
        }
    } else if n < 4 {
        Err(DecodeError::TruncatedField)
    } else {
        let declared: usize = buffer[1] as usize * 256 + buffer[2] as usize;
        if declared != n || n < 256 {
            Err(DecodeError::LenMismatch)
        } else if !known_type(buffer[3]) {
            Err(DecodeError::BadType)
        } else {
            Ok((buffer[3], 4, n))
        }
    }
}

/// Which form the length field of a frame has.
#[derive(Clone, Copy, Debug, PartialEq, Eq, Structural)]
pub enum MsgHeaderLenEnum {
    /// One octet.
    Short,
    /// The octet 1, then two octets.
    Long,
}

/// The header of a received frame, and who sent it.
#[derive(Clone, Copy, Debug)]
pub struct MsgHeader {
    /// Length of the whole frame.
    pub len: u16,
    pub header_len: MsgHeaderLenEnum,
    pub msg_type: u8,
    pub remote_socket_addr: PeerAddr,
}

impl MsgHeader {
    /// Offset of the body within the frame.
    pub open spec fn body_offset(self) -> int {
        match self.header_len {
            MsgHeaderLenEnum::Short => 2,
            MsgHeaderLenEnum::Long => 4,
        }
    }

    /// Whether this is the header of the frame `b` that came from `peer`.
    pub open spec fn is_header_of(self, b: Seq<u8>, peer: PeerAddr) -> bool {
        &&& header_of(b) == Ok::<(u8, usize, usize), DecodeError>(
            (self.msg_type, self.body_offset() as usize, self.len as usize),
        )
        &&& self.remote_socket_addr == peer
    }

    /// Reads the header of the frame that fills the first `size` octets of
    /// `buf`. A size above the buffer's is a length mismatch.
    pub fn try_read(buf: &[u8], size: usize, remote_socket_addr: PeerAddr) -> (r: Result<
        MsgHeader,
        DecodeError,
    >)
        ensures
            size > buf@.len() ==> r == Err::<MsgHeader, DecodeError>(DecodeError::LenMismatch),
            size <= buf@.len() ==> match r {
                Ok(h) => h.is_header_of(buf@.take(size as int), remote_socket_addr),
                Err(e) => header_of(buf@.take(size as int)) == Err::<
                    (u8, usize, usize),
                    DecodeError,
                >(e),
            },
    {
        if size > buf.len() {
            return Err(DecodeError::LenMismatch);
        }
        let frame = vstd::slice::slice_subrange(buf, 0, size);
        assert(frame@ =~= buf@.take(size as int));
        match decode_header(frame) {
            Ok((msg_type, offset, len)) => {
                let header_len = if offset == 2 {
                    MsgHeaderLenEnum::Short
                } else {
                    MsgHeaderLenEnum::Long
                };
                Ok(MsgHeader { len: len as u16, header_len, msg_type, remote_socket_addr })
            },
            Err(e) => Err(e),
        }
    }
}

/// The header that stands before a body of `body_len` octets.
pub(crate) fn header_bytes(msg_type: u8, body_len: usize) -> (h: Vec<u8>)
    requires
        body_fits(body_len as nat),
    ensures
        h@.len() <= 4,
        forall|body: Seq<u8>|
            body.len() == body_len ==> #[trigger] frame_of(msg_type, body) == h@ + body,
{
    let mut h: Vec<u8> = Vec::new();
    if body_len + 2 <= 255 {
        h.push((body_len + 2) as u8);
        h.push(msg_type);
        assert forall|body: Seq<u8>| body.len() == body_len implies #[trigger] frame_of(
            msg_type,
            body,
        ) == h@ + body by {
            assert(h@ =~= seq![(body_len + 2) as u8, msg_type]);
        }
    } else {
        let total = body_len + 4;
        h.push(1);
        h.push((total / 256) as u8);
        h.push((total % 256) as u8);
        h.push(msg_type);
        assert forall|body: Seq<u8>| body.len() == body_len implies #[trigger] frame_of(
            msg_type,
            body,
        ) == h@ + body by {
            assert(h@ =~= seq![1u8] + be16(total as u16) + seq![msg_type]);
        }
    }
    h
}

/// A frame of 2 to 255 octets begins with its length in one octet; a longer
/// one, up to 65535 octets, begins with the octet 1 and its length in two
/// octets. The decoder reads both, and finds the type and the body again.
pub proof fn lemma_length_prefix(msg_type: u8, body: Seq<u8>)
    requires
        is_known_type(msg_type),
        body_fits(body.len()),
    ensures
        ({
            let f = frame_of(msg_type, body);
            let short = body.len() + 2 <= 255;
            &&& f.len() == frame_len(body.len())
            &&& f[0] == first_octet(body.len())
            &&& short ==> 2 <= f.len() <= 255 && f[0] == f.len()
            &&& !short ==> 256 <= f.len() <= 65535 && f[0] == 1 && f[1] * 256 + f[2] == f.len()
            &&& header_of(f) == Ok::<(u8, usize, usize), DecodeError>(
                (msg_type, (if short { 2usize } else { 4usize }), f.len() as usize),
            )
            &&& f.skip(if short { 2int } else { 4int }) == body
        }),
{
    let f = frame_of(msg_type, body);
    if body.len() + 2 <= 255 {
        assert(f.skip(2) =~= body);
    } else {
        let total = (body.len() + 4) as u16;
        assert(f.skip(4) =~= body);
        assert(f[1] == (total / 256) as u8);
        assert(f[2] == (total % 256) as u8);
    }
}

} // verus!
