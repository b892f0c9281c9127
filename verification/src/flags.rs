//! The flags octet of CONNECT, WILLTOPIC, PUBLISH, SUBSCRIBE and SUBACK.
//!
//! Bits 7 to 0: DUP (1), QoS (2), RETAIN (1), WILL (1), CLEAN_SESSION (1),
//! TOPIC_ID_TYPE (2). Each constant is the value of its field in place, so a
//! flags octet is the bitwise or of one constant per field.
use vstd::prelude::*;

verus! {

pub type DupConst = u8;

pub type QoSConst = u8;

pub type RetainConst = u8;

pub type WillConst = u8;

pub type CleanSessionConst = u8;

pub type TopicIdTypeConst = u8;

pub const DUP_FALSE: DupConst = 0b0000_0000;

pub const DUP_TRUE: DupConst = 0b1000_0000;

pub const QOS_LEVEL_0: QoSConst = 0b0000_0000;

pub const QOS_LEVEL_1: QoSConst = 0b0010_0000;

pub const QOS_LEVEL_2: QoSConst = 0b0100_0000;

/// Publishing without a session.
pub const QOS_LEVEL_3: QoSConst = 0b0110_0000;

pub const RETAIN_FALSE: RetainConst = 0b0000_0000;

pub const RETAIN_TRUE: RetainConst = 0b0001_0000;

pub const WILL_FALSE: WillConst = 0b0000_0000;

pub const WILL_TRUE: WillConst = 0b0000_1000;

pub const CLEAN_SESSION_FALSE: CleanSessionConst = 0b0000_0000;

pub const CLEAN_SESSION_TRUE: CleanSessionConst = 0b0000_0100;

/// The topic is given by name.
pub const TOPIC_ID_TYPE_NORMAL: TopicIdTypeConst = 0b0000_0000;

/// The topic is given by a numeric id that both sides know beforehand.
pub const TOPIC_ID_TYPE_PRE_DEFINED: TopicIdTypeConst = 0b0000_0001;

/// The topic is given by a name of two characters.
pub const TOPIC_ID_TYPE_SHORT: TopicIdTypeConst = 0b0000_0010;

pub const TOPIC_ID_TYPE_RESERVED: TopicIdTypeConst = 0b0000_0011;

pub const DUP_MASK: u8 = 0b1000_0000;

pub const QOS_MASK: u8 = 0b0110_0000;

pub const RETAIN_MASK: u8 = 0b0001_0000;

pub const WILL_MASK: u8 = 0b0000_1000;

pub const CLEAN_SESSION_MASK: u8 = 0b0000_0100;

pub const TOPIC_ID_TYPE_MASK: u8 = 0b0000_0011;

/// The flags octet whose fields are the given values, each cut to its own bits.
pub open spec fn flags_of(
    dup: u8,
    qos: u8,
    retain: u8,
    will: u8,
    clean_session: u8,
    topic_id_type: u8,
) -> u8 {
    (dup & DUP_MASK) | (qos & QOS_MASK) | (retain & RETAIN_MASK) | (will & WILL_MASK) | (
    clean_session & CLEAN_SESSION_MASK) | (topic_id_type & TOPIC_ID_TYPE_MASK)
}

/// The QoS field of a flags octet, in place: one of the four `QOS_LEVEL_*`.
pub open spec fn qos_of(flags: u8) -> u8 {
    flags & QOS_MASK
}

/// The topic id type field of a flags octet: one of the four `TOPIC_ID_TYPE_*`.
pub open spec fn topic_id_type_of(flags: u8) -> u8 {
    flags & TOPIC_ID_TYPE_MASK
}

/// Packs the six fields into a flags octet.
pub fn flags_set(
    dup: DupConst,
    qos: QoSConst,
    retain: RetainConst,
    will: WillConst,
    clean_session: CleanSessionConst,
    topic_id_type: TopicIdTypeConst,
) -> (flags: u8)
    ensures
        flags == flags_of(dup, qos, retain, will, clean_session, topic_id_type),
{
    (dup & DUP_MASK) | (qos & QOS_MASK) | (retain & RETAIN_MASK) | (will & WILL_MASK) | (
    clean_session & CLEAN_SESSION_MASK) | (topic_id_type & TOPIC_ID_TYPE_MASK)
}

pub fn flag_is_dup(flags: u8) -> (r: bool)
    ensures
        r == (flags & DUP_MASK == DUP_TRUE),
{
    flags & DUP_MASK == DUP_TRUE
}

/// The QoS level of a flags octet.
pub fn flag_qos_level(flags: u8) -> (qos: QoSConst)
    ensures
        qos == qos_of(flags),
        qos == QOS_LEVEL_0 || qos == QOS_LEVEL_1 || qos == QOS_LEVEL_2 || qos == QOS_LEVEL_3,
{
    let qos = flags & QOS_MASK;
    assert(qos == 0b0000_0000u8 || qos == 0b0010_0000u8 || qos == 0b0100_0000u8 || qos
        == 0b0110_0000u8) by (bit_vector)
        requires
            qos == flags & 0b0110_0000u8,
    ;
    qos
}

pub fn flag_is_retain(flags: u8) -> (r: bool)
    ensures
        r == (flags & RETAIN_MASK == RETAIN_TRUE),
{
    flags & RETAIN_MASK == RETAIN_TRUE
}

pub fn flag_is_will(flags: u8) -> (r: bool)
    ensures
        r == (flags & WILL_MASK == WILL_TRUE),
{
    flags & WILL_MASK == WILL_TRUE
}

pub fn flag_is_clean_session(flags: u8) -> (r: bool)
    ensures
        r == (flags & CLEAN_SESSION_MASK == CLEAN_SESSION_TRUE),
{
    flags & CLEAN_SESSION_MASK == CLEAN_SESSION_TRUE
}

/// The topic id type of a flags octet.
pub fn flag_topic_id_type(flags: u8) -> (t: TopicIdTypeConst)
    ensures
        t == topic_id_type_of(flags),
        t == TOPIC_ID_TYPE_NORMAL || t == TOPIC_ID_TYPE_PRE_DEFINED || t == TOPIC_ID_TYPE_SHORT
            || t == TOPIC_ID_TYPE_RESERVED,
{
    let t = flags & TOPIC_ID_TYPE_MASK;
    assert(t == 0u8 || t == 1u8 || t == 2u8 || t == 3u8) by (bit_vector)
        requires
            t == flags & 0b0000_0011u8,
    ;
    t
}

/// Each field read back from a packed octet is the value that was packed,
/// cut to the field's bits; and packing what is read back gives the octet again.
pub proof fn lemma_flags_round_trip(
    dup: u8,
    qos: u8,
    retain: u8,
    will: u8,
    clean_session: u8,
    topic_id_type: u8,
)
    ensures
        ({
            let f = flags_of(dup, qos, retain, will, clean_session, topic_id_type);
            &&& f & DUP_MASK == dup & DUP_MASK
            &&& qos_of(f) == qos & QOS_MASK
            &&& f & RETAIN_MASK == retain & RETAIN_MASK
            &&& f & WILL_MASK == will & WILL_MASK
            &&& f & CLEAN_SESSION_MASK == clean_session & CLEAN_SESSION_MASK
            &&& topic_id_type_of(f) == topic_id_type & TOPIC_ID_TYPE_MASK
            &&& flags_of(f, f, f, f, f, f) == f
        }),
{
    let f = flags_of(dup, qos, retain, will, clean_session, topic_id_type);
    assert({
        &&& f & 0x80u8 == dup & 0x80u8
        &&& f & 0x60u8 == qos & 0x60u8
        &&& f & 0x10u8 == retain & 0x10u8
        &&& f & 0x08u8 == will & 0x08u8
        &&& f & 0x04u8 == clean_session & 0x04u8
        &&& f & 0x03u8 == topic_id_type & 0x03u8
        &&& (f & 0x80u8) | (f & 0x60u8) | (f & 0x10u8) | (f & 0x08u8) | (f & 0x04u8) | (f
            & 0x03u8) == f
    }) by (bit_vector)
        requires
            f == (dup & 0x80u8) | (qos & 0x60u8) | (retain & 0x10u8) | (will & 0x08u8) | (
            clean_session & 0x04u8) | (topic_id_type & 0x03u8),
    ;
}

} // verus!
