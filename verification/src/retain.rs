//! The retained store: for each topic id the last publication that asked to
//! be retained. A new subscriber of the topic is sent it.
use crate::buf::{buf_bytes, buf_len};
use crate::table::{lemma_mapped, lemma_mapped_changes, lookup, mapped, with, without, Table};
use bytes::BytesMut;
use vstd::prelude::*;

verus! {

/// A retained publication.
#[derive(Debug)]
pub struct Retain {
    pub qos: u8,
    pub topic_id: u16,
    pub msg_id: u16,
    pub payload: BytesMut,
}

/// A retained publication, as a value.
pub struct RetainModel {
    pub qos: u8,
    pub topic_id: u16,
    pub msg_id: u16,
    pub payload: Seq<u8>,
}

impl View for Retain {
    type V = RetainModel;

    open spec fn view(&self) -> RetainModel {
        RetainModel {
            qos: self.qos,
            topic_id: self.topic_id,
            msg_id: self.msg_id,
            payload: buf_bytes(self.payload),
        }
    }
}

/// The retained publications as values.
pub open spec fn retain_models(s: Seq<(u16, Retain)>) -> Seq<(u16, RetainModel)> {
    mapped(s, |r: Retain| r@)
}

/// The retained publications by topic id, in the order in which their
/// topics were first retained.
pub type RetainTable = Table<u16, Retain>;

/// The retained publications after one more asked to be retained: it
/// stands in place of what was retained for its topic; one without payload
/// retains nothing, and clears what was retained.
pub open spec fn retained_with(
    retained: Seq<(u16, RetainModel)>,
    qos: u8,
    topic_id: u16,
    msg_id: u16,
    payload: Seq<u8>,
) -> Seq<(u16, RetainModel)> {
    if payload.len() == 0 {
        without(retained, topic_id)
    } else {
        with(retained, topic_id, RetainModel { qos, topic_id, msg_id, payload })
    }
}

impl Retain {
    /// Retains a publication in place of what is retained for its topic. A
    /// publication without payload retains nothing, and clears what is
    /// retained.
    pub fn insert(
        retained: &mut RetainTable,
        qos: u8,
        topic_id: u16,
        msg_id: u16,
        payload: BytesMut,
    )
        requires
            old(retained).wf(),
        ensures
            final(retained).wf(),
            retain_models(final(retained)@) == retained_with(
                retain_models(old(retained)@),
                qos,
                topic_id,
                msg_id,
                buf_bytes(payload),
            ),
    {
        proof {
            lemma_mapped_changes(
                retained@,
                |r: Retain| r@,
                topic_id,
                Retain { qos, topic_id, msg_id, payload },
                arbitrary(),
            );
        }
        if buf_len(&payload) == 0 {
            let _ = retained.take(&topic_id);
        } else {
            retained.set(topic_id, Retain { qos, topic_id, msg_id, payload });
        }
    }

    /// What is retained for a topic, if anything.
    pub fn get(retained: &RetainTable, topic_id: u16) -> (r: Option<&Retain>)
        requires
            retained.wf(),
        ensures
            match r {
                Some(x) => lookup(retain_models(retained@), topic_id) == Some(x@),
                None => lookup(retain_models(retained@), topic_id) == None::<RetainModel>,
            },
    {
        proof {
            lemma_mapped(retained@, |r: Retain| r@);
        }
        match retained.find(&topic_id) {
            Some(i) => Some(retained.value_at(i)),
            None => None,
        }
    }
}

} // verus!
