//! Publications at QoS 2 that wait for their release: each is kept with the
//! subscribers it will go to, under its publisher and message id.
use crate::biset::Subscriber;
use crate::error::BrokerError;
use crate::message::Publish;
use crate::msg_hdr::PeerAddr;
use crate::table::{
    has_key, lemma_mapped, lemma_mapped_changes, lookup, mapped, without, Table, TableKey,
};
use crate::wire::Msg;
use vstd::prelude::*;

verus! {

/// The publisher and the message id of a publication.
#[derive(Clone, Copy, Debug, PartialEq, Eq, Structural)]
pub struct PubKey {
    pub addr: PeerAddr,
    pub msg_id: u16,
}

impl TableKey for PubKey {
    open spec fn peer_of(&self) -> Option<PeerAddr> {
        Some(self.addr)
    }

    fn same(&self, other: &Self) -> (r: bool) {
        self.addr.same(&other.addr) && self.msg_id
            == other.msg_id
    }

    fn of_peer(&self, addr: &PeerAddr) -> (r: bool) {
        self.addr.same(addr)
    }
}

/// A publication that waits for its release, and the subscribers that it
/// had when it came.
#[derive(Debug)]
pub struct PubMsgCache {
    pub publish: Publish,
    pub subscriber_vec: Vec<Subscriber>,
}

/// A waiting publication, as a value.
pub struct PendingModel {
    pub publish: Msg,
    pub subscribers: Seq<Subscriber>,
}

impl View for PubMsgCache {
    type V = PendingModel;

    open spec fn view(&self) -> PendingModel {
        PendingModel { publish: self.publish@, subscribers: self.subscriber_vec@ }
    }
}

/// The waiting publications as values.
pub open spec fn pending_models(s: Seq<(PubKey, PubMsgCache)>) -> Seq<(PubKey, PendingModel)> {
    mapped(s, |c: PubMsgCache| c@)
}

/// The waiting publications, in the order in which they came.
pub type PendingTable = Table<PubKey, PubMsgCache>;

impl PubMsgCache {
    /// Keeps a publication until its release. A key that waits already is refused.
    pub fn try_insert(pending: &mut PendingTable, key: PubKey, value: PubMsgCache) -> (r: Result<
        (),
        BrokerError,
    >)
        requires
            old(pending).wf(),
        ensures
            final(pending).wf(),
            match r {
                Ok(_) => !has_key(pending_models(old(pending)@), key) && pending_models(
                    final(pending)@,
                ) == pending_models(old(pending)@).push((key, value@)),
                Err(e) => e == BrokerError::AlreadyPending && has_key(
                    pending_models(old(pending)@),
                    key,
                ) && final(pending)@ == old(pending)@,
            },
    {
        proof {
            lemma_mapped(pending@, |c: PubMsgCache| c@);
            lemma_mapped_changes(pending@, |c: PubMsgCache| c@, key, value, arbitrary());
        }
        if pending.find(&key).is_some() {
            return Err(BrokerError::AlreadyPending);
        }
        let n = pending.len();
        pending.insert_at(n, key, value);
        assert(pending@ =~= old(pending)@.push((key, value)));
        Ok(())
    }

    /// Takes a waiting publication out.
    pub fn remove(pending: &mut PendingTable, key: &PubKey) -> (r: Result<PubMsgCache, BrokerError>)
        requires
            old(pending).wf(),
        ensures
            final(pending).wf(),
            pending_models(final(pending)@) == without(pending_models(old(pending)@), *key),
            match r {
                Ok(c) => lookup(pending_models(old(pending)@), *key) == Some(c@),
                Err(e) => e == BrokerError::NotPending && !has_key(
                    pending_models(old(pending)@),
                    *key,
                ),
            },
    {
        proof {
            lemma_mapped(pending@, |c: PubMsgCache| c@);
            lemma_mapped_changes(pending@, |c: PubMsgCache| c@, *key, arbitrary(), arbitrary());
        }
        match pending.take(key) {
            Some(c) => Ok(c),
            None => Err(BrokerError::NotPending),
        }
    }
}

} // verus!
