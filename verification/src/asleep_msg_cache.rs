//! Publications kept for peers that are asleep: one queue per peer, handed
//! out first in, first out when the peer wakes.
use crate::message::Publish;
use crate::msg_hdr::PeerAddr;
use crate::table::{
    lemma_mapped, lemma_mapped_changes, lemma_position, lemma_without, lookup, mapped, with,
    without, Table,
};
use crate::wire::Msg;
use vstd::prelude::*;

verus! {

/// The queues, in the order in which they were begun.
pub type AsleepTable = Table<PeerAddr, Vec<Publish>>;

/// The publications of a queue as values.
pub open spec fn msgs_of(q: Seq<Publish>) -> Seq<Msg> {
    q.map_values(|p: Publish| p@)
}

/// The queues as values.
pub open spec fn asleep_models(s: Seq<(PeerAddr, Vec<Publish>)>) -> Seq<(PeerAddr, Seq<Msg>)> {
    mapped(s, |q: Vec<Publish>| msgs_of(q@))
}

/// What is kept for a peer, first to last.
pub open spec fn kept_for(asleep: Seq<(PeerAddr, Seq<Msg>)>, addr: PeerAddr) -> Seq<Msg> {
    match lookup(asleep, addr) {
        Some(q) => q,
        None => Seq::empty(),
    }
}

/// The queues after a publication was kept for a peer: it stands behind
/// what was kept for the peer already.
pub open spec fn keep_for(asleep: Seq<(PeerAddr, Seq<Msg>)>, addr: PeerAddr, m: Msg) -> Seq<
    (PeerAddr, Seq<Msg>),
> {
    with(asleep, addr, kept_for(asleep, addr).push(m))
}

pub struct AsleepMsgCache {}

impl AsleepMsgCache {
    /// Keeps a publication for a peer, behind what is kept for it already.
    pub fn insert(asleep: &mut AsleepTable, addr: PeerAddr, publish: Publish)
        requires
            old(asleep).wf(),
        ensures
            final(asleep).wf(),
            asleep_models(final(asleep)@) == keep_for(asleep_models(old(asleep)@), addr, publish@),
    {
        let ghost f = |q: Vec<Publish>| msgs_of(q@);
        proof {
            lemma_without(asleep@, addr);
            lemma_mapped(asleep@, f);
        }
        match asleep.find(&addr) {
            Some(i) => {
                proof {
                    lemma_position(asleep@, i as int);
                }
                let (k, mut q) = asleep.take_at(i);
                let ghost q0 = q@;
                q.push(publish);
                asleep.insert_at(i, k, q);
                proof {
                    assert(asleep@ =~= old(asleep)@.update(i as int, (addr, q)));
                    assert(msgs_of(q@) =~= msgs_of(q0).push(publish@));
                    assert(asleep_models(asleep@) =~= keep_for(
                        asleep_models(old(asleep)@),
                        addr,
                        publish@,
                    ));
                }
            },
            None => {
                let mut q: Vec<Publish> = Vec::new();
                q.push(publish);
                let n = asleep.len();
                asleep.insert_at(n, addr, q);
                proof {
                    assert(asleep@ =~= old(asleep)@.push((addr, q)));
                    assert(msgs_of(q@) =~= Seq::<Msg>::empty().push(publish@));
                    assert(asleep_models(asleep@) =~= keep_for(
                        asleep_models(old(asleep)@),
                        addr,
                        publish@,
                    ));
                }
            },
        }
    }

    /// Takes out what is kept for a peer, first to last.
    pub fn remove(asleep: &mut AsleepTable, addr: &PeerAddr) -> (q: Vec<Publish>)
        requires
            old(asleep).wf(),
        ensures
            final(asleep).wf(),
            final(asleep)@ == without(old(asleep)@, *addr),
            asleep_models(final(asleep)@) == without(asleep_models(old(asleep)@), *addr),
            msgs_of(q@) == kept_for(asleep_models(old(asleep)@), *addr),
    {
        proof {
            lemma_mapped(asleep@, |q: Vec<Publish>| msgs_of(q@));
            lemma_mapped_changes(
                asleep@,
                |q: Vec<Publish>| msgs_of(q@),
                *addr,
                arbitrary(),
                *addr,
            );
        }
        match asleep.take(addr) {
            Some(q) => q,
            None => {
                let q: Vec<Publish> = Vec::new();
                assert(msgs_of(q@) =~= Seq::<Msg>::empty());
                q
            },
        }
    }
}

} // verus!
