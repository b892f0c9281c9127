//! The retransmission time wheel: a ring of slots, one per second, and a
//! hand that moves on by one slot each second.
//!
//! A frame that awaits an acknowledgement lies in the slot in which it is
//! sent again. It is scheduled one slot ahead of the hand; each time it is
//! sent again it moves twice as far ahead as the time before. A frame whose
//! retries are used up leaves the wheel, and its flow has failed.
use crate::buf::buf_bytes;
use crate::egress::Egress;
use crate::error::BrokerError;
use crate::msg_hdr::PeerAddr;
use crate::table::{
    has_key, lemma_mapped, lemma_mapped_changes, lemma_mapped_without_keys,
    lemma_mapped_without_peer, lemma_without_keys, lemma_without_peer, mapped, unique_keys, without,
    without_keys, without_peer, Table, TableKey,
};
use bytes::BytesMut;
use vstd::prelude::*;

verus! {

/// Number of slots of the ring.
pub const RETRANS_WHEEL_SLOTS: usize = 2048;

/// A frame moves at most two to this power slots ahead.
pub const RETRANS_MAX_EXPONENT: u8 = 10;

/// What a waiting frame is found by: the peer, the type of the awaited
/// reply, the topic id and the message id.
#[derive(Clone, Copy, Debug, PartialEq, Eq, Structural)]
pub struct RetransKey {
    pub addr: PeerAddr,
    pub msg_type: u8,
    pub topic_id: u16,
    pub msg_id: u16,
}

impl TableKey for RetransKey {
    open spec fn peer_of(&self) -> Option<PeerAddr> {
        Some(self.addr)
    }

    fn same(&self, other: &Self) -> (r: bool) {
        self.addr.same(&other.addr) && self.msg_type
            == other.msg_type && self.topic_id == other.topic_id && self.msg_id == other.msg_id
    }

    fn of_peer(&self, addr: &PeerAddr) -> (r: bool) {
        self.addr.same(addr)
    }
}

/// A frame that awaits its acknowledgement.
#[derive(Debug)]
pub struct RetransEntry {
    pub frame: BytesMut,
    /// How often the frame may still be sent again.
    pub retries: u8,
    /// How often the frame was sent again.
    pub tried: u8,
    /// The slot in which the frame lies.
    pub slot: usize,
}

/// A waiting frame, as a value.
pub struct RetransModel {
    pub frame: Seq<u8>,
    pub retries: u8,
    pub tried: u8,
    pub slot: usize,
}

impl View for RetransEntry {
    type V = RetransModel;

    open spec fn view(&self) -> RetransModel {
        RetransModel {
            frame: buf_bytes(self.frame),
            retries: self.retries,
            tried: self.tried,
            slot: self.slot,
        }
    }
}

/// Two to the power `k`.
pub open spec fn two_to(k: nat) -> nat
    decreases k,
{
    if k == 0 {
        1
    } else {
        2 * two_to((k - 1) as nat)
    }
}

/// How many slots ahead of the hand a frame lies that was sent again
/// `tried` times: two to the power `tried`, and 1024 at most.
pub open spec fn backoff(tried: u8) -> nat {
    if tried <= RETRANS_MAX_EXPONENT {
        two_to(tried as nat)
    } else {
        two_to(RETRANS_MAX_EXPONENT as nat)
    }
}

/// The slot that lies `ahead` slots after `hand`.
pub open spec fn slot_after(hand: usize, ahead: nat) -> usize {
    ((hand + ahead) % (RETRANS_WHEEL_SLOTS as int)) as usize
}

/// The entry of a frame that was sent again from the slot `hand`.
pub open spec fn sent_again(e: RetransModel, hand: usize) -> RetransModel {
    RetransModel {
        frame: e.frame,
        retries: (e.retries - 1) as u8,
        tried: (e.tried + 1) as u8,
        slot: slot_after(hand, backoff((e.tried + 1) as u8)),
    }
}

/// The entries that lie in the wheel after the hand came to `hand`: those of
/// other slots as they were, those of this slot that have retries left in
/// their new slots, the others gone.
pub open spec fn wheel_kept(s: Seq<(RetransKey, RetransModel)>, hand: usize) -> Seq<
    (RetransKey, RetransModel),
>
    decreases s.len(),
{
    if s.len() == 0 {
        s
    } else {
        let rest = wheel_kept(s.drop_last(), hand);
        let e = s.last();
        if e.1.slot != hand {
            rest.push(e)
        } else if e.1.retries > 0 {
            rest.push((e.0, sent_again(e.1, hand)))
        } else {
            rest
        }
    }
}

/// The frames that are sent again when the hand comes to `hand`, in the
/// order of their entries.
pub open spec fn wheel_sent(s: Seq<(RetransKey, RetransModel)>, hand: usize) -> Seq<
    (PeerAddr, Seq<u8>),
>
    decreases s.len(),
{
    if s.len() == 0 {
        Seq::empty()
    } else {
        let rest = wheel_sent(s.drop_last(), hand);
        let e = s.last();
        if e.1.slot == hand && e.1.retries > 0 {
            rest.push((e.0.addr, e.1.frame))
        } else {
            rest
        }
    }
}

/// The flows that have failed when the hand comes to `hand`: those of the
/// frames of this slot that have no retries left.
pub open spec fn wheel_failed(s: Seq<(RetransKey, RetransModel)>, hand: usize) -> Seq<RetransKey>
    decreases s.len(),
{
    if s.len() == 0 {
        Seq::empty()
    } else {
        let rest = wheel_failed(s.drop_last(), hand);
        let e = s.last();
        if e.1.slot == hand && e.1.retries == 0 {
            rest.push(e.0)
        } else {
            rest
        }
    }
}

/// Whether a key is that of a frame which awaits a peer's reply of a type
/// under a message id, whatever its topic.
pub open spec fn awaits(k: RetransKey, addr: PeerAddr, msg_type: u8, msg_id: u16) -> bool {
    k.addr == addr && k.msg_type == msg_type && k.msg_id == msg_id
}

/// The entries without the frames that await a peer's reply of a type under
/// a message id: a reply that names no topic ends the wait of each of them.
pub open spec fn without_reply(
    s: Seq<(RetransKey, RetransModel)>,
    addr: PeerAddr,
    msg_type: u8,
    msg_id: u16,
) -> Seq<(RetransKey, RetransModel)> {
    without_keys(s, |k: RetransKey| awaits(k, addr, msg_type, msg_id))
}

/// Every entry lies in a slot of the ring, and was not sent more often than
/// a counter can tell.
pub open spec fn entries_in_ring(s: Seq<(RetransKey, RetransModel)>) -> bool {
    forall|i: int|
        0 <= i < s.len() ==> (#[trigger] s[i]).1.slot < RETRANS_WHEEL_SLOTS && s[i].1.retries
            + s[i].1.tried <= 255
}

pub struct RetransTimeWheel {
    entries: Table<RetransKey, RetransEntry>,
    hand: usize,
}

/// Two to the power of `tried`, capped.
fn backoff_of(tried: u8) -> (d: usize)
    ensures
        d == backoff(tried),
        1 <= d <= 1024,
{
    let k = if tried <= RETRANS_MAX_EXPONENT {
        tried
    } else {
        RETRANS_MAX_EXPONENT
    };
    let mut d: usize = 1;
    let mut i: u8 = 0;
    while i < k
        invariant
            i <= k <= 10,
            d == two_to(i as nat),
            1 <= d <= 1024,
            i < 10 ==> d <= 512,
        decreases k - i,
    {
        assert(two_to((i + 1) as nat) == 2 * two_to(i as nat));
        proof {
            lemma_two_to_10();
            if i + 1 < 10 {
                lemma_two_to_mono((i + 1) as nat, 9);
            }
        }
        d = d * 2;
        i += 1;
    }
    d
}

proof fn lemma_two_to_10()
    ensures
        two_to(9) == 512,
        two_to(10) == 1024,
{
    reveal_with_fuel(two_to, 11);
}

proof fn lemma_two_to_mono(a: nat, b: nat)
    requires
        a <= b,
    ensures
        two_to(a) <= two_to(b),
    decreases b,
{
    if a < b {
        lemma_two_to_mono(a, (b - 1) as nat);
    }
}

impl RetransTimeWheel {
    /// The waiting frames, in the order in which they were scheduled.
    pub closed spec fn view(&self) -> Seq<(RetransKey, RetransModel)> {
        mapped(self.entries@, |e: RetransEntry| e@)
    }

    /// The slot at which the hand stands.
    pub closed spec fn hand(&self) -> usize {
        self.hand
    }

    /// No key lies in the wheel twice, the hand and every entry stand within
    /// the ring.
    pub closed spec fn wf(&self) -> bool {
        &&& self.entries.wf()
        &&& self.hand < RETRANS_WHEEL_SLOTS
        &&& entries_in_ring(self@)
    }

    /// What a well-formed wheel is.
    pub proof fn lemma_wf(&self)
        requires
            self.wf(),
        ensures
            unique_keys(self@),
            self.hand() < RETRANS_WHEEL_SLOTS,
            entries_in_ring(self@),
    {
        lemma_mapped(self.entries@, |e: RetransEntry| e@);
    }

    /// An empty wheel with the hand at slot 0.
    pub fn new() -> (w: RetransTimeWheel)
        ensures
            w.wf(),
            w@ == Seq::<(RetransKey, RetransModel)>::empty(),
            w.hand() == 0,
    {
        RetransTimeWheel { entries: Table::new(), hand: 0 }
    }

    /// Whether a frame waits under the key.
    pub fn is_scheduled(&self, key: &RetransKey) -> (r: bool)
        requires
            self.wf(),
        ensures
            r == has_key(self@, *key),
    {
        proof {
            lemma_mapped(self.entries@, |e: RetransEntry| e@);
        }
        self.entries.find(key).is_some()
    }

    /// Puts a frame into the slot after the hand, to be sent again up to
    /// `retries` times unless it is cancelled. A key that is in the wheel is
    /// refused.
    pub fn schedule_timer(
        &mut self,
        addr: PeerAddr,
        msg_type: u8,
        topic_id: u16,
        msg_id: u16,
        retries: u8,
        frame: BytesMut,
    ) -> (r: Result<(), BrokerError>)
        requires
            old(self).wf(),
        ensures
            final(self).wf(),
            final(self).hand() == old(self).hand(),
            ({
                let key = RetransKey { addr, msg_type, topic_id, msg_id };
                match r {
                    Ok(_) => !has_key(old(self)@, key) && final(self)@ == old(self)@.push(
                        (
                            key,
                            RetransModel {
                                frame: buf_bytes(frame),
                                retries,
                                tried: 0,
                                slot: slot_after(old(self).hand(), 1),
                            },
                        ),
                    ),
                    Err(e) => e == BrokerError::AlreadyScheduled && has_key(old(self)@, key)
                        && final(self)@ == old(self)@,
                }
            }),
    {
        let key = RetransKey { addr, msg_type, topic_id, msg_id };
        proof {
            lemma_mapped(self.entries@, |e: RetransEntry| e@);
        }
        if self.entries.find(&key).is_some() {
            return Err(BrokerError::AlreadyScheduled);
        }
        let slot = (self.hand + 1) % RETRANS_WHEEL_SLOTS;
        let n = self.entries.len();
        let entry = RetransEntry { frame, retries, tried: 0, slot };
        self.entries.insert_at(n, key, entry);
        assert(self@ =~= old(self)@.push((key, entry@)));
        Ok(())
    }

    /// Takes the frame of a key out of the wheel: its acknowledgement came.
    pub fn cancel_timer(&mut self, addr: PeerAddr, msg_type: u8, topic_id: u16, msg_id: u16) -> (r:
        Result<(), BrokerError>)
        requires
            old(self).wf(),
        ensures
            final(self).wf(),
            final(self).hand() == old(self).hand(),
            ({
                let key = RetransKey { addr, msg_type, topic_id, msg_id };
                &&& final(self)@ == without(old(self)@, key)
                &&& match r {
                    Ok(_) => has_key(old(self)@, key),
                    Err(e) => e == BrokerError::NotScheduled && !has_key(old(self)@, key),
                }
            }),
    {
        let key = RetransKey { addr, msg_type, topic_id, msg_id };
        proof {
            lemma_mapped(self.entries@, |e: RetransEntry| e@);
            lemma_without_in_ring(self@, key);
            lemma_mapped_changes(self.entries@, |e: RetransEntry| e@, key, arbitrary(), addr);
        }
        match self.entries.take(&key) {
            Some(_) => Ok(()),
            None => Err(BrokerError::NotScheduled),
        }
    }

    /// Takes out of the wheel every frame that awaits a peer's reply of a
    /// type under a message id, whatever its topic: the reply came, and it
    /// names no topic.
    pub fn cancel_reply(&mut self, addr: PeerAddr, msg_type: u8, msg_id: u16)
        requires
            old(self).wf(),
        ensures
            final(self).wf(),
            final(self).hand() == old(self).hand(),
            final(self)@ == without_reply(old(self)@, addr, msg_type, msg_id),
    {
        let ghost s = self.entries@;
        let ghost gone = |k: RetransKey| awaits(k, addr, msg_type, msg_id);
        let ghost mut n: int = 0;
        let mut i: usize = 0;
        proof {
            assert(s.take(0) =~= Seq::<(RetransKey, RetransEntry)>::empty());
            reveal(Seq::filter);
            assert(self.entries@.take(0) =~= without_keys(s.take(0), gone));
            assert(self.entries@.skip(0) =~= s.skip(0));
        }
        while i < self.entries.len()
            invariant
                self.entries.wf(),
                self.hand == old(self).hand,
                0 <= n <= s.len(),
                i <= self.entries@.len(),
                self.entries@.len() - i == s.len() - n,
                gone == (|k: RetransKey| awaits(k, addr, msg_type, msg_id)),
                self.entries@.take(i as int) == without_keys(s.take(n), gone),
                self.entries@.skip(i as int) == s.skip(n),
            decreases self.entries@.len() - i,
        {
            let ghost before = self.entries@;
            proof {
                assert(before[i as int] == before.skip(i as int)[0]);
                assert(s[n] == s.skip(n)[0]);
                assert(s.take(n + 1).drop_last() =~= s.take(n));
                assert(s.take(n + 1).last() == s[n]);
                reveal(Seq::filter);
                assert(s.skip(n).skip(1) =~= s.skip(n + 1));
            }
            let k = self.entries.key_at(i);
            if k.addr.same(&addr) && k.msg_type == msg_type && k.msg_id == msg_id {
                let _ = self.entries.take_at(i);
                proof {
                    assert(self.entries@.take(i as int) =~= before.take(i as int));
                    assert(self.entries@.skip(i as int) =~= before.skip(i as int).skip(1));
                    n = n + 1;
                }
            } else {
                proof {
                    assert(self.entries@.take(i + 1) =~= before.take(i as int).push(
                        self.entries@[i as int],
                    ));
                    assert(self.entries@.skip(i + 1) =~= before.skip(i as int).skip(1));
                    n = n + 1;
                }
                i += 1;
            }
        }
        proof {
            assert(s.take(n) =~= s);
            assert(self.entries@.take(i as int) =~= self.entries@);
            lemma_mapped_without_keys(s, |e: RetransEntry| e@, gone);
            lemma_mapped(s, |e: RetransEntry| e@);
            lemma_without_keys(old(self)@, gone);
            let t = self@;
            assert forall|j: int| 0 <= j < t.len() implies (#[trigger] t[j]).1.slot
                < RETRANS_WHEEL_SLOTS && t[j].1.retries + t[j].1.tried <= 255 by {
                assert(old(self)@.contains(t[j]));
            }
        }
    }

    /// Takes every frame for a peer out of the wheel.
    pub fn cancel_peer(&mut self, addr: PeerAddr)
        requires
            old(self).wf(),
        ensures
            final(self).wf(),
            final(self).hand() == old(self).hand(),
            final(self)@ == without_peer(old(self)@, addr),
    {
        proof {
            lemma_without_peer(self@, addr);
            lemma_mapped_without_peer(self.entries@, |e: RetransEntry| e@, addr);
        }
        self.entries.remove_peer(&addr);
        proof {
            let s = old(self)@;
            let t = self@;
            assert forall|i: int| 0 <= i < t.len() implies (#[trigger] t[i]).1.slot
                < RETRANS_WHEEL_SLOTS && t[i].1.retries + t[i].1.tried <= 255 by {
                assert(s.contains(t[i]));
            }
        }
    }
}

impl RetransTimeWheel {
    /// A second has passed: the hand moves on by one slot. Each frame of the
    /// slot it comes to is put on the egress queue once more and moves ahead,
    /// if it has retries left; else it leaves the wheel. Returns the keys of
    /// the frames that left: their flows have failed.
    #[verifier::rlimit(80)]
    pub fn tick(&mut self, egress: &mut Egress) -> (failed: Vec<RetransKey>)
        requires
            old(self).wf(),
        ensures
            final(self).wf(),
            final(self).hand() == slot_after(old(self).hand(), 1),
            final(self)@ == wheel_kept(old(self)@, final(self).hand()),
            final(egress)@ == old(egress)@ + wheel_sent(old(self)@, final(self).hand()),
            failed@ == wheel_failed(old(self)@, final(self).hand()),
    {
        let ghost s = self@;
        let ghost view_of = |e: RetransEntry| e@;
        let ghost mut n: int = 0;
        self.hand = (self.hand + 1) % RETRANS_WHEEL_SLOTS;
        let hand = self.hand;
        let mut failed: Vec<RetransKey> = Vec::new();
        let mut i: usize = 0;
        proof {
            assert(s.take(0) =~= Seq::<(RetransKey, RetransModel)>::empty());
            assert(self@.take(0) =~= wheel_kept(s.take(0), hand));
            assert(self@.skip(0) =~= s.skip(0));
            assert(egress@ =~= old(egress)@ + wheel_sent(s.take(0), hand));
        }
        while i < self.entries.len()
            invariant
                self.wf(),
                self.hand == hand,
                hand < RETRANS_WHEEL_SLOTS,
                0 <= n <= s.len(),
                i <= self@.len(),
                self@.len() == self.entries@.len(),
                self@.len() - i == s.len() - n,
                self@.take(i as int) == wheel_kept(s.take(n), hand),
                self@.skip(i as int) == s.skip(n),
                egress@ == old(egress)@ + wheel_sent(s.take(n), hand),
                failed@ == wheel_failed(s.take(n), hand),
            decreases self@.len() - i,
        {
            let ghost before = self@;
            let ghost before_e = self.entries@;
            let slot = self.entries.value_at(i).slot;
            proof {
                assert(before[i as int] == before.skip(i as int)[0]);
                assert(s[n] == s.skip(n)[0]);
                assert(s.take(n + 1).drop_last() =~= s.take(n));
                assert(s.take(n + 1).last() == s[n]);
                assert(s.skip(n).skip(1) =~= s.skip(n + 1));
                lemma_mapped(before_e, |e: RetransEntry| e@);
                crate::table::lemma_position(before_e, i as int);
                crate::table::lemma_without(before_e, before_e[i as int].0);
            }
            if slot != hand {
                proof {
                    assert(self@.take(i + 1) =~= before.take(i as int).push(self@[i as int]));
                    assert(self@.skip(i + 1) =~= before.skip(i as int).skip(1));
                    n = n + 1;
                }
                i += 1;
            } else {
                let (k, e) = self.entries.take_at(i);
                if e.retries > 0 {
                    egress.try_send(k.addr, e.frame.clone());
                    let tried = e.tried + 1;
                    let again = RetransEntry {
                        frame: e.frame,
                        retries: e.retries - 1,
                        tried,
                        slot: (hand + backoff_of(tried)) % RETRANS_WHEEL_SLOTS,
                    };
                    proof {
                        assert(again@ == sent_again(e@, hand));
                    }
                    self.entries.insert_at(i, k, again);
                    proof {
                        assert(self.entries@ =~= before_e.update(i as int, (k, again)));
                        assert(self@ =~= before.update(i as int, (k, again@)));
                        assert(self@.take(i + 1) =~= before.take(i as int).push((k, again@)));
                        assert(self@.skip(i + 1) =~= before.skip(i as int).skip(1));
                        assert(egress@ =~= old(egress)@ + wheel_sent(s.take(n + 1), hand));
                        assert forall|j: int| 0 <= j < self@.len() implies (#[trigger] self@[j]).1.slot
                            < RETRANS_WHEEL_SLOTS && self@[j].1.retries + self@[j].1.tried
                            <= 255 by {
                            if j != i {
                                assert(self@[j] == before[j]);
                            }
                        }
                        n = n + 1;
                    }
                    i += 1;
                } else {
                    failed.push(k);
                    proof {
                        assert(self@ =~= before.remove(i as int));
                        assert(self@.take(i as int) =~= before.take(i as int));
                        assert(self@.skip(i as int) =~= before.skip(i as int).skip(1));
                        assert forall|j: int| 0 <= j < self@.len() implies (#[trigger] self@[j]).1.slot
                            < RETRANS_WHEEL_SLOTS && self@[j].1.retries + self@[j].1.tried
                            <= 255 by {
                            assert(self@[j] == before[if j < i { j } else { j + 1 }]);
                        }
                        n = n + 1;
                    }
                }
            }
        }
        proof {
            assert(s.take(n) =~= s);
            assert(self@.take(i as int) =~= self@);
        }
        failed
    }
}

/// Taking an entry out leaves the others in their slots.
pub proof fn lemma_without_in_ring(s: Seq<(RetransKey, RetransModel)>, key: RetransKey)
    requires
        unique_keys(s),
        entries_in_ring(s),
    ensures
        unique_keys(without(s, key)),
        entries_in_ring(without(s, key)),
{
    crate::table::lemma_without(s, key);
    let t = without(s, key);
    if has_key(s, key) {
        let at = crate::table::position(s, key);
        assert forall|i: int| 0 <= i < t.len() implies (#[trigger] t[i]).1.slot
            < RETRANS_WHEEL_SLOTS && t[i].1.retries + t[i].1.tried <= 255 by {
            let a = if i < at { i } else { i + 1 };
            assert(t[i] == s[a]);
        }
    }
}

} // verus!
