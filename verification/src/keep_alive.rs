//! Keep-alive supervision: one timer per peer, counted down once a second.
//!
//! A peer is given one and a half times the duration that it announced. The
//! same timer serves as the sleep timer of a peer that is asleep.
use crate::error::BrokerError;
use crate::msg_hdr::PeerAddr;
use crate::table::{has_key, lookup, with, without, Table};
use vstd::prelude::*;

verus! {

/// The timer of a peer.
#[derive(Clone, Copy, Debug, PartialEq, Eq, Structural)]
pub struct KeepAlive {
    /// The duration in seconds that the peer announced.
    pub duration: u16,
    /// The seconds that are left before the peer counts as lost.
    pub remaining: u32,
}

/// The seconds that a peer is given: one and a half times its duration, and
/// one second at least.
pub open spec fn deadline(duration: u16) -> u32 {
    if duration == 0 {
        1
    } else {
        (duration + duration / 2) as u32
    }
}

/// A fresh timer for a duration.
pub open spec fn fresh_timer(duration: u16) -> KeepAlive {
    KeepAlive { duration, remaining: deadline(duration) }
}

/// The timers that are left after a second has passed, each with a second less.
pub open spec fn kept_after_tick(s: Seq<(PeerAddr, KeepAlive)>) -> Seq<(PeerAddr, KeepAlive)>
    decreases s.len(),
{
    if s.len() == 0 {
        s
    } else {
        let rest = kept_after_tick(s.drop_last());
        let e = s.last();
        if e.1.remaining <= 1 {
            rest
        } else {
            rest.push(
                (e.0, KeepAlive { duration: e.1.duration, remaining: (e.1.remaining - 1) as u32 }),
            )
        }
    }
}

/// The peers whose time is up when a second has passed, in the order of
/// their timers.
pub open spec fn expired_at_tick(s: Seq<(PeerAddr, KeepAlive)>) -> Seq<PeerAddr>
    decreases s.len(),
{
    if s.len() == 0 {
        Seq::empty()
    } else {
        let rest = expired_at_tick(s.drop_last());
        let e = s.last();
        if e.1.remaining <= 1 {
            rest.push(e.0)
        } else {
            rest
        }
    }
}

/// The timers of the peers.
pub struct KeepAliveTimeWheel {
    timers: Table<PeerAddr, KeepAlive>,
}

impl KeepAliveTimeWheel {
    /// The timers, in the order in which they were first set.
    pub closed spec fn view(&self) -> Seq<(PeerAddr, KeepAlive)> {
        self.timers@
    }

    /// No peer has two timers.
    pub closed spec fn wf(&self) -> bool {
        self.timers.wf()
    }

    pub proof fn lemma_wf(&self)
        requires
            self.wf(),
        ensures
            crate::table::unique_keys(self@),
    {
    }

    pub fn new() -> (w: KeepAliveTimeWheel)
        ensures
            w.wf(),
            w@ == Seq::<(PeerAddr, KeepAlive)>::empty(),
    {
        KeepAliveTimeWheel { timers: Table::new() }
    }

    /// The seconds that a peer is given.
    pub fn deadline_of(duration: u16) -> (d: u32)
        ensures
            d == deadline(duration),
    {
        if duration == 0 {
            1
        } else {
            duration as u32 + (duration / 2) as u32
        }
    }

    /// Sets the timer of a peer for a duration, in place of the one it had.
    pub fn schedule(&mut self, addr: PeerAddr, duration: u16)
        requires
            old(self).wf(),
        ensures
            final(self).wf(),
            final(self)@ == with(old(self)@, addr, fresh_timer(duration)),
    {
        let remaining = Self::deadline_of(duration);
        self.timers.set(addr, KeepAlive { duration, remaining });
    }

    /// Winds the timer of a peer up again. A peer without a timer gets none.
    pub fn reschedule(&mut self, addr: PeerAddr) -> (r: Result<(), BrokerError>)
        requires
            old(self).wf(),
        ensures
            final(self).wf(),
            match r {
                Ok(_) => lookup(old(self)@, addr) is Some && final(self)@ == with(
                    old(self)@,
                    addr,
                    fresh_timer(lookup(old(self)@, addr)->0.duration),
                ),
                Err(e) => e == BrokerError::NotScheduled && !has_key(old(self)@, addr)
                    && final(self)@ == old(self)@,
            },
    {
        match self.timers.find(&addr) {
            Some(i) => {
                let duration = self.timers.value_at(i).duration;
                let remaining = Self::deadline_of(duration);
                self.timers.set(addr, KeepAlive { duration, remaining });
                Ok(())
            },
            None => Err(BrokerError::NotScheduled),
        }
    }

    /// Removes the timer of a peer.
    pub fn cancel(&mut self, addr: &PeerAddr) -> (r: Result<(), BrokerError>)
        requires
            old(self).wf(),
        ensures
            final(self).wf(),
            final(self)@ == without(old(self)@, *addr),
            match r {
                Ok(_) => has_key(old(self)@, *addr),
                Err(e) => e == BrokerError::NotScheduled && !has_key(old(self)@, *addr),
            },
    {
        match self.timers.take(addr) {
            Some(_) => Ok(()),
            None => Err(BrokerError::NotScheduled),
        }
    }

    /// A second has passed: every timer has a second less, and the timers
    /// whose time is up are removed. Returns their peers.
    pub fn tick(&mut self) -> (expired: Vec<PeerAddr>)
        requires
            old(self).wf(),
        ensures
            final(self).wf(),
            final(self)@ == kept_after_tick(old(self)@),
            expired@ == expired_at_tick(old(self)@),
    {
        let ghost s = self@;
        let ghost mut n: int = 0;
        let mut expired: Vec<PeerAddr> = Vec::new();
        let mut i: usize = 0;
        assert(s.take(0) =~= Seq::<(PeerAddr, KeepAlive)>::empty());
        assert(self@.take(0) =~= kept_after_tick(s.take(0)));
        assert(self@.skip(0) =~= s.skip(0));
        while i < self.timers.len()
            invariant
                self.wf(),
                0 <= n <= s.len(),
                i <= self.timers@.len(),
                self.timers@.len() - i == s.len() - n,
                self@.take(i as int) == kept_after_tick(s.take(n)),
                self@.skip(i as int) == s.skip(n),
                expired@ == expired_at_tick(s.take(n)),
            decreases self.timers@.len() - i,
        {
            let ghost before = self@;
            let e = *self.timers.value_at(i);
            proof {
                assert(before[i as int] == before.skip(i as int)[0]);
                assert(s[n] == s.skip(n)[0]);
                assert(s.take(n + 1).drop_last() =~= s.take(n));
                assert(s.take(n + 1).last() == s[n]);
            }
            if e.remaining <= 1 {
                let (k, _) = self.timers.take_at(i);
                expired.push(k);
                proof {
                    assert(self@.take(i as int) =~= before.take(i as int));
                    assert(self@.skip(i as int) =~= before.skip(i as int).skip(1));
                    assert(s.skip(n).skip(1) =~= s.skip(n + 1));
                    n = n + 1;
                }
            } else {
                self.timers.replace_at(
                    i,
                    KeepAlive { duration: e.duration, remaining: e.remaining - 1 },
                );
                proof {
                    assert(self@.take(i + 1) =~= before.take(i as int).push(self@[i as int]));
                    assert(self@.skip(i + 1) =~= before.skip(i as int).skip(1));
                    assert(s.skip(n).skip(1) =~= s.skip(n + 1));
                    n = n + 1;
                }
                i += 1;
            }
        }
        proof {
            assert(s.take(n) =~= s);
            assert(self@.take(i as int) =~= self@);
        }
        expired
    }
}

} // verus!
