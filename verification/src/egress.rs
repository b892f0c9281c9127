//! The egress queue: the frames that wait to be sent, each with the peer
//! that it goes to.
use crate::buf::buf_bytes;
use crate::msg_hdr::PeerAddr;
use bytes::BytesMut;
use vstd::prelude::*;

verus! {

/// What a list of addressed buffers says: each peer with the octets for it.
pub open spec fn frames_of(q: Seq<(PeerAddr, BytesMut)>) -> Seq<(PeerAddr, Seq<u8>)> {
    q.map_values(|e: (PeerAddr, BytesMut)| (e.0, buf_bytes(e.1)))
}

/// The frames that wait to be sent, first to last.
pub struct Egress {
    queue: Vec<(PeerAddr, BytesMut)>,
}

impl Egress {
    /// The waiting frames: peer and octets.
    pub closed spec fn view(&self) -> Seq<(PeerAddr, Seq<u8>)> {
        frames_of(self.queue@)
    }

    pub fn new() -> (e: Egress)
        ensures
            e@ == Seq::<(PeerAddr, Seq<u8>)>::empty(),
    {
        let e = Egress { queue: Vec::new() };
        assert(e@ =~= Seq::<(PeerAddr, Seq<u8>)>::empty());
        e
    }

    /// Number of waiting frames.
    pub fn len(&self) -> (n: usize)
        ensures
            n == self@.len(),
    {
        self.queue.len()
    }

    /// Puts a frame at the end of the queue.
    pub fn try_send(&mut self, addr: PeerAddr, frame: BytesMut)
        ensures
            final(self)@ == old(self)@.push((addr, buf_bytes(frame))),
    {
        self.queue.push((addr, frame));
        assert(self@ =~= old(self)@.push((addr, buf_bytes(frame))));
    }

    /// Hands out the waiting frames, first to last, and leaves the queue empty.
    pub fn drain(&mut self) -> (frames: Vec<(PeerAddr, BytesMut)>)
        ensures
            frames_of(frames@) == old(self)@,
            final(self)@ == Seq::<(PeerAddr, Seq<u8>)>::empty(),
    {
        let mut frames: Vec<(PeerAddr, BytesMut)> = Vec::new();
        std::mem::swap(&mut frames, &mut self.queue);
        assert(self@ =~= Seq::<(PeerAddr, Seq<u8>)>::empty());
        frames
    }
}

} // verus!
