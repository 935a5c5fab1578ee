//! Incremental frame assembly: turns byte chunks of any size into the
//! payloads of complete frames.
use vstd::prelude::*;
use crate::frame::{buffer_views, prefix_len, size_from_bytes, split_frames};

verus! {

#[derive(Clone, Copy, Debug, PartialEq, Eq, Structural)]
enum BuilderState {
    GettingSize,
    GettingPacket,
}

/// Accumulates the bytes of a stream and hands out each frame's payload once
/// all of its bytes have arrived.
pub struct MesgBuilder {
    pck_left: usize,
    size_left: usize,
    pck_buff: Vec<u8>,
    size_buff: Vec<u8>,
    state: BuilderState,
}

impl MesgBuilder {
    /// Bytes received that do not yet form a complete frame.
    pub closed spec fn pending(&self) -> Seq<u8> {
        self.size_buff@ + self.pck_buff@
    }

    /// Counters and buffers agree with the state: a partial length prefix,
    /// or a complete one and part of the payload it announces.
    pub closed spec fn wf(&self) -> bool {
        &&& self.size_buff@.len() + self.size_left == 2
        &&& match self.state {
            BuilderState::GettingSize => self.size_buff@.len() < 2 && self.pck_buff@.len() == 0,
            BuilderState::GettingPacket => {
                &&& self.size_buff@.len() == 2
                &&& self.pck_left > 0
                &&& self.pck_buff@.len() + self.pck_left == prefix_len(
                    self.size_buff@[0],
                    self.size_buff@[1],
                )
            },
        }
    }

    /// What is buffered never holds a complete frame.
    pub proof fn lemma_pending_incomplete(&self)
        requires
            self.wf(),
        ensures
            split_frames(self.pending()) == (Seq::<Seq<u8>>::empty(), self.pending()),
    {
        let p = self.pending();
        if p.len() >= 2 {
            assert(p[0] == self.size_buff@[0] && p[1] == self.size_buff@[1]);
        }
    }

    pub fn new() -> (r: Self)
        ensures
            r.wf(),
            r.pending() == Seq::<u8>::empty(),
    {
        let r = MesgBuilder {
            pck_left: 0,
            size_left: 2,
            pck_buff: Vec::new(),
            size_buff: Vec::new(),
            state: BuilderState::GettingSize,
        };
        assert(r.pending() =~= Seq::<u8>::empty());
        r
    }

    /// Consumes a chunk of the stream and returns the payloads of the frames
    /// it completes, in order, or `None` when it completes none. The bytes
    /// of an unfinished frame stay buffered for the next call.
    pub fn eat(&mut self, slice: &[u8]) -> (r: Option<Vec<Vec<u8>>>)
        requires
            old(self).wf(),
        ensures
            final(self).wf(),
            final(self).pending() == split_frames(old(self).pending() + slice@).1,
            r is None <==> split_frames(old(self).pending() + slice@).0.len() == 0,
            r is Some ==> buffer_views(r->0@) == split_frames(old(self).pending() + slice@).0,
    {
        let ghost whole = self.pending() + slice@;
        let mut mesgs: Vec<Vec<u8>> = Vec::new();
        let mut pos: usize = 0;
        assert(slice@.subrange(0, slice@.len() as int) =~= slice@);
        assert(buffer_views(mesgs@) + split_frames(whole).0 =~= split_frames(whole).0);
        while pos < slice.len()
            invariant
                self.wf(),
                pos <= slice@.len(),
                whole == old(self).pending() + slice@,
                split_frames(whole).0 == buffer_views(mesgs@) + split_frames(
                    self.pending() + slice@.subrange(pos as int, slice@.len() as int),
                ).0,
                split_frames(whole).1 == split_frames(
                    self.pending() + slice@.subrange(pos as int, slice@.len() as int),
                ).1,
            decreases slice@.len() - pos,
        {
            let ghost rest = slice@.subrange(pos as int, slice@.len() as int);
            let ghost rest2 = slice@.subrange(pos + 1, slice@.len() as int);
            let ghost before = self.pending() + rest;
            let ghost old_views = buffer_views(mesgs@);
            let byte = slice[pos];
            assert(rest =~= seq![byte] + rest2);
            match self.state {
                BuilderState::GettingSize => {
                    self.size_buff.push(byte);
                    self.size_left = self.size_left - 1;
                    if self.size_left == 0 {
                        let n = match size_from_bytes(self.size_buff.as_slice()) {
                            Some(n) => n,
                            None => 0,
                        };
                        if n == 0 {
                            let ghost frame = self.size_buff@;
                            assert(before =~= frame + rest2);
                            assert(frame.subrange(2, 2) =~= Seq::<u8>::empty());
                            assert(before.subrange(2, before.len() as int) =~= rest2);
                            mesgs.push(Vec::new());
                            self.size_buff.clear();
                            self.size_left = 2;
                            assert(self.pending() + rest2 =~= rest2);
                            assert(buffer_views(mesgs@) =~= old_views + seq![Seq::<u8>::empty()]);
                            assert(before.subrange(2, 2) =~= Seq::<u8>::empty());
                            assert(before[0] == frame[0] && before[1] == frame[1]);
                        } else {
                            self.state = BuilderState::GettingPacket;
                            self.pck_left = n as usize;
                            assert(before =~= self.pending() + rest2);
                        }
                    } else {
                        assert(before =~= self.pending() + rest2);
                    }
                },
                BuilderState::GettingPacket => {
                    self.pck_buff.push(byte);
                    self.pck_left = self.pck_left - 1;
                    if self.pck_left == 0 {
                        let ghost frame = self.pending();
                        let ghost end = 2 + prefix_len(self.size_buff@[0], self.size_buff@[1]);
                        assert(before =~= frame + rest2);
                        assert(frame.len() == end);
                        assert(before[0] == self.size_buff@[0] && before[1] == self.size_buff@[1]);
                        assert(before.subrange(2, end as int) =~= self.pck_buff@);
                        assert(before.subrange(end as int, before.len() as int) =~= rest2);
                        let mut payload: Vec<u8> = Vec::new();
                        core::mem::swap(&mut payload, &mut self.pck_buff);
                        mesgs.push(payload);
                        self.size_buff.clear();
                        self.size_left = 2;
                        self.state = BuilderState::GettingSize;
                        assert(self.pending() + rest2 =~= rest2);
                        assert(buffer_views(mesgs@) =~= old_views + seq![payload@]);
                    } else {
                        assert(before =~= self.pending() + rest2);
                    }
                },
            }
            pos = pos + 1;
        }
        assert(slice@.subrange(pos as int, slice@.len() as int) =~= Seq::<u8>::empty());
        assert(self.pending() + Seq::<u8>::empty() =~= self.pending());
        proof {
            self.lemma_pending_incomplete();
        }
        assert(buffer_views(mesgs@) + Seq::<Seq<u8>>::empty() =~= buffer_views(mesgs@));
        if mesgs.len() > 0 {
            Some(mesgs)
        } else {
            None
        }
    }
}

} // verus!
