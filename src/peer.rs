//! One connection's session state: identity, inbound queue, connection
//! state, liveness and the frame assembler fed from its socket.
use vstd::prelude::*;
use crate::builder::MesgBuilder;
use crate::frame::{buffer_views, split_frames};
use crate::message::{PeerState, Token};

verus! {

/// A session, as seen by the side that owns it; `M` is the kind of message
/// it receives. The socket itself is held by the caller.
pub struct Peer<M> {
    pub username: String,
    pub token: Token,
    /// Received messages, oldest first.
    pub messages: Vec<M>,
    pub state: PeerState,
    /// Time of the last activity, in milliseconds.
    pub silent_from: u64,
    pub builder: MesgBuilder,
}

/// Mathematical value of a session.
pub struct PeerV<V> {
    pub username: Seq<char>,
    pub token: u64,
    pub messages: Seq<V>,
    pub state: PeerState,
    pub silent_from: u64,
    pub pending: Seq<u8>,
}

impl<M: View> View for Peer<M> {
    type V = PeerV<M::V>;

    open spec fn view(&self) -> PeerV<M::V> {
        PeerV {
            username: self.username@,
            token: self.token,
            messages: self.messages@.map_values(|m: M| m@),
            state: self.state,
            silent_from: self.silent_from,
            pending: self.builder.pending(),
        }
    }
}

impl<M: View> Peer<M> {
    /// The frame assembler is well formed.
    pub open spec fn wf(&self) -> bool {
        self.builder.wf()
    }

    /// A fresh session awaiting its handshake, with nothing received yet.
    pub fn new(token: &Token, now: u64) -> (r: Self)
        ensures
            r.wf(),
            r@ == (PeerV::<M::V> {
                username: Seq::empty(),
                token: *token,
                messages: Seq::empty(),
                state: PeerState::AwaitingAuth,
                silent_from: now,
                pending: Seq::empty(),
            }),
    {
        let r = Peer {
            username: String::new(),
            token: *token,
            messages: Vec::new(),
            state: PeerState::AwaitingAuth,
            silent_from: now,
            builder: MesgBuilder::new(),
        };
        assert(r.messages@.map_values(|m: M| m@) =~= Seq::<M::V>::empty());
        r
    }

    /// Marks the session active at `now`.
    pub fn keep(&mut self, now: u64)
        ensures
            final(self)@ == (PeerV { silent_from: now, ..old(self)@ }),
            final(self).wf() == old(self).wf(),
    {
        self.silent_from = now;
    }

    /// Hands a chunk read from the socket to the frame assembler and returns
    /// the payloads of the frames it completes.
    pub fn receive(&mut self, chunk: &[u8]) -> (r: Option<Vec<Vec<u8>>>)
        requires
            old(self).wf(),
        ensures
            final(self).wf(),
            final(self)@ == (PeerV {
                pending: split_frames(old(self)@.pending + chunk@).1,
                ..old(self)@
            }),
            r is None <==> split_frames(old(self)@.pending + chunk@).0.len() == 0,
            r is Some ==> buffer_views(r->0@) == split_frames(old(self)@.pending + chunk@).0,
    {
        self.builder.eat(chunk)
    }

    /// Appends decoded messages to the inbound queue, keeping their order.
    pub fn push_messages(&mut self, mesgs: Vec<M>)
        ensures
            final(self).wf() == old(self).wf(),
            final(self)@ == (PeerV {
                messages: old(self)@.messages + mesgs@.map_values(|m: M| m@),
                ..old(self)@
            }),
    {
        let ghost added = mesgs@;
        let mut mesgs = mesgs;
        self.messages.append(&mut mesgs);
        assert(self.messages@.map_values(|m: M| m@) =~= old(self)@.messages + added.map_values(
            |m: M| m@,
        ));
    }
}

} // verus!
