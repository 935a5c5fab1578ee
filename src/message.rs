//! The two closed message vocabularies of the protocol.
use vstd::prelude::*;

verus! {

/// Server-assigned identity of a session.
pub type Token = u64;

/// Failure to reach a server.
#[derive(Debug)]
pub struct Error {}

#[derive(Clone, Debug, PartialEq, Eq)]
pub struct ClHello {
    pub username: String,
}

#[derive(Clone, Copy, Debug, PartialEq, Eq)]
pub struct SeHello {
    pub token: Token,
}

#[derive(Clone, Debug, PartialEq, Eq)]
pub struct ClMesg {
    pub username: String,
    pub token: Token,
    pub mesg: String,
}

#[derive(Clone, Debug, PartialEq, Eq)]
pub struct SeMesg {
    pub mesg: String,
}

#[derive(Clone, Debug, PartialEq, Eq)]
pub struct SeInfo {
    pub users: Vec<String>,
}

#[derive(Clone, Debug, PartialEq, Eq)]
pub struct SeUQuit {
    pub reason: String,
}

/// Messages a client sends.
#[derive(Clone, Debug, PartialEq, Eq)]
pub enum ClMessage {
    Hello(ClHello),
    Mesg(ClMesg),
    IWantInfo(Token),
    IQuit(Token),
    Ping(Token),
}

/// Messages a server sends.
#[derive(Clone, Debug, PartialEq, Eq)]
pub enum SeMessage {
    Hello(SeHello),
    Mesg(SeMesg),
    Info(SeInfo),
    UQuit(SeUQuit),
}

/// Connection state of a session.
#[derive(Clone, Copy, Debug, PartialEq, Eq, Structural)]
pub enum PeerState {
    AwaitingAuth,
    Chatting,
    Quitting,
}

/// Mathematical value of a client message.
pub enum ClMessageV {
    Hello(Seq<char>),
    Mesg(Seq<char>, u64, Seq<char>),
    IWantInfo(u64),
    IQuit(u64),
    Ping(u64),
}

/// Mathematical value of a server message.
pub enum SeMessageV {
    Hello(u64),
    Mesg(Seq<char>),
    Info(Seq<Seq<char>>),
    UQuit(Seq<char>),
}

pub open spec fn string_views(s: Seq<String>) -> Seq<Seq<char>> {
    s.map_values(|x: String| x@)
}

impl View for ClMessage {
    type V = ClMessageV;

    open spec fn view(&self) -> ClMessageV {
        match self {
            ClMessage::Hello(h) => ClMessageV::Hello(h.username@),
            ClMessage::Mesg(m) => ClMessageV::Mesg(m.username@, m.token, m.mesg@),
            ClMessage::IWantInfo(t) => ClMessageV::IWantInfo(*t),
            ClMessage::IQuit(t) => ClMessageV::IQuit(*t),
            ClMessage::Ping(t) => ClMessageV::Ping(*t),
        }
    }
}

impl View for SeMessage {
    type V = SeMessageV;

    open spec fn view(&self) -> SeMessageV {
        match self {
            SeMessage::Hello(h) => SeMessageV::Hello(h.token),
            SeMessage::Mesg(m) => SeMessageV::Mesg(m.mesg@),
            SeMessage::Info(i) => SeMessageV::Info(string_views(i.users@)),
            SeMessage::UQuit(q) => SeMessageV::UQuit(q.reason@),
        }
    }
}

} // verus!
