//! The client's side of a session: what it sends, shows and becomes in
//! answer to console commands and server messages.
use vstd::prelude::*;
use crate::command::{first_space, split_command, split_words, trim_of, words_of};
use crate::message::{
    ClMesg, ClMessage, ClMessageV, SeMessage, SeMessageV, string_views,
};
use crate::peer::{Peer, PeerV};

verus! {

/// Something the client asks its owner to do.
#[derive(Clone, Debug, PartialEq, Eq)]
pub enum ClientEffect {
    /// Send a message to the server.
    Send(ClMessage),
    /// Show a line on the console.
    Show(String),
    /// Show the list of users on the server.
    ShowInfo(Vec<String>),
}

/// Mathematical value of a client effect.
pub enum ClientEffectV {
    Send(ClMessageV),
    Show(Seq<char>),
    ShowInfo(Seq<Seq<char>>),
}

impl View for ClientEffect {
    type V = ClientEffectV;

    open spec fn view(&self) -> ClientEffectV {
        match self {
            ClientEffect::Send(m) => ClientEffectV::Send(m@),
            ClientEffect::Show(s) => ClientEffectV::Show(s@),
            ClientEffect::ShowInfo(u) => ClientEffectV::ShowInfo(string_views(u@)),
        }
    }
}

/// Values of a sequence of client effects.
pub open spec fn client_views(s: Seq<ClientEffect>) -> Seq<ClientEffectV> {
    s.map_values(|e: ClientEffect| e@)
}

/// Leaving the server: a quit message when connected under token `t`.
pub open spec fn disconnect_effects(conn: Option<u64>) -> Seq<ClientEffectV> {
    match conn {
        Some(t) => seq![ClientEffectV::Send(ClMessageV::IQuit(t))],
        None => seq![ClientEffectV::Show("Not connected to a server"@)],
    }
}

/// Reaction to one server message, given the token of the connection if any:
/// whether the client stays connected, and what it does.
pub open spec fn client_step(conn: Option<u64>, m: SeMessageV) -> (Option<u64>, Seq<ClientEffectV>) {
    match m {
        SeMessageV::Mesg(text) => (conn, seq![ClientEffectV::Show(text)]),
        SeMessageV::Info(users) => (conn, seq![ClientEffectV::ShowInfo(users)]),
        SeMessageV::UQuit(reason) => (
            None,
            seq![ClientEffectV::Show("You was kicked for the reason: "@ + reason)]
                + disconnect_effects(conn),
        ),
        SeMessageV::Hello(_) => (conn, Seq::empty()),
    }
}

/// Reaction to a sequence of server messages, in order.
pub open spec fn client_all(conn: Option<u64>, ms: Seq<SeMessageV>) -> (Option<u64>, Seq<ClientEffectV>)
    decreases ms.len(),
{
    if ms.len() == 0 {
        (conn, Seq::empty())
    } else {
        let prev = client_all(conn, ms.drop_last());
        let step = client_step(prev.0, ms.last());
        (step.0, prev.1 + step.1)
    }
}

/// A client console command: the effects, and whether the client
/// disconnects or exits.
pub open spec fn client_input_spec(
    conn: Option<(Seq<char>, u64)>,
    verb: Seq<char>,
    arg: Seq<char>,
) -> Seq<ClientEffectV> {
    if verb == "/help"@ {
        seq![ClientEffectV::Show(client_help_lines())]
    } else if verb == "/exit"@ {
        Seq::empty()
    } else if verb == "/disconnect"@ {
        disconnect_effects(
            match conn {
                Some(c) => Some(c.1),
                None => None,
            },
        )
    } else if verb == "/info"@ {
        match conn {
            Some(c) => seq![ClientEffectV::Send(ClMessageV::IWantInfo(c.1))],
            None => seq![ClientEffectV::Show("Can't /info - not connected to a server"@)],
        }
    } else if verb == "/say"@ {
        match conn {
            Some(c) => seq![ClientEffectV::Send(ClMessageV::Mesg(c.0, c.1, arg))],
            None => seq![ClientEffectV::Show("Can't /say - not connected to a server"@)],
        }
    } else {
        seq![ClientEffectV::Show("Unrecognized command. Try /help"@)]
    }
}

/// The console's list of commands.
pub open spec fn client_help_lines() -> Seq<char> {
    "--------------------\nA list of availible commands:\n/help - displays help on commands\n/join <adress> <username> - joins a server at <adress> with <username>\n/disconnect - disconnects from a server\n/say <message> - sends a message to the chat\n/exit - exits the program\n/info - prints information about server\n--------------------"@
}

/// The console's list of commands.
pub fn client_help_text() -> (r: String)
    ensures
        r@ == client_help_lines(),
{
    String::from_str("--------------------\nA list of availible commands:\n/help - displays help on commands\n/join <adress> <username> - joins a server at <adress> with <username>\n/disconnect - disconnects from a server\n/say <message> - sends a message to the chat\n/exit - exits the program\n/info - prints information about server\n--------------------")
}

/// Outcome of a join command, before any connection is attempted.
pub open spec fn join_spec(connected: bool, arg: Seq<char>) -> Result<(Seq<char>, Seq<char>), Seq<char>> {
    let w = words_of(arg);
    if connected {
        Err("Already connected to a server"@)
    } else if w.len() < 1 {
        Err("No adress provided"@)
    } else if w.len() < 2 {
        Err("No username provided"@)
    } else {
        Ok((w[0], w[1]))
    }
}

/// Outcome of the first reply to a handshake.
pub open spec fn join_reply_spec(reply: SeMessageV) -> Result<u64, Seq<char>> {
    match reply {
        SeMessageV::Hello(t) => Ok(t),
        SeMessageV::UQuit(reason) => Err("Server refused in connection for the reason: "@ + reason),
        _ => Err("Error: Expected hello from server, got something else"@),
    }
}

/// A chat client: at most one session with a server.
pub struct Client {
    pub should_stop: bool,
    pub server: Option<Peer<SeMessage>>,
}

impl Client {
    /// The session, if any, has a well-formed frame assembler.
    pub open spec fn wf(&self) -> bool {
        self.server matches Some(p) ==> p.wf()
    }

    /// Token of the current session, if connected.
    pub open spec fn conn(&self) -> Option<u64> {
        match self.server {
            Some(p) => Some(p.token),
            None => None,
        }
    }

    pub fn new() -> (r: Self)
        ensures
            r.wf(),
            !r.should_stop,
            r.server is None,
    {
        Client { should_stop: false, server: None }
    }

    pub fn terminate(&mut self)
        ensures
            final(self).should_stop,
            final(self).server == old(self).server,
    {
        self.should_stop = true;
    }

    /// Leaves the server, if connected.
    pub fn disconnect(&mut self, out: &mut Vec<ClientEffect>)
        ensures
            final(self).server is None,
            final(self).should_stop == old(self).should_stop,
            client_views(final(out)@) == client_views(old(out)@) + disconnect_effects(old(self).conn()),
    {
        let ghost before = out@;
        match &self.server {
            Some(server) => {
                out.push(ClientEffect::Send(ClMessage::IQuit(server.token)));
            },
            None => {
                out.push(ClientEffect::Show(String::from_str("Not connected to a server")));
            },
        }
        self.server = None;
        assert(client_views(out@) =~= client_views(before) + disconnect_effects(old(self).conn()));
    }

    /// Reacts to one message from the server.
    pub fn process_message(&mut self, msg: &SeMessage, out: &mut Vec<ClientEffect>)
        requires
            old(self).wf(),
        ensures
            final(self).wf(),
            final(self).should_stop == old(self).should_stop,
            final(self).conn() == client_step(old(self).conn(), msg@).0,
            final(self).conn() is Some ==> final(self).server == old(self).server,
            client_views(final(out)@) == client_views(old(out)@) + client_step(
                old(self).conn(),
                msg@,
            ).1,
    {
        let ghost before = out@;
        match msg {
            SeMessage::Mesg(v) => {
                out.push(ClientEffect::Show(v.mesg.clone()));
                assert(client_views(out@) =~= client_views(before) + client_step(
                    old(self).conn(),
                    msg@,
                ).1);
            },
            SeMessage::Info(v) => {
                let users = clone_strings(&v.users);
                out.push(ClientEffect::ShowInfo(users));
                assert(client_views(out@) =~= client_views(before) + client_step(
                    old(self).conn(),
                    msg@,
                ).1);
            },
            SeMessage::UQuit(v) => {
                let mut line = String::from_str("You was kicked for the reason: ");
                line.append(v.reason.as_str());
                out.push(ClientEffect::Show(line));
                self.disconnect(out);
                assert(client_views(out@) =~= client_views(before) + client_step(
                    old(self).conn(),
                    msg@,
                ).1);
            },
            SeMessage::Hello(_) => {
                assert(client_views(out@) =~= client_views(before) + client_step(
                    old(self).conn(),
                    msg@,
                ).1);
            },
        }
    }

    /// Handles every message queued on the session, oldest first.
    pub fn process_messages(&mut self, out: &mut Vec<ClientEffect>)
        requires
            old(self).wf(),
        ensures
            final(self).wf(),
            final(self).should_stop == old(self).should_stop,
            old(self).server is None ==> final(self).server is None && final(out)@ == old(out)@,
            old(self).server matches Some(p) ==> {
                let r = client_all(Some(p.token), p@.messages);
                &&& final(self).conn() == r.0
                &&& client_views(final(out)@) == client_views(old(out)@) + r.1
                &&& final(self).server matches Some(q) ==> q@ == (PeerV {
                    messages: Seq::empty(),
                    ..p@
                })
            },
    {
        let mut messages: Vec<SeMessage> = Vec::new();
        match &mut self.server {
            Some(server) => {
                core::mem::swap(&mut messages, &mut server.messages);
            },
            None => {
                return ;
            },
        }
        let ghost initial = old(self).server->0;
        let ghost all = messages@.map_values(|m: SeMessage| m@);
        assert(all == initial@.messages);
        assert(self.server->0@ == (PeerV { messages: Seq::<SeMessageV>::empty(), ..initial@ })) by {
            assert(self.server->0.messages@.map_values(|m: SeMessage| m@) =~= Seq::<SeMessageV>::empty());
        }
        let ghost e0 = client_views(out@);
        let n = messages.len();
        let mut k: usize = 0;
        assert(e0 + Seq::<ClientEffectV>::empty() =~= e0);
        assert(all.subrange(0, 0) =~= Seq::<SeMessageV>::empty());
        while k < n
            invariant
                n == messages@.len(),
                all == messages@.map_values(|m: SeMessage| m@),
                k <= n,
                self.wf(),
                self.should_stop == old(self).should_stop,
                self.server matches Some(q) ==> q@ == (PeerV {
                    messages: Seq::<SeMessageV>::empty(),
                    ..initial@
                }),
                self.conn() == client_all(Some(initial.token), all.subrange(0, k as int)).0,
                client_views(out@) == e0 + client_all(Some(initial.token), all.subrange(0, k as int)).1,
            decreases n - k,
        {
            assert(all.subrange(0, k + 1).drop_last() =~= all.subrange(0, k as int));
            assert(all.subrange(0, k + 1).last() == messages@[k as int]@);
            self.process_message(&messages[k], out);
            k += 1;
            assert(client_views(out@) =~= e0 + client_all(Some(initial.token), all.subrange(0, k as int)).1);
        }
        assert(all.subrange(0, n as int) =~= all);
    }

    /// Asks the server for its list of users.
    pub fn request_server_info(&mut self, out: &mut Vec<ClientEffect>)
        ensures
            *final(self) == *old(self),
            client_views(final(out)@) == client_views(old(out)@) + match old(self).conn() {
                Some(t) => seq![ClientEffectV::Send(ClMessageV::IWantInfo(t))],
                None => seq![ClientEffectV::Show("Can't /info - not connected to a server"@)],
            },
    {
        let ghost before = out@;
        match &self.server {
            Some(server) => {
                out.push(ClientEffect::Send(ClMessage::IWantInfo(server.token)));
            },
            None => {
                out.push(
                    ClientEffect::Show(String::from_str("Can't /info - not connected to a server")),
                );
            },
        }
        assert(client_views(out@) =~= client_views(before) + match old(self).conn() {
            Some(t) => seq![ClientEffectV::Send(ClMessageV::IWantInfo(t))],
            None => seq![ClientEffectV::Show("Can't /info - not connected to a server"@)],
        });
    }

    /// Posts `arg` to the chat under the session's identity.
    pub fn say(&mut self, arg: String, out: &mut Vec<ClientEffect>)
        ensures
            *final(self) == *old(self),
            client_views(final(out)@) == client_views(old(out)@) + match old(self).server {
                Some(p) => seq![ClientEffectV::Send(ClMessageV::Mesg(p.username@, p.token, arg@))],
                None => seq![ClientEffectV::Show("Can't /say - not connected to a server"@)],
            },
    {
        let ghost before = out@;
        let ghost a = arg@;
        match &self.server {
            Some(server) => {
                let mesg = ClMesg { username: server.username.clone(), token: server.token, mesg: arg };
                out.push(ClientEffect::Send(ClMessage::Mesg(mesg)));
            },
            None => {
                out.push(ClientEffect::Show(String::from_str("Can't /say - not connected to a server")));
            },
        }
        assert(client_views(out@) =~= client_views(before) + match old(self).server {
            Some(p) => seq![ClientEffectV::Send(ClMessageV::Mesg(p.username@, p.token, a))],
            None => seq![ClientEffectV::Show("Can't /say - not connected to a server"@)],
        });
    }

    /// First step of a join command: the address and the username to join
    /// with, or the line to show instead.
    pub fn join(&self, arg: &String) -> (r: Result<(String, String), String>)
        ensures
            match (r, join_spec(self.server is Some, arg@)) {
                (Ok(v), Ok(w)) => v.0@ == w.0 && v.1@ == w.1,
                (Err(e), Err(f)) => e@ == f,
                _ => false,
            },
    {
        if self.server.is_some() {
            return Err(String::from_str("Already connected to a server"));
        }
        let words = split_words(arg.as_str());
        if words.len() < 1 {
            return Err(String::from_str("No adress provided"));
        }
        if words.len() < 2 {
            return Err(String::from_str("No username provided"));
        }
        Ok((words[0].clone(), words[1].clone()))
    }

    /// Last step of a join: the first reply of the server to the handshake
    /// sent on `peer`. A greeting makes `peer`, under the token it carries,
    /// the client's session; anything else is the line to show.
    pub fn join_reply(&mut self, peer: Peer<SeMessage>, reply: SeMessage) -> (r: Result<(), String>)
        requires
            old(self).wf(),
            peer.wf(),
        ensures
            final(self).wf(),
            final(self).should_stop == old(self).should_stop,
            match (r, join_reply_spec(reply@)) {
                (Ok(_), Ok(t)) => final(self).server matches Some(q) && q@ == (PeerV {
                    token: t,
                    ..peer@
                }),
                (Err(e), Err(f)) => e@ == f && final(self).server == old(self).server,
                _ => false,
            },
    {
        match reply {
            SeMessage::Hello(msg) => {
                let mut peer = peer;
                peer.token = msg.token;
                self.server = Some(peer);
                Ok(())
            },
            SeMessage::UQuit(mesg) => {
                let mut line = String::from_str("Server refused in connection for the reason: ");
                line.append(mesg.reason.as_str());
                Err(line)
            },
            _ => Err(String::from_str("Error: Expected hello from server, got something else")),
        }
    }
    /// Carries out one console line. A `/join` needs a connection, which
    /// only the caller can open: its argument is handed back for that.
    pub fn process_input(&mut self, input: &String, out: &mut Vec<ClientEffect>) -> (r: Option<String>)
        requires
            old(self).wf(),
        ensures
            final(self).wf(),
            exists|p: int|
                #[trigger] first_space(trim_of(input@), p) && {
                    let t = trim_of(input@);
                    let verb = t.subrange(0, p);
                    let arg = t.subrange(p, t.len() as int);
                    let conn = match old(self).server {
                        Some(q) => Some((q.username@, q.token)),
                        None => None,
                    };
                    if verb == "/join"@ {
                        &&& r matches Some(a) && a@ == arg
                        &&& *final(self) == *old(self)
                        &&& final(out)@ == old(out)@
                    } else {
                        &&& r is None
                        &&& client_views(final(out)@) == client_views(old(out)@) + client_input_spec(
                            conn,
                            verb,
                            arg,
                        )
                        &&& final(self).should_stop == (old(self).should_stop || verb == "/exit"@)
                        &&& final(self).server == if verb == "/disconnect"@ {
                            None
                        } else {
                            old(self).server
                        }
                    }
                },
    {
        let (verb, arg) = split_command(input);
        let ghost t = trim_of(input@);
        let ghost p = choose|p: int|
            first_space(t, p) && verb@ == t.subrange(0, p) && arg@ == t.subrange(p, t.len() as int);
        assert(first_space(t, p));
        proof {
            reveal_strlit("/join");
            reveal_strlit("/help");
            reveal_strlit("/exit");
            reveal_strlit("/disconnect");
            reveal_strlit("/info");
            reveal_strlit("/say");
            assert("/help"@[1] != "/exit"@[1] && "/info"@[1] != "/exit"@[1]);
            assert("/say"@.len() != "/exit"@.len() && "/disconnect"@.len() != "/exit"@.len());
            assert("/help"@.len() != "/disconnect"@.len() && "/info"@.len() != "/disconnect"@.len());
            assert("/say"@.len() != "/disconnect"@.len());
        }
        let ghost before = out@;
        if verb == String::from_str("/join") {
            return Some(arg);
        }
        if verb == String::from_str("/help") {
            out.push(ClientEffect::Show(client_help_text()));
        } else if verb == String::from_str("/exit") {
            self.terminate();
        } else if verb == String::from_str("/disconnect") {
            self.disconnect(out);
        } else if verb == String::from_str("/info") {
            self.request_server_info(out);
        } else if verb == String::from_str("/say") {
            self.say(arg, out);
        } else {
            out.push(ClientEffect::Show(String::from_str("Unrecognized command. Try /help")));
        }
        let ghost conn = match old(self).server {
            Some(q) => Some((q.username@, q.token)),
            None => None,
        };
        assert(client_views(out@) =~= client_views(before) + client_input_spec(conn, verb@, arg@));
        None
    }
}

/// Copies a list of strings.
fn clone_strings(v: &Vec<String>) -> (r: Vec<String>)
    ensures
        string_views(r@) == string_views(v@),
{
    let mut r: Vec<String> = Vec::new();
    let mut i: usize = 0;
    while i < v.len()
        invariant
            i <= v@.len(),
            string_views(r@) == string_views(v@.subrange(0, i as int)),
        decreases v@.len() - i,
    {
        r.push(v[i].clone());
        assert(string_views(v@.subrange(0, i + 1)) =~= string_views(v@.subrange(0, i as int)).push(
            v@[i as int]@,
        ));
        assert(string_views(r@) =~= string_views(v@.subrange(0, i as int)).push(v@[i as int]@));
        i += 1;
    }
    assert(v@.subrange(0, v@.len() as int) =~= v@);
    r
}

} // verus!
