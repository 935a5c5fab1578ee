//! The server's session registry and the dispatch of client messages.
use vstd::prelude::*;
use vstd::set_lib::{lemma_int_range, lemma_len_subset, set_int_range};
use crate::message::{
    ClHello, ClMessage, ClMessageV, PeerState, SeHello, SeInfo, SeMesg, SeMessage, SeMessageV,
    SeUQuit, Token, string_views,
};
use crate::peer::{Peer, PeerV};
use crate::frame::{buffer_views, split_frames};
use crate::command::{first_space, spaced, split_command, split_words, trim_of, words_of};

verus! {

/// Silence, in milliseconds, after which a chatting session is dropped.
pub const MAX_SILENCE_MS: u64 = 10000;

/// Something the registry asks its owner to do.
#[derive(Clone, Debug, PartialEq, Eq)]
pub enum Effect {
    /// Send a message to the session with this token.
    Send(Token, SeMessage),
    /// Show a line on the server's console.
    Report(String),
}

/// Mathematical value of an effect.
pub enum EffectV {
    Send(u64, SeMessageV),
    Report(Seq<char>),
}

impl View for Effect {
    type V = EffectV;

    open spec fn view(&self) -> EffectV {
        match self {
            Effect::Send(t, m) => EffectV::Send(*t, m@),
            Effect::Report(s) => EffectV::Report(s@),
        }
    }
}

/// Values of a sequence of effects.
pub open spec fn effect_views(s: Seq<Effect>) -> Seq<EffectV> {
    s.map_values(|e: Effect| e@)
}

/// Mathematical value of the registry: its sessions, in order of arrival.
pub type Registry = Seq<PeerV<ClMessageV>>;

/// Some session holds token `t`.
pub open spec fn has_token(s: Registry, t: u64) -> bool {
    exists|i: int| 0 <= i < s.len() && s[i].token == t
}

/// Position of the session holding token `t`.
pub open spec fn index_of(s: Registry, t: u64) -> int {
    choose|i: int| 0 <= i < s.len() && s[i].token == t
}

/// No two sessions share a token.
pub open spec fn tokens_unique(s: Registry) -> bool {
    forall|i: int, j: int|
        0 <= i < s.len() && 0 <= j < s.len() && i != j ==> s[i].token != s[j].token
}

/// No two chatting sessions share a username.
pub open spec fn names_unique(s: Registry) -> bool {
    forall|i: int, j: int|
        0 <= i < s.len() && 0 <= j < s.len() && i != j && s[i].state == PeerState::Chatting
            && s[j].state == PeerState::Chatting ==> s[i].username != s[j].username
}

/// At most one session per token, and at most one chatting session per username.
pub open spec fn registry_wf(s: Registry) -> bool {
    tokens_unique(s) && names_unique(s)
}

/// Some chatting session is bound to `name`.
pub open spec fn name_taken(s: Registry, name: Seq<char>) -> bool {
    exists|i: int| 0 <= i < s.len() && s[i].state == PeerState::Chatting && s[i].username == name
}

/// Position of the chatting session bound to `name`.
pub open spec fn name_index(s: Registry, name: Seq<char>) -> int {
    choose|i: int| 0 <= i < s.len() && s[i].state == PeerState::Chatting && s[i].username == name
}

/// The chatting session with token `t` is bound to `name`.
pub open spec fn bound(s: Registry, name: Seq<char>, t: u64) -> bool {
    exists|i: int|
        0 <= i < s.len() && s[i].state == PeerState::Chatting && s[i].username == name && s[i].token
            == t
}

/// Usernames of the chatting sessions, in registry order.
pub open spec fn usernames(s: Registry) -> Seq<Seq<char>>
    decreases s.len(),
{
    if s.len() == 0 {
        Seq::empty()
    } else {
        let r = usernames(s.drop_last());
        if s.last().state == PeerState::Chatting {
            r.push(s.last().username)
        } else {
            r
        }
    }
}

/// One message to every session, in registry order.
pub open spec fn sends(s: Registry, m: SeMessageV) -> Seq<EffectV> {
    s.map_values(|p: PeerV<ClMessageV>| EffectV::Send(p.token, m))
}

/// A broadcast: the text on the console, then to every session.
pub open spec fn broadcast_effects(s: Registry, text: Seq<char>) -> Seq<EffectV> {
    seq![EffectV::Report(text)] + sends(s, SeMessageV::Mesg(text))
}

/// The session `t` is told `reason` and dropped.
pub open spec fn disconnect_spec(s: Registry, t: u64, reason: Seq<char>) -> (Registry, Seq<EffectV>) {
    if has_token(s, t) {
        (s.remove(index_of(s, t)), seq![EffectV::Send(t, SeMessageV::UQuit(reason))])
    } else {
        (s, Seq::empty())
    }
}

/// The session `t` is marked active at `now`.
pub open spec fn keep_spec(s: Registry, t: u64, now: u64) -> Registry {
    if has_token(s, t) {
        s.update(index_of(s, t), PeerV { silent_from: now, ..s[index_of(s, t)] })
    } else {
        s
    }
}

/// Whether a character is alphabetic or numeric in the Unicode sense.
pub uninterp spec fn alphanumeric(c: char) -> bool;

/// Relies on char::is_alphanumeric: whether the character has the Unicode
/// Alphabetic or Numeric property, which depends on the character alone.
#[verifier::external_body]
fn is_alphanumeric(c: char) -> (r: bool)
    ensures
        r == alphanumeric(c),
{
    c.is_alphanumeric()
}

/// Every character of `name` is alphanumeric.
pub open spec fn all_alphanumeric(name: Seq<char>) -> bool {
    forall|i: int| 0 <= i < name.len() ==> #[trigger] alphanumeric(name[i])
}

/// Why a username with a character that is not alphanumeric is refused.
pub open spec fn illegal_name_reason() -> Seq<char> {
    "Username contains illegal character"@
}

/// Why a username already bound is refused.
pub open spec fn name_in_use_reason() -> Seq<char> {
    "Username is in use"@
}

/// The session at `i` becomes bound to `name`.
pub open spec fn joined(s: Registry, i: int, name: Seq<char>) -> Registry {
    s.update(i, PeerV { username: name, state: PeerState::Chatting, ..s[i] })
}

/// Handshake of the session `t` under `name`.
pub open spec fn authorize_spec(s: Registry, t: u64, name: Seq<char>) -> (Registry, Seq<EffectV>) {
    if !has_token(s, t) || s[index_of(s, t)].state == PeerState::Chatting {
        (s, Seq::empty())
    } else if !all_alphanumeric(name) {
        disconnect_spec(s, t, illegal_name_reason())
    } else if name_taken(s, name) {
        disconnect_spec(s, t, name_in_use_reason())
    } else {
        let s2 = joined(s, index_of(s, t), name);
        (s2, seq![EffectV::Send(t, SeMessageV::Hello(t))] + broadcast_effects(s2, name + " joined"@))
    }
}

/// A chat line from `name` holding token `t`: relayed only when the token
/// belongs to a session bound to that very name.
pub open spec fn chat_spec(s: Registry, name: Seq<char>, t: u64, text: Seq<char>) -> (
    Registry,
    Seq<EffectV>,
) {
    if bound(s, name, t) {
        (s, broadcast_effects(s, name + ": "@ + text))
    } else {
        (s, Seq::empty())
    }
}

/// The session `t` is sent the list of bound usernames.
pub open spec fn info_spec(s: Registry, t: u64) -> (Registry, Seq<EffectV>) {
    if has_token(s, t) {
        (s, seq![EffectV::Send(t, SeMessageV::Info(usernames(s)))])
    } else {
        (s, Seq::empty())
    }
}

/// The session `t` leaves; a bound one is announced as gone.
pub open spec fn quit_spec(s: Registry, t: u64) -> (Registry, Seq<EffectV>) {
    let d = disconnect_spec(s, t, Seq::empty());
    if has_token(s, t) && s[index_of(s, t)].state == PeerState::Chatting {
        (d.0, d.1 + broadcast_effects(d.0, s[index_of(s, t)].username + " left"@))
    } else {
        d
    }
}

/// Dispatch of one message received on the connection of session `conn`.
pub open spec fn process_message_spec(s: Registry, conn: u64, m: ClMessageV, now: u64) -> (
    Registry,
    Seq<EffectV>,
) {
    let s0 = keep_spec(s, conn, now);
    match m {
        ClMessageV::Hello(name) => authorize_spec(s0, conn, name),
        ClMessageV::Mesg(name, t, text) => chat_spec(s0, name, t, text),
        ClMessageV::IWantInfo(t) => info_spec(s0, t),
        ClMessageV::IQuit(t) => quit_spec(s0, t),
        ClMessageV::Ping(_) => (s0, Seq::empty()),
    }
}

/// Dispatch of a sequence of (connection, message) pairs, in order.
pub open spec fn process_all_spec(s: Registry, ms: Seq<(u64, ClMessageV)>, now: u64) -> (
    Registry,
    Seq<EffectV>,
)
    decreases ms.len(),
{
    if ms.len() == 0 {
        (s, Seq::empty())
    } else {
        let prev = process_all_spec(s, ms.drop_last(), now);
        let step = process_message_spec(prev.0, ms.last().0, ms.last().1, now);
        (step.0, prev.1 + step.1)
    }
}

/// The messages waiting in every session's queue, sessions in registry order.
pub open spec fn queued(s: Registry) -> Seq<(u64, ClMessageV)>
    decreases s.len(),
{
    if s.len() == 0 {
        Seq::empty()
    } else {
        queued(s.drop_last()) + s.last().messages.map_values(|m: ClMessageV| (s.last().token, m))
    }
}

/// The registry with every inbound queue emptied.
pub open spec fn drained(s: Registry) -> Registry {
    s.map_values(|p: PeerV<ClMessageV>| PeerV { messages: Seq::empty(), ..p })
}

/// Administrative removal of the user `name`.
pub open spec fn kick_spec(s: Registry, name: Seq<char>, reason: Seq<char>) -> (Registry, Seq<EffectV>) {
    if name_taken(s, name) {
        let d = disconnect_spec(s, s[name_index(s, name)].token, reason);
        (d.0, d.1 + broadcast_effects(d.0, name + " was disconnected for the reason: "@ + reason))
    } else {
        (s, seq![EffectV::Report("No such user: "@ + name)])
    }
}

/// A chatting session silent for longer than `MAX_SILENCE_MS` at `now`.
pub open spec fn expired(p: PeerV<ClMessageV>, now: u64) -> bool {
    p.state == PeerState::Chatting && now as int - p.silent_from as int > MAX_SILENCE_MS as int
}

/// Inactivity sweep over the sessions from position `i` on: each expired
/// one is disconnected as timed out and announced to those that remain.
pub open spec fn sweep_spec(s: Registry, now: u64, i: int) -> (Registry, Seq<EffectV>)
    decreases s.len() - i,
{
    if i < 0 || i >= s.len() {
        (s, Seq::empty())
    } else if expired(s[i], now) {
        let d = disconnect_spec(s, s[i].token, "timed out"@);
        let b = broadcast_effects(d.0, "-- "@ + s[i].username + " timed out --"@);
        let rest = sweep_spec(d.0, now, i);
        (rest.0, d.1 + b + rest.1)
    } else {
        sweep_spec(s, now, i + 1)
    }
}

proof fn lemma_index_of(s: Registry, i: int, t: u64)
    requires
        tokens_unique(s),
        0 <= i < s.len(),
        s[i].token == t,
    ensures
        has_token(s, t),
        index_of(s, t) == i,
{
}

proof fn lemma_name_index(s: Registry, i: int, name: Seq<char>)
    requires
        names_unique(s),
        0 <= i < s.len(),
        s[i].state == PeerState::Chatting,
        s[i].username == name,
    ensures
        name_taken(s, name),
        name_index(s, name) == i,
{
}

proof fn lemma_remove_wf(s: Registry, i: int)
    requires
        registry_wf(s),
        0 <= i < s.len(),
    ensures
        registry_wf(s.remove(i)),
{
    let r = s.remove(i);
    assert forall|a: int, b: int| 0 <= a < r.len() && 0 <= b < r.len() && a != b implies r[a].token
        != r[b].token && (r[a].state == PeerState::Chatting && r[b].state == PeerState::Chatting
        ==> r[a].username != r[b].username) by {
        let a2 = if a < i { a } else { a + 1 };
        let b2 = if b < i { b } else { b + 1 };
        assert(r[a] == s[a2] && r[b] == s[b2]);
    }
}

/// Replacing a session by one with the same token, state and username keeps the registry well formed.
proof fn lemma_update_same_identity(s: Registry, i: int, p: PeerV<ClMessageV>)
    requires
        registry_wf(s),
        0 <= i < s.len(),
        p.token == s[i].token,
        p.state == s[i].state,
        p.username == s[i].username,
    ensures
        registry_wf(s.update(i, p)),
{
    let r = s.update(i, p);
    assert forall|a: int, b: int| 0 <= a < r.len() && 0 <= b < r.len() && a != b implies r[a].token
        != r[b].token && (r[a].state == PeerState::Chatting && r[b].state == PeerState::Chatting
        ==> r[a].username != r[b].username) by {
        assert(r[a].token == s[a].token && r[a].state == s[a].state && r[a].username
            == s[a].username);
        assert(r[b].token == s[b].token && r[b].state == s[b].state && r[b].username
            == s[b].username);
    }
}

proof fn lemma_join_wf(s: Registry, i: int, name: Seq<char>)
    requires
        registry_wf(s),
        0 <= i < s.len(),
        !name_taken(s, name),
    ensures
        registry_wf(joined(s, i, name)),
{
    let r = joined(s, i, name);
    assert forall|a: int, b: int| 0 <= a < r.len() && 0 <= b < r.len() && a != b implies r[a].token
        != r[b].token && (r[a].state == PeerState::Chatting && r[b].state == PeerState::Chatting
        ==> r[a].username != r[b].username) by {
        if a != i && b != i {
            assert(r[a] == s[a] && r[b] == s[b]);
        } else if a == i {
            assert(r[b] == s[b]);
            if s[b].state == PeerState::Chatting && s[b].username == name {
                assert(name_taken(s, name));
            }
        } else {
            assert(r[a] == s[a]);
            if s[a].state == PeerState::Chatting && s[a].username == name {
                assert(name_taken(s, name));
            }
        }
    }
}

/// The console's list of commands.
pub open spec fn help_lines() -> Seq<char> {
    "--------------------\nA list of availible commands:\n/help - displays help on commands\n/kick <username> - kicks a user with <username>\n/say <message> - sends a message\n/stop - stops the server\n--------------------"@
}

/// Kick command whose argument is the username followed by the reason.
pub open spec fn kick_arg_spec(s: Registry, arg: Seq<char>) -> (Registry, Seq<EffectV>) {
    let w = words_of(arg);
    if w.len() == 0 {
        (s, seq![EffectV::Report("No username provided"@)])
    } else {
        kick_spec(s, w[0], spaced(w.drop_first()))
    }
}

/// A console command: the new registry, whether the server stops, and the effects.
pub open spec fn input_spec(s: Registry, verb: Seq<char>, arg: Seq<char>) -> (Registry, bool, Seq<EffectV>) {
    if verb == "/help"@ {
        (s, false, seq![EffectV::Report(help_lines())])
    } else if verb == "/stop"@ {
        (Seq::empty(), true, sends(s, SeMessageV::UQuit("Server closed"@)))
    } else if verb == "/kick"@ {
        (kick_arg_spec(s, arg).0, false, kick_arg_spec(s, arg).1)
    } else if verb == "/say"@ {
        (s, false, broadcast_effects(s, "Server -- "@ + arg))
    } else {
        (s, false, seq![EffectV::Report("Unrecognized command. Try /help"@)])
    }
}

/// The console's list of commands.
pub fn help_text() -> (r: String)
    ensures
        r@ == help_lines(),
{
    String::from_str("--------------------\nA list of availible commands:\n/help - displays help on commands\n/kick <username> - kicks a user with <username>\n/say <message> - sends a message\n/stop - stops the server\n--------------------")
}

proof fn lemma_no_effects(s: Seq<EffectV>)
    ensures
        s + Seq::<EffectV>::empty() == s,
{
    assert(s + Seq::<EffectV>::empty() =~= s);
}

/// Whether every character of `name` is alphanumeric.
fn all_alnum(name: &String) -> (r: bool)
    ensures
        r == all_alphanumeric(name@),
{
    let st = name.as_str();
    let n = st.unicode_len();
    let mut i: usize = 0;
    while i < n
        invariant
            n == st@.len(),
            st@ == name@,
            i <= n,
            forall|j: int| 0 <= j < i ==> #[trigger] alphanumeric(name@[j]),
        decreases n - i,
    {
        if !is_alphanumeric(st.get_char(i)) {
            return false;
        }
        i += 1;
    }
    true
}

/// Relies on rand::random for a u64 drawn from the thread-local generator:
/// any value may come back, so nothing is promised of it.
#[verifier::external_body]
fn random_token() -> Token {
    rand::random::<u64>()
}

/// Values of (token, message) pairs.
pub open spec fn pair_views(s: Seq<(Token, ClMessage)>) -> Seq<(u64, ClMessageV)> {
    s.map_values(|p: (Token, ClMessage)| (p.0, p.1@))
}

/// A fresh session with token `t`, created at `now`.
pub open spec fn fresh_peer(t: u64, now: u64) -> PeerV<ClMessageV> {
    PeerV {
        username: Seq::empty(),
        token: t,
        messages: Seq::empty(),
        state: PeerState::AwaitingAuth,
        silent_from: now,
        pending: Seq::empty(),
    }
}

/// Adding a session under a token no live session holds keeps the registry well formed.
pub proof fn lemma_register_wf(s: Registry, t: u64, now: u64)
    requires
        registry_wf(s),
        !has_token(s, t),
    ensures
        registry_wf(s.push(fresh_peer(t, now))),
        has_token(s.push(fresh_peer(t, now)), t),
{
    let r = s.push(fresh_peer(t, now));
    assert(r[s.len() as int].token == t);
    assert forall|a: int, b: int| 0 <= a < r.len() && 0 <= b < r.len() && a != b implies r[a].token
        != r[b].token && (r[a].state == PeerState::Chatting && r[b].state == PeerState::Chatting
        ==> r[a].username != r[b].username) by {
        if a < s.len() && b < s.len() {
            assert(r[a] == s[a] && r[b] == s[b]);
        } else if a < s.len() {
            assert(r[a] == s[a]);
        } else {
            assert(r[b] == s[b]);
        }
    }
}

/// Pigeonhole: when every value below `t` is a live token, there are more than `t` sessions.
proof fn lemma_tokens_below(s: Registry, t: int)
    requires
        0 <= t,
        forall|x: int| 0 <= x < t ==> #[trigger] has_token(s, x as u64),
        t <= u64::MAX + 1,
    ensures
        t <= s.len(),
{
    let toks = s.map_values(|p: PeerV<ClMessageV>| p.token as int);
    let set = toks.to_set();
    assert(set_int_range(0, t).subset_of(set)) by {
        assert forall|x: int| set_int_range(0, t).contains(x) implies set.contains(x) by {
            assert(has_token(s, x as u64));
            let i = choose|i: int| 0 <= i < s.len() && s[i].token == x as u64;
            assert(toks.len() == s.len());
            assert(toks[i] == x);
        }
    }
    lemma_int_range(0, t);
    toks.lemma_cardinality_of_set();
    lemma_len_subset(set_int_range(0, t), set);
}

/// Two sessions ask to join under the same well-formed, unused name: the
/// first is bound to it; the second is refused with "Username is in use" and
/// dropped, and the first binding stays as it was.
pub proof fn lemma_second_join_rejected(s: Registry, t1: u64, t2: u64, name: Seq<char>)
    requires
        registry_wf(s),
        t1 != t2,
        has_token(s, t1),
        has_token(s, t2),
        s[index_of(s, t1)].state != PeerState::Chatting,
        s[index_of(s, t2)].state != PeerState::Chatting,
        all_alphanumeric(name),
        !name_taken(s, name),
    ensures
        bound(authorize_spec(s, t1, name).0, name, t1),
        authorize_spec(authorize_spec(s, t1, name).0, t2, name).1 == seq![
            EffectV::Send(t2, SeMessageV::UQuit(name_in_use_reason())),
        ],
        bound(authorize_spec(authorize_spec(s, t1, name).0, t2, name).0, name, t1),
        !has_token(authorize_spec(authorize_spec(s, t1, name).0, t2, name).0, t2),
{
    let i1 = index_of(s, t1);
    let i2 = index_of(s, t2);
    assert(s[i1].token == t1 && s[i2].token == t2);
    let s1 = joined(s, i1, name);
    lemma_join_wf(s, i1, name);
    assert(authorize_spec(s, t1, name).0 == s1);
    assert(s1[i1].token == t1 && s1[i1].state == PeerState::Chatting && s1[i1].username == name);
    assert(bound(s1, name, t1));
    assert(s1[i2] == s[i2]);
    lemma_index_of(s1, i2, t2);
    assert(name_taken(s1, name));
    let s2 = s1.remove(i2);
    assert(authorize_spec(s1, t2, name).0 == s2);
    let j = if i1 < i2 { i1 } else { i1 - 1 };
    assert(s2[j] == s1[i1]);
    assert(bound(s2, name, t1));
    lemma_remove_wf(s1, i2);
    if has_token(s2, t2) {
        let k = choose|k: int| 0 <= k < s2.len() && s2[k].token == t2;
        let k1 = if k < i2 { k } else { k + 1 };
        assert(s2[k] == s1[k1]);
    }
}

/// A chat line carrying the token of the session bound to `owner`, but
/// claiming the name `claimed`, is not relayed: nothing is sent and the
/// registry only records the activity.
pub proof fn lemma_forged_chat_rejected(
    s: Registry,
    conn: u64,
    owner: Seq<char>,
    claimed: Seq<char>,
    t: u64,
    text: Seq<char>,
    now: u64,
)
    requires
        registry_wf(s),
        bound(s, owner, t),
        owner != claimed,
    ensures
        process_message_spec(s, conn, ClMessageV::Mesg(claimed, t, text), now) == (
            keep_spec(s, conn, now),
            Seq::<EffectV>::empty(),
        ),
{
    let s0 = keep_spec(s, conn, now);
    assert(s0.len() == s.len());
    assert forall|j: int| 0 <= j < s0.len() implies s0[j].token == s[j].token && s0[j].state
        == s[j].state && s0[j].username == s[j].username by {}
    if bound(s0, claimed, t) {
        let j = choose|j: int|
            0 <= j < s0.len() && s0[j].state == PeerState::Chatting && s0[j].username == claimed
                && s0[j].token == t;
        let i = choose|i: int|
            0 <= i < s.len() && s[i].state == PeerState::Chatting && s[i].username == owner
                && s[i].token == t;
        assert(s[j].token == t);
    }
}

/// The registry's sessions, held in order of arrival.
pub struct Server {
    peers: Vec<Peer<ClMessage>>,
    should_stop: bool,
}

impl View for Server {
    type V = Registry;

    closed spec fn view(&self) -> Registry {
        self.peers@.map_values(|p: Peer<ClMessage>| p@)
    }
}

impl Server {
    /// Sessions well formed, tokens and bound usernames unique.
    pub closed spec fn wf(&self) -> bool {
        &&& registry_wf(self@)
        &&& forall|i: int| 0 <= i < self.peers@.len() ==> #[trigger] self.peers@[i].wf()
    }

    /// Whether the server has been told to stop.
    pub closed spec fn stopping(&self) -> bool {
        self.should_stop
    }

    proof fn lemma_view_index(&self, i: int)
        requires
            0 <= i < self.peers@.len(),
        ensures
            self@.len() == self.peers@.len(),
            self@[i] == self.peers@[i]@,
    {
    }

    pub fn new() -> (r: Self)
        ensures
            r.wf(),
            r@ == Seq::<PeerV<ClMessageV>>::empty(),
            !r.stopping(),
    {
        let r = Server { peers: Vec::new(), should_stop: false };
        assert(r@ =~= Seq::<PeerV<ClMessageV>>::empty());
        r
    }

    /// Number of live sessions.
    pub fn len(&self) -> (r: usize)
        ensures
            r == self@.len(),
    {
        self.peers.len()
    }

    /// The session with this token, if any.
    pub fn peer(&self, token: Token) -> (r: Option<&Peer<ClMessage>>)
        requires
            self.wf(),
        ensures
            r is None <==> !has_token(self@, token),
            r matches Some(p) ==> p@ == self@[index_of(self@, token)],
    {
        match self.find(token) {
            Some(i) => Some(&self.peers[i]),
            None => None,
        }
    }

    /// Hands a chunk read from the connection of session `token` to its frame
    /// assembler and returns the payloads of the frames it completes.
    pub fn receive(&mut self, token: Token, chunk: &[u8]) -> (r: Option<Vec<Vec<u8>>>)
        requires
            old(self).wf(),
        ensures
            final(self).wf(),
            final(self).stopping() == old(self).stopping(),
            !has_token(old(self)@, token) ==> r is None && final(self)@ == old(self)@,
            has_token(old(self)@, token) ==> {
                let p = old(self)@[index_of(old(self)@, token)];
                let split = split_frames(p.pending + chunk@);
                &&& final(self)@ == old(self)@.update(
                    index_of(old(self)@, token),
                    PeerV { pending: split.1, ..p },
                )
                &&& (r is None <==> split.0.len() == 0)
                &&& (r is Some ==> buffer_views(r->0@) == split.0)
            },
    {
        match self.find(token) {
            Some(i) => {
                let ghost old_peers = self.peers@;
                let mut p = self.peers.remove(i);
                let r = p.receive(chunk);
                self.peers.insert(i, p);
                proof {
                    lemma_update_same_identity(old(self)@, i as int, p@);
                    assert forall|j: int| 0 <= j < self.peers@.len() implies #[trigger] self.peers@[j].wf() by {
                        if j != i {
                            assert(self.peers@[j] == old_peers[j]);
                        }
                    }
                }
                assert(self@ =~= old(self)@.update(i as int, p@));
                r
            },
            None => None,
        }
    }

    /// Appends decoded messages to the inbound queue of session `token`.
    pub fn push_messages(&mut self, token: Token, mesgs: Vec<ClMessage>)
        requires
            old(self).wf(),
        ensures
            final(self).wf(),
            final(self).stopping() == old(self).stopping(),
            !has_token(old(self)@, token) ==> final(self)@ == old(self)@,
            has_token(old(self)@, token) ==> {
                let p = old(self)@[index_of(old(self)@, token)];
                final(self)@ == old(self)@.update(
                    index_of(old(self)@, token),
                    PeerV { messages: p.messages + mesgs@.map_values(|m: ClMessage| m@), ..p },
                )
            },
    {
        match self.find(token) {
            Some(i) => {
                let ghost old_peers = self.peers@;
                let mut p = self.peers.remove(i);
                p.push_messages(mesgs);
                self.peers.insert(i, p);
                proof {
                    lemma_update_same_identity(old(self)@, i as int, p@);
                    assert forall|j: int| 0 <= j < self.peers@.len() implies #[trigger] self.peers@[j].wf() by {
                        if j != i {
                            assert(self.peers@[j] == old_peers[j]);
                        } else {
                            assert(old_peers[j].wf());
                        }
                    }
                }
                assert(self@ =~= old(self)@.update(i as int, p@));
            },
            None => {},
        }
    }

    /// Tokens of the live sessions, in registry order.
    pub fn tokens(&self) -> (r: Vec<Token>)
        ensures
            r@ == self@.map_values(|p: PeerV<ClMessageV>| p.token),
    {
        let mut r: Vec<Token> = Vec::new();
        let mut i: usize = 0;
        while i < self.peers.len()
            invariant
                i <= self.peers@.len(),
                self@.len() == self.peers@.len(),
                r@ == self@.subrange(0, i as int).map_values(|p: PeerV<ClMessageV>| p.token),
            decreases self.peers@.len() - i,
        {
            proof {
                self.lemma_view_index(i as int);
            }
            r.push(self.peers[i].token);
            assert(self@.subrange(0, i + 1).map_values(|p: PeerV<ClMessageV>| p.token) =~= self@.subrange(
                0,
                i as int,
            ).map_values(|p: PeerV<ClMessageV>| p.token).push(self@[i as int].token));
            i += 1;
        }
        assert(self@.subrange(0, self@.len() as int) =~= self@);
        r
    }

    pub fn should_stop(&self) -> (r: bool)
        ensures
            r == self.stopping(),
    {
        self.should_stop
    }

    /// Position of the session with this token.
    fn find(&self, token: Token) -> (r: Option<usize>)
        requires
            tokens_unique(self@),
        ensures
            r is Some ==> has_token(self@, token) && r->0 as int == index_of(self@, token)
                && r->0 < self.peers@.len(),
            r is None ==> !has_token(self@, token),
    {
        let mut i: usize = 0;
        while i < self.peers.len()
            invariant
                i <= self.peers@.len(),
                self@.len() == self.peers@.len(),
                tokens_unique(self@),
                forall|j: int| 0 <= j < i ==> #[trigger] self@[j].token != token,
            decreases self.peers@.len() - i,
        {
            proof {
                self.lemma_view_index(i as int);
            }
            if self.peers[i].token == token {
                proof {
                    lemma_index_of(self@, i as int, token);
                }
                return Some(i);
            }
            i += 1;
        }
        None
    }

    /// Position of the chatting session bound to this username.
    fn find_name(&self, name: &String) -> (r: Option<usize>)
        requires
            names_unique(self@),
        ensures
            r is Some ==> name_taken(self@, name@) && r->0 as int == name_index(self@, name@)
                && r->0 < self.peers@.len(),
            r is None ==> !name_taken(self@, name@),
    {
        let mut i: usize = 0;
        while i < self.peers.len()
            invariant
                i <= self.peers@.len(),
                self@.len() == self.peers@.len(),
                names_unique(self@),
                forall|j: int|
                    0 <= j < i ==> !(#[trigger] self@[j].state == PeerState::Chatting
                        && self@[j].username == name@),
            decreases self.peers@.len() - i,
        {
            proof {
                self.lemma_view_index(i as int);
            }
            if self.peers[i].state == PeerState::Chatting && self.peers[i].username == *name {
                proof {
                    lemma_name_index(self@, i as int, name@);
                }
                return Some(i);
            }
            i += 1;
        }
        None
    }

    /// Sends `text` to every session and shows it on the console.
    fn broadcast(&self, text: &String, out: &mut Vec<Effect>)
        ensures
            effect_views(final(out)@) == effect_views(old(out)@) + broadcast_effects(self@, text@),
    {
        let ghost m = SeMessageV::Mesg(text@);
        out.push(Effect::Report(text.clone()));
        assert(effect_views(out@) =~= effect_views(old(out)@) + seq![EffectV::Report(text@)]);
        let mut i: usize = 0;
        while i < self.peers.len()
            invariant
                i <= self.peers@.len(),
                self@.len() == self.peers@.len(),
                m == SeMessageV::Mesg(text@),
                effect_views(out@) == effect_views(old(out)@) + seq![EffectV::Report(text@)] + sends(
                    self@.subrange(0, i as int),
                    m,
                ),
            decreases self.peers@.len() - i,
        {
            proof {
                self.lemma_view_index(i as int);
            }
            let ghost before = out@;
            let c = text.clone();
            let tok = self.peers[i].token;
            let sm = SeMessage::Mesg(SeMesg { mesg: c });
            assert(sm@ == m);
            let e = Effect::Send(tok, sm);
            assert(tok == self@[i as int].token);

            out.push(e);
            assert(sends(self@.subrange(0, i + 1), m) =~= sends(self@.subrange(0, i as int), m).push(
                EffectV::Send(self@[i as int].token, m),
            ));
            assert(effect_views(out@) =~= effect_views(before).push(
                EffectV::Send(self@[i as int].token, m),
            ));
            i += 1;
        }
        assert(self@.subrange(0, self@.len() as int) =~= self@);
        assert(broadcast_effects(self@, text@) =~= seq![EffectV::Report(text@)] + sends(self@, m));
    }

    /// Drops the session `token` after telling it why.
    pub fn disconnect(&mut self, token: Token, reason: &String, out: &mut Vec<Effect>)
        requires
            old(self).wf(),
        ensures
            final(self).wf(),
            final(self).stopping() == old(self).stopping(),
            final(self)@ == disconnect_spec(old(self)@, token, reason@).0,
            effect_views(final(out)@) == effect_views(old(out)@) + disconnect_spec(
                old(self)@,
                token,
                reason@,
            ).1,
    {
        match self.find(token) {
            Some(i) => {
                let ghost before = out@;
                out.push(Effect::Send(token, SeMessage::UQuit(SeUQuit { reason: reason.clone() })));
                assert(effect_views(out@) =~= effect_views(before) + seq![
                    EffectV::Send(token, SeMessageV::UQuit(reason@)),
                ]);
                let _gone = self.peers.remove(i);
                assert(self@ =~= old(self)@.remove(i as int));
                proof {
                    lemma_remove_wf(old(self)@, i as int);
                    assert forall|j: int| 0 <= j < self.peers@.len() implies #[trigger] self.peers@[j].wf() by {
                        if j >= i {
                            assert(self.peers@[j] == old(self).peers@[j + 1]);
                        }
                    }
                }
            },
            None => {
                assert(effect_views(out@) =~= effect_views(old(out)@) + Seq::<EffectV>::empty());
            },
        }
    }

    /// Marks the session `token` active at `now`.
    fn keep_peer(&mut self, token: Token, now: u64)
        requires
            old(self).wf(),
        ensures
            final(self).wf(),
            final(self).stopping() == old(self).stopping(),
            final(self)@ == keep_spec(old(self)@, token, now),
    {
        match self.find(token) {
            Some(i) => {
                let mut p = self.peers.remove(i);
                p.keep(now);
                self.peers.insert(i, p);
                assert(self@ =~= keep_spec(old(self)@, token, now));
                proof {
                    lemma_update_same_identity(old(self)@, i as int, p@);
                    assert forall|j: int| 0 <= j < self.peers@.len() implies #[trigger] self.peers@[j].wf() by {
                        if j != i {
                            assert(self.peers@[j] == old(self).peers@[j]);
                        }
                    }
                }
            },
            None => {},
        }
    }
    /// Handshake: binds the session `token` to the requested username, or
    /// disconnects it when the name is malformed or already in use.
    fn authorize(&mut self, token: Token, mesg: &ClHello, out: &mut Vec<Effect>)
        requires
            old(self).wf(),
        ensures
            final(self).wf(),
            final(self).stopping() == old(self).stopping(),
            final(self)@ == authorize_spec(old(self)@, token, mesg.username@).0,
            effect_views(final(out)@) == effect_views(old(out)@) + authorize_spec(
                old(self)@,
                token,
                mesg.username@,
            ).1,
    {
        proof {
            lemma_no_effects(effect_views(old(out)@));
        }
        let i = match self.find(token) {
            Some(i) => i,
            None => {
                return ;
            },
        };
        proof {
            self.lemma_view_index(i as int);
        }
        if self.peers[i].state == PeerState::Chatting {
            return ;
        }
        if !all_alnum(&mesg.username) {
            let reason = String::from_str("Username contains illegal character");
            self.disconnect(token, &reason, out);
            return ;
        }
        if self.find_name(&mesg.username).is_some() {
            let reason = String::from_str("Username is in use");
            self.disconnect(token, &reason, out);
            return ;
        }
        let ghost before = out@;
        out.push(Effect::Send(token, SeMessage::Hello(SeHello { token })));
        assert(effect_views(out@) =~= effect_views(before) + seq![
            EffectV::Send(token, SeMessageV::Hello(token)),
        ]);
        let mut p = self.peers.remove(i);
        p.state = PeerState::Chatting;
        p.username = mesg.username.clone();
        self.peers.insert(i, p);
        assert(self@ =~= joined(old(self)@, i as int, mesg.username@));
        proof {
            lemma_join_wf(old(self)@, i as int, mesg.username@);
            assert forall|j: int| 0 <= j < self.peers@.len() implies #[trigger] self.peers@[j].wf() by {
                if j != i {
                    assert(self.peers@[j] == old(self).peers@[j]);
                } else {
                    assert(old(self).peers@[j].wf());
                }
            }
        }
        let mut note = mesg.username.clone();
        note.append(" joined");
        self.broadcast(&note, out);
        assert(effect_views(out@) =~= effect_views(old(out)@) + (seq![
            EffectV::Send(token, SeMessageV::Hello(token)),
        ] + broadcast_effects(self@, note@)));
    }

    /// Whether `token` belongs to a chatting session bound to `username`.
    fn verify(&self, token: Token, username: &String) -> (r: bool)
        requires
            tokens_unique(self@),
        ensures
            r == bound(self@, username@, token),
    {
        match self.find(token) {
            Some(i) => {
                proof {
                    self.lemma_view_index(i as int);
                }
                self.peers[i].state == PeerState::Chatting && self.peers[i].username == *username
            },
            None => false,
        }
    }

    /// Relays a chat line to everyone, if its sender is who it claims to be.
    fn chat(&self, mesg: &crate::message::ClMesg, out: &mut Vec<Effect>)
        requires
            tokens_unique(self@),
        ensures
            effect_views(final(out)@) == effect_views(old(out)@) + chat_spec(
                self@,
                mesg.username@,
                mesg.token,
                mesg.mesg@,
            ).1,
    {
        if self.verify(mesg.token, &mesg.username) {
            let mut line = mesg.username.clone();
            line.append(": ");
            line.append(mesg.mesg.as_str());
            self.broadcast(&line, out);
        } else {
            proof {
                lemma_no_effects(effect_views(old(out)@));
            }
        }
    }

    /// Usernames of the chatting sessions, in registry order.
    pub fn user_list(&self) -> (r: Vec<String>)
        ensures
            string_views(r@) == usernames(self@),
    {
        let mut users: Vec<String> = Vec::new();
        let mut i: usize = 0;
        while i < self.peers.len()
            invariant
                i <= self.peers@.len(),
                self@.len() == self.peers@.len(),
                string_views(users@) == usernames(self@.subrange(0, i as int)),
            decreases self.peers@.len() - i,
        {
            proof {
                self.lemma_view_index(i as int);
            }
            let ghost before = users@;
            assert(self@.subrange(0, i + 1).drop_last() =~= self@.subrange(0, i as int));
            if self.peers[i].state == PeerState::Chatting {
                users.push(self.peers[i].username.clone());
                assert(string_views(users@) =~= string_views(before).push(self@[i as int].username));
            }
            i += 1;
        }
        assert(self@.subrange(0, self@.len() as int) =~= self@);
        users
    }

    /// Answers an information request with the list of bound usernames.
    fn send_info(&self, token: Token, out: &mut Vec<Effect>)
        requires
            tokens_unique(self@),
        ensures
            effect_views(final(out)@) == effect_views(old(out)@) + info_spec(self@, token).1,
    {
        if self.find(token).is_some() {
            let users = self.user_list();
            let ghost before = out@;
            out.push(Effect::Send(token, SeMessage::Info(SeInfo { users })));
            assert(effect_views(out@) =~= effect_views(before) + seq![
                EffectV::Send(token, SeMessageV::Info(usernames(self@))),
            ]);
        } else {
            proof {
                lemma_no_effects(effect_views(old(out)@));
            }
        }
    }

    /// The session `token` leaves; a bound one is announced as gone.
    fn quit(&mut self, token: Token, out: &mut Vec<Effect>)
        requires
            old(self).wf(),
        ensures
            final(self).wf(),
            final(self).stopping() == old(self).stopping(),
            final(self)@ == quit_spec(old(self)@, token).0,
            effect_views(final(out)@) == effect_views(old(out)@) + quit_spec(old(self)@, token).1,
    {
        match self.find(token) {
            Some(i) => {
                proof {
                    self.lemma_view_index(i as int);
                }
                let chatting = self.peers[i].state == PeerState::Chatting;
                let mut note = self.peers[i].username.clone();
                let empty = String::new();
                self.disconnect(token, &empty, out);
                if chatting {
                    note.append(" left");
                    let ghost mid = out@;
                    self.broadcast(&note, out);
                    assert(effect_views(out@) =~= effect_views(old(out)@) + (effect_views(mid).subrange(
                        effect_views(old(out)@).len() as int,
                        effect_views(mid).len() as int,
                    ) + broadcast_effects(self@, note@)));
                }
            },
            None => {
                let empty = String::new();
                self.disconnect(token, &empty, out);
            },
        }
    }

    /// Dispatches one message received on the connection of session `token`.
    pub fn process_message(&mut self, token: Token, mesg: ClMessage, now: u64, out: &mut Vec<Effect>)
        requires
            old(self).wf(),
        ensures
            final(self).wf(),
            final(self).stopping() == old(self).stopping(),
            final(self)@ == process_message_spec(old(self)@, token, mesg@, now).0,
            effect_views(final(out)@) == effect_views(old(out)@) + process_message_spec(
                old(self)@,
                token,
                mesg@,
                now,
            ).1,
    {
        self.keep_peer(token, now);
        match mesg {
            ClMessage::Hello(m) => self.authorize(token, &m, out),
            ClMessage::Mesg(m) => self.chat(&m, out),
            ClMessage::IWantInfo(t) => self.send_info(t, out),
            ClMessage::IQuit(t) => self.quit(t, out),
            ClMessage::Ping(_) => {
                proof {
                    lemma_no_effects(effect_views(old(out)@));
                }
            },
        }
    }

    /// A token that no live session holds: drawn at random, with a search
    /// for the smallest free value should every draw collide.
    pub fn make_token(&self) -> (r: Token)
        requires
            self.wf(),
        ensures
            !has_token(self@, r),
    {
        let mut attempt: usize = 0;
        while attempt < 16
            invariant
                tokens_unique(self@),
            decreases 16 - attempt,
        {
            let token: Token = random_token();
            if self.find(token).is_none() {
                return token;
            }
            attempt += 1;
        }
        let n = self.peers.len();
        let mut t: u64 = 0;
        loop
            invariant
                tokens_unique(self@),
                self@.len() == n,
                t <= self@.len(),
                forall|x: int| 0 <= x < t ==> #[trigger] has_token(self@, x as u64),
            decreases self@.len() - t,
        {
            if self.find(t).is_none() {
                return t;
            }
            proof {
                assert forall|x: int| 0 <= x < t + 1 implies #[trigger] has_token(self@, x as u64) by {
                    if x == t {
                        assert(has_token(self@, t));
                    }
                }
                lemma_tokens_below(self@, t + 1);
                assert(usize::MAX <= u64::MAX);
            }
            t += 1;
        }
    }

    /// Admits a new connection: a session awaiting its handshake, under a
    /// fresh token, which is returned.
    pub fn register(&mut self, now: u64) -> (r: Token)
        requires
            old(self).wf(),
        ensures
            final(self).wf(),
            final(self).stopping() == old(self).stopping(),
            !has_token(old(self)@, r),
            final(self)@ == old(self)@.push(fresh_peer(r, now)),
    {
        let token = self.make_token();
        let peer: Peer<ClMessage> = Peer::new(&token, now);
        self.peers.push(peer);
        assert(self@ =~= old(self)@.push(fresh_peer(token, now)));
        proof {
            lemma_register_wf(old(self)@, token, now);
            assert forall|j: int| 0 <= j < self.peers@.len() implies #[trigger] self.peers@[j].wf() by {
                if j < old(self).peers@.len() {
                    assert(self.peers@[j] == old(self).peers@[j]);
                }
            }
        }
        token
    }

    /// Takes every session's queued messages out, sessions in registry order.
    fn drain_queues(&mut self) -> (r: Vec<(Token, ClMessage)>)
        requires
            old(self).wf(),
        ensures
            final(self).wf(),
            final(self).stopping() == old(self).stopping(),
            final(self)@ == drained(old(self)@),
            pair_views(r@) == queued(old(self)@),
    {
        let ghost s0 = old(self)@;
        let mut messages: Vec<(Token, ClMessage)> = Vec::new();
        let mut i: usize = 0;
        assert(pair_views(messages@) =~= queued(s0.subrange(0, 0)));
        while i < self.peers.len()
            invariant
                self.wf(),
                self.should_stop == old(self).should_stop,
                s0 == old(self)@,
                i <= self.peers@.len(),
                self@.len() == self.peers@.len(),
                self@.len() == s0.len(),
                forall|j: int| 0 <= j < i ==> #[trigger] self@[j] == (PeerV { messages: Seq::empty(), ..s0[j] }),
                forall|j: int| i <= j < s0.len() ==> #[trigger] self@[j] == s0[j],
                pair_views(messages@) == queued(s0.subrange(0, i as int)),
            decreases self.peers@.len() - i,
        {
            proof {
                self.lemma_view_index(i as int);
            }
            let ghost s1 = self@;
            let ghost old_peers = self.peers@;
            let ghost before = messages@;
            let mut p = self.peers.remove(i);
            let mut q: Vec<ClMessage> = Vec::new();
            core::mem::swap(&mut q, &mut p.messages);
            let tok = p.token;
            let ghost qs = q@;
            assert(qs.map_values(|m: ClMessage| m@) == s0[i as int].messages);
            assert(p.messages@.map_values(|m: ClMessage| m@) =~= Seq::<ClMessageV>::empty());
            assert(p@ == PeerV { messages: Seq::empty(), ..s1[i as int] });
            self.peers.insert(i, p);
            assert(self@ =~= s1.update(i as int, PeerV { messages: Seq::empty(), ..s1[i as int] }));
            proof {
                lemma_update_same_identity(s1, i as int, self@[i as int]);
                assert forall|j: int| 0 <= j < self.peers@.len() implies #[trigger] self.peers@[j].wf() by {
                    if j != i {
                        assert(self.peers@[j] == old_peers[j]);
                    } else {
                        assert(old_peers[j].wf());
                    }
                }
            }
            let qn = q.len();
            let mut k: usize = 0;
            while q.len() > 0
                invariant
                    qs.len() == qn,
                    i < s0.len(),
                    pair_views(before) == queued(s0.subrange(0, i as int)),
                    tok == s0[i as int].token,
                    qs.map_values(|m: ClMessage| m@) == s0[i as int].messages,
                    k <= qs.len(),
                    q@ == qs.subrange(k as int, qs.len() as int),
                    pair_views(messages@) == pair_views(before) + qs.subrange(0, k as int).map_values(
                        |m: ClMessage| (tok, m@),
                    ),
                decreases q@.len(),
            {
                let m = q.remove(0);
                let ghost mid = messages@;
                messages.push((tok, m));
                assert(qs.subrange(0, k + 1) =~= qs.subrange(0, k as int).push(m));
                assert(pair_views(messages@) =~= pair_views(mid).push((tok, m@)));
                assert(qs.subrange(0, k + 1).map_values(|m: ClMessage| (tok, m@)) =~= qs.subrange(
                    0,
                    k as int,
                ).map_values(|m: ClMessage| (tok, m@)).push((tok, m@)));
                k += 1;
                assert(q@ =~= qs.subrange(k as int, qs.len() as int));
            }
            assert(q@.len() == 0);
            assert(k == qs.len());
            assert(qs.subrange(0, k as int) =~= qs);
            assert(pair_views(messages@) == pair_views(before) + qs.map_values(|m: ClMessage| (tok, m@)));
            assert(s0.subrange(0, i + 1).drop_last() =~= s0.subrange(0, i as int));
            assert(s0.subrange(0, i + 1).last() == s0[i as int]);
            assert(qs.map_values(|m: ClMessage| (tok, m@)) =~= s0[i as int].messages.map_values(
                |m: ClMessageV| (s0[i as int].token, m),
            ));
            assert(queued(s0.subrange(0, i + 1)) == queued(s0.subrange(0, i as int))
                + s0[i as int].messages.map_values(|m: ClMessageV| (s0[i as int].token, m)));
            assert(pair_views(messages@) == queued(s0.subrange(0, i + 1)));
            i += 1;
        }
        assert(self@ =~= drained(s0));
        assert(s0.subrange(0, s0.len() as int) =~= s0);
        messages
    }

    /// Drains every session's inbound queue and dispatches the messages in
    /// order: sessions in registry order, each queue oldest first.
    pub fn process_messages(&mut self, now: u64, out: &mut Vec<Effect>)
        requires
            old(self).wf(),
        ensures
            final(self).wf(),
            final(self).stopping() == old(self).stopping(),
            final(self)@ == process_all_spec(drained(old(self)@), queued(old(self)@), now).0,
            effect_views(final(out)@) == effect_views(old(out)@) + process_all_spec(
                drained(old(self)@),
                queued(old(self)@),
                now,
            ).1,
    {
        let mut messages = self.drain_queues();
        let total = messages.len();
        let ghost all = pair_views(messages@);
        let ghost s0 = self@;
        let ghost e0 = effect_views(out@);
        let mut k: usize = 0;
        assert(all.subrange(0, 0) =~= Seq::<(u64, ClMessageV)>::empty());
        proof {
            lemma_no_effects(e0);
        }
        while messages.len() > 0
            invariant
                self.wf(),
                self.should_stop == old(self).should_stop,
                e0 == effect_views(old(out)@),
                s0 == drained(old(self)@),
                all == queued(old(self)@),
                all.len() == total,
                k <= all.len(),
                pair_views(messages@) == all.subrange(k as int, all.len() as int),
                self@ == process_all_spec(s0, all.subrange(0, k as int), now).0,
                effect_views(out@) == e0 + process_all_spec(s0, all.subrange(0, k as int), now).1,
            decreases messages@.len(),
        {
            let ghost m_before = messages@;
            assert(pair_views(m_before).len() == m_before.len());
            let (token, mesg) = messages.remove(0);
            assert(messages@ =~= m_before.subrange(1, m_before.len() as int));
            assert(pair_views(messages@) =~= pair_views(m_before).subrange(1, m_before.len() as int));
            assert(pair_views(messages@) =~= all.subrange(k + 1, all.len() as int));
            assert(all.subrange(0, k + 1).drop_last() =~= all.subrange(0, k as int));
            assert(pair_views(m_before)[0] == (token, mesg@));
            assert(all[k as int] == (token, mesg@));
            assert(all.subrange(0, k + 1).last() == all[k as int]);
            self.process_message(token, mesg, now, out);
            k += 1;
            assert(e0 + process_all_spec(s0, all.subrange(0, k as int), now).1 =~= effect_views(out@));
        }
        assert(all.subrange(0, all.len() as int) =~= all);
    }

    /// Inactivity sweep: every chatting session silent for longer than
    /// `MAX_SILENCE_MS` at `now` is disconnected as timed out, and those that
    /// remain are told.
    pub fn kick_inactive(&mut self, now: u64, out: &mut Vec<Effect>)
        requires
            old(self).wf(),
        ensures
            final(self).wf(),
            final(self).stopping() == old(self).stopping(),
            final(self)@ == sweep_spec(old(self)@, now, 0).0,
            effect_views(final(out)@) == effect_views(old(out)@) + sweep_spec(old(self)@, now, 0).1,
    {
        let mut i: usize = 0;
        proof {
            lemma_no_effects(effect_views(old(out)@));
        }
        while i < self.peers.len()
            invariant
                self.wf(),
                self.should_stop == old(self).should_stop,
                self@.len() == self.peers@.len(),
                sweep_spec(self@, now, i as int).0 == sweep_spec(old(self)@, now, 0).0,
                effect_views(out@) + sweep_spec(self@, now, i as int).1 == effect_views(old(out)@)
                    + sweep_spec(old(self)@, now, 0).1,
            decreases self.peers@.len() - i,
        {
            proof {
                self.lemma_view_index(i as int);
            }
            let ghost s1 = self@;
            let ghost e1 = effect_views(out@);
            let silent_from = self.peers[i].silent_from;
            if self.peers[i].state == PeerState::Chatting && now > silent_from && now - silent_from
                > MAX_SILENCE_MS {
                let tok = self.peers[i].token;
                let mut note = String::from_str("-- ");
                note.append(self.peers[i].username.as_str());
                note.append(" timed out --");
                let reason = String::from_str("timed out");
                self.disconnect(tok, &reason, out);
                self.broadcast(&note, out);
                assert(effect_views(out@) + sweep_spec(self@, now, i as int).1 =~= e1 + sweep_spec(
                    s1,
                    now,
                    i as int,
                ).1);
            } else {
                i += 1;
            }
        }
        proof {
            lemma_no_effects(effect_views(out@));
        }
    }    /// Administrative removal of the user `username`, or a report that no
    /// such user is bound.
    pub fn kick_user(&mut self, username: &String, reason: &String, out: &mut Vec<Effect>)
        requires
            old(self).wf(),
        ensures
            final(self).wf(),
            final(self).stopping() == old(self).stopping(),
            final(self)@ == kick_spec(old(self)@, username@, reason@).0,
            effect_views(final(out)@) == effect_views(old(out)@) + kick_spec(
                old(self)@,
                username@,
                reason@,
            ).1,
    {
        match self.find_name(username) {
            Some(i) => {
                proof {
                    self.lemma_view_index(i as int);
                }
                let tok = self.peers[i].token;
                self.disconnect(tok, reason, out);
                let ghost mid = out@;
                let mut note = username.clone();
                note.append(" was disconnected for the reason: ");
                note.append(reason.as_str());
                self.broadcast(&note, out);
                assert(effect_views(out@) =~= effect_views(old(out)@) + (effect_views(mid).subrange(
                    effect_views(old(out)@).len() as int,
                    effect_views(mid).len() as int,
                ) + broadcast_effects(self@, note@)));
            },
            None => {
                let mut line = String::from_str("No such user: ");
                line.append(username.as_str());
                let ghost before = out@;
                out.push(Effect::Report(line));
                assert(effect_views(out@) =~= effect_views(before) + seq![EffectV::Report(line@)]);
            },
        }
    }

    /// Kick command: the first word of `arg` names the user, the words after
    /// it, each followed by a space, give the reason.
    pub fn kick(&mut self, arg: &String, out: &mut Vec<Effect>)
        requires
            old(self).wf(),
        ensures
            final(self).wf(),
            final(self).stopping() == old(self).stopping(),
            final(self)@ == kick_arg_spec(old(self)@, arg@).0,
            effect_views(final(out)@) == effect_views(old(out)@) + kick_arg_spec(old(self)@, arg@).1,
    {
        let words = split_words(arg.as_str());
        let ghost w = words_of(arg@);
        if words.len() == 0 {
            let line = String::from_str("No username provided");
            let ghost before = out@;
            out.push(Effect::Report(line));
            assert(effect_views(out@) =~= effect_views(before) + seq![EffectV::Report(line@)]);
            return ;
        }
        let mut reason = String::new();
        let mut i: usize = 1;
        assert(w.subrange(1, 1) =~= Seq::<Seq<char>>::empty());
        while i < words.len()
            invariant
                w == crate::message::string_views(words@),
                1 <= i <= words@.len(),
                reason@ == spaced(w.subrange(1, i as int)),
            decreases words@.len() - i,
        {
            reason.append(words[i].as_str());
            reason.append(" ");
            assert(w.subrange(1, i + 1).drop_last() =~= w.subrange(1, i as int));
            assert(w[i as int] == words@[i as int]@);
            i += 1;
        }
        assert(w.subrange(1, w.len() as int) =~= w.drop_first());
        assert(w[0] == words@[0]@);
        self.kick_user(&words[0], &reason, out);
    }

    /// Tells every session the server is closing, drops them all, and marks
    /// the server as stopping.
    fn stop(&mut self, out: &mut Vec<Effect>)
        requires
            old(self).wf(),
        ensures
            final(self).wf(),
            final(self).stopping(),
            final(self)@ == Seq::<PeerV<ClMessageV>>::empty(),
            effect_views(final(out)@) == effect_views(old(out)@) + sends(
                old(self)@,
                SeMessageV::UQuit("Server closed"@),
            ),
    {
        let ghost s0 = self@;
        let ghost m = SeMessageV::UQuit("Server closed"@);
        let reason = String::from_str("Server closed");
        let ghost mut k: int = 0;
        assert(s0.subrange(0, s0.len() as int) =~= s0);
        assert(effect_views(out@) =~= effect_views(old(out)@) + sends(s0.subrange(0, 0), m));
        while self.peers.len() > 0
            invariant
                self.wf(),
                m == SeMessageV::UQuit(reason@),
                0 <= k <= s0.len(),
                self@ == s0.subrange(k, s0.len() as int),
                effect_views(out@) == effect_views(old(out)@) + sends(s0.subrange(0, k), m),
            decreases self.peers@.len(),
        {
            proof {
                self.lemma_view_index(0);
            }
            let tok = self.peers[0].token;
            proof {
                lemma_index_of(self@, 0, tok);
            }
            let ghost e1 = effect_views(out@);
            self.disconnect(tok, &reason, out);
            assert(self@ =~= s0.subrange(k + 1, s0.len() as int));
            assert(sends(s0.subrange(0, k + 1), m) =~= sends(s0.subrange(0, k), m).push(
                EffectV::Send(s0[k].token, m),
            ));
            assert(effect_views(out@) =~= e1.push(EffectV::Send(s0[k].token, m)));
            proof {
                k = k + 1;
            }
        }
        assert(s0.subrange(0, s0.len() as int) =~= s0);
        self.should_stop = true;
        assert(self@ =~= Seq::<PeerV<ClMessageV>>::empty());
    }

    /// Carries out one console line: `/help`, `/stop`, `/kick <user> <reason>`
    /// or `/say <text>`; anything else is reported as unrecognized.
    pub fn process_input(&mut self, input: &String, out: &mut Vec<Effect>)
        requires
            old(self).wf(),
        ensures
            final(self).wf(),
            exists|p: int|
                #[trigger] first_space(trim_of(input@), p) && {
                    let t = trim_of(input@);
                    let r = input_spec(old(self)@, t.subrange(0, p), t.subrange(p, t.len() as int));
                    &&& final(self)@ == r.0
                    &&& final(self).stopping() == (old(self).stopping() || r.1)
                    &&& effect_views(final(out)@) == effect_views(old(out)@) + r.2
                },
    {
        let (verb, arg) = split_command(input);
        let help = String::from_str("/help");
        let stop = String::from_str("/stop");
        let kick = String::from_str("/kick");
        let say = String::from_str("/say");
        if verb == help {
            let ghost before = out@;
            let text = help_text();
            out.push(Effect::Report(text));
            assert(effect_views(out@) =~= effect_views(before) + seq![EffectV::Report(help_lines())]);
        } else if verb == stop {
            self.stop(out);
        } else if verb == kick {
            self.kick(&arg, out);
        } else if verb == say {
            let mut line = String::from_str("Server -- ");
            line.append(arg.as_str());
            self.broadcast(&line, out);
        } else {
            let line = String::from_str("Unrecognized command. Try /help");
            let ghost before = out@;
            out.push(Effect::Report(line));
            assert(effect_views(out@) =~= effect_views(before) + seq![EffectV::Report(line@)]);
        }
    }
}

} // verus!
