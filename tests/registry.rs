use tinychat::message::{ClHello, ClMesg, ClMessage, SeHello, SeInfo, SeMesg, SeMessage, SeUQuit};
use tinychat::server::{help_text, Effect, Server};

fn s(x: &str) -> String {
    x.to_string()
}

fn mesg(t: u64, text: &str) -> Effect {
    Effect::Send(t, SeMessage::Mesg(SeMesg { mesg: s(text) }))
}

fn uquit(t: u64, reason: &str) -> Effect {
    Effect::Send(t, SeMessage::UQuit(SeUQuit { reason: s(reason) }))
}

fn hello(name: &str) -> ClMessage {
    ClMessage::Hello(ClHello { username: s(name) })
}

fn joined(server: &mut Server, name: &str, now: u64) -> u64 {
    let t = server.register(now);
    let mut out = Vec::new();
    server.process_message(t, hello(name), now, &mut out);
    assert_eq!(out[0], Effect::Send(t, SeMessage::Hello(SeHello { token: t })));
    t
}

#[test]
fn join_then_chat_reaches_everyone() {
    let mut server = Server::new();
    let other = server.register(0);
    let t = server.register(0);
    let mut out = Vec::new();
    server.process_message(t, hello("carol"), 1, &mut out);
    assert_eq!(
        out,
        vec![
            Effect::Send(t, SeMessage::Hello(SeHello { token: t })),
            Effect::Report(s("carol joined")),
            mesg(other, "carol joined"),
            mesg(t, "carol joined"),
        ]
    );
    let mut out = Vec::new();
    let chat = ClMessage::Mesg(ClMesg { username: s("carol"), token: t, mesg: s("hi") });
    server.process_message(t, chat, 2, &mut out);
    assert_eq!(
        out,
        vec![Effect::Report(s("carol: hi")), mesg(other, "carol: hi"), mesg(t, "carol: hi")]
    );
}

#[test]
fn second_join_with_same_name_is_rejected() {
    let mut server = Server::new();
    let first = joined(&mut server, "alice", 0);
    let second = server.register(0);
    let mut out = Vec::new();
    server.process_message(second, hello("alice"), 1, &mut out);
    assert_eq!(out, vec![uquit(second, "Username is in use")]);
    assert_eq!(server.len(), 1);
    assert_eq!(server.user_list(), vec![s("alice")]);
    assert_eq!(server.peer(first).unwrap().username, "alice");
    assert!(server.peer(second).is_none());
}

#[test]
fn illegal_username_is_rejected() {
    let mut server = Server::new();
    let t = server.register(0);
    let mut out = Vec::new();
    server.process_message(t, hello("bad name!"), 1, &mut out);
    assert_eq!(out, vec![uquit(t, "Username contains illegal character")]);
    assert_eq!(server.len(), 0);
}

#[test]
fn hello_while_chatting_is_ignored() {
    let mut server = Server::new();
    let t = joined(&mut server, "bob", 0);
    let mut out = Vec::new();
    server.process_message(t, hello("other"), 1, &mut out);
    assert!(out.is_empty());
    assert_eq!(server.user_list(), vec![s("bob")]);
}

#[test]
fn forged_chat_is_not_relayed() {
    let mut server = Server::new();
    let alice = joined(&mut server, "alice", 0);
    let _bob = joined(&mut server, "bob", 0);
    let mut out = Vec::new();
    let chat = ClMessage::Mesg(ClMesg { username: s("bob"), token: alice, mesg: s("x") });
    server.process_message(alice, chat, 1, &mut out);
    assert!(out.is_empty());
}

#[test]
fn chat_with_unknown_token_is_ignored() {
    let mut server = Server::new();
    let alice = joined(&mut server, "alice", 0);
    let mut out = Vec::new();
    let bogus = alice.wrapping_add(1);
    let chat = ClMessage::Mesg(ClMesg { username: s("alice"), token: bogus, mesg: s("x") });
    server.process_message(alice, chat, 1, &mut out);
    assert!(out.is_empty());
}

#[test]
fn info_lists_bound_users() {
    let mut server = Server::new();
    let a = joined(&mut server, "alice", 0);
    let _waiting = server.register(0);
    let _b = joined(&mut server, "bob", 0);
    let mut out = Vec::new();
    server.process_message(a, ClMessage::IWantInfo(a), 1, &mut out);
    assert_eq!(
        out,
        vec![Effect::Send(a, SeMessage::Info(SeInfo { users: vec![s("alice"), s("bob")] }))]
    );
}

#[test]
fn quit_acknowledges_and_announces() {
    let mut server = Server::new();
    let a = joined(&mut server, "alice", 0);
    let b = joined(&mut server, "bob", 0);
    let mut out = Vec::new();
    server.process_message(a, ClMessage::IQuit(a), 1, &mut out);
    assert_eq!(out, vec![uquit(a, ""), Effect::Report(s("alice left")), mesg(b, "alice left")]);
    assert_eq!(server.len(), 1);
}

#[test]
fn silent_session_times_out() {
    let mut server = Server::new();
    let carol = joined(&mut server, "carol", 0);
    let dave = joined(&mut server, "dave", 0);
    let mut out = Vec::new();
    server.process_message(dave, ClMessage::Ping(dave), 5000, &mut out);
    assert!(out.is_empty());
    server.kick_inactive(10000, &mut out);
    assert!(out.is_empty());
    server.kick_inactive(10001, &mut out);
    assert_eq!(
        out,
        vec![
            uquit(carol, "timed out"),
            Effect::Report(s("-- carol timed out --")),
            mesg(dave, "-- carol timed out --"),
        ]
    );
    assert_eq!(server.tokens(), vec![dave]);
}

#[test]
fn awaiting_session_does_not_time_out() {
    let mut server = Server::new();
    let _t = server.register(0);
    let mut out = Vec::new();
    server.kick_inactive(60000, &mut out);
    assert!(out.is_empty());
    assert_eq!(server.len(), 1);
}

#[test]
fn kick_unknown_user_reports_only() {
    let mut server = Server::new();
    let a = joined(&mut server, "alice", 0);
    let mut out = Vec::new();
    server.kick_user(&s("dave"), &s("spam"), &mut out);
    assert_eq!(out, vec![Effect::Report(s("No such user: dave"))]);
    let mut out = Vec::new();
    server.kick(&s("dave spam"), &mut out);
    assert_eq!(out, vec![Effect::Report(s("No such user: dave"))]);
    assert_eq!(server.tokens(), vec![a]);
}

#[test]
fn kick_bound_user() {
    let mut server = Server::new();
    let a = joined(&mut server, "alice", 0);
    let d = joined(&mut server, "dave", 0);
    let mut out = Vec::new();
    server.kick(&s("  dave  too   much spam "), &mut out);
    assert_eq!(
        out,
        vec![
            uquit(d, "too much spam "),
            Effect::Report(s("dave was disconnected for the reason: too much spam ")),
            mesg(a, "dave was disconnected for the reason: too much spam "),
        ]
    );
    assert_eq!(server.tokens(), vec![a]);
}

#[test]
fn kick_without_name() {
    let mut server = Server::new();
    let mut out = Vec::new();
    server.kick(&s("   "), &mut out);
    assert_eq!(out, vec![Effect::Report(s("No username provided"))]);
}

#[test]
fn console_commands() {
    let mut server = Server::new();
    let a = joined(&mut server, "alice", 0);
    let mut out = Vec::new();
    server.process_input(&s("  /say hello\n"), &mut out);
    assert_eq!(out, vec![Effect::Report(s("Server --  hello")), mesg(a, "Server --  hello")]);
    let mut out = Vec::new();
    server.process_input(&s("/help\n"), &mut out);
    assert_eq!(out, vec![Effect::Report(help_text())]);
    let mut out = Vec::new();
    server.process_input(&s("/dance"), &mut out);
    assert_eq!(out, vec![Effect::Report(s("Unrecognized command. Try /help"))]);
    let mut out = Vec::new();
    server.process_input(&s("/kick alice bye"), &mut out);
    assert_eq!(out[0], uquit(a, "bye "));
    assert_eq!(server.len(), 0);
}

#[test]
fn stop_closes_every_session() {
    let mut server = Server::new();
    let a = joined(&mut server, "alice", 0);
    let w = server.register(0);
    assert!(!server.should_stop());
    let mut out = Vec::new();
    server.process_input(&s("/stop"), &mut out);
    assert_eq!(out, vec![uquit(a, "Server closed"), uquit(w, "Server closed")]);
    assert!(server.should_stop());
    assert_eq!(server.len(), 0);
}

#[test]
fn tokens_are_unique() {
    let mut server = Server::new();
    let mut seen = std::collections::HashSet::new();
    for _ in 0..2000 {
        let t = server.register(0);
        assert!(seen.insert(t));
    }
    assert_eq!(server.len(), 2000);
    let fresh = server.make_token();
    assert!(!seen.contains(&fresh));
}

#[test]
fn received_frames_are_queued_and_dispatched_in_order() {
    let mut server = Server::new();
    let a = joined(&mut server, "alice", 0);
    assert_eq!(server.receive(a, &[2, 0, 7]), None);
    assert_eq!(server.receive(a, &[8, 1, 0, 9]), Some(vec![vec![7, 8], vec![9]]));
    server.push_messages(
        a,
        vec![
            ClMessage::Mesg(ClMesg { username: s("alice"), token: a, mesg: s("one") }),
            ClMessage::Mesg(ClMesg { username: s("alice"), token: a, mesg: s("two") }),
        ],
    );
    assert_eq!(server.peer(a).unwrap().messages.len(), 2);
    let mut out = Vec::new();
    server.process_messages(3, &mut out);
    assert_eq!(
        out,
        vec![
            Effect::Report(s("alice: one")),
            mesg(a, "alice: one"),
            Effect::Report(s("alice: two")),
            mesg(a, "alice: two"),
        ]
    );
    let p = server.peer(a).unwrap();
    assert!(p.messages.is_empty());
    assert_eq!(p.silent_from, 3);
}
