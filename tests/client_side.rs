use tinychat::client::{client_help_text, Client, ClientEffect};
use tinychat::message::{ClMesg, ClMessage, SeHello, SeInfo, SeMesg, SeMessage, SeUQuit};
use tinychat::peer::Peer;

fn s(x: &str) -> String {
    x.to_string()
}

fn connected(name: &str, token: u64) -> Client {
    let mut c = Client::new();
    let mut p: Peer<SeMessage> = Peer::new(&0, 0);
    p.username = s(name);
    assert_eq!(c.join_reply(p, SeMessage::Hello(SeHello { token })), Ok(()));
    c
}

#[test]
fn join_arguments() {
    let c = Client::new();
    assert_eq!(c.join(&s(" 127.0.0.1:9000  carol ")), Ok((s("127.0.0.1:9000"), s("carol"))));
    assert_eq!(c.join(&s("")), Err(s("No adress provided")));
    assert_eq!(c.join(&s("host")), Err(s("No username provided")));
    let c = connected("carol", 5);
    assert_eq!(c.join(&s("host carol")), Err(s("Already connected to a server")));
}

#[test]
fn join_replies() {
    let c = connected("carol", 77);
    assert_eq!(c.server.as_ref().unwrap().token, 77);
    let mut c = Client::new();
    let p: Peer<SeMessage> = Peer::new(&0, 0);
    let r = c.join_reply(p, SeMessage::UQuit(SeUQuit { reason: s("Username is in use") }));
    assert_eq!(r, Err(s("Server refused in connection for the reason: Username is in use")));
    assert!(c.server.is_none());
    let p: Peer<SeMessage> = Peer::new(&0, 0);
    let r = c.join_reply(p, SeMessage::Mesg(SeMesg { mesg: s("x") }));
    assert_eq!(r, Err(s("Error: Expected hello from server, got something else")));
}

#[test]
fn say_and_info_use_the_session_token() {
    let mut c = connected("carol", 9);
    let mut out = Vec::new();
    c.say(s("hi"), &mut out);
    c.request_server_info(&mut out);
    assert_eq!(
        out,
        vec![
            ClientEffect::Send(ClMessage::Mesg(ClMesg { username: s("carol"), token: 9, mesg: s("hi") })),
            ClientEffect::Send(ClMessage::IWantInfo(9)),
        ]
    );
}

#[test]
fn commands_when_not_connected() {
    let mut c = Client::new();
    let mut out = Vec::new();
    c.say(s("hi"), &mut out);
    c.request_server_info(&mut out);
    c.disconnect(&mut out);
    assert_eq!(
        out,
        vec![
            ClientEffect::Show(s("Can't /say - not connected to a server")),
            ClientEffect::Show(s("Can't /info - not connected to a server")),
            ClientEffect::Show(s("Not connected to a server")),
        ]
    );
}

#[test]
fn kicked_message_disconnects() {
    let mut c = connected("carol", 3);
    let mut out = Vec::new();
    c.process_message(&SeMessage::Mesg(SeMesg { mesg: s("hello") }), &mut out);
    c.process_message(&SeMessage::UQuit(SeUQuit { reason: s("spam") }), &mut out);
    assert_eq!(
        out,
        vec![
            ClientEffect::Show(s("hello")),
            ClientEffect::Show(s("You was kicked for the reason: spam")),
            ClientEffect::Send(ClMessage::IQuit(3)),
        ]
    );
    assert!(c.server.is_none());
}

#[test]
fn queued_messages_in_order() {
    let mut c = connected("carol", 3);
    c.server.as_mut().unwrap().push_messages(vec![
        SeMessage::Info(SeInfo { users: vec![s("carol"), s("dave")] }),
        SeMessage::Mesg(SeMesg { mesg: s("a") }),
    ]);
    let mut out = Vec::new();
    c.process_messages(&mut out);
    assert_eq!(
        out,
        vec![ClientEffect::ShowInfo(vec![s("carol"), s("dave")]), ClientEffect::Show(s("a"))]
    );
    assert!(c.server.as_ref().unwrap().messages.is_empty());
}

#[test]
fn console_lines() {
    let mut c = connected("carol", 4);
    let mut out = Vec::new();
    assert_eq!(c.process_input(&s("/join  host bob\n"), &mut out), Some(s("  host bob")));
    assert!(out.is_empty());
    assert_eq!(c.process_input(&s("/help"), &mut out), None);
    assert_eq!(out, vec![ClientEffect::Show(client_help_text())]);
    let mut out = Vec::new();
    assert_eq!(c.process_input(&s("/say hi there"), &mut out), None);
    assert_eq!(
        out,
        vec![ClientEffect::Send(ClMessage::Mesg(ClMesg {
            username: s("carol"),
            token: 4,
            mesg: s(" hi there")
        }))]
    );
    let mut out = Vec::new();
    c.process_input(&s("/disconnect"), &mut out);
    assert_eq!(out, vec![ClientEffect::Send(ClMessage::IQuit(4))]);
    assert!(c.server.is_none());
    c.process_input(&s("/exit"), &mut out);
    assert!(c.should_stop);
}
