use chat_server::broker::{Action, Broker, Event};

fn s(x: &str) -> String {
    x.to_string()
}

fn joined(names: &[&str]) -> Broker {
    let mut broker = Broker::new();
    for n in names {
        broker.handle(Event::NewPeer { name: s(n) });
    }
    broker
}

#[test]
fn new_peer_joins_and_starts_writer() {
    let mut broker = Broker::new();
    let actions = broker.handle(Event::NewPeer { name: s("bob") });
    assert_eq!(actions, vec![Action::StartWriter { name: s("bob") }, Action::ShowUser { name: s("bob") }]);
    assert!(broker.is_connected(&s("bob")));
}

#[test]
fn taken_name_is_refused() {
    let mut broker = joined(&["bob"]);
    let actions = broker.handle(Event::NewPeer { name: s("bob") });
    assert_eq!(actions, vec![Action::ShowError { text: s("User already exists!") }]);
    assert!(broker.is_connected(&s("bob")));
}

#[test]
fn message_goes_to_connected_addressees_in_order() {
    let mut broker = joined(&["bob", "carol"]);
    let actions = broker.handle(Event::Message {
        from: s("al"),
        to: vec![s("carol"), s("nobody"), s("bob"), s("carol")],
        msg: s("hi"),
    });
    let text = s("Message from \"al\": hi\n");
    let mut expected = Vec::new();
    for to in ["carol", "bob", "carol"] {
        expected.push(Action::ShowMessage { text: format!("a Message was sent by \"al\" to \"{}\"", to) });
        expected.push(Action::Deliver { to: s(to), text: text.clone() });
        expected.push(Action::Store { from: s("al"), to: s(to), msg: s("hi") });
    }
    assert_eq!(actions, expected);
}

#[test]
fn message_to_nobody_connected_does_nothing() {
    let mut broker = joined(&["bob"]);
    let actions = broker.handle(Event::Message { from: s("bob"), to: vec![s("x"), s("")], msg: s("m") });
    assert!(actions.is_empty());
    assert!(broker.is_connected(&s("bob")));
}

#[test]
fn disconnect_removes_peer() {
    let mut broker = joined(&["bob", "carol"]);
    let actions = broker.handle(Event::Disconnect { name: s("bob") });
    assert!(actions.is_empty());
    assert!(!broker.is_connected(&s("bob")));
    assert!(broker.is_connected(&s("carol")));
}

#[test]
fn disconnect_of_unknown_peer_is_reported() {
    let mut broker = joined(&["bob"]);
    let actions = broker.handle(Event::Disconnect { name: s("zed") });
    assert_eq!(actions, vec![Action::Report { text: s("User with name 'zed' not found in the userlist") }]);
    assert!(broker.is_connected(&s("bob")));
}

#[test]
fn join_then_leave_restores_peers() {
    let mut broker = joined(&["bob"]);
    broker.handle(Event::NewPeer { name: s("dan") });
    broker.handle(Event::Disconnect { name: s("dan") });
    assert!(!broker.is_connected(&s("dan")));
    assert!(broker.is_connected(&s("bob")));
    let actions = broker.handle(Event::NewPeer { name: s("dan") });
    assert_eq!(actions.len(), 2);
}

#[test]
fn line_becomes_message_event() {
    let event = Event::from_line(&s("al"), "bob , carol: hey").unwrap();
    assert_eq!(event, Event::Message { from: s("al"), to: vec![s("bob"), s("carol")], msg: s("hey") });
    assert!(Event::from_line(&s("al"), "no colon").is_none());
}
