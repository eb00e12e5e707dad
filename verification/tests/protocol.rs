use chat_server::protocol::{
    accept_notice, delivery_text, frame_line, latency_report, new_user_notice, parse_chat_line,
    returning_user_notice, sent_notice,
};

fn strings(items: &[&str]) -> Vec<String> {
    items.iter().map(|s| s.to_string()).collect()
}

#[test]
fn parse_splits_names_and_message() {
    let parsed = parse_chat_line("bob, alice: hello there ").unwrap();
    assert_eq!(parsed.destinations, strings(&["bob", "alice"]));
    assert_eq!(parsed.text, "hello there");
}

#[test]
fn parse_ignores_line_without_colon() {
    assert!(parse_chat_line("hello bob").is_none());
    assert!(parse_chat_line("").is_none());
}

#[test]
fn parse_splits_at_first_colon_only() {
    let parsed = parse_chat_line("bob:see you at 10:30").unwrap();
    assert_eq!(parsed.destinations, strings(&["bob"]));
    assert_eq!(parsed.text, "see you at 10:30");
}

#[test]
fn parse_keeps_empty_names() {
    let parsed = parse_chat_line(":hi").unwrap();
    assert_eq!(parsed.destinations, strings(&[""]));
    assert_eq!(parsed.text, "hi");
    let parsed = parse_chat_line("a,,b :").unwrap();
    assert_eq!(parsed.destinations, strings(&["a", "", "b"]));
    assert_eq!(parsed.text, "");
}

#[test]
fn parse_trims_unicode_whitespace() {
    let parsed = parse_chat_line("\u{3000}bob\u{a0},\tal\r: \u{2003}hi\u{85}").unwrap();
    assert_eq!(parsed.destinations, strings(&["bob", "al"]));
    assert_eq!(parsed.text, "hi");
}

#[test]
fn parse_agrees_with_std_split_and_trim() {
    for line in ["x ,y:z", " é , ü : ß ", "a:b:c", ",:,", "\u{2028}q\u{2029}:\u{205f}"] {
        let parsed = parse_chat_line(line).unwrap();
        let idx = line.find(':').unwrap();
        let dest: Vec<String> = line[..idx].split(',').map(|n| n.trim().to_string()).collect();
        assert_eq!(parsed.destinations, dest);
        assert_eq!(parsed.text, line[idx + 1..].trim());
    }
}

#[test]
fn compose_then_parse_round_trip() {
    let line = format!("{}:{}", ["ann", "bo b", "c"].join(","), "hello: world");
    let parsed = parse_chat_line(&line).unwrap();
    assert_eq!(parsed.destinations, strings(&["ann", "bo b", "c"]));
    assert_eq!(parsed.text, "hello: world");
}

#[test]
fn framing_appends_newline() {
    assert_eq!(frame_line("bob: hi"), "bob: hi\n");
    assert_eq!(frame_line(""), "\n");
}

#[test]
fn server_texts() {
    assert_eq!(delivery_text("al", "hi there"), "Message from \"al\": hi there\n");
    assert_eq!(sent_notice("al", "bob"), "a Message was sent by \"al\" to \"bob\"");
    assert_eq!(accept_notice("127.0.0.1:5000"), "Accepting connection from: \"127.0.0.1:5000\"");
    assert_eq!(new_user_notice("bob"), "new user created: \"bob\"");
    assert_eq!(returning_user_notice("bob"), "An old user is back! his username is: bob");
}

#[test]
fn latency_report_prints_plain_numbers() {
    assert_eq!(latency_report(1, 5), "Time to receive message: 1.5 seconds");
    assert_eq!(latency_report(0, 0), "Time to receive message: 0.0 seconds");
    assert_eq!(latency_report(12, 340), "Time to receive message: 12.340 seconds");
    assert_eq!(
        latency_report(u64::MAX, 999),
        format!("Time to receive message: {}.999 seconds", u64::MAX)
    );
}
