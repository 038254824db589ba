use epoll_notify::protocol::{text_message_content, Message, TextDestination};

fn targets_of(d: &TextDestination) -> Option<Vec<String>> {
    match d {
        TextDestination::Broadcast => None,
        TextDestination::Targets(t) => Some(t.clone()),
    }
}

fn strings(v: &[&str]) -> Vec<String> {
    v.iter().map(|s| s.to_string()).collect()
}

#[test]
fn auth_message_is_written_with_brackets() {
    let raw = Message::Auth { password: "secret".to_string() }.to_raw_message();
    assert_eq!(raw, "[AUTH]+[secret]");
}

#[test]
fn close_message_is_written_bare() {
    assert_eq!(Message::Close.to_raw_message(), "[CLOSE]");
}

#[test]
fn broadcast_text_is_written() {
    let m = Message::Text { message: "hello all".to_string(), destinations: TextDestination::Broadcast };
    assert_eq!(m.to_raw_message(), "[TEXT]+[BROADCAST]+[hello all]");
}

#[test]
fn targeted_text_is_written_with_joined_targets() {
    let m = Message::Text {
        message: "hi".to_string(),
        destinations: TextDestination::Targets(strings(&["alice", "bob", "carol"])),
    };
    assert_eq!(m.to_raw_message(), "[TEXT]+[alice, bob, carol]+[hi]");
}

#[test]
fn targeted_text_with_no_targets_has_empty_brackets() {
    let m = Message::Text { message: "x".to_string(), destinations: TextDestination::Targets(vec![]) };
    assert_eq!(m.to_raw_message(), "[TEXT]+[]+[x]");
}

#[test]
fn close_is_read() {
    assert!(matches!(Message::from_raw_message("[CLOSE]".to_string()), Message::Close));
}

#[test]
fn close_is_read_whatever_follows() {
    assert!(matches!(Message::from_raw_message("[CLOSE]+[extra]".to_string()), Message::Close));
}

#[test]
fn auth_password_keeps_its_brackets() {
    match Message::from_raw_message("[AUTH]+[secret]".to_string()) {
        Message::Auth { password } => assert_eq!(password, "[secret]"),
        _ => panic!("expected AUTH"),
    }
}

#[test]
fn auth_password_stops_at_plus() {
    match Message::from_raw_message("[AUTH]+[a+b]".to_string()) {
        Message::Auth { password } => assert_eq!(password, "[a"),
        _ => panic!("expected AUTH"),
    }
}

#[test]
fn broadcast_text_is_read() {
    match Message::from_raw_message("[TEXT]+[BROADCAST]+[hello]".to_string()) {
        Message::Text { message, destinations } => {
            assert_eq!(message, "hello");
            assert!(matches!(destinations, TextDestination::Broadcast));
        }
        _ => panic!("expected TEXT"),
    }
}

#[test]
fn targeted_text_is_read() {
    match Message::from_raw_message("[TEXT]+[alice, bob]+[hi there]".to_string()) {
        Message::Text { message, destinations } => {
            assert_eq!(message, "hi there");
            assert_eq!(targets_of(&destinations), Some(strings(&["alice", "bob"])));
        }
        _ => panic!("expected TEXT"),
    }
}

#[test]
fn unknown_first_field_reads_as_text() {
    match Message::from_raw_message("[PING]+[x]+[yz]".to_string()) {
        Message::Text { message, destinations } => {
            assert_eq!(message, "yz");
            assert_eq!(targets_of(&destinations), Some(strings(&["x"])));
        }
        _ => panic!("expected TEXT"),
    }
}

#[test]
fn text_content_drops_first_and_last_character() {
    assert_eq!(text_message_content("[hello]".to_string()), "hello");
    assert_eq!(text_message_content("<é>".to_string()), "é");
    assert_eq!(text_message_content("ab".to_string()), "");
}

#[test]
fn destination_broadcast_is_read() {
    assert!(matches!(TextDestination::from_raw("[BROADCAST]".to_string()), TextDestination::Broadcast));
}

#[test]
fn destination_brackets_are_dropped_whatever_they_are() {
    assert!(matches!(TextDestination::from_raw("xBROADCASTy".to_string()), TextDestination::Broadcast));
}

#[test]
fn destination_targets_are_split_on_comma_space() {
    let d = TextDestination::from_raw("[a, b, c]".to_string());
    assert_eq!(targets_of(&d), Some(strings(&["a", "b", "c"])));
}

#[test]
fn destination_comma_without_space_does_not_split() {
    let d = TextDestination::from_raw("[a,b]".to_string());
    assert_eq!(targets_of(&d), Some(strings(&["a,b"])));
}

#[test]
fn destination_split_keeps_empty_pieces() {
    let d = TextDestination::from_raw("[, a, , b, ]".to_string());
    assert_eq!(targets_of(&d), Some(strings(&["", "a", "", "b", ""])));
    let e = TextDestination::from_raw("[]".to_string());
    assert_eq!(targets_of(&e), Some(strings(&[""])));
}

#[test]
fn destination_lowercase_broadcast_is_a_target() {
    let d = TextDestination::from_raw("[broadcast]".to_string());
    assert_eq!(targets_of(&d), Some(strings(&["broadcast"])));
}

#[test]
fn accepted_raw_messages() {
    assert!(Message::accepts_raw_message("[CLOSE]"));
    assert!(Message::accepts_raw_message("[AUTH]+"));
    assert!(Message::accepts_raw_message("[TEXT]+[]+[]"));
    assert!(!Message::accepts_raw_message("[AUTH]"));
    assert!(!Message::accepts_raw_message("[TEXT]+[a]"));
    assert!(!Message::accepts_raw_message("[TEXT]+[]+x"));
    assert!(!Message::accepts_raw_message("[TEXT]+x+[]"));
    assert!(!Message::accepts_raw_message(""));
}

#[test]
fn sendable_messages_read_back() {
    // the round trip of the protocol, on concrete values
    let m = Message::Text {
        message: "hi there".to_string(),
        destinations: TextDestination::Targets(strings(&["ann", "bo b"])),
    };
    let raw = m.to_raw_message();
    assert!(Message::accepts_raw_message(&raw));
    match Message::from_raw_message(raw) {
        Message::Text { message, destinations } => {
            assert_eq!(message, "hi there");
            assert_eq!(targets_of(&destinations), Some(strings(&["ann", "bo b"])));
        }
        _ => panic!("expected TEXT"),
    }
    let raw = Message::Close.to_raw_message();
    assert!(matches!(Message::from_raw_message(raw), Message::Close));
    let raw = Message::Auth { password: "pw".to_string() }.to_raw_message();
    match Message::from_raw_message(raw) {
        Message::Auth { password } => assert_eq!(password, "[pw]"),
        _ => panic!("expected AUTH"),
    }
}

#[test]
fn single_broadcast_target_reads_back_as_broadcast() {
    let m = Message::Text {
        message: "m".to_string(),
        destinations: TextDestination::Targets(strings(&["BROADCAST"])),
    };
    match Message::from_raw_message(m.to_raw_message()) {
        Message::Text { destinations, .. } => assert!(matches!(destinations, TextDestination::Broadcast)),
        _ => panic!("expected TEXT"),
    }
}

#[test]
fn rewritten_destination_gives_inner_text() {
    for raw in ["[a, b]", "[, x, ]", "[BROADCAST]", "[]", "[p,q,, r]"] {
        let d = TextDestination::from_raw(raw.to_string());
        let m = Message::Text { message: String::new(), destinations: d };
        let written = m.to_raw_message();
        let inner = &raw[1..raw.len() - 1];
        assert_eq!(written, format!("[TEXT]+[{}]+[]", inner));
    }
}


#[test]
fn plus_in_text_cuts_the_message_short() {
    let m = Message::Text { message: "a+b".to_string(), destinations: TextDestination::Broadcast };
    match Message::from_raw_message(m.to_raw_message()) {
        Message::Text { message, .. } => assert_eq!(message, ""),
        _ => panic!("expected TEXT"),
    }
}
