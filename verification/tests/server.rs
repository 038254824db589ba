use epoll_notify::server::{
    classify_read, event_handler, ConnectionTable, DataOutcome, EventStep, ReadDrain, ReadOutcome,
    ServerAction,
};

fn buffer_with(text: &[u8]) -> [u8; 256] {
    let mut buf = [0u8; 256];
    buf[..text.len()].copy_from_slice(text);
    buf
}

#[test]
fn readable_listening_socket_is_accepted() {
    assert!(matches!(event_handler(0x1, 3, 3), ServerAction::AcceptConnection));
}

#[test]
fn readable_connection_is_read() {
    assert!(matches!(event_handler(0x1 | 0x10, 7, 3), ServerAction::ReadConnection { fd: 7 }));
}

#[test]
fn events_without_readability_are_ignored() {
    assert!(matches!(event_handler(0x4, 7, 3), ServerAction::Ignore));
    assert!(matches!(event_handler(0, 3, 3), ServerAction::Ignore));
}

#[test]
fn drain_keeps_first_response_over_would_block() {
    let mut d = ReadDrain::new();
    assert_eq!(d.first_read_response(), None);
    assert!(d.record(12, false));
    assert!(!d.record(-1, true));
    assert_eq!(d.first_read_response(), Some(12));
}

#[test]
fn drain_keeps_a_later_hard_error() {
    let mut d = ReadDrain::new();
    assert!(d.record(256, false));
    assert!(d.record(30, false));
    assert!(!d.record(-1, false));
    assert_eq!(d.first_read_response(), Some(-1));
}

#[test]
fn drain_stops_at_end_of_file() {
    let mut d = ReadDrain::new();
    assert!(!d.record(0, false));
    assert_eq!(d.first_read_response(), Some(0));
    let mut e = ReadDrain::new();
    assert!(e.record(5, false));
    assert!(!e.record(0, false));
    assert_eq!(e.first_read_response(), Some(5));
}

#[test]
fn read_responses_are_classified() {
    assert!(matches!(classify_read(0), ReadOutcome::PeerClosed));
    assert!(matches!(classify_read(-1), ReadOutcome::ReadFailed));
    assert!(matches!(classify_read(17), ReadOutcome::Received));
    assert!(matches!(classify_read(256), ReadOutcome::Received));
    assert!(matches!(classify_read(-5), ReadOutcome::Received));
}

#[test]
fn auth_opens_a_pending_connection() {
    let mut t = ConnectionTable::new();
    t.connection_accepted(5);
    t.connection_accepted(6);
    assert!(t.is_pending(5));
    let raw = b"[AUTH]+[client-1]";
    let buf = buffer_with(raw);
    match t.handle_data_on_connection(5, raw.len() as isize, &buf) {
        DataOutcome::Text { text, authenticated } => {
            assert_eq!(text.len(), 256);
            assert!(text.starts_with("[AUTH]+[client-1]\0"));
            assert!(authenticated);
        }
        _ => panic!("expected text"),
    }
    assert!(!t.is_pending(5));
    assert!(t.is_pending(6));
    let mut id = "[client-1]".to_string();
    id.push_str(&"\0".repeat(256 - raw.len()));
    assert_eq!(t.identity_of(5), Some(id));
    assert_eq!(t.identity_of(6), None);
    assert_eq!(t.open_count(), 1);
    assert_eq!(t.pending_count(), 1);
}

#[test]
fn other_text_does_not_authenticate() {
    let mut t = ConnectionTable::new();
    t.connection_accepted(5);
    let raw = b"[TEXT]+[BROADCAST]+[hi]";
    let buf = buffer_with(raw);
    match t.handle_data_on_connection(5, raw.len() as isize, &buf) {
        DataOutcome::Text { text, authenticated } => {
            assert_eq!(text.trim_end_matches('\0'), "[TEXT]+[BROADCAST]+[hi]");
            assert!(!authenticated);
        }
        _ => panic!("expected text"),
    }
    assert!(t.is_pending(5));
    assert_eq!(t.open_count(), 0);
}

#[test]
fn auth_on_an_unknown_connection_changes_nothing() {
    let mut t = ConnectionTable::new();
    assert!(!t.text_received(9, &"[AUTH]+[x]".to_string()));
    assert_eq!(t.open_count(), 0);
    assert_eq!(t.pending_count(), 0);
}

#[test]
fn malformed_text_does_not_authenticate() {
    let mut t = ConnectionTable::new();
    t.connection_accepted(4);
    assert!(!t.text_received(4, &"[AUTH]".to_string()));
    assert!(t.is_pending(4));
}

#[test]
fn end_of_file_and_errors_close_the_connection() {
    let mut t = ConnectionTable::new();
    t.connection_accepted(5);
    t.connection_accepted(7);
    let buf = buffer_with(b"[AUTH]+[me]");
    assert!(matches!(t.handle_data_on_connection(5, 11, &buf), DataOutcome::Text { .. }));
    assert_eq!(t.open_count(), 1);
    assert!(matches!(t.handle_data_on_connection(5, 0, &buf), DataOutcome::Closed));
    assert_eq!(t.identity_of(5), None);
    assert!(matches!(t.handle_data_on_connection(7, -1, &buf), DataOutcome::Closed));
    assert!(t.is_pending(7));
    assert_eq!(t.open_count(), 0);
    assert_eq!(t.pending_count(), 1);
}

#[test]
fn invalid_utf8_is_not_text() {
    let mut t = ConnectionTable::new();
    t.connection_accepted(5);
    let buf = buffer_with(&[0xff, 0xfe, 0x41]);
    assert!(matches!(t.handle_data_on_connection(5, 3, &buf), DataOutcome::NotText));
    assert!(t.is_pending(5));
}

#[test]
fn the_whole_buffer_is_decoded() {
    let mut t = ConnectionTable::new();
    let buf = buffer_with(b"abcdef");
    match t.handle_data_on_connection(5, 3, &buf) {
        DataOutcome::Text { text, .. } => {
            assert_eq!(text.len(), 256);
            assert!(text.starts_with("abcdef\0"));
        }
        _ => panic!("expected text"),
    }
}

#[test]
fn invalid_bytes_past_the_read_count_still_count() {
    let mut t = ConnectionTable::new();
    let mut buf = buffer_with(b"ok");
    buf[200] = 0xff;
    assert!(matches!(t.handle_data_on_connection(5, 2, &buf), DataOutcome::NotText));
}

#[test]
fn closing_leaves_pending_entries() {
    let mut t = ConnectionTable::new();
    t.connection_accepted(3);
    t.connection_accepted(4);
    let buf = buffer_with(b"[AUTH]+[x]");
    assert!(t.text_received(4, &"[AUTH]+[x]".to_string()));
    t.connection_closed(3);
    t.connection_closed(4);
    assert_eq!(t.pending_count(), 1);
    assert!(t.is_pending(3));
    assert_eq!(t.identity_of(4), None);
    assert!(matches!(t.handle_data_on_connection(3, 0, &buf), DataOutcome::Closed));
    assert!(t.is_pending(3));
}

#[test]
fn event_step_reads_a_readable_connection() {
    let mut t = ConnectionTable::new();
    t.connection_accepted(8);
    let buf = buffer_with(b"[AUTH]+[me]");
    match t.handle_event(0x1, 8, 3, 11, &buf) {
        EventStep::Data { fd, outcome } => {
            assert_eq!(fd, 8);
            assert!(matches!(outcome, DataOutcome::Text { authenticated: true, .. }));
        }
        _ => panic!("expected data"),
    }
    assert!(!t.is_pending(8));
    assert_eq!(t.open_count(), 1);
    match t.handle_event(0x1 | 0x10, 8, 3, 0, &buf) {
        EventStep::Data { fd, outcome } => {
            assert_eq!(fd, 8);
            assert!(matches!(outcome, DataOutcome::Closed));
        }
        _ => panic!("expected data"),
    }
    assert_eq!(t.open_count(), 0);
}

#[test]
fn event_step_leaves_the_table_on_other_events() {
    let mut t = ConnectionTable::new();
    t.connection_accepted(8);
    let buf = buffer_with(b"[AUTH]+[me]");
    assert!(matches!(t.handle_event(0x1, 3, 3, 11, &buf), EventStep::AcceptConnection));
    assert!(matches!(t.handle_event(0x4, 8, 3, 11, &buf), EventStep::Ignore));
    assert!(t.is_pending(8));
    assert_eq!(t.open_count(), 0);
}
