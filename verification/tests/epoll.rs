use epoll_notify::epoll::{has_flag, new_epoll_event};
use epoll_notify::event::Event;
use epoll_notify::net::{listening_address, socket_address};

#[test]
fn new_event_keeps_flags_and_identifier() {
    let e = new_epoll_event(0x1 | 0x4, 42);
    assert_eq!(e.events, 5);
    assert_eq!(e.data, 42);
}

#[test]
fn new_event_reinterprets_negative_values() {
    let e = new_epoll_event(-1, -1);
    assert_eq!(e.events, u32::MAX);
    assert_eq!(e.data, u64::MAX);
    let f = new_epoll_event(i32::MIN, -2);
    assert_eq!(f.events, 0x8000_0000);
    assert_eq!(f.data, u64::MAX - 1);
}

#[test]
fn has_flag_tests_shared_bits() {
    assert!(has_flag(0x5, 0x1));
    assert!(has_flag(0x5, 0x4));
    assert!(!has_flag(0x5, 0x2));
    assert!(!has_flag(0, 0x1));
    assert!(has_flag(0x8000_0000, i32::MIN));
    assert!(has_flag(0x10, 0x30));
}

#[test]
fn default_event_is_zero() {
    let e = Event::default();
    assert_eq!(e.events(), 0);
    assert_eq!(e.epoll_data(), 0);
    assert_eq!(format!("{:?}", e), "Event { events: 0, epoll_data: 0 }");
}

#[test]
fn listening_address_is_any_interface_in_network_order() {
    let a = listening_address(8080);
    assert_eq!(a.family, 2);
    assert_eq!(a.address, 0);
    assert_eq!(a.port, 8080u16.to_be());
    assert_eq!(a.port.to_ne_bytes(), [0x1f, 0x90]);
}

#[test]
fn socket_address_keeps_the_address() {
    let a = socket_address(0x7f00_0001, 1);
    assert_eq!(a.family, 2);
    assert_eq!(a.address, 0x7f00_0001);
    assert_eq!(a.port.to_ne_bytes(), [0, 1]);
}
