use phantom_rust::addr::SockAddr;
use phantom_rust::proxy::kernel::{ReadAction, ReadLoop, Session, SessionAction, SessionEvent};
use phantom_rust::proxy::Received;

fn at(port: u16) -> SockAddr {
    SockAddr::V6 { ip6: 1, port, flowinfo: 0, scope_id: 0 }
}

fn packet(data: &[u8], port: u16) -> Received<'_> {
    Received::Packet { data, from: at(port) }
}

#[test]
fn the_first_packet_opens_a_session() {
    let mut l: ReadLoop<u32> = ReadLoop::new(10);
    match l.on_receive(packet(b"hello", 1), 0) {
        ReadAction::Open(data) => assert_eq!(data, b"hello"),
        _ => panic!("a session is to be opened"),
    }
    assert_eq!(l.channel(&at(1)), None);
    l.on_opened(at(1), 7, 0);
    assert_eq!(l.channel(&at(1)), Some(&7));
    match l.on_receive(packet(b"again", 1), 1) {
        ReadAction::Deliver(data) => assert_eq!(data, b"again"),
        _ => panic!("there is a session"),
    }
    assert!(matches!(l.on_receive(packet(b"other", 2), 1), ReadAction::Open(_)));
}

#[test]
fn addresses_differ_in_every_part() {
    let mut l: ReadLoop<u32> = ReadLoop::new(10);
    l.on_opened(at(1), 7, 0);
    assert_eq!(l.channel(&SockAddr::V6 { ip6: 1, port: 1, flowinfo: 1, scope_id: 0 }), None);
    assert_eq!(l.channel(&SockAddr::V6 { ip6: 1, port: 1, flowinfo: 0, scope_id: 1 }), None);
    assert_eq!(l.channel(&SockAddr::V4 { ip4: 1, port: 1 }), None);
}

#[test]
fn empty_packets_are_ignored() {
    let mut l: ReadLoop<u32> = ReadLoop::new(10);
    assert!(matches!(l.on_receive(packet(b"", 1), 0), ReadAction::Ignore));
    l.on_opened(at(1), 7, 0);
    assert!(matches!(l.on_receive(packet(b"", 1), 9), ReadAction::Ignore));
    l.on_tick(11);
    assert_eq!(l.channel(&at(1)), None);
}

#[test]
fn a_failed_listener_stops_the_loop() {
    let mut l: ReadLoop<u32> = ReadLoop::new(10);
    assert!(matches!(l.on_receive(Received::Failed, 0), ReadAction::Stop));
}

#[test]
fn unused_channels_are_dropped() {
    let mut l: ReadLoop<u32> = ReadLoop::new(10);
    l.on_opened(at(1), 7, 0);
    l.on_opened(at(2), 8, 0);
    assert!(matches!(l.on_receive(packet(b"x", 2), 1), ReadAction::Deliver(_)));
    l.on_tick(10);
    assert_eq!(l.channel(&at(1)), Some(&7));
    l.on_tick(11);
    assert_eq!(l.channel(&at(1)), None);
    assert_eq!(l.channel(&at(2)), Some(&8));
}

#[test]
fn a_lost_session_is_dropped() {
    let mut l: ReadLoop<u32> = ReadLoop::new(10);
    l.on_opened(at(1), 7, 0);
    l.on_opened(at(2), 8, 0);
    l.on_handed(&at(1), true);
    assert_eq!(l.channel(&at(1)), Some(&7));
    l.on_handed(&at(1), false);
    assert_eq!(l.channel(&at(1)), None);
    assert_eq!(l.channel(&at(2)), Some(&8));
    assert!(matches!(l.on_receive(packet(b"x", 1), 1), ReadAction::Open(_)));
}

#[test]
fn a_session_passes_packets_on() {
    let mut s = Session::new(10, at(1), 0);
    match s.step(SessionEvent::Client(packet(b"to server", 1)), 1) {
        SessionAction::ToServer(data) => assert_eq!(data, b"to server"),
        _ => panic!("the packet belongs to the server"),
    }
    match s.step(SessionEvent::Channel(Some(b"through")), 1) {
        SessionAction::ToServer(data) => assert_eq!(data, b"through"),
        _ => panic!("the packet belongs to the server"),
    }
    match s.step(SessionEvent::Server(Some(b"to client")), 2) {
        SessionAction::ToClient(data) => assert_eq!(data, b"to client"),
        _ => panic!("the packet belongs to the client"),
    }
}

#[test]
fn a_session_withholds_empty_and_strange_packets() {
    let mut s = Session::new(10, at(1), 0);
    assert!(matches!(s.step(SessionEvent::Client(packet(b"", 1)), 1), SessionAction::Wait));
    assert!(matches!(s.step(SessionEvent::Client(packet(b"x", 2)), 2), SessionAction::Wait));
    assert_eq!(s.last_client_message, 2);
    assert!(matches!(s.step(SessionEvent::Channel(Some(b"")), 3), SessionAction::Wait));
    assert!(matches!(s.step(SessionEvent::Channel(None), 3), SessionAction::Wait));
    assert_eq!(s.last_client_message, 2);
    assert!(matches!(s.step(SessionEvent::Server(Some(b"")), 4), SessionAction::Wait));
    assert_eq!(s.last_server_message, 4);
}

#[test]
fn a_session_closes_when_a_socket_fails() {
    let mut s = Session::new(10, at(1), 0);
    assert!(matches!(s.step(SessionEvent::Client(Received::Failed), 1), SessionAction::Close));
    let mut s = Session::new(10, at(1), 0);
    assert!(matches!(s.step(SessionEvent::Server(None), 1), SessionAction::Close));
}

#[test]
fn a_session_closes_when_both_sides_are_silent() {
    let mut s = Session::new(10, at(1), 0);
    assert!(matches!(s.step(SessionEvent::Tick, 10), SessionAction::Wait));
    assert!(matches!(s.step(SessionEvent::Channel(Some(b"x")), 10), SessionAction::ToServer(_)));
    assert!(matches!(s.step(SessionEvent::Tick, 11), SessionAction::Close));
    assert!(matches!(s.step(SessionEvent::Server(Some(b"x")), 11), SessionAction::ToClient(_)));
    assert!(matches!(s.step(SessionEvent::Tick, 21), SessionAction::Wait));
    assert!(matches!(s.step(SessionEvent::Client(packet(b"x", 1)), 21), SessionAction::ToServer(_)));
    assert!(matches!(s.step(SessionEvent::Tick, 22), SessionAction::Wait));
    assert!(matches!(s.step(SessionEvent::Tick, 31), SessionAction::Wait));
    assert!(matches!(s.step(SessionEvent::Tick, 32), SessionAction::Close));
}
