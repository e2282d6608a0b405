use phantom_rust::proto::offline_pong;
use phantom_rust::proxy::fallback::{
    is_lan_ping, reader_step, ReadAction, ReadEvent, ReadLoop, ReaderAction,
};

const LOOP: ReadLoop = ReadLoop { server_id: -5, remove_ports: true };

#[test]
fn a_packet_is_forwarded_once_it_is_mapped() {
    let packet = match LOOP.step(ReadEvent::Received(Some(b"hello"))) {
        ReadAction::FindSocket { packet } => packet,
        _ => panic!("a socket is needed"),
    };
    assert_eq!(packet, b"hello");
    match LOOP.step(ReadEvent::Mapped { packet, created: true }) {
        ReadAction::Forward { packet, start_reader } => {
            assert_eq!(packet, b"hello");
            assert!(start_reader);
        }
        _ => panic!("the packet belongs to the server"),
    }
    match LOOP.step(ReadEvent::Mapped { packet: b"again".to_vec(), created: false }) {
        ReadAction::Forward { packet, start_reader } => {
            assert_eq!(packet, b"again");
            assert!(!start_reader);
        }
        _ => panic!("the packet belongs to the server"),
    }
}

#[test]
fn a_ping_without_a_socket_is_answered() {
    match LOOP.step(ReadEvent::NotMapped { packet: vec![0x01, 2, 3] }) {
        ReadAction::Rewrite { pong, server_id, remove_ports } => {
            assert_eq!(pong, offline_pong());
            assert_eq!(server_id, -5);
            assert!(remove_ports);
        }
        _ => panic!("the client is owed an answer"),
    }
    match LOOP.step(ReadEvent::Rewritten(Some(vec![9, 9]))) {
        ReadAction::Answer { pong } => assert_eq!(pong, vec![9, 9]),
        _ => panic!("the pong is to be sent"),
    }
    assert!(matches!(LOOP.step(ReadEvent::Rewritten(None)), ReadAction::Ignore));
}

#[test]
fn other_packets_without_a_socket_are_dropped() {
    assert!(matches!(LOOP.step(ReadEvent::NotMapped { packet: vec![0x1C, 1] }), ReadAction::Ignore));
    assert!(matches!(LOOP.step(ReadEvent::NotMapped { packet: vec![0x05] }), ReadAction::Ignore));
    assert!(matches!(LOOP.step(ReadEvent::NotMapped { packet: vec![] }), ReadAction::Ignore));
}

#[test]
fn nothing_and_failure() {
    assert!(matches!(LOOP.step(ReadEvent::Received(Some(b""))), ReadAction::Ignore));
    assert!(matches!(LOOP.step(ReadEvent::Received(None)), ReadAction::Stop));
}

#[test]
fn lan_pings() {
    assert!(is_lan_ping(&[0x01]));
    assert!(!is_lan_ping(&[0x1C]));
    assert!(!is_lan_ping(&[]));
}

#[test]
fn the_reader_passes_answers_on() {
    match reader_step(Some(b"answer")) {
        ReaderAction::ToClient(packet) => assert_eq!(packet, b"answer"),
        _ => panic!("the packet belongs to the client"),
    }
    assert!(matches!(reader_step(Some(b"")), ReaderAction::Ignore));
    assert!(matches!(reader_step(None), ReaderAction::Stop));
}
