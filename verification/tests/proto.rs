use phantom_rust::proto::{
    build_unconnected_pong, offline_pong, read_pong, read_unconnected_ping, write_pong, PingError,
    PongData, UnconnectedPing, UNCONNECTED_PING_ID, UNCONNECTED_PONG_ID,
};

fn fields(p: &PongData) -> Vec<String> {
    vec![
        p.edition.clone(),
        p.motd.clone(),
        p.protocol_version.clone(),
        p.version.clone(),
        p.players.clone(),
        p.max_players.clone(),
        p.server_id.clone(),
        p.submotd.clone(),
        p.game_type.clone(),
        p.nintendo_limited.clone(),
        p.port4.clone(),
        p.port6.clone(),
    ]
}

fn pong(names: &[&str]) -> PongData {
    let at = |i: usize| names.get(i).map(|s| s.to_string()).unwrap_or_default();
    PongData {
        edition: at(0),
        motd: at(1),
        protocol_version: at(2),
        version: at(3),
        players: at(4),
        max_players: at(5),
        server_id: at(6),
        submotd: at(7),
        game_type: at(8),
        nintendo_limited: at(9),
        port4: at(10),
        port6: at(11),
    }
}

fn ping(names: &[&str]) -> UnconnectedPing {
    UnconnectedPing {
        ping_time: [1, 2, 3, 4, 5, 6, 7, 8],
        id: [9, 10, 11, 12, 13, 14, 15, 16],
        magic: [20, 21, 22, 23, 24, 25, 26, 27, 28, 29, 30, 31, 32, 33, 34, 35],
        pong: pong(names),
    }
}

fn message(id: u8, text: &[u8]) -> Vec<u8> {
    let mut out = vec![id];
    out.extend_from_slice(&[1, 2, 3, 4, 5, 6, 7, 8]);
    out.extend_from_slice(&[9, 10, 11, 12, 13, 14, 15, 16]);
    out.extend_from_slice(&[20, 21, 22, 23, 24, 25, 26, 27, 28, 29, 30, 31, 32, 33, 34, 35]);
    out.push((text.len() / 256) as u8);
    out.push((text.len() % 256) as u8);
    out.extend_from_slice(text);
    out
}

fn same(a: &UnconnectedPing, b: &UnconnectedPing) {
    assert_eq!(a.ping_time, b.ping_time);
    assert_eq!(a.id, b.id);
    assert_eq!(a.magic, b.magic);
    assert_eq!(fields(&a.pong), fields(&b.pong));
}

#[test]
fn reads_a_ping() {
    let p = read_unconnected_ping(&message(UNCONNECTED_PING_ID, b"MCPE;My server;390;")).unwrap();
    same(&p, &ping(&["MCPE", "My server", "390"]));
}

#[test]
fn reads_a_pong_as_a_ping() {
    let p = read_unconnected_ping(&message(UNCONNECTED_PONG_ID, b"MCPE;My server;390")).unwrap();
    same(&p, &ping(&["MCPE", "My server", "390"]));
}

#[test]
fn reads_an_empty_text() {
    let p = read_unconnected_ping(&message(UNCONNECTED_PING_ID, b"")).unwrap();
    same(&p, &ping(&[]));
}

#[test]
fn refuses_an_empty_buffer() {
    let e = read_unconnected_ping(&[]).unwrap_err();
    assert_eq!(e, PingError::EmptyBuffer);
    assert_eq!(e.message(), "Empty buffer");
}

#[test]
fn refuses_other_packets() {
    let mut other = message(UNCONNECTED_PING_ID, b"MCPE;");
    other[0] = 0x05;
    let e = read_unconnected_ping(&other).unwrap_err();
    assert_eq!(e, PingError::NotPingOrPong);
    assert_eq!(e.message(), "Not an Unconnected Ping or Pong");
    assert_eq!(read_unconnected_ping(&[0x05]).unwrap_err(), PingError::NotPingOrPong);
}

#[test]
fn refuses_a_short_header() {
    let whole = message(UNCONNECTED_PING_ID, b"");
    let e = read_unconnected_ping(&whole[..34]).unwrap_err();
    assert_eq!(e, PingError::BufferTooSmall);
    assert_eq!(e.message(), "Buffer too small for Unconnected Ping");
    assert_eq!(read_unconnected_ping(&[0x01]).unwrap_err(), PingError::BufferTooSmall);
}

#[test]
fn refuses_a_short_text() {
    let whole = message(UNCONNECTED_PING_ID, b"MCPE;");
    for len in 35..whole.len() {
        let e = read_unconnected_ping(&whole[..len]).unwrap_err();
        assert_eq!(e, PingError::UnexpectedEnd);
        assert_eq!(e.message(), "failed to fill whole buffer");
    }
}

#[test]
fn reads_the_length_most_significant_byte_first() {
    let text = vec![b'x'; 0x0102];
    let bytes = message(UNCONNECTED_PING_ID, &text);
    assert_eq!(&bytes[33..35], &[0x01, 0x02]);
    let p = read_unconnected_ping(&bytes).unwrap();
    assert_eq!(p.pong.edition.len(), 0x0102);
}

#[test]
fn ignores_trailing_bytes() {
    let mut bytes = message(UNCONNECTED_PING_ID, b"MCPE;a;");
    bytes.extend_from_slice(b"more;bytes");
    same(&read_unconnected_ping(&bytes).unwrap(), &ping(&["MCPE", "a"]));
}

#[test]
fn replaces_invalid_utf8() {
    let p = read_unconnected_ping(&message(UNCONNECTED_PING_ID, b"MC\xffPE;a;")).unwrap();
    assert_eq!(p.pong.edition, "MC\u{FFFD}PE");
    assert_eq!(p.pong.motd, "a");
}

#[test]
fn keeps_valid_utf8() {
    let text = "MCPE;\u{a7}c\u{20ac}\u{1f600};".as_bytes();
    let p = read_unconnected_ping(&message(UNCONNECTED_PING_ID, text)).unwrap();
    assert_eq!(p.pong.motd, "\u{a7}c\u{20ac}\u{1f600}");
}

#[test]
fn reads_the_fields_of_a_text() {
    assert_eq!(fields(&read_pong("")), fields(&PongData::default()));
    assert_eq!(fields(&read_pong("a;;c")), fields(&pong(&["a", "", "c"])));
    let twelve = "0;1;2;3;4;5;6;7;8;9;10;11";
    let names: Vec<&str> = twelve.split(';').collect();
    assert_eq!(fields(&read_pong(twelve)), fields(&pong(&names)));
    assert_eq!(fields(&read_pong("0;1;2;3;4;5;6;7;8;9;10;11;12;13")), fields(&pong(&names)));
}

#[test]
fn writes_the_fields_of_a_text() {
    assert_eq!(write_pong(&PongData::default()), ";");
    assert_eq!(write_pong(&pong(&["MCPE"])), "MCPE;");
    assert_eq!(write_pong(&pong(&["a", "", "c", "", ""])), "a;;c;");
    assert_eq!(
        write_pong(&pong(&["0", "1", "2", "3", "4", "5", "6", "7", "8", "9", "10", "11"])),
        "0;1;2;3;4;5;6;7;8;9;10;11;"
    );
}

#[test]
fn builds_a_pong() {
    let out = build_unconnected_pong(&ping(&["MCPE", "a"]));
    assert_eq!(out, message(UNCONNECTED_PONG_ID, b"MCPE;a;"));
}

#[test]
fn reads_back_what_it_built() {
    let p = ping(&["MCPE", "\u{a7}c server", "", "1.14.60", "", "", "", "", "", "", "", "19133"]);
    same(&read_unconnected_ping(&build_unconnected_pong(&p)).unwrap(), &p);
    let empty = ping(&[]);
    same(&read_unconnected_ping(&build_unconnected_pong(&empty)).unwrap(), &empty);
}

#[test]
fn sends_on_what_it_read() {
    let read = read_unconnected_ping(&message(UNCONNECTED_PING_ID, b"a;\xfe\xff;c;;;;;;;;;;x;y")).unwrap();
    let again = read_unconnected_ping(&build_unconnected_pong(&read)).unwrap();
    same(&again, &read);
    assert_eq!(build_unconnected_pong(&again), build_unconnected_pong(&read));
}

#[test]
fn the_longest_text_is_sent_on_where_it_is_closed() {
    let mut text = vec![b'x'; 65535];
    text[65534] = b';';
    let bytes = message(UNCONNECTED_PING_ID, &text);
    let read = read_unconnected_ping(&bytes).unwrap();
    let out = build_unconnected_pong(&read);
    assert_eq!(out.len(), bytes.len());
    same(&read_unconnected_ping(&out).unwrap(), &read);
}

#[test]
fn a_separator_in_a_field_shifts_the_others() {
    let p = ping(&["a;b", "c"]);
    let read = read_unconnected_ping(&build_unconnected_pong(&p)).unwrap();
    same(&read, &ping(&["a", "b", "c"]));
}

#[test]
fn the_length_of_a_long_text_wraps() {
    let long = "x".repeat(65536);
    let out = build_unconnected_pong(&ping(&[long.as_str()]));
    assert_eq!(out.len(), 35 + 65537);
    assert_eq!(&out[33..35], &[0x00, 0x01]);
    let longest = "x".repeat(65534);
    let out = build_unconnected_pong(&ping(&[longest.as_str()]));
    assert_eq!(&out[33..35], &[0xff, 0xff]);
    assert_eq!(read_unconnected_ping(&out).unwrap().pong.edition, longest);
}

#[test]
fn the_offline_pong() {
    let out = offline_pong();
    let text = "MCPE;phantom-rust \u{a7}cServer offline;390;1.14.60;0;0;;;Creative;1;";
    assert_eq!(out[0], 0x1C);
    assert_eq!(&out[1..17], &[0u8; 16]);
    assert_eq!(
        &out[17..33],
        &[
            0x00, 0xff, 0xff, 0x00, 0xfe, 0xfe, 0xfe, 0xfe, 0xfd, 0xfd, 0xfd, 0xfd, 0x12, 0x34,
            0x56, 0x78
        ]
    );
    assert_eq!(&out[33..35], &[0, text.len() as u8]);
    assert_eq!(&out[35..], text.as_bytes());
    let read = read_unconnected_ping(&out).unwrap();
    assert_eq!(read.pong.motd, "phantom-rust \u{a7}cServer offline");
    assert_eq!(read.pong.port6, "");
}
