//! The discovery messages: an unconnected ping asks for servers on the LAN, an
//! unconnected pong answers it.
//!
//! A message is one byte of packet id, 8 bytes of ping time, 8 bytes of sender
//! id, 16 bytes of magic, the length of a text in two bytes, and the text: the
//! fields of the pong, separated by semicolons.
use vstd::prelude::*;
use vstd::slice::slice_subrange;
use vstd::utf8;
use crate::outside;
use crate::outside::{from_utf8_lossy, read_u16_be, read_u8, write_u16_be};
use crate::text;

verus! {

/// Packet id of an unconnected ping.
pub const UNCONNECTED_PING_ID: u8 = 0x01;

/// Packet id of an unconnected pong.
pub const UNCONNECTED_PONG_ID: u8 = 0x1C;

/// Number of bytes before the text.
pub const HEADER_LEN: usize = 35;

/// Number of fields of the text.
pub const FIELD_COUNT: usize = 12;

/// What holds the fields of the text apart.
pub const FIELD_SEPARATOR: char = ';';

/// An unconnected ping or pong.
#[derive(Debug, Clone)]
pub struct UnconnectedPing {
    pub ping_time: [u8; 8],
    pub id: [u8; 8],
    pub magic: [u8; 16],
    pub pong: PongData,
}

/// What a server says of itself in a pong.
#[derive(Debug, Clone)]
pub struct PongData {
    pub edition: String,
    pub motd: String,
    pub protocol_version: String,
    pub version: String,
    pub players: String,
    pub max_players: String,
    pub server_id: String,
    pub submotd: String,
    pub game_type: String,
    pub nintendo_limited: String,
    pub port4: String,
    pub port6: String,
}

/// The contents of an [`UnconnectedPing`]; the pong as the list of its fields.
#[verifier::ext_equal]
pub struct PingView {
    pub ping_time: Seq<u8>,
    pub id: Seq<u8>,
    pub magic: Seq<u8>,
    pub pong: Seq<Seq<char>>,
}

impl View for PongData {
    type V = Seq<Seq<char>>;

    /// The fields in the order in which they are written.
    open spec fn view(&self) -> Seq<Seq<char>> {
        seq![
            self.edition@,
            self.motd@,
            self.protocol_version@,
            self.version@,
            self.players@,
            self.max_players@,
            self.server_id@,
            self.submotd@,
            self.game_type@,
            self.nintendo_limited@,
            self.port4@,
            self.port6@,
        ]
    }
}

impl View for UnconnectedPing {
    type V = PingView;

    open spec fn view(&self) -> PingView {
        PingView {
            ping_time: self.ping_time@,
            id: self.id@,
            magic: self.magic@,
            pong: self.pong@,
        }
    }
}

impl Default for PongData {
    /// A pong with nothing but empty fields.
    fn default() -> (p: Self)
        ensures
            p@ == Seq::new(FIELD_COUNT as nat, |i: int| Seq::<char>::empty()),
    {
        let p = PongData {
            edition: String::new(),
            motd: String::new(),
            protocol_version: String::new(),
            version: String::new(),
            players: String::new(),
            max_players: String::new(),
            server_id: String::new(),
            submotd: String::new(),
            game_type: String::new(),
            nintendo_limited: String::new(),
            port4: String::new(),
            port6: String::new(),
        };
        assert(p@ =~= Seq::new(FIELD_COUNT as nat, |i: int| Seq::<char>::empty()));
        p
    }
}

/// Why bytes are not an unconnected ping or pong.
#[derive(Debug, Clone, Copy, PartialEq, Eq, Structural)]
pub enum PingError {
    /// There are no bytes.
    EmptyBuffer,
    /// The packet id is that of neither message.
    NotPingOrPong,
    /// The bytes end before the text.
    BufferTooSmall,
    /// The bytes end within the text.
    UnexpectedEnd,
}

impl PingError {
    /// The error in words.
    pub open spec fn text(self) -> Seq<char> {
        match self {
            PingError::EmptyBuffer => "Empty buffer"@,
            PingError::NotPingOrPong => "Not an Unconnected Ping or Pong"@,
            PingError::BufferTooSmall => "Buffer too small for Unconnected Ping"@,
            PingError::UnexpectedEnd => "failed to fill whole buffer"@,
        }
    }

    /// The error in words.
    pub fn message(&self) -> (m: &'static str)
        ensures
            m@ == self.text(),
            *self == PingError::EmptyBuffer ==> m@ == "Empty buffer"@,
            *self == PingError::NotPingOrPong ==> m@ == "Not an Unconnected Ping or Pong"@,
            *self == PingError::BufferTooSmall ==> m@ == "Buffer too small for Unconnected Ping"@,
            *self == PingError::UnexpectedEnd ==> m@ == "failed to fill whole buffer"@,
    {
        match self {
            PingError::EmptyBuffer => "Empty buffer",
            PingError::NotPingOrPong => "Not an Unconnected Ping or Pong",
            PingError::BufferTooSmall => "Buffer too small for Unconnected Ping",
            PingError::UnexpectedEnd => "failed to fill whole buffer",
        }
    }
}

/// The fields that a text holds: missing ones are empty, those beyond the last
/// known one are dropped.
pub open spec fn pong_of_text(raw: Seq<char>) -> Seq<Seq<char>> {
    let parts = text::split_on(raw, FIELD_SEPARATOR);
    Seq::new(
        FIELD_COUNT as nat,
        |i: int|
            if i < parts.len() {
                parts[i]
            } else {
                Seq::<char>::empty()
            },
    )
}

/// The text of the fields of a pong: empty fields at the end are left out, and
/// a separator closes the rest.
pub open spec fn text_of_pong(fields: Seq<Seq<char>>) -> Seq<char> {
    text::join_with(text::trim_empty(fields), FIELD_SEPARATOR).push(FIELD_SEPARATOR)
}

/// Reads the fields of a pong in its text.
pub fn read_pong(raw: &str) -> (p: PongData)
    ensures
        p@ == pong_of_text(raw@),
        ({
            let parts = text::split_on(raw@, ';');
            &&& p.edition@ == if parts.len() > 0 { parts[0] } else { Seq::<char>::empty() }
            &&& p.motd@ == if parts.len() > 1 { parts[1] } else { Seq::<char>::empty() }
            &&& p.protocol_version@ == if parts.len() > 2 { parts[2] } else { Seq::<char>::empty() }
            &&& p.version@ == if parts.len() > 3 { parts[3] } else { Seq::<char>::empty() }
            &&& p.players@ == if parts.len() > 4 { parts[4] } else { Seq::<char>::empty() }
            &&& p.max_players@ == if parts.len() > 5 { parts[5] } else { Seq::<char>::empty() }
            &&& p.server_id@ == if parts.len() > 6 { parts[6] } else { Seq::<char>::empty() }
            &&& p.submotd@ == if parts.len() > 7 { parts[7] } else { Seq::<char>::empty() }
            &&& p.game_type@ == if parts.len() > 8 { parts[8] } else { Seq::<char>::empty() }
            &&& p.nintendo_limited@ == if parts.len() > 9 { parts[9] } else { Seq::<char>::empty() }
            &&& p.port4@ == if parts.len() > 10 { parts[10] } else { Seq::<char>::empty() }
            &&& p.port6@ == if parts.len() > 11 { parts[11] } else { Seq::<char>::empty() }
        }),
{
    let parts = text::split(raw, FIELD_SEPARATOR);
    let ghost fields = text::split_on(raw@, FIELD_SEPARATOR);
    let mut p = PongData::default();
    assert(forall|i: int| 0 <= i < FIELD_COUNT ==> p@[i] == Seq::<char>::empty());
    assert(p@[0] == p.edition@ && p@[1] == p.motd@ && p@[2] == p.protocol_version@);
    assert(p@[3] == p.version@ && p@[4] == p.players@ && p@[5] == p.max_players@);
    assert(p@[6] == p.server_id@ && p@[7] == p.submotd@ && p@[8] == p.game_type@);
    assert(p@[9] == p.nintendo_limited@ && p@[10] == p.port4@ && p@[11] == p.port6@);
    assert(fields.len() == parts@.len());
    assert(forall|i: int| 0 <= i < parts@.len() ==> fields[i] == #[trigger] parts@[i]@);
    if parts.len() > 0 {
        p.edition = parts[0].clone();
    }
    if parts.len() > 1 {
        p.motd = parts[1].clone();
    }
    if parts.len() > 2 {
        p.protocol_version = parts[2].clone();
    }
    if parts.len() > 3 {
        p.version = parts[3].clone();
    }
    if parts.len() > 4 {
        p.players = parts[4].clone();
    }
    if parts.len() > 5 {
        p.max_players = parts[5].clone();
    }
    if parts.len() > 6 {
        p.server_id = parts[6].clone();
    }
    if parts.len() > 7 {
        p.submotd = parts[7].clone();
    }
    if parts.len() > 8 {
        p.game_type = parts[8].clone();
    }
    if parts.len() > 9 {
        p.nintendo_limited = parts[9].clone();
    }
    if parts.len() > 10 {
        p.port4 = parts[10].clone();
    }
    if parts.len() > 11 {
        p.port6 = parts[11].clone();
    }
    assert(p@ =~= pong_of_text(raw@));
    p
}

/// Writes the text of a pong.
pub fn write_pong(p: &PongData) -> (raw: String)
    ensures
        raw@ == text_of_pong(p@),
{
    let mut fields: Vec<String> = vec![
        p.edition.clone(),
        p.motd.clone(),
        p.protocol_version.clone(),
        p.version.clone(),
        p.players.clone(),
        p.max_players.clone(),
        p.server_id.clone(),
        p.submotd.clone(),
        p.game_type.clone(),
        p.nintendo_limited.clone(),
        p.port4.clone(),
        p.port6.clone(),
    ];
    assert(text::texts(fields@) =~= p@);
    while fields.len() > 0 && fields[fields.len() - 1].as_str().is_empty()
        invariant
            text::trim_empty(text::texts(fields@)) == text::trim_empty(p@),
        decreases fields@.len(),
    {
        let ghost before = text::texts(fields@);
        fields.pop();
        assert(text::texts(fields@) =~= before.drop_last());
    }
    assert(text::trim_empty(text::texts(fields@)) == text::texts(fields@));
    let mut raw = text::join(&fields, FIELD_SEPARATOR);
    raw.push(FIELD_SEPARATOR);
    raw
}

/// What reading `buf` as an unconnected ping or pong gives.
pub open spec fn ping_of_bytes(buf: Seq<u8>) -> Result<PingView, PingError> {
    if buf.len() == 0 {
        Err(PingError::EmptyBuffer)
    } else if buf[0] != UNCONNECTED_PING_ID && buf[0] != UNCONNECTED_PONG_ID {
        Err(PingError::NotPingOrPong)
    } else if buf.len() < HEADER_LEN {
        Err(PingError::BufferTooSmall)
    } else {
        let text_len = outside::be_value(buf[33], buf[34]);
        if buf.len() < HEADER_LEN + text_len {
            Err(PingError::UnexpectedEnd)
        } else {
            Ok(
                PingView {
                    ping_time: buf.subrange(1, 9),
                    id: buf.subrange(9, 17),
                    magic: buf.subrange(17, 33),
                    pong: pong_of_text(
                        outside::utf8_lossy(buf.subrange(HEADER_LEN as int, HEADER_LEN + text_len)),
                    ),
                },
            )
        }
    }
}

/// `buf` begins with a whole unconnected ping or pong.
pub open spec fn holds_message(buf: Seq<u8>) -> bool {
    &&& buf.len() >= HEADER_LEN
    &&& buf[0] == UNCONNECTED_PING_ID || buf[0] == UNCONNECTED_PONG_ID
    &&& buf.len() >= HEADER_LEN + outside::be_value(buf[33], buf[34])
}

/// The bytes of the unconnected pong with the contents `p`. The length of the
/// text is written modulo 65536.
pub open spec fn bytes_of_pong(p: PingView) -> Seq<u8> {
    let text_bytes = utf8::encode_utf8(text_of_pong(p.pong));
    seq![UNCONNECTED_PONG_ID] + p.ping_time + p.id + p.magic + outside::be_bytes(
        (text_bytes.len() % 65536) as u16,
    ) + text_bytes
}

/// The `N` bytes of `buf` from `at` on.
fn bytes_at<const N: usize>(buf: &[u8], at: usize) -> (out: [u8; N])
    requires
        at + N <= buf@.len(),
    ensures
        out@ == buf@.subrange(at as int, at + N),
{
    let total: usize = buf.len();
    let mut out: [u8; N] = [0u8; N];
    let mut i: usize = 0;
    while i < N
        invariant
            i <= N,
            at + N <= total,
            total == buf@.len(),
            forall|j: int| 0 <= j < i ==> out@[j] == buf@[at + j],
        decreases N - i,
    {
        out[i] = buf[at + i];
        i += 1;
    }
    assert(out@ =~= buf@.subrange(at as int, at + N));
    out
}

/// Reads an unconnected ping or pong. Bytes behind the text are not looked at.
pub fn read_unconnected_ping(buf: &[u8]) -> (ping: Result<UnconnectedPing, PingError>)
    ensures
        match ping {
            Ok(p) => ping_of_bytes(buf@) == Ok::<PingView, PingError>(p@),
            Err(e) => ping_of_bytes(buf@) == Err::<PingView, PingError>(e),
        },
        match ping {
            Ok(p) => {
                let text_end = 35 + buf@[33] * 256 + buf@[34];
                let text_bytes = buf@.subrange(35, text_end);
                &&& text_end <= buf@.len()
                &&& buf@[0] == 0x01 || buf@[0] == 0x1C
                &&& p.ping_time@ == buf@.subrange(1, 9)
                &&& p.id@ == buf@.subrange(9, 17)
                &&& p.magic@ == buf@.subrange(17, 33)
                &&& utf8::valid_utf8(text_bytes) ==> p.pong@ == pong_of_text(
                    utf8::decode_utf8(text_bytes),
                )
                &&& !utf8::valid_utf8(text_bytes) ==> p.pong@ == pong_of_text(
                    outside::utf8_replaced(text_bytes),
                )
            },
            Err(PingError::EmptyBuffer) => buf@.len() == 0,
            Err(PingError::NotPingOrPong) => buf@.len() > 0 && buf@[0] != 0x01 && buf@[0] != 0x1C,
            Err(PingError::BufferTooSmall) => 0 < buf@.len() < 35 && (buf@[0] == 0x01 || buf@[0]
                == 0x1C),
            Err(PingError::UnexpectedEnd) => 35 <= buf@.len() < 35 + buf@[33] * 256 + buf@[34] && (
            buf@[0] == 0x01 || buf@[0] == 0x1C),
        },
{
    if buf.len() < 1 {
        return Err(PingError::EmptyBuffer);
    }
    let packet_id: u8 = match read_u8(buf) {
        Ok(byte) => byte,
        Err(_) => return Err(PingError::UnexpectedEnd),
    };
    if packet_id != UNCONNECTED_PING_ID && packet_id != UNCONNECTED_PONG_ID {
        return Err(PingError::NotPingOrPong);
    }
    if buf.len() < HEADER_LEN {
        return Err(PingError::BufferTooSmall);
    }
    let ping_time: [u8; 8] = bytes_at::<8>(buf, 1);
    let id: [u8; 8] = bytes_at::<8>(buf, 9);
    let magic: [u8; 16] = bytes_at::<16>(buf, 17);
    let text_len: usize = match read_u16_be(slice_subrange(buf, 33, buf.len())) {
        Ok(n) => n as usize,
        Err(_) => return Err(PingError::UnexpectedEnd),
    };
    if buf.len() - HEADER_LEN < text_len {
        return Err(PingError::UnexpectedEnd);
    }
    let raw = from_utf8_lossy(slice_subrange(buf, HEADER_LEN, HEADER_LEN + text_len));
    let pong = read_pong(raw.as_str());
    Ok(UnconnectedPing { ping_time, id, magic, pong })
}

/// Builds the unconnected pong with the contents `p`.
pub fn build_unconnected_pong(p: &UnconnectedPing) -> (out: Vec<u8>)
    ensures
        out@ == bytes_of_pong(p@),
        out@.len() >= 35,
        out@[0] == 0x1C,
        out@.subrange(1, 9) == p.ping_time@,
        out@.subrange(9, 17) == p.id@,
        out@.subrange(17, 33) == p.magic@,
        out@[33] * 256 + out@[34] == (out@.len() - 35) % 65536,
        out@.subrange(35, out@.len() as int) == utf8::encode_utf8(text_of_pong(p.pong@)),
{
    proof {
        law_pong_layout(p@);
    }
    let mut out: Vec<u8> = Vec::new();
    out.push(UNCONNECTED_PONG_ID);
    out.extend_from_slice(&p.ping_time);
    out.extend_from_slice(&p.id);
    out.extend_from_slice(&p.magic);
    assert(out@ =~= seq![UNCONNECTED_PONG_ID] + p.ping_time@ + p.id@ + p.magic@);
    let raw = write_pong(&p.pong);
    let text_bytes = raw.as_str().as_bytes();
    let text_len: usize = text_bytes.len();
    write_u16_be(&mut out, (text_len % 65536) as u16);
    let ghost head = out@;
    out.extend_from_slice(text_bytes);
    assert(out@ =~= head + text_bytes@);
    out
}

/// The contents of the pong that stands in for a server that cannot be reached.
pub open spec fn offline_ping() -> PingView {
    PingView {
        ping_time: Seq::new(8, |i: int| 0u8),
        id: Seq::new(8, |i: int| 0u8),
        magic: seq![
            0x00u8,
            0xff,
            0xff,
            0x00,
            0xfe,
            0xfe,
            0xfe,
            0xfe,
            0xfd,
            0xfd,
            0xfd,
            0xfd,
            0x12,
            0x34,
            0x56,
            0x78,
        ],
        pong: seq![
            "MCPE"@,
            "phantom-rust §cServer offline"@,
            "390"@,
            "1.14.60"@,
            "0"@,
            "0"@,
            Seq::<char>::empty(),
            Seq::<char>::empty(),
            "Creative"@,
            "1"@,
            Seq::<char>::empty(),
            Seq::<char>::empty(),
        ],
    }
}

/// The bytes of the pong that stands in for a server that cannot be reached.
pub fn offline_pong() -> (out: Vec<u8>)
    ensures
        out@ == bytes_of_pong(offline_ping()),
        ping_of_bytes(out@) == Ok::<PingView, PingError>(offline_ping()),
{
    let ping = UnconnectedPing {
        ping_time: [0, 0, 0, 0, 0, 0, 0, 0],
        id: [0, 0, 0, 0, 0, 0, 0, 0],
        magic: [
            0x00,
            0xff,
            0xff,
            0x00,
            0xfe,
            0xfe,
            0xfe,
            0xfe,
            0xfd,
            0xfd,
            0xfd,
            0xfd,
            0x12,
            0x34,
            0x56,
            0x78,
        ],
        pong: PongData {
            edition: "MCPE".to_owned(),
            motd: "phantom-rust §cServer offline".to_owned(),
            protocol_version: "390".to_owned(),
            version: "1.14.60".to_owned(),
            players: "0".to_owned(),
            max_players: "0".to_owned(),
            server_id: String::new(),
            submotd: String::new(),
            game_type: "Creative".to_owned(),
            nintendo_limited: "1".to_owned(),
            port4: String::new(),
            port6: String::new(),
        },
    };
    proof {
        assert(ping@.ping_time =~= offline_ping().ping_time);
        assert(ping@.id =~= offline_ping().id);
        assert(ping@.magic =~= offline_ping().magic);
        assert(ping@.pong =~= offline_ping().pong);
        lemma_offline_fields();
        law_pong_round_trip(offline_ping());
    }
    build_unconnected_pong(&ping)
}

proof fn lemma_offline_fields()
    ensures
        is_ping(offline_ping()),
        text::free_of(offline_ping().pong, FIELD_SEPARATOR),
        utf8::encode_utf8(text_of_pong(offline_ping().pong)).len() < 65536,
{
    reveal_strlit("MCPE");
    reveal_strlit("phantom-rust §cServer offline");
    reveal_strlit("390");
    reveal_strlit("1.14.60");
    reveal_strlit("0");
    reveal_strlit("Creative");
    reveal_strlit("1");
    let fields = offline_ping().pong;
    let kept = text::trim_empty(fields);
    text::law_trim_empty(fields);
    assert forall|i: int| #![trigger kept[i]] 0 <= i < kept.len() implies kept[i].len() <= 29 by {
        assert(kept[i] == fields[i]);
    }
    text::lemma_joined_len(kept, FIELD_SEPARATOR, 29);
    text::lemma_encoded_len(text_of_pong(fields));
}

/// Whether `p` can be the contents of an [`UnconnectedPing`].
pub open spec fn is_ping(p: PingView) -> bool {
    &&& p.ping_time.len() == 8
    &&& p.id.len() == 8
    &&& p.magic.len() == 16
    &&& p.pong.len() == FIELD_COUNT
}

/// The text of a pong is read back as the fields that it was written from,
/// unless one of them holds the separator.
pub proof fn law_pong_text_round_trip(fields: Seq<Seq<char>>)
    requires
        fields.len() == FIELD_COUNT,
        text::free_of(fields, FIELD_SEPARATOR),
    ensures
        pong_of_text(text_of_pong(fields)) == fields,
{
    let kept = text::trim_empty(fields);
    text::law_trim_empty(fields);
    let none = Seq::<char>::empty();
    let closed = if kept.len() == 0 {
        seq![none, none]
    } else {
        kept.push(none)
    };
    let raw = text_of_pong(fields);
    assert forall|i: int| #![trigger closed[i]] 0 <= i < closed.len() implies !closed[i].contains(
        FIELD_SEPARATOR,
    ) by {
        if i < kept.len() {
            assert(closed[i] == fields[i]);
        } else {
            assert(closed[i] == none);
        }
    }
    if kept.len() == 0 {
        assert(closed.drop_last() =~= seq![none]);
        assert(text::join_with(closed.drop_last(), FIELD_SEPARATOR) == none);
        assert(raw =~= text::join_with(closed, FIELD_SEPARATOR));
    } else {
        assert(closed.drop_last() =~= kept);
        assert(raw =~= text::join_with(closed, FIELD_SEPARATOR));
    }
    text::law_split_of_join(closed, FIELD_SEPARATOR);
    assert forall|i: int| 0 <= i < FIELD_COUNT implies pong_of_text(raw)[i] == fields[i] by {
        if i < kept.len() {
            assert(kept[i] == fields[i]);
        } else {
            assert(fields[i] =~= none);
        }
    }
    assert(pong_of_text(raw) =~= fields);
}

/// The fields that are read in a text do not hold the separator, whatever the
/// text.
pub proof fn law_read_fields_free_of_separator(raw: Seq<char>)
    ensures
        pong_of_text(raw).len() == FIELD_COUNT,
        text::free_of(pong_of_text(raw), FIELD_SEPARATOR),
{
    text::law_join_of_split(raw, FIELD_SEPARATOR);
    let fields = pong_of_text(raw);
    let parts = text::split_on(raw, FIELD_SEPARATOR);
    assert forall|i: int| #![trigger fields[i]] 0 <= i < fields.len() implies !fields[i].contains(
        FIELD_SEPARATOR,
    ) by {
        if i < parts.len() {
            assert(fields[i] == parts[i]);
        }
    }
}

/// Where the parts of a built pong stand.
pub proof fn law_pong_layout(p: PingView)
    requires
        is_ping(p),
    ensures
        bytes_of_pong(p).len() == 35 + utf8::encode_utf8(text_of_pong(p.pong)).len(),
        bytes_of_pong(p)[0] == 0x1C,
        bytes_of_pong(p).subrange(1, 9) == p.ping_time,
        bytes_of_pong(p).subrange(9, 17) == p.id,
        bytes_of_pong(p).subrange(17, 33) == p.magic,
        bytes_of_pong(p)[33] * 256 + bytes_of_pong(p)[34] == utf8::encode_utf8(
            text_of_pong(p.pong),
        ).len() % 65536,
        bytes_of_pong(p).subrange(35, bytes_of_pong(p).len() as int)
            == utf8::encode_utf8(text_of_pong(p.pong)),
{
    let out = bytes_of_pong(p);
    let text_bytes = utf8::encode_utf8(text_of_pong(p.pong));
    let n = (text_bytes.len() % 65536) as u16;
    assert(out[33] == outside::be_bytes(n)[0]);
    assert(out[34] == outside::be_bytes(n)[1]);
    assert(out.subrange(1, 9) =~= p.ping_time);
    assert(out.subrange(9, 17) =~= p.id);
    assert(out.subrange(17, 33) =~= p.magic);
    assert(out.subrange(HEADER_LEN as int, out.len() as int) =~= text_bytes);
}

/// A pong is read back as it was built, where no field of it holds the
/// separator and its text is short enough for its length to be written.
pub proof fn law_pong_round_trip(p: PingView)
    requires
        is_ping(p),
        text::free_of(p.pong, FIELD_SEPARATOR),
        utf8::encode_utf8(text_of_pong(p.pong)).len() < 65536,
    ensures
        ping_of_bytes(bytes_of_pong(p)) == Ok::<PingView, PingError>(p),
{
    law_pong_layout(p);
    law_pong_text_round_trip(p.pong);
    let text_chars = text_of_pong(p.pong);
    utf8::encode_utf8_valid_utf8(text_chars);
    utf8::encode_utf8_decode_utf8(text_chars);
}

/// What was read in any bytes can be sent on: built as a pong, it is read as the
/// same again, where its text is short enough for its length to be written.
pub proof fn law_read_build_read(buf: Seq<u8>)
    ensures
        ping_of_bytes(buf) matches Ok(p) ==> (utf8::encode_utf8(text_of_pong(p.pong)).len() < 65536
            ==> ping_of_bytes(bytes_of_pong(p)) == Ok::<PingView, PingError>(p)),
{
    if let Ok(p) = ping_of_bytes(buf) {
        let text_len = outside::be_value(buf[33], buf[34]);
        let raw = outside::utf8_lossy(buf.subrange(HEADER_LEN as int, HEADER_LEN + text_len));
        law_read_fields_free_of_separator(raw);
        if utf8::encode_utf8(text_of_pong(p.pong)).len() < 65536 {
            law_pong_round_trip(p);
        }
    }
}

/// Reading a text and writing what was read keeps the front of the text, and
/// closes it with one separator. Where the text ends in a separator it does not
/// grow by that.
pub proof fn law_rewritten_text_is_front(raw: Seq<char>)
    ensures
        text_of_pong(pong_of_text(raw)).last() == FIELD_SEPARATOR,
        text_of_pong(pong_of_text(raw)).drop_last().is_prefix_of(raw),
        utf8::encode_utf8(text_of_pong(pong_of_text(raw))).len() <= utf8::encode_utf8(raw).len() + 1,
        closed(raw) ==> utf8::encode_utf8(text_of_pong(pong_of_text(raw))).len()
            <= utf8::encode_utf8(raw).len(),
{
    let parts = text::split_on(raw, FIELD_SEPARATOR);
    let fields = pong_of_text(raw);
    let kept = text::trim_empty(fields);
    let m = kept.len() as int;
    text::law_trim_empty(fields);
    text::law_join_of_split(raw, FIELD_SEPARATOR);
    if m > 0 {
        assert(kept[m - 1] == fields[m - 1]);
    }
    assert(m <= parts.len());
    assert(kept =~= parts.take(m));
    text::lemma_join_of_front(parts, FIELD_SEPARATOR, m);
    let front = text::join_with(kept, FIELD_SEPARATOR);
    lemma_closed_len(front, raw);
    assert(text_of_pong(fields).drop_last() =~= front);
    if closed(raw) {
        let body = raw.drop_last();
        let before = text::split_on(body, FIELD_SEPARATOR);
        text::lemma_split_some(body, FIELD_SEPARATOR);
        assert(parts == before.push(Seq::<char>::empty()));
        if m == parts.len() {
            assert(kept[m - 1] == parts[m - 1]);
        }
        assert(kept =~= before.take(m));
        text::law_join_of_split(body, FIELD_SEPARATOR);
        text::lemma_join_of_front(before, FIELD_SEPARATOR, m);
        lemma_closed_len(front, body);
        lemma_closed_len(body, body);
        assert(body.push(FIELD_SEPARATOR) =~= raw);
    }
}

/// The text ends in a separator.
pub open spec fn closed(raw: Seq<char>) -> bool {
    raw.len() > 0 && raw.last() == FIELD_SEPARATOR
}

proof fn lemma_closed_len(front: Seq<char>, whole: Seq<char>)
    requires
        front.is_prefix_of(whole),
    ensures
        utf8::encode_utf8(front.push(FIELD_SEPARATOR)).len() == utf8::encode_utf8(front).len() + 1,
        utf8::encode_utf8(front).len() <= utf8::encode_utf8(whole).len(),
{
    let rest = whole.subrange(front.len() as int, whole.len() as int);
    let close = seq![FIELD_SEPARATOR];
    assert(front + rest =~= whole);
    text::lemma_encode_concat(front, rest);
    assert(front.push(FIELD_SEPARATOR) =~= front + close);
    text::lemma_encode_concat(front, close);
    assert(close.drop_first() =~= Seq::<char>::empty());
    assert(utf8::encode_utf8(close.drop_first()).len() == 0);
    assert(utf8::encode_utf8(close).len() == 1);
}

/// The bytes of the text of the message that `buf` begins with.
pub open spec fn text_bytes_of(buf: Seq<u8>) -> Seq<u8> {
    buf.subrange(HEADER_LEN as int, HEADER_LEN + outside::be_value(buf[33], buf[34]))
}

/// A message with a text in valid UTF-8 can be sent on, where the text ends in a
/// separator or is not of the greatest length that can be written: built as a
/// pong, it is read as the same again. The pong is at most one byte longer than
/// the message, and no longer where the text ends in a separator.
pub proof fn law_valid_message_sent_on(buf: Seq<u8>)
    requires
        holds_message(buf),
        utf8::valid_utf8(text_bytes_of(buf)),
        text_bytes_of(buf).len() < 65535 || closed(utf8::decode_utf8(text_bytes_of(buf))),
    ensures
        ping_of_bytes(buf) matches Ok(p) && ping_of_bytes(bytes_of_pong(p)) == Ok::<
            PingView,
            PingError,
        >(p) && bytes_of_pong(p).len() <= buf.len() + 1 && (closed(
            utf8::decode_utf8(text_bytes_of(buf)),
        ) ==> bytes_of_pong(p).len() <= buf.len()),
{
    let text_bytes = text_bytes_of(buf);
    let raw = utf8::decode_utf8(text_bytes);
    utf8::decode_utf8_encode_utf8(text_bytes);
    law_rewritten_text_is_front(raw);
    law_read_build_read(buf);
    law_pong_layout(ping_of_bytes(buf)->Ok_0);
}

/// Reading succeeds exactly on bytes that begin with a whole message.
pub proof fn law_when_reading_succeeds(buf: Seq<u8>)
    ensures
        ping_of_bytes(buf) is Ok <==> holds_message(buf),
        ping_of_bytes(buf) is Ok <==> buf.len() >= 35 && (buf[0] == 0x01 || buf[0] == 0x1C)
            && buf.len() >= 35 + buf[33] * 256 + buf[34],
{
}

/// Bytes behind the text change nothing.
pub proof fn law_trailing_bytes_ignored(buf: Seq<u8>, more: Seq<u8>)
    requires
        holds_message(buf),
    ensures
        ping_of_bytes(buf + more) == ping_of_bytes(buf),
{
    let whole = buf + more;
    let text_len = outside::be_value(buf[33], buf[34]);
    assert(whole.subrange(1, 9) =~= buf.subrange(1, 9));
    assert(whole.subrange(9, 17) =~= buf.subrange(9, 17));
    assert(whole.subrange(17, 33) =~= buf.subrange(17, 33));
    assert(whole.subrange(HEADER_LEN as int, HEADER_LEN + text_len) =~= buf.subrange(
        HEADER_LEN as int,
        HEADER_LEN + text_len,
    ));
}

/// A message that is cut short is refused.
pub proof fn law_cut_short_refused(buf: Seq<u8>, len: int)
    requires
        holds_message(buf),
        0 <= len < HEADER_LEN + outside::be_value(buf[33], buf[34]),
    ensures
        ping_of_bytes(buf.take(len)) is Err,
{
}

/// A ping and a pong that differ in the packet id alone read as the same.
pub proof fn law_packet_id_not_kept(buf: Seq<u8>)
    requires
        buf.len() > 0,
    ensures
        ping_of_bytes(buf.update(0, UNCONNECTED_PING_ID)) == ping_of_bytes(
            buf.update(0, UNCONNECTED_PONG_ID),
        ),
{
    let ping = buf.update(0, UNCONNECTED_PING_ID);
    let pong = buf.update(0, UNCONNECTED_PONG_ID);
    if buf.len() >= HEADER_LEN {
        let text_len = outside::be_value(buf[33], buf[34]);
        assert(ping.subrange(1, 9) =~= pong.subrange(1, 9));
        assert(ping.subrange(9, 17) =~= pong.subrange(9, 17));
        assert(ping.subrange(17, 33) =~= pong.subrange(17, 33));
        if buf.len() >= HEADER_LEN + text_len {
            assert(ping.subrange(HEADER_LEN as int, HEADER_LEN + text_len) =~= pong.subrange(
                HEADER_LEN as int,
                HEADER_LEN + text_len,
            ));
        }
    }
}

/// Each error stands for one way in which bytes are no message, and the first of
/// them that applies is the one that is given.
pub proof fn law_why_reading_fails(buf: Seq<u8>)
    ensures
        ping_of_bytes(buf) == Err::<PingView, PingError>(PingError::EmptyBuffer) <==> buf.len()
            == 0,
        ping_of_bytes(buf) == Err::<PingView, PingError>(PingError::NotPingOrPong) <==> buf.len()
            > 0 && buf[0] != 0x01 && buf[0] != 0x1C,
        ping_of_bytes(buf) == Err::<PingView, PingError>(PingError::BufferTooSmall) <==> 0
            < buf.len() < 35 && (buf[0] == 0x01 || buf[0] == 0x1C),
        ping_of_bytes(buf) == Err::<PingView, PingError>(PingError::UnexpectedEnd) <==> 35
            <= buf.len() < 35 + buf[33] * 256 + buf[34] && (buf[0] == 0x01 || buf[0] == 0x1C),
{
}

/// A message that is put together from its parts is read as these parts, whatever
/// follows it.
pub proof fn law_parts_are_read(
    packet_id: u8,
    ping_time: Seq<u8>,
    id: Seq<u8>,
    magic: Seq<u8>,
    high: u8,
    low: u8,
    raw: Seq<char>,
    more: Seq<u8>,
)
    requires
        packet_id == 0x01 || packet_id == 0x1C,
        ping_time.len() == 8,
        id.len() == 8,
        magic.len() == 16,
        high * 256 + low == utf8::encode_utf8(raw).len(),
    ensures
        ping_of_bytes(
            seq![packet_id] + ping_time + id + magic + seq![high, low] + utf8::encode_utf8(raw)
                + more,
        ) == Ok::<PingView, PingError>(
            PingView { ping_time, id, magic, pong: pong_of_text(raw) },
        ),
{
    let text_bytes = utf8::encode_utf8(raw);
    let buf = seq![packet_id] + ping_time + id + magic + seq![high, low] + text_bytes + more;
    utf8::encode_utf8_valid_utf8(raw);
    utf8::encode_utf8_decode_utf8(raw);
    assert(buf[0] == packet_id && buf[33] == high && buf[34] == low);
    assert(buf.subrange(1, 9) =~= ping_time);
    assert(buf.subrange(9, 17) =~= id);
    assert(buf.subrange(17, 33) =~= magic);
    assert(buf.subrange(35, 35 + text_bytes.len() as int) =~= text_bytes);
}

/// The first field of a text is what stands before its first semicolon, and the
/// other fields are the first fields of what stands behind it. A text without
/// semicolons is its own first field, and the only one that is not empty.
pub proof fn law_fields_are_read_in_turn(first: Seq<char>, rest: Seq<char>)
    requires
        !first.contains(';'),
    ensures
        pong_of_text(first).len() == 12,
        pong_of_text(first)[0] == first,
        forall|i: int| 1 <= i < 12 ==> (#[trigger] pong_of_text(first)[i]).len() == 0,
        pong_of_text(first + seq![';'] + rest).len() == 12,
        pong_of_text(first + seq![';'] + rest)[0] == first,
        forall|i: int|
            1 <= i < 12 ==> #[trigger] pong_of_text(first + seq![';'] + rest)[i] == pong_of_text(
                rest,
            )[i - 1],
{
    text::law_fields_of_text(rest, first, ';');
    text::law_fields_of_two_texts(first, rest, ';');
}

/// The text of a pong is made of the fields up to the last one that is not empty,
/// each with a semicolon behind it; where all fields are empty it is a semicolon.
pub proof fn law_fields_are_written_in_turn(fields: Seq<Seq<char>>, count: int)
    requires
        0 <= count <= fields.len(),
        count > 0 ==> fields[count - 1].len() > 0,
        forall|i: int| #![trigger fields[i]] count <= i < fields.len() ==> fields[i].len() == 0,
    ensures
        count == 0 ==> text_of_pong(fields) == seq![';'],
        count > 0 ==> text_of_pong(fields) == fields.take(count).map_values(
            |field: Seq<char>| field.push(';'),
        ).flatten(),
{
    text::law_trimmed_front(fields, count);
    if count == 0 {
        assert(fields.take(0) =~= Seq::<Seq<char>>::empty());
        assert(text_of_pong(fields) =~= seq![';']);
    } else {
        text::lemma_joined_is_flat(fields.take(count), ';');
    }
}

/// The fields of a pong are listed in the order in which they are written.
pub proof fn law_order_of_fields(p: PongData)
    ensures
        p@.len() == 12,
        p@[0] == p.edition@,
        p@[1] == p.motd@,
        p@[2] == p.protocol_version@,
        p@[3] == p.version@,
        p@[4] == p.players@,
        p@[5] == p.max_players@,
        p@[6] == p.server_id@,
        p@[7] == p.submotd@,
        p@[8] == p.game_type@,
        p@[9] == p.nintendo_limited@,
        p@[10] == p.port4@,
        p@[11] == p.port6@,
{
}

/// The contents of a message are those of its parts.
pub proof fn law_contents_of_message(p: UnconnectedPing)
    ensures
        p@.ping_time == p.ping_time@,
        p@.id == p.id@,
        p@.magic == p.magic@,
        p@.pong == p.pong@,
{
}

} // verus!
