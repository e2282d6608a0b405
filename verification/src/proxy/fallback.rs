//! Proxying with one listening socket for all clients, and one socket to the
//! server for each of them.
//!
//! Packets of clients arrive at the listening socket. Each is sent on through
//! the socket that the [`ClientMap`](crate::clientmap::ClientMap) holds for its
//! sender; what the server answers there goes back through the listening socket.
use vstd::prelude::*;
use vstd::slice::slice_to_vec;
use crate::proto;
use crate::proto::{offline_pong, UNCONNECTED_PING_ID};

verus! {

/// What happens to the loop at a listening socket.
pub enum ReadEvent<'a> {
    /// A packet came from a client, or the socket has failed.
    Received(Option<&'a [u8]>),
    /// There is a socket to the server for the sender of the packet; it may have
    /// been created just now.
    Mapped { packet: Vec<u8>, created: bool },
    /// There is no such socket, and none could be opened.
    NotMapped { packet: Vec<u8> },
    /// The pong for a server that cannot be reached was made up, or could not
    /// be.
    Rewritten(Option<Vec<u8>>),
}

/// What the loop does then.
pub enum ReadAction {
    /// Nothing.
    Ignore,
    /// Find or open the socket to the server for the sender of the packet.
    FindSocket { packet: Vec<u8> },
    /// Send the packet to the server; first, where asked to, start passing on
    /// what the server answers.
    Forward { packet: Vec<u8>, start_reader: bool },
    /// Make up a pong for the sender from this one, with this server id, and
    /// without ports where asked to.
    Rewrite { pong: Vec<u8>, server_id: i64, remove_ports: bool },
    /// Send the pong to the sender of the packet.
    Answer { pong: Vec<u8> },
    /// End.
    Stop,
}

/// The contents of a [`ReadEvent`].
pub enum ReadEventView {
    Received(Option<Seq<u8>>),
    Mapped { packet: Seq<u8>, created: bool },
    NotMapped { packet: Seq<u8> },
    Rewritten(Option<Seq<u8>>),
}

/// The contents of a [`ReadAction`].
pub enum ReadActionView {
    Ignore,
    FindSocket { packet: Seq<u8> },
    Forward { packet: Seq<u8>, start_reader: bool },
    Rewrite { pong: Seq<u8>, server_id: i64, remove_ports: bool },
    Answer { pong: Seq<u8> },
    Stop,
}

impl<'a> View for ReadEvent<'a> {
    type V = ReadEventView;

    open spec fn view(&self) -> ReadEventView {
        match *self {
            ReadEvent::Received(Some(data)) => ReadEventView::Received(Some(data@)),
            ReadEvent::Received(None) => ReadEventView::Received(None),
            ReadEvent::Mapped { packet, created } => ReadEventView::Mapped {
                packet: packet@,
                created,
            },
            ReadEvent::NotMapped { packet } => ReadEventView::NotMapped { packet: packet@ },
            ReadEvent::Rewritten(Some(pong)) => ReadEventView::Rewritten(Some(pong@)),
            ReadEvent::Rewritten(None) => ReadEventView::Rewritten(None),
        }
    }
}

impl View for ReadAction {
    type V = ReadActionView;

    open spec fn view(&self) -> ReadActionView {
        match *self {
            ReadAction::Ignore => ReadActionView::Ignore,
            ReadAction::FindSocket { packet } => ReadActionView::FindSocket { packet: packet@ },
            ReadAction::Forward { packet, start_reader } => ReadActionView::Forward {
                packet: packet@,
                start_reader,
            },
            ReadAction::Rewrite { pong, server_id, remove_ports } => ReadActionView::Rewrite {
                pong: pong@,
                server_id,
                remove_ports,
            },
            ReadAction::Answer { pong } => ReadActionView::Answer { pong: pong@ },
            ReadAction::Stop => ReadActionView::Stop,
        }
    }
}

/// Whether a packet asks for servers on the LAN.
pub open spec fn asks_for_servers(packet: Seq<u8>) -> bool {
    packet.len() > 0 && packet[0] == UNCONNECTED_PING_ID
}

/// Whether a packet asks for servers on the LAN.
pub fn is_lan_ping(packet: &[u8]) -> (b: bool)
    ensures
        b == asks_for_servers(packet@),
        b == (packet@.len() > 0 && packet@[0] == 0x01),
{
    packet.len() > 0 && packet[0] == UNCONNECTED_PING_ID
}

/// The loop at a listening socket.
#[derive(Debug, Clone, Copy)]
pub struct ReadLoop {
    /// The server id that is handed on with
    /// [`ReadAction::Rewrite`](ReadAction::Rewrite).
    pub server_id: i64,
    /// Whether a pong is to be made up without ports; handed on with
    /// [`ReadAction::Rewrite`](ReadAction::Rewrite).
    pub remove_ports: bool,
}

impl ReadLoop {
    /// What the loop does at `event`.
    pub open spec fn reaction(self, event: ReadEventView) -> ReadActionView {
        match event {
            ReadEventView::Received(None) => ReadActionView::Stop,
            ReadEventView::Received(Some(data)) => if data.len() == 0 {
                ReadActionView::Ignore
            } else {
                ReadActionView::FindSocket { packet: data }
            },
            ReadEventView::Mapped { packet, created } => ReadActionView::Forward {
                packet,
                start_reader: created,
            },
            ReadEventView::NotMapped { packet } => if asks_for_servers(packet) {
                ReadActionView::Rewrite {
                    pong: proto::bytes_of_pong(proto::offline_ping()),
                    server_id: self.server_id,
                    remove_ports: self.remove_ports,
                }
            } else {
                ReadActionView::Ignore
            },
            ReadEventView::Rewritten(Some(pong)) => ReadActionView::Answer { pong },
            ReadEventView::Rewritten(None) => ReadActionView::Ignore,
        }
    }

    /// Decides what to do at `event`.
    pub fn step(&self, event: ReadEvent<'_>) -> (action: ReadAction)
        ensures
            action@ == self.reaction(event@),
            match event {
                ReadEvent::Received(Some(data)) => if data@.len() == 0 {
                    action is Ignore
                } else {
                    action matches ReadAction::FindSocket { packet } && packet@ == data@
                },
                ReadEvent::Received(None) => action is Stop,
                ReadEvent::Mapped { packet: sent, created } => action matches ReadAction::Forward {
                    packet,
                    start_reader,
                } && packet@ == sent@ && start_reader == created,
                ReadEvent::NotMapped { packet } => if packet@.len() > 0 && packet@[0] == 0x01 {
                    &&& action matches ReadAction::Rewrite { pong, server_id, remove_ports }
                    &&& server_id == self.server_id
                    &&& remove_ports == self.remove_ports
                    &&& proto::ping_of_bytes(pong@) == Ok::<proto::PingView, proto::PingError>(
                        proto::offline_ping(),
                    )
                } else {
                    action is Ignore
                },
                ReadEvent::Rewritten(Some(made)) => action matches ReadAction::Answer { pong }
                    && pong@ == made@,
                ReadEvent::Rewritten(None) => action is Ignore,
            },
    {
        match event {
            ReadEvent::Received(received) => match received {
                Some(data) => {
                    if data.len() == 0 {
                        ReadAction::Ignore
                    } else {
                        ReadAction::FindSocket { packet: slice_to_vec(data) }
                    }
                },
                None => ReadAction::Stop,
            },
            ReadEvent::Mapped { packet, created } => ReadAction::Forward {
                packet,
                start_reader: created,
            },
            ReadEvent::NotMapped { packet } => {
                if is_lan_ping(packet.as_slice()) {
                    ReadAction::Rewrite {
                        pong: offline_pong(),
                        server_id: self.server_id,
                        remove_ports: self.remove_ports,
                    }
                } else {
                    ReadAction::Ignore
                }
            },
            ReadEvent::Rewritten(rewritten) => match rewritten {
                Some(pong) => ReadAction::Answer { pong },
                None => ReadAction::Ignore,
            },
        }
    }
}

/// What the reader at a socket to the server does with what it received.
pub enum ReaderAction {
    /// Nothing.
    Ignore,
    /// Send the packet to the client.
    ToClient(Vec<u8>),
    /// End.
    Stop,
}

/// Decides what to do with a packet of the server, or with the failure of the
/// socket to it.
pub fn reader_step(received: Option<&[u8]>) -> (action: ReaderAction)
    ensures
        match received {
            None => action is Stop,
            Some(data) => if data@.len() == 0 {
                action is Ignore
            } else {
                action matches ReaderAction::ToClient(packet) && packet@ == data@
            },
        },
{
    match received {
        Some(data) => {
            if data.len() == 0 {
                ReaderAction::Ignore
            } else {
                ReaderAction::ToClient(slice_to_vec(data))
            }
        },
        None => ReaderAction::Stop,
    }
}

/// The packet that the loop wants mapped is the packet that it received, and
/// once it is mapped that packet goes to the server. A reader is started exactly
/// when the socket is new.
pub proof fn law_packet_forwarded_unchanged(l: ReadLoop, data: Seq<u8>, created: bool)
    requires
        data.len() > 0,
    ensures
        l.reaction(ReadEventView::Received(Some(data))) matches ReadActionView::FindSocket { packet }
            && l.reaction(ReadEventView::Mapped { packet, created }) == (ReadActionView::Forward {
            packet: data,
            start_reader: created,
        }),
{
}

/// A client gets an answer of the proxy's own only where it has no socket to the
/// server and asks for servers; what it is answered is then made from the pong
/// for a server that cannot be reached.
pub proof fn law_when_offline_pong_is_used(l: ReadLoop, event: ReadEventView)
    ensures
        l.reaction(event) is Rewrite <==> (event matches ReadEventView::NotMapped { packet }
            && packet.len() > 0 && packet[0] == 0x01),
        l.reaction(event) matches ReadActionView::Rewrite { pong, server_id, remove_ports } ==> pong
            == proto::bytes_of_pong(proto::offline_ping()) && server_id == l.server_id
            && remove_ports == l.remove_ports,
{
}

/// The loop ends when its socket fails, and not otherwise.
pub proof fn law_when_read_loop_ends(l: ReadLoop, event: ReadEventView)
    ensures
        l.reaction(event) is Stop <==> event == ReadEventView::Received(None),
{
}

/// The pong that was made up is the pong that is sent; where none could be made
/// up, nothing is.
pub proof fn law_made_up_pong_is_sent(l: ReadLoop, pong: Seq<u8>)
    ensures
        l.reaction(ReadEventView::Rewritten(Some(pong))) == (ReadActionView::Answer { pong }),
        l.reaction(ReadEventView::Rewritten(None)) is Ignore,
{
}

/// A client that asks for servers and has no socket to the server is answered:
/// a pong is to be made up for it, and that pong, whatever it is, is sent.
pub proof fn law_unreachable_server_is_answered(l: ReadLoop, packet: Seq<u8>, pong: Seq<u8>)
    requires
        packet.len() > 0,
        packet[0] == 0x01,
    ensures
        l.reaction(ReadEventView::Received(Some(packet))) == (ReadActionView::FindSocket {
            packet,
        }),
        l.reaction(ReadEventView::NotMapped { packet }) is Rewrite,
        l.reaction(ReadEventView::Rewritten(Some(pong))) == (ReadActionView::Answer { pong }),
{
}

/// Nothing is done about an empty packet, about a packet without a socket that
/// does not ask for servers, and where no pong could be made up; about all else
/// something is.
pub proof fn law_when_nothing_is_done(l: ReadLoop, event: ReadEventView)
    ensures
        l.reaction(event) is Ignore <==> match event {
            ReadEventView::Received(Some(data)) => data.len() == 0,
            ReadEventView::Received(None) => false,
            ReadEventView::Mapped { .. } => false,
            ReadEventView::NotMapped { packet } => packet.len() == 0 || packet[0] != 0x01,
            ReadEventView::Rewritten(made) => made is None,
        },
{
}

/// A packet goes to the server only where it was mapped, and a pong to the client
/// only where it was made up.
pub proof fn law_when_something_is_sent(l: ReadLoop, event: ReadEventView)
    ensures
        l.reaction(event) matches ReadActionView::Forward { packet, start_reader } ==> event == (
        ReadEventView::Mapped { packet, created: start_reader }),
        l.reaction(event) matches ReadActionView::Answer { pong } ==> event
            == ReadEventView::Rewritten(Some(pong)),
        l.reaction(event) matches ReadActionView::FindSocket { packet } ==> event
            == ReadEventView::Received(Some(packet)),
{
}

} // verus!
