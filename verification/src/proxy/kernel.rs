//! Proxying with one connected socket for each client.
//!
//! A packet of a client that has no session yet arrives at the listening socket.
//! A session is opened for it: a socket that is connected to the client, and a
//! loop that relays between this socket and the server. Packets that still
//! arrive at the listening socket are handed to the session through a channel.
//!
//! Points in time and spans of time are numbers of nanoseconds; all points count
//! from the same moment.
use vstd::prelude::*;
use vstd::slice::slice_to_vec;
use crate::addr::SockAddr;
use crate::table;
use crate::table::{is_idle, Slot, Table};
use super::Received;

verus! {

/// What the loop at a listening socket does with what it received.
pub enum ReadAction {
    /// Nothing.
    Ignore,
    /// Hand the packet to the session that its sender has.
    Deliver(Vec<u8>),
    /// Open a session for its sender, and hand the packet to it.
    Open(Vec<u8>),
    /// End.
    Stop,
}

/// The loop at a listening socket: the sessions that it has opened. The end of
/// the channel to a session is a value of type `S`.
pub struct ReadLoop<S> {
    timeout: u128,
    sessions: Table<SockAddr, S>,
}

impl<S> ReadLoop<S> {
    /// The channels by the address of the client, each with the time when it was
    /// last used.
    pub closed spec fn view(self) -> Map<SockAddr, Slot<S>> {
        self.sessions.view()
    }

    /// How long a channel may be unused before it is dropped.
    pub closed spec fn timeout(self) -> u128 {
        self.timeout
    }

    /// No client has two sessions.
    pub closed spec fn wf(self) -> bool {
        self.sessions.wf()
    }

    /// A loop without sessions.
    pub fn new(timeout: u128) -> (l: Self)
        ensures
            l.wf(),
            l.timeout() == timeout,
            l@ == Map::<SockAddr, Slot<S>>::empty(),
    {
        ReadLoop { timeout, sessions: Table::new() }
    }

    /// Drops the channels that have not been used for more than the timeout, and
    /// no others.
    pub fn on_tick(&mut self, now: u128)
        requires
            old(self).wf(),
        ensures
            final(self).wf(),
            final(self).timeout() == old(self).timeout(),
            final(self)@ == table::active_part(old(self)@, old(self).timeout(), now),
            forall|k: SockAddr| #[trigger]
                final(self)@.dom().contains(k) <==> old(self)@.dom().contains(k) && now
                    <= old(self)@[k].last_used + old(self).timeout(),
            final(self)@.submap_of(old(self)@),
    {
        let timeout: u128 = self.timeout;
        self.sessions.retain_active(timeout, now);
    }

    /// Decides what to do with what the listening socket handed over. The
    /// session of the sender, if there is one, counts as used at `now`.
    pub fn on_receive(&mut self, received: Received<'_>, now: u128) -> (action: ReadAction)
        requires
            old(self).wf(),
        ensures
            final(self).wf(),
            final(self).timeout() == old(self).timeout(),
            match received {
                Received::Failed => action is Stop && final(self)@ == old(self)@,
                Received::Packet { data, from } => {
                    if data@.len() == 0 {
                        action is Ignore && final(self)@ == old(self)@
                    } else {
                        &&& final(self)@ == table::touched(old(self)@, from, now)
                        &&& if old(self)@.dom().contains(from) {
                            &&& action matches ReadAction::Deliver(packet) && packet@ == data@
                            &&& final(self)@ == old(self)@.insert(
                                from,
                                Slot { value: old(self)@[from].value, last_used: now },
                            )
                        } else {
                            &&& action matches ReadAction::Open(packet) && packet@ == data@
                            &&& final(self)@ == old(self)@
                        }
                    }
                },
            },
    {
        match received {
            Received::Failed => ReadAction::Stop,
            Received::Packet { data, from } => {
                if data.len() == 0 {
                    return ReadAction::Ignore;
                }
                if self.sessions.touch(&from, now) {
                    ReadAction::Deliver(slice_to_vec(data))
                } else {
                    ReadAction::Open(slice_to_vec(data))
                }
            },
        }
    }

    /// Takes in the session that was opened for `client`.
    pub fn on_opened(&mut self, client: SockAddr, channel: S, now: u128)
        requires
            old(self).wf(),
        ensures
            final(self).wf(),
            final(self).timeout() == old(self).timeout(),
            final(self)@ == old(self)@.insert(client, Slot { value: channel, last_used: now }),
    {
        self.sessions.insert(client, channel, now);
    }

    /// The channel to the session of `client`.
    pub fn channel(&self, client: &SockAddr) -> (channel: Option<&S>)
        requires
            self.wf(),
        ensures
            channel is Some <==> self@.dom().contains(*client),
            channel matches Some(c) ==> *c == self@[*client].value,
    {
        self.sessions.get(client)
    }

    /// Takes in whether a packet could be handed to the session of `client`. If
    /// not, the session is gone, and its channel is dropped.
    pub fn on_handed(&mut self, client: &SockAddr, delivered: bool)
        requires
            old(self).wf(),
        ensures
            final(self).wf(),
            final(self).timeout() == old(self).timeout(),
            final(self)@ == if delivered {
                old(self)@
            } else {
                old(self)@.remove(*client)
            },
    {
        if !delivered {
            self.sessions.remove(client);
        }
    }
}

/// What happens to the loop of a session.
#[derive(Debug, Clone, Copy)]
pub enum SessionEvent<'a> {
    /// It is time to see whether the session is still in use.
    Tick,
    /// A packet came through the channel, or nothing will come any more.
    Channel(Option<&'a [u8]>),
    /// The socket that is connected to the client handed something over.
    Client(Received<'a>),
    /// A packet came from the server, or the socket to the server has failed.
    Server(Option<&'a [u8]>),
}

/// What the loop of a session does then.
pub enum SessionAction {
    /// Nothing.
    Wait,
    /// Send the packet to the server.
    ToServer(Vec<u8>),
    /// Send the packet to the client.
    ToClient(Vec<u8>),
    /// End.
    Close,
}

/// The contents of a [`SessionAction`].
pub enum SessionActionView {
    Wait,
    ToServer(Seq<u8>),
    ToClient(Seq<u8>),
    Close,
}

impl View for SessionAction {
    type V = SessionActionView;

    open spec fn view(&self) -> SessionActionView {
        match *self {
            SessionAction::Wait => SessionActionView::Wait,
            SessionAction::ToServer(packet) => SessionActionView::ToServer(packet@),
            SessionAction::ToClient(packet) => SessionActionView::ToClient(packet@),
            SessionAction::Close => SessionActionView::Close,
        }
    }
}

/// The loop of a session.
#[derive(Debug, Clone, Copy)]
pub struct Session {
    /// How long both sides may be silent before the session ends.
    pub timeout: u128,
    /// The client.
    pub client: SockAddr,
    /// When the socket of the client last handed something over.
    pub last_client_message: u128,
    /// When the socket of the server last handed something over.
    pub last_server_message: u128,
}

impl Session {
    /// Both sides have been silent for more than the timeout.
    pub open spec fn silent(self, now: u128) -> bool {
        &&& table::idle(self.last_client_message, self.timeout, now)
        &&& table::idle(self.last_server_message, self.timeout, now)
    }

    /// The session after `event`. What a socket hands over counts as a sign of
    /// life, whatever it is; what comes through the channel does not.
    pub open spec fn after(self, event: SessionEvent<'_>, now: u128) -> Session {
        match event {
            SessionEvent::Tick => self,
            SessionEvent::Channel(_) => self,
            SessionEvent::Client(_) => Session { last_client_message: now, ..self },
            SessionEvent::Server(_) => Session { last_server_message: now, ..self },
        }
    }

    /// What the session does at `event`.
    pub open spec fn reaction(self, event: SessionEvent<'_>, now: u128) -> SessionActionView {
        match event {
            SessionEvent::Tick => if self.silent(now) {
                SessionActionView::Close
            } else {
                SessionActionView::Wait
            },
            SessionEvent::Channel(None) => SessionActionView::Wait,
            SessionEvent::Channel(Some(data)) => if data@.len() == 0 {
                SessionActionView::Wait
            } else {
                SessionActionView::ToServer(data@)
            },
            SessionEvent::Client(Received::Failed) => SessionActionView::Close,
            SessionEvent::Client(Received::Packet { data, from }) => if data@.len() == 0 || from
                != self.client {
                SessionActionView::Wait
            } else {
                SessionActionView::ToServer(data@)
            },
            SessionEvent::Server(None) => SessionActionView::Close,
            SessionEvent::Server(Some(data)) => if data@.len() == 0 {
                SessionActionView::Wait
            } else {
                SessionActionView::ToClient(data@)
            },
        }
    }

    /// A session with `client` that begins at `now`.
    pub fn new(timeout: u128, client: SockAddr, now: u128) -> (s: Self)
        ensures
            s == (Session {
                timeout,
                client,
                last_client_message: now,
                last_server_message: now,
            }),
    {
        Session { timeout, client, last_client_message: now, last_server_message: now }
    }

    /// Decides what to do at `event`.
    pub fn step(&mut self, event: SessionEvent<'_>, now: u128) -> (action: SessionAction)
        ensures
            *final(self) == old(self).after(event, now),
            action@ == old(self).reaction(event, now),
            final(self).timeout == old(self).timeout,
            final(self).client == old(self).client,
            final(self).last_client_message == if event is Client {
                now
            } else {
                old(self).last_client_message
            },
            final(self).last_server_message == if event is Server {
                now
            } else {
                old(self).last_server_message
            },
            match action {
                SessionAction::Close => match event {
                    SessionEvent::Tick => {
                        &&& now > old(self).last_client_message + old(self).timeout
                        &&& now > old(self).last_server_message + old(self).timeout
                    },
                    SessionEvent::Client(received) => received is Failed,
                    SessionEvent::Server(received) => received is None,
                    SessionEvent::Channel(_) => false,
                },
                SessionAction::ToServer(packet) => {
                    &&& packet@.len() > 0
                    &&& match event {
                        SessionEvent::Channel(Some(data)) => packet@ == data@,
                        SessionEvent::Client(Received::Packet { data, from }) => packet@ == data@
                            && from == old(self).client,
                        _ => false,
                    }
                },
                SessionAction::ToClient(packet) => {
                    &&& packet@.len() > 0
                    &&& match event {
                        SessionEvent::Server(Some(data)) => packet@ == data@,
                        _ => false,
                    }
                },
                SessionAction::Wait => match event {
                    SessionEvent::Tick => now <= old(self).last_client_message + old(self).timeout
                        || now <= old(self).last_server_message + old(self).timeout,
                    SessionEvent::Channel(Some(data)) => data@.len() == 0,
                    SessionEvent::Channel(None) => true,
                    SessionEvent::Client(Received::Packet { data, from }) => data@.len() == 0
                        || from != old(self).client,
                    SessionEvent::Client(Received::Failed) => false,
                    SessionEvent::Server(Some(data)) => data@.len() == 0,
                    SessionEvent::Server(None) => false,
                },
            },
    {
        match event {
            SessionEvent::Tick => {
                if is_idle(self.last_client_message, self.timeout, now) && is_idle(
                    self.last_server_message,
                    self.timeout,
                    now,
                ) {
                    SessionAction::Close
                } else {
                    SessionAction::Wait
                }
            },
            SessionEvent::Channel(received) => match received {
                Some(data) => {
                    if data.len() == 0 {
                        SessionAction::Wait
                    } else {
                        SessionAction::ToServer(slice_to_vec(data))
                    }
                },
                None => SessionAction::Wait,
            },
            SessionEvent::Client(received) => {
                self.last_client_message = now;
                match received {
                    Received::Packet { data, from } => {
                        if data.len() == 0 {
                            SessionAction::Wait
                        } else if from != self.client {
                            // A packet of another client can slip in between
                            // binding and connecting the socket.
                            SessionAction::Wait
                        } else {
                            SessionAction::ToServer(slice_to_vec(data))
                        }
                    },
                    Received::Failed => SessionAction::Close,
                }
            },
            SessionEvent::Server(received) => {
                self.last_server_message = now;
                match received {
                    Some(data) => {
                        if data.len() == 0 {
                            SessionAction::Wait
                        } else {
                            SessionAction::ToClient(slice_to_vec(data))
                        }
                    },
                    None => SessionAction::Close,
                }
            },
        }
    }
}

impl Session {
    /// The session after the events, in their order, each with its time.
    pub open spec fn run(self, events: Seq<(SessionEvent<'_>, u128)>) -> Session
        decreases events.len(),
    {
        if events.len() == 0 {
            self
        } else {
            self.run(events.drop_last()).after(events.last().0, events.last().1)
        }
    }
}

/// Packets are passed on as they are, and only where they belong: to the server
/// goes what came from the client or through the channel, to the client what
/// came from the server. No empty packet is passed on.
pub proof fn law_passed_on_unchanged(s: Session, event: SessionEvent<'_>, now: u128)
    ensures
        s.reaction(event, now) matches SessionActionView::ToServer(packet) ==> {
            &&& packet.len() > 0
            &&& match event {
                SessionEvent::Channel(Some(data)) => packet == data@,
                SessionEvent::Client(Received::Packet { data, from }) => packet == data@ && from
                    == s.client,
                _ => false,
            }
        },
        s.reaction(event, now) matches SessionActionView::ToClient(packet) ==> {
            &&& packet.len() > 0
            &&& match event {
                SessionEvent::Server(Some(data)) => packet == data@,
                _ => false,
            }
        },
{
}

/// Every packet that is not empty is passed on, but for those that reach the
/// client's socket from elsewhere.
pub proof fn law_nothing_withheld(s: Session, data: &[u8], now: u128)
    requires
        data@.len() > 0,
    ensures
        s.reaction(SessionEvent::Channel(Some(data)), now) == SessionActionView::ToServer(data@),
        s.reaction(SessionEvent::Server(Some(data)), now) == SessionActionView::ToClient(data@),
        forall|from: SockAddr|
            #![trigger s.reaction(SessionEvent::Client(Received::Packet { data, from }), now)]
            s.reaction(SessionEvent::Client(Received::Packet { data, from }), now) == if from
                == s.client {
                SessionActionView::ToServer(data@)
            } else {
                SessionActionView::Wait
            },
{
}

/// A session ends when a look at the clock finds both sides silent, or when one
/// of its sockets fails, and not otherwise.
pub proof fn law_when_session_ends(s: Session, event: SessionEvent<'_>, now: u128)
    ensures
        s.reaction(event, now) is Close <==> match event {
            SessionEvent::Tick => now > s.last_client_message + s.timeout && now
                > s.last_server_message + s.timeout,
            SessionEvent::Client(received) => received is Failed,
            SessionEvent::Server(received) => received is None,
            SessionEvent::Channel(_) => false,
        },
{
}

/// Whatever happens, a session stays with its client and its timeout.
pub proof fn law_session_stays_with_client(s: Session, events: Seq<(SessionEvent<'_>, u128)>)
    ensures
        s.run(events).client == s.client,
        s.run(events).timeout == s.timeout,
    decreases events.len(),
{
    if events.len() > 0 {
        law_session_stays_with_client(s, events.drop_last());
    }
}

/// The times of the events do not run backwards.
pub open spec fn in_order(events: Seq<(SessionEvent<'_>, u128)>) -> bool {
    forall|i: int, j: int|
        #![trigger events[i], events[j]]
        0 <= i <= j < events.len() ==> events[i].1 <= events[j].1
}

/// A sign of life of either side keeps a session open: a look at the clock that
/// comes within the timeout of it does not end the session.
pub proof fn law_live_session_stays_open(
    s: Session,
    events: Seq<(SessionEvent<'_>, u128)>,
    sign: int,
    now: u128,
)
    requires
        in_order(events),
        0 <= sign < events.len(),
        events[sign].0 is Client || events[sign].0 is Server,
        now <= events[sign].1 + s.timeout,
    ensures
        s.run(events).reaction(SessionEvent::Tick, now) is Wait,
{
    lemma_last_sign(s, events, sign);
    law_session_stays_with_client(s, events);
}

proof fn lemma_last_sign(s: Session, events: Seq<(SessionEvent<'_>, u128)>, sign: int)
    requires
        in_order(events),
        0 <= sign < events.len(),
    ensures
        events[sign].0 is Client ==> s.run(events).last_client_message >= events[sign].1,
        events[sign].0 is Server ==> s.run(events).last_server_message >= events[sign].1,
    decreases events.len(),
{
    let last = events.len() - 1;
    assert(events.last() == events[last]);
    if sign < last {
        let head = events.drop_last();
        assert forall|i: int, j: int|
            #![trigger head[i], head[j]]
            0 <= i <= j < head.len() implies head[i].1 <= head[j].1 by {
            assert(head[i] == events[i] && head[j] == events[j]);
        }
        assert(head[sign] == events[sign]);
        lemma_last_sign(s, head, sign);
        assert(events[sign].1 <= events[last].1);
    }
}

/// The channel keeps no session open: where neither socket hands anything over,
/// the first look at the clock after the timeout ends the session.
pub proof fn law_silent_session_ends(
    s: Session,
    events: Seq<(SessionEvent<'_>, u128)>,
    now: u128,
)
    requires
        forall|i: int|
            #![trigger events[i]]
            0 <= i < events.len() ==> events[i].0 is Tick || events[i].0 is Channel,
        now > s.last_client_message + s.timeout,
        now > s.last_server_message + s.timeout,
    ensures
        s.run(events) == s,
        s.run(events).reaction(SessionEvent::Tick, now) is Close,
    decreases events.len(),
{
    if events.len() > 0 {
        let head = events.drop_last();
        assert forall|i: int| #![trigger head[i]] 0 <= i < head.len() implies head[i].0 is Tick
            || head[i].0 is Channel by {
            assert(head[i] == events[i]);
        }
        law_silent_session_ends(s, head, now);
        assert(events.last() == events[events.len() - 1]);
    }
}

/// What is empty is not passed on, and what came from elsewhere neither; the
/// session waits on.
pub proof fn law_what_is_withheld(s: Session, data: &[u8], from: SockAddr, now: u128)
    ensures
        data@.len() == 0 || from != s.client ==> s.reaction(
            SessionEvent::Client(Received::Packet { data, from }),
            now,
        ) is Wait,
        data@.len() == 0 ==> s.reaction(SessionEvent::Channel(Some(data)), now) is Wait,
        data@.len() == 0 ==> s.reaction(SessionEvent::Server(Some(data)), now) is Wait,
        s.reaction(SessionEvent::Channel(None), now) is Wait,
{
}

/// After any events, the recorded time of the client is that of the last event of
/// its socket, whatever that event was.
pub proof fn law_client_time_is_last(
    s: Session,
    events: Seq<(SessionEvent<'_>, u128)>,
    last: int,
)
    requires
        0 <= last < events.len(),
        events[last].0 is Client,
        forall|i: int| #![trigger events[i]] last < i < events.len() ==> !(events[i].0 is Client),
    ensures
        s.run(events).last_client_message == events[last].1,
    decreases events.len(),
{
    let end = events.len() - 1;
    assert(events.last() == events[end]);
    if last < end {
        let head = events.drop_last();
        assert(head[last] == events[last]);
        assert forall|i: int| #![trigger head[i]] last < i < head.len() implies !(
        head[i].0 is Client) by {
            assert(head[i] == events[i]);
        }
        law_client_time_is_last(s, head, last);
    }
}

/// After any events, the recorded time of the server is that of the last event of
/// its socket, whatever that event was.
pub proof fn law_server_time_is_last(
    s: Session,
    events: Seq<(SessionEvent<'_>, u128)>,
    last: int,
)
    requires
        0 <= last < events.len(),
        events[last].0 is Server,
        forall|i: int| #![trigger events[i]] last < i < events.len() ==> !(events[i].0 is Server),
    ensures
        s.run(events).last_server_message == events[last].1,
    decreases events.len(),
{
    let end = events.len() - 1;
    assert(events.last() == events[end]);
    if last < end {
        let head = events.drop_last();
        assert(head[last] == events[last]);
        assert forall|i: int| #![trigger head[i]] last < i < head.len() implies !(
        head[i].0 is Server) by {
            assert(head[i] == events[i]);
        }
        law_server_time_is_last(s, head, last);
    }
}

/// Events that are not of a side's socket do not touch the time recorded for that
/// side.
pub proof fn law_unheard_side_keeps_time(s: Session, events: Seq<(SessionEvent<'_>, u128)>)
    ensures
        (forall|i: int| #![trigger events[i]] 0 <= i < events.len() ==> !(events[i].0 is Client))
            ==> s.run(events).last_client_message == s.last_client_message,
        (forall|i: int| #![trigger events[i]] 0 <= i < events.len() ==> !(events[i].0 is Server))
            ==> s.run(events).last_server_message == s.last_server_message,
    decreases events.len(),
{
    if events.len() > 0 {
        let head = events.drop_last();
        law_unheard_side_keeps_time(s, head);
        assert(events.last() == events[events.len() - 1]);
        assert(forall|i: int| #![trigger head[i]] 0 <= i < head.len() ==> head[i] == events[i]);
    }
}

/// A session ends once both sides have been silent longer than the timeout: if
/// neither was heard after `heard`, whatever happened until then, any look at the
/// clock more than the timeout later ends it.
pub proof fn law_silence_ends_session(
    s: Session,
    events: Seq<(SessionEvent<'_>, u128)>,
    heard: u128,
    now: u128,
)
    requires
        s.last_client_message <= heard,
        s.last_server_message <= heard,
        forall|i: int|
            #![trigger events[i]]
            0 <= i < events.len() && (events[i].0 is Client || events[i].0 is Server)
                ==> events[i].1 <= heard,
        now > heard + s.timeout,
    ensures
        s.run(events).reaction(SessionEvent::Tick, now) is Close,
{
    lemma_heard_until(s, events, heard);
    law_session_stays_with_client(s, events);
}

proof fn lemma_heard_until(s: Session, events: Seq<(SessionEvent<'_>, u128)>, heard: u128)
    requires
        s.last_client_message <= heard,
        s.last_server_message <= heard,
        forall|i: int|
            #![trigger events[i]]
            0 <= i < events.len() && (events[i].0 is Client || events[i].0 is Server)
                ==> events[i].1 <= heard,
    ensures
        s.run(events).last_client_message <= heard,
        s.run(events).last_server_message <= heard,
    decreases events.len(),
{
    if events.len() > 0 {
        let head = events.drop_last();
        assert forall|i: int|
            #![trigger head[i]]
            0 <= i < head.len() && (head[i].0 is Client || head[i].0 is Server) implies head[i].1
            <= heard by {
            assert(head[i] == events[i]);
        }
        lemma_heard_until(s, head, heard);
        assert(events.last() == events[events.len() - 1]);
    }
}

} // verus!
