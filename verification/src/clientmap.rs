//! The clients that are served, each with the socket on which it talks to the
//! server.
//!
//! The entries live in a [`ClientStore`]. A [`ClientMap`] says which of them are
//! meant: its clones share one set of entries.
//!
//! Points in time and spans of time are numbers of nanoseconds; all points count
//! from the same moment.
use vstd::prelude::*;
use crate::addr::{any_local, IpVersion, SockAddr};
use crate::addr;
use crate::table;
use crate::table::{Slot, Table};

verus! {

/// A client, as the map knows it: its socket address as text, and the version
/// of its IP address.
#[derive(Debug, Clone)]
pub struct Client {
    pub address: String,
    pub version: IpVersion,
}

/// What there is for a client.
pub enum Lookup<'a, S> {
    /// The socket that was opened for it before.
    Existing(&'a S),
    /// Nothing: a socket is to be opened, bound to `bind` and connected to
    /// `remote`.
    Connect { bind: &'static str, remote: SockAddr },
}

/// The contents of a [`Lookup`].
pub enum LookupView<S> {
    Existing(S),
    Connect { bind: Seq<char>, remote: SockAddr },
}

impl<'a, S> View for Lookup<'a, S> {
    type V = LookupView<S>;

    open spec fn view(&self) -> LookupView<S> {
        match *self {
            Lookup::Existing(socket) => LookupView::Existing(*socket),
            Lookup::Connect { bind, remote } => LookupView::Connect { bind: bind@, remote },
        }
    }
}

/// What there is for `client` in a map with the contents `m`. Only where a
/// socket is to be opened does `remote` matter.
pub open spec fn found_for<S>(
    m: Map<Seq<char>, Slot<S>>,
    client: Client,
    remote: SockAddr,
) -> LookupView<S> {
    if m.dom().contains(client.address@) {
        LookupView::Existing(m[client.address@].value)
    } else {
        LookupView::Connect { bind: addr::any_local_text(client.version), remote }
    }
}

/// The entries of client maps. A socket is a value of type `S`.
pub struct ClientStore<S> {
    maps: Vec<Table<String, S>>,
}

impl<S> ClientStore<S> {
    /// The entries of each map: the sockets by the address text of the client,
    /// each with the time when the client last sent something.
    pub closed spec fn view(self) -> Seq<Map<Seq<char>, Slot<S>>> {
        self.maps@.map_values(|map: Table<String, S>| map.view())
    }

    /// No client occurs twice in a map.
    pub closed spec fn wf(self) -> bool {
        forall|i: int| #![trigger self.maps@[i]] 0 <= i < self.maps@.len() ==> self.maps@[i].wf()
    }

    /// A store without maps.
    pub fn new() -> (store: Self)
        ensures
            store.wf(),
            store@ == Seq::<Map<Seq<char>, Slot<S>>>::empty(),
    {
        let store = ClientStore { maps: Vec::new() };
        assert(store@ =~= Seq::<Map<Seq<char>, Slot<S>>>::empty());
        store
    }
}

/// A map from clients to their sockets. Its clones are the same map.
#[derive(Debug, Clone, Copy)]
pub struct ClientMap {
    idle_timeout: u128,
    inner: usize,
}

impl ClientMap {
    /// How long a client may be silent before its socket is dropped.
    pub closed spec fn timeout(self) -> u128 {
        self.idle_timeout
    }

    /// Which of the maps of a store this is.
    pub closed spec fn at(self) -> int {
        self.inner as int
    }

    /// The map is one of `maps`.
    pub open spec fn lives_in<S>(self, maps: Seq<Map<Seq<char>, Slot<S>>>) -> bool {
        0 <= self.at() < maps.len()
    }

    /// A new map, without clients, in `store`.
    pub fn new<S>(store: &mut ClientStore<S>, idle_timeout: u128) -> (map: Self)
        requires
            old(store).wf(),
        ensures
            final(store).wf(),
            final(store)@ == old(store)@.push(Map::<Seq<char>, Slot<S>>::empty()),
            map.timeout() == idle_timeout,
            map.at() == old(store)@.len(),
    {
        let ghost before = *store;
        let inner: usize = store.maps.len();
        store.maps.push(Table::new());
        proof {
            assert forall|i: int| #![trigger store.maps@[i]] 0 <= i < store.maps@.len() implies
                store.maps@[i].wf() by {
                if i < inner {
                    assert(store.maps@[i] == before.maps@[i]);
                }
            }
            assert(store@ =~= before@.push(Map::<Seq<char>, Slot<S>>::empty()));
        }
        ClientMap { idle_timeout, inner }
    }

    /// Drops the sockets of the clients that have been silent for more than the
    /// timeout, and no others.
    pub fn cleanup<S>(&self, store: &mut ClientStore<S>, now: u128)
        requires
            old(store).wf(),
            self.lives_in(old(store)@),
        ensures
            final(store).wf(),
            final(store)@ == old(store)@.update(
                self.at(),
                table::active_part(old(store)@[self.at()], self.timeout(), now),
            ),
            forall|k: Seq<char>|
                #![trigger final(store)@[self.at()].dom().contains(k)]
                final(store)@[self.at()].dom().contains(k) <==> {
                    &&& old(store)@[self.at()].dom().contains(k)
                    &&& now <= old(store)@[self.at()][k].last_used + self.timeout()
                },
            final(store)@[self.at()].submap_of(old(store)@[self.at()]),
    {
        let ghost before = *store;
        store.maps[self.inner].retain_active(self.idle_timeout, now);
        proof {
            store.lemma_changed(before, self.at());
        }
    }

    /// The socket of `client`, which has just sent something for `remote`; or how
    /// to open one. A socket that is there counts as used at `now`.
    pub fn get<'a, S>(
        &self,
        store: &'a mut ClientStore<S>,
        client: &Client,
        remote: SockAddr,
        now: u128,
    ) -> (found: Lookup<'a, S>)
        requires
            old(store).wf(),
            self.lives_in(old(store)@),
        ensures
            final(store).wf(),
            final(store)@ == old(store)@.update(
                self.at(),
                table::touched(old(store)@[self.at()], client.address@, now),
            ),
            found@ == found_for(old(store)@[self.at()], *client, remote),
            match found {
                Lookup::Existing(socket) => {
                    let entries = old(store)@[self.at()];
                    &&& entries.dom().contains(client.address@)
                    &&& *socket == entries[client.address@].value
                    &&& final(store)@[self.at()] == entries.insert(
                        client.address@,
                        Slot { value: *socket, last_used: now },
                    )
                },
                Lookup::Connect { bind, remote: to } => {
                    &&& !old(store)@[self.at()].dom().contains(client.address@)
                    &&& to == remote
                    &&& client.version == IpVersion::V4 ==> bind@ == "0.0.0.0:0"@
                    &&& client.version == IpVersion::V6 ==> bind@ == "[::]:0"@
                    &&& final(store)@ == old(store)@
                },
            },
    {
        let ghost before = *store;
        let _ = store.maps[self.inner].touch(&client.address, now);
        proof {
            store.lemma_changed(before, self.at());
            if !before@[self.at()].dom().contains(client.address@) {
                assert(store@ =~= before@);
            }
        }
        match store.maps[self.inner].get(&client.address) {
            Some(socket) => Lookup::Existing(socket),
            None => Lookup::Connect { bind: any_local(client.version), remote },
        }
    }

    /// Takes in how opening a socket for `client` went. An open socket becomes
    /// that of the client, in place of any that it has been given meanwhile, and
    /// counts as used at `now`; after a failure all is as before.
    pub fn opened<S, E>(
        &self,
        store: &mut ClientStore<S>,
        client: &Client,
        outcome: Result<S, E>,
        now: u128,
    ) -> (result: Result<(), E>)
        requires
            old(store).wf(),
            self.lives_in(old(store)@),
        ensures
            final(store).wf(),
            match outcome {
                Ok(socket) => result == Ok::<(), E>(()) && final(store)@ == old(store)@.update(
                    self.at(),
                    old(store)@[self.at()].insert(
                        client.address@,
                        Slot { value: socket, last_used: now },
                    ),
                ),
                Err(e) => result == Err::<(), E>(e) && final(store)@ == old(store)@,
            },
    {
        let ghost before = *store;
        match outcome {
            Ok(socket) => {
                store.maps[self.inner].insert(client.address.clone(), socket, now);
                proof {
                    store.lemma_changed(before, self.at());
                }
                Ok(())
            },
            Err(e) => Err(e),
        }
    }
}

impl<S> ClientStore<S> {
    proof fn lemma_changed(self, before: Self, at: int)
        requires
            before.wf(),
            0 <= at < before.maps@.len(),
            self.maps@ == before.maps@.update(at, self.maps@[at]),
            self.maps@[at].wf(),
        ensures
            self.wf(),
            self@ == before@.update(at, self.maps@[at].view()),
    {
        assert forall|i: int| #![trigger self.maps@[i]] 0 <= i < self.maps@.len() implies
            self.maps@[i].wf() by {
            if i != at {
                assert(self.maps@[i] == before.maps@[i]);
            }
        }
        assert(self@ =~= before@.update(at, self.maps@[at].view()));
    }
}

/// A change to one of the maps of a store: a lookup is a
/// [`Step::Use`](table::Step::Use), an opened socket a
/// [`Step::Put`](table::Step::Put), a cleanup a
/// [`Step::Cleanup`](table::Step::Cleanup).
pub struct Call<S> {
    /// The map that is called, or the clone of it.
    pub map: ClientMap,
    /// What the call does to its entries.
    pub step: table::Step<Seq<char>, S>,
}

/// The maps after the calls, in their order. A map that is not among them cannot
/// be called.
pub open spec fn maps_after<S>(
    maps: Seq<Map<Seq<char>, Slot<S>>>,
    calls: Seq<Call<S>>,
) -> Seq<Map<Seq<char>, Slot<S>>>
    decreases calls.len(),
{
    if calls.len() == 0 {
        maps
    } else {
        let before = maps_after(maps, calls.drop_last());
        let call = calls.last();
        if call.map.lives_in(before) {
            before.update(
                call.map.at(),
                table::after(before[call.map.at()], call.map.timeout(), call.step),
            )
        } else {
            before
        }
    }
}

/// A client that a map has a socket for is given the same one by every later
/// lookup, for whichever server, through the map or any clone of it, until a
/// cleanup: whatever calls come in between, through whichever clone or other map,
/// unless another socket is opened for this client in this map.
pub proof fn law_client_keeps_socket<S>(
    maps: Seq<Map<Seq<char>, Slot<S>>>,
    map: ClientMap,
    clone: ClientMap,
    client: Client,
    calls: Seq<Call<S>>,
    remote: SockAddr,
)
    requires
        map.lives_in(maps),
        clone.at() == map.at(),
        maps[map.at()].dom().contains(client.address@),
        forall|i: int|
            #![trigger calls[i]]
            0 <= i < calls.len() && calls[i].map.at() == map.at() ==> table::leaves(
                calls[i].step,
                client.address@,
            ),
    ensures
        found_for(maps_after(maps, calls)[clone.at()], client, remote) == LookupView::Existing(
            maps[map.at()][client.address@].value,
        ),
    decreases calls.len(),
{
    lemma_maps_len(maps, calls);
    if calls.len() > 0 {
        let head = calls.drop_last();
        let last = calls.last();
        assert forall|i: int| #![trigger head[i]] 0 <= i < head.len() && head[i].map.at()
            == map.at() implies table::leaves(head[i].step, client.address@) by {
            assert(head[i] == calls[i]);
        }
        law_client_keeps_socket(maps, map, clone, client, head, remote);
        lemma_maps_len(maps, head);
        assert(last == calls[calls.len() - 1]);
    }
}

proof fn lemma_maps_len<S>(maps: Seq<Map<Seq<char>, Slot<S>>>, calls: Seq<Call<S>>)
    ensures
        maps_after(maps, calls).len() == maps.len(),
    decreases calls.len(),
{
    if calls.len() > 0 {
        lemma_maps_len(maps, calls.drop_last());
    }
}

/// The socket that was opened for a client is the one that it is given from then
/// on, in the same sense.
pub proof fn law_opened_socket_is_found<S>(
    maps: Seq<Map<Seq<char>, Slot<S>>>,
    map: ClientMap,
    clone: ClientMap,
    client: Client,
    socket: S,
    opened: u128,
    calls: Seq<Call<S>>,
    remote: SockAddr,
)
    requires
        map.lives_in(maps),
        clone.at() == map.at(),
        forall|i: int|
            #![trigger calls[i]]
            0 <= i < calls.len() && calls[i].map.at() == map.at() ==> table::leaves(
                calls[i].step,
                client.address@,
            ),
    ensures
        found_for(
            maps_after(
                maps.update(
                    map.at(),
                    maps[map.at()].insert(
                        client.address@,
                        Slot { value: socket, last_used: opened },
                    ),
                ),
                calls,
            )[clone.at()],
            client,
            remote,
        ) == LookupView::Existing(socket),
{
    let put = maps[map.at()].insert(client.address@, Slot { value: socket, last_used: opened });
    law_client_keeps_socket(maps.update(map.at(), put), map, clone, client, calls, remote);
}

/// Calls of other maps, and of clones of them, do not touch a map.
pub proof fn law_maps_are_apart<S>(
    maps: Seq<Map<Seq<char>, Slot<S>>>,
    map: ClientMap,
    calls: Seq<Call<S>>,
)
    requires
        map.lives_in(maps),
        forall|i: int| #![trigger calls[i]] 0 <= i < calls.len() ==> calls[i].map.at() != map.at(),
    ensures
        maps_after(maps, calls)[map.at()] == maps[map.at()],
    decreases calls.len(),
{
    if calls.len() > 0 {
        let head = calls.drop_last();
        assert forall|i: int| #![trigger head[i]] 0 <= i < head.len() implies head[i].map.at()
            != map.at() by {
            assert(head[i] == calls[i]);
        }
        law_maps_are_apart(maps, map, head);
        lemma_maps_len(maps, head);
        assert(calls.last() == calls[calls.len() - 1]);
    }
}

/// For a client that the map has no socket for, a socket to the very server that
/// was asked for is to be opened, bound by the IP version of the client; for one
/// that it has a socket for, none is.
pub proof fn law_new_client_is_connected<S>(
    m: Map<Seq<char>, Slot<S>>,
    client: Client,
    remote: SockAddr,
)
    ensures
        !m.dom().contains(client.address@) ==> {
            &&& found_for(m, client, remote) matches LookupView::Connect { bind, remote: to }
            &&& to == remote
            &&& bind == match client.version {
                IpVersion::V4 => "0.0.0.0:0"@,
                IpVersion::V6 => "[::]:0"@,
            }
        },
        m.dom().contains(client.address@) ==> found_for(m, client, remote) == LookupView::Existing(
            m[client.address@].value,
        ),
{
}

/// Two lookups of the same new client differ in nothing but the server: each is
/// to be connected to its own.
pub proof fn law_server_is_passed_through<S>(
    m: Map<Seq<char>, Slot<S>>,
    client: Client,
    one: SockAddr,
    other: SockAddr,
)
    requires
        !m.dom().contains(client.address@),
    ensures
        found_for(m, client, one) == found_for(m, client, other) <==> one == other,
{
    assert(found_for(m, client, one)->remote == one);
    assert(found_for(m, client, other)->remote == other);
}

} // verus!
