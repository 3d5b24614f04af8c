//! The server's side of network connections: what is sent when, and what
//! becomes of the bytes that arrive.

use crate::channels::{reliable_channel_id, server_msg_channel, unreliable_channel_id};
use crate::net_client::{decoded_all, decodes, default_channels, lemma_decoded_by, lemma_decoded_concat};
use crate::protocol::{ClientId, ClientToServer, ServerToClient};
use std::collections::VecDeque;
use vstd::prelude::*;

verus! {

#[verifier::external_type_specification]
#[verifier::external_body]
pub struct ExRenetServer(renet::RenetServer);

/// The channels that a `renet::RenetServer` gives its connections, and
/// whether each is reliable.
pub uninterp spec fn server_channels(s: renet::RenetServer) -> Map<u8, bool>;

/// The clients that are connected to a `renet::RenetServer`.
pub uninterp spec fn server_clients(s: renet::RenetServer) -> Set<u64>;

/// The messages that a `renet::RenetServer` holds for its owner, per client
/// and channel, in the order in which `receive_message` hands them out.
pub uninterp spec fn server_inbox(s: renet::RenetServer) -> Map<(u64, u8), Seq<Seq<u8>>>;

/// The messages that a `renet::RenetServer` holds for its clients, per client
/// and channel, in the order in which they were handed to it.
pub uninterp spec fn server_outbox(s: renet::RenetServer) -> Map<(u64, u8), Seq<Seq<u8>>>;

/// The events that a `renet::RenetServer` holds: a client, and whether it
/// came (or went).
pub uninterp spec fn server_events(s: renet::RenetServer) -> Seq<(u64, bool)>;

/// Calls `renet::RenetServer::new` with the default configuration: nobody is
/// connected and nothing has happened.
#[verifier::external_body]
fn new_renet_server() -> (s: renet::RenetServer)
    ensures
        server_channels(s) == default_channels(),
        server_clients(s) == Set::<u64>::empty(),
        server_events(s) == Seq::<(u64, bool)>::empty(),
{
    renet::RenetServer::new(renet::ConnectionConfig::default())
}

/// Calls `renet::RenetServer::is_connected`.
#[verifier::external_body]
fn is_connected(s: &renet::RenetServer, id: ClientId) -> (b: bool)
    ensures
        b == server_clients(*s).contains(id),
{
    s.is_connected(id)
}

/// Calls `renet::RenetServer::clients_id`: every connected client once, in
/// the order in which a hash table is walked.
#[verifier::external_body]
fn connected_clients(s: &renet::RenetServer) -> (ids: Vec<ClientId>)
    ensures
        ids@.no_duplicates(),
        ids@.to_set() == server_clients(*s),
{
    s.clients_id()
}

/// Calls `renet::RenetServer::get_event`: takes the first event out. The
/// reason of a disconnect is left unsaid.
#[verifier::external_body]
fn next_event(s: &mut renet::RenetServer) -> (event: Option<(ClientId, bool)>)
    ensures
        server_channels(*final(s)) == server_channels(*old(s)),
        server_clients(*final(s)) == server_clients(*old(s)),
        server_inbox(*final(s)) == server_inbox(*old(s)),
        server_outbox(*final(s)) == server_outbox(*old(s)),
        match event {
            Some(e) => {
                &&& server_events(*old(s)).len() > 0
                &&& e == server_events(*old(s))[0]
                &&& server_events(*final(s)) == server_events(*old(s)).drop_first()
            },
            None => {
                &&& server_events(*old(s)).len() == 0
                &&& server_events(*final(s)) == server_events(*old(s))
            },
        },
{
    match s.get_event()? {
        renet::ServerEvent::ClientConnected { client_id } => Some((client_id, true)),
        renet::ServerEvent::ClientDisconnected { client_id, .. } => Some((client_id, false)),
    }
}

/// What handing a message for a client to a `renet::RenetServer` does. A
/// client that is not connected gets nothing. Otherwise the message goes
/// behind those that the client's channel holds; where there is no room for
/// it, a reliable channel disconnects the client and an unreliable one drops
/// the message.
pub open spec fn server_handed_over(
    before: renet::RenetServer,
    after: renet::RenetServer,
    id: ClientId,
    channel: u8,
    message: Seq<u8>,
) -> bool {
    let old_box = server_outbox(before)[(id, channel)];
    let new_box = server_outbox(after)[(id, channel)];
    &&& server_channels(after) == server_channels(before)
    &&& server_events(after) == server_events(before)
    &&& forall|other: (u64, u8)|
        other != (id, channel) ==> #[trigger] server_outbox(after)[other] == server_outbox(before)[other]
    &&& forall|other: (u64, u8)|
        other.0 != id ==> #[trigger] server_inbox(after)[other] == server_inbox(before)[other]
    &&& if !server_clients(before).contains(id) {
        &&& server_clients(after) == server_clients(before)
        &&& server_inbox(after) == server_inbox(before)
        &&& new_box == old_box
    } else if !server_clients(after).contains(id) {
        &&& server_clients(after) == server_clients(before).remove(id)
        &&& server_channels(before)[channel]
        &&& new_box == old_box
    } else {
        &&& server_clients(after) == server_clients(before)
        &&& server_inbox(after) == server_inbox(before)
        &&& new_box == old_box.push(message) || (new_box == old_box && !server_channels(
            before,
        )[channel])
    }
}

/// Calls `renet::RenetServer::send_message`. It panics on a channel that the
/// server does not give its connections. How much a channel has room for is
/// left unsaid.
#[verifier::external_body]
fn send_message(s: &mut renet::RenetServer, id: ClientId, channel: u8, message: Vec<u8>)
    requires
        server_channels(*old(s)).contains_key(channel),
    ensures
        server_handed_over(*old(s), *final(s), id, channel, message@),
{
    s.send_message(id, channel, message)
}

/// Calls `renet::RenetServer::receive_message`: takes the first message out of
/// a client's inbox on a channel, if there is one. It panics on a channel
/// that the server does not give its connections.
#[verifier::external_body]
fn receive_message(s: &mut renet::RenetServer, id: ClientId, channel: u8) -> (message: Option<
    Vec<u8>,
>)
    requires
        server_channels(*old(s)).contains_key(channel),
    ensures
        server_channels(*final(s)) == server_channels(*old(s)),
        server_clients(*final(s)) == server_clients(*old(s)),
        server_outbox(*final(s)) == server_outbox(*old(s)),
        server_events(*final(s)) == server_events(*old(s)),
        match message {
            Some(m) => {
                &&& server_inbox(*old(s))[(id, channel)].len() > 0
                &&& m@ == server_inbox(*old(s))[(id, channel)][0]
                &&& server_inbox(*final(s)) == server_inbox(*old(s)).insert(
                    (id, channel),
                    server_inbox(*old(s))[(id, channel)].drop_first(),
                )
            },
            None => {
                &&& server_inbox(*old(s))[(id, channel)].len() == 0
                &&& server_inbox(*final(s)) == server_inbox(*old(s))
            },
        },
{
    s.receive_message(id, channel).map(|bytes| bytes.to_vec())
}

/// The server's end of its connections.
pub struct ServerLink {
    pub server: renet::RenetServer,
    /// Messages that arrived and were not fetched yet.
    pub received: VecDeque<(ClientId, ClientToServer)>,
}

/// A farewell for every client that went, in order.
pub open spec fn farewells(events: Seq<(u64, bool)>) -> Seq<(ClientId, ClientToServer)>
    decreases events.len(),
{
    if events.len() == 0 {
        Seq::empty()
    } else if events.last().1 {
        farewells(events.drop_last())
    } else {
        farewells(events.drop_last()).push((events.last().0, ClientToServer::Goodbye))
    }
}

/// The messages that had arrived from a client: the reliable ones, then the
/// others. What cannot be decoded is dropped.
pub open spec fn arrived<F: Fn(Vec<u8>) -> Option<ClientToServer>>(
    decode: F,
    s: renet::RenetServer,
    id: ClientId,
) -> Seq<(ClientId, ClientToServer)> {
    decoded_all(decode, server_inbox(s)[(id, 2)] + server_inbox(s)[(id, 0)]).map_values(
        |m: ClientToServer| (id, m),
    )
}

/// The messages that had arrived from the listed clients.
pub open spec fn arrived_all<F: Fn(Vec<u8>) -> Option<ClientToServer>>(
    decode: F,
    s: renet::RenetServer,
    ids: Seq<ClientId>,
) -> Seq<(ClientId, ClientToServer)>
    decreases ids.len(),
{
    if ids.len() == 0 {
        Seq::empty()
    } else {
        arrived_all(decode, s, ids.drop_last()) + arrived(decode, s, ids.last())
    }
}

impl ServerLink {
    /// Whether connections have the channels of the default configuration.
    pub open spec fn wf(self) -> bool {
        server_channels(self.server) == default_channels()
    }

    /// A server that nobody is connected to, and to which nothing has happened.
    pub fn new() -> (link: ServerLink)
        ensures
            link.wf(),
            server_clients(link.server) == Set::<u64>::empty(),
            server_events(link.server) == Seq::<(u64, bool)>::empty(),
            link.received@ == Seq::<(ClientId, ClientToServer)>::empty(),
    {
        ServerLink { server: new_renet_server(), received: VecDeque::new() }
    }

    /// Sends a message whose bytes are given. For a client that is not
    /// connected it is dropped.
    pub fn send(&mut self, to: ClientId, msg: &ServerToClient, bytes: Vec<u8>)
        requires
            old(self).wf(),
        ensures
            final(self).wf(),
            final(self).received@ == old(self).received@,
            if server_clients(old(self).server).contains(to) {
                server_handed_over(
                    old(self).server,
                    final(self).server,
                    to,
                    if *msg is PlayerMoved {
                        0u8
                    } else {
                        2u8
                    },
                    bytes@,
                )
            } else {
                final(self).server == old(self).server
            },
    {
        if !is_connected(&self.server, to) {
            return ;
        }
        let channel: u8 = server_msg_channel(msg);
        send_message(&mut self.server, to, channel, bytes);
    }

    /// The next message that arrived.
    pub fn try_recv(&mut self) -> (msg: Option<(ClientId, ClientToServer)>)
        ensures
            final(self).server == old(self).server,
            match msg {
                Some(m) => {
                    &&& old(self).received@.len() > 0
                    &&& m == old(self).received@[0]
                    &&& final(self).received@ == old(self).received@.drop_first()
                },
                None => {
                    &&& old(self).received@.len() == 0
                    &&& final(self).received@ == old(self).received@
                },
            },
    {
        let msg = self.received.pop_front();
        assert(msg is Some ==> self.received@ =~= old(self).received@.drop_first());
        msg
    }

    /// Turns disconnects into farewells, then fetches what arrived from each
    /// client: first the reliable messages, then the others.
    pub fn pump<F: Fn(Vec<u8>) -> Option<ClientToServer> + Copy>(&mut self, decode: F)
        requires
            old(self).wf(),
            decodes(decode),
        ensures
            final(self).wf(),
            server_events(final(self).server).len() == 0,
            server_clients(final(self).server) == server_clients(old(self).server),
            server_outbox(final(self).server) == server_outbox(old(self).server),
            forall|id: u64|
                server_clients(old(self).server).contains(id) ==> #[trigger] server_inbox(final(self).server)[(
                    id,
                    2u8,
                )].len() == 0 && server_inbox(final(self).server)[(id, 0u8)].len() == 0,
            exists|order: Seq<u64>|
                {
                    &&& order.no_duplicates()
                    &&& order.to_set() == server_clients(old(self).server)
                    &&& final(self).received@ == old(self).received@ + farewells(
                        server_events(old(self).server),
                    ) + #[trigger] arrived_all(decode, old(self).server, order)
                },
    {
        self.take_events();
        let ghost quiet = self.server;
        let ghost first = self.received@;
        let ids = connected_clients(&self.server);
        let reliable: u8 = reliable_channel_id();
        let unreliable: u8 = unreliable_channel_id();
        let mut n: usize = 0;
        assert(self.received@ =~= first + arrived_all(decode, quiet, ids@.take(0)));
        while n < ids.len()
            invariant
                n <= ids@.len(),
                reliable == 2,
                unreliable == 0,
                decodes(decode),
                ids@.no_duplicates(),
                server_channels(self.server) == default_channels(),
                server_clients(self.server) == server_clients(quiet),
                server_outbox(self.server) == server_outbox(quiet),
                server_events(self.server) == server_events(quiet),
                forall|m: int|
                    0 <= m < n ==> server_inbox(self.server)[(#[trigger] ids@[m], 2u8)].len() == 0
                        && server_inbox(self.server)[(ids@[m], 0u8)].len() == 0,
                forall|m: int, ch: u8|
                    n <= m < ids@.len() ==> #[trigger] server_inbox(self.server)[(ids@[m], ch)]
                        == server_inbox(quiet)[(ids@[m], ch)],
                self.received@ == first + arrived_all(decode, quiet, ids@.take(n as int)),
            decreases ids@.len() - n,
        {
            let id: u64 = ids[n];
            let ghost before = self.received@;
            let ghost upto = ids@.take(n + 1);
            proof {
                assert(upto.drop_last() =~= ids@.take(n as int));
                assert(upto.last() == id);
                assert(server_inbox(self.server)[(ids@[n as int], 2u8)] == server_inbox(
                    quiet,
                )[(id, 2u8)]);
                assert(server_inbox(self.server)[(ids@[n as int], 0u8)] == server_inbox(
                    quiet,
                )[(id, 0u8)]);
            }
            self.fetch(id, reliable, decode);
            self.fetch(id, unreliable, decode);
            proof {
                lemma_decoded_concat(
                    decode,
                    server_inbox(quiet)[(id, 2u8)],
                    server_inbox(quiet)[(id, 0u8)],
                );
                assert(self.received@ =~= before + arrived(decode, quiet, id));
                assert(self.received@ =~= first + arrived_all(decode, quiet, upto));
            }
            n += 1;
        }
        proof {
            assert(ids@.take(n as int) =~= ids@);
            lemma_same_inbox_arrives(decode, quiet, old(self).server, ids@);
            assert forall|id: u64| server_clients(old(self).server).contains(id) implies #[trigger] server_inbox(self.server)[(
                id,
                2u8,
            )].len() == 0 && server_inbox(self.server)[(id, 0u8)].len() == 0 by {
                assert(ids@.to_set().contains(id));
                let m = choose|m: int| 0 <= m < ids@.len() && ids@[m] == id;
                assert(server_inbox(self.server)[(ids@[m], 2u8)].len() == 0);
            }
            assert(self.received@ == old(self).received@ + farewells(
                server_events(old(self).server),
            ) + arrived_all(decode, old(self).server, ids@));
        }
    }

    /// Turns the disconnects that happened into farewells.
    fn take_events(&mut self)
        ensures
            server_channels(final(self).server) == server_channels(old(self).server),
            server_clients(final(self).server) == server_clients(old(self).server),
            server_inbox(final(self).server) == server_inbox(old(self).server),
            server_outbox(final(self).server) == server_outbox(old(self).server),
            server_events(final(self).server).len() == 0,
            final(self).received@ == old(self).received@ + farewells(
                server_events(old(self).server),
            ),
    {
        let ghost all = server_events(self.server);
        let ghost mut n: int = 0;
        let mut more = true;
        assert(all.skip(0) =~= all);
        assert(all.take(0) =~= Seq::<(u64, bool)>::empty());
        while more
            invariant
                server_channels(self.server) == server_channels(old(self).server),
                server_clients(self.server) == server_clients(old(self).server),
                server_inbox(self.server) == server_inbox(old(self).server),
                server_outbox(self.server) == server_outbox(old(self).server),
                0 <= n <= all.len(),
                server_events(self.server) == all.skip(n),
                !more ==> n == all.len(),
                self.received@ =~= old(self).received@ + farewells(all.take(n)),
            decreases all.len() - n, if more { 1int } else { 0int },
        {
            match next_event(&mut self.server) {
                None => {
                    more = false;
                },
                Some((id, came)) => {
                    proof {
                        let upto = all.take(n + 1);
                        assert(upto.drop_last() =~= all.take(n));
                        assert(upto.last() == all[n]);
                        n = n + 1;
                        assert(server_events(self.server) =~= all.skip(n));
                    }
                    if !came {
                        self.received.push_back((id, ClientToServer::Goodbye));
                    }
                },
            }
        }
        assert(all.take(n) =~= all);
    }

    /// Fetches everything that arrived from a client on a channel.
    fn fetch<F: Fn(Vec<u8>) -> Option<ClientToServer> + Copy>(
        &mut self,
        id: ClientId,
        channel: u8,
        decode: F,
    )
        requires
            server_channels(old(self).server).contains_key(channel),
            decodes(decode),
        ensures
            server_channels(final(self).server) == server_channels(old(self).server),
            server_clients(final(self).server) == server_clients(old(self).server),
            server_outbox(final(self).server) == server_outbox(old(self).server),
            server_events(final(self).server) == server_events(old(self).server),
            server_inbox(final(self).server)[(id, channel)].len() == 0,
            forall|other: (u64, u8)|
                other != (id, channel) ==> #[trigger] server_inbox(final(self).server)[other]
                    == server_inbox(old(self).server)[other],
            final(self).received@ == old(self).received@ + decoded_all(
                decode,
                server_inbox(old(self).server)[(id, channel)],
            ).map_values(|m: ClientToServer| (id, m)),
    {
        let ghost all = server_inbox(self.server)[(id, channel)];
        let ghost mut n: int = 0;
        let mut more = true;
        assert(all.skip(0) =~= all);
        assert(all.take(0) =~= Seq::<Seq<u8>>::empty());
        while more
            invariant
                decodes(decode),
                server_channels(self.server) == server_channels(old(self).server),
                server_channels(self.server).contains_key(channel),
                server_clients(self.server) == server_clients(old(self).server),
                server_outbox(self.server) == server_outbox(old(self).server),
                server_events(self.server) == server_events(old(self).server),
                forall|other: (u64, u8)|
                    other != (id, channel) ==> #[trigger] server_inbox(self.server)[other]
                        == server_inbox(old(self).server)[other],
                0 <= n <= all.len(),
                server_inbox(self.server)[(id, channel)] == all.skip(n),
                !more ==> n == all.len(),
                self.received@ =~= old(self).received@ + decoded_all(
                    decode,
                    all.take(n),
                ).map_values(|m: ClientToServer| (id, m)),
            decreases all.len() - n, if more { 1int } else { 0int },
        {
            match receive_message(&mut self.server, id, channel) {
                None => {
                    more = false;
                },
                Some(bytes) => {
                    let ghost held = bytes;
                    let msg = decode(bytes);
                    proof {
                        lemma_decoded_by(decode, held, msg);
                        let upto = all.take(n + 1);
                        assert(upto.drop_last() =~= all.take(n));
                        assert(upto.last() == all[n]);
                        n = n + 1;
                        assert(server_inbox(self.server)[(id, channel)] =~= all.skip(n));
                    }
                    match msg {
                        Some(m) => {
                            self.received.push_back((id, m));
                        },
                        None => {},
                    }
                },
            }
        }
        assert(all.take(n) =~= all);
    }
}

proof fn lemma_same_inbox_arrives<F: Fn(Vec<u8>) -> Option<ClientToServer>>(
    decode: F,
    a: renet::RenetServer,
    b: renet::RenetServer,
    ids: Seq<u64>,
)
    requires
        server_inbox(a) == server_inbox(b),
    ensures
        arrived_all(decode, a, ids) == arrived_all(decode, b, ids),
    decreases ids.len(),
{
    if ids.len() > 0 {
        lemma_same_inbox_arrives(decode, a, b, ids.drop_last());
    }
}

/// Every client that goes is followed by a farewell, whatever else happens.
pub proof fn law_disconnect_gives_farewell(events: Seq<(u64, bool)>, id: u64)
    ensures
        events.contains((id, false)) <==> farewells(events).contains((id, ClientToServer::Goodbye)),
    decreases events.len(),
{
    if events.len() > 0 {
        let rest = events.drop_last();
        law_disconnect_gives_farewell(rest, id);
        crate::lists::lemma_push_contains(rest, events.last());
        assert(rest.push(events.last()) =~= events);
        if !events.last().1 {
            crate::lists::lemma_push_contains(
                farewells(rest),
                (events.last().0, ClientToServer::Goodbye),
            );
        }
    }
}

/// Each client that goes leaves one farewell, in the order in which they go;
/// one that comes leaves none.
pub proof fn law_one_farewell_for_each_that_goes(events: Seq<(u64, bool)>, id: u64)
    ensures
        farewells(Seq::empty()) == Seq::<(ClientId, ClientToServer)>::empty(),
        farewells(events.push((id, true))) == farewells(events),
        farewells(events.push((id, false))) == farewells(events).push(
            (id, ClientToServer::Goodbye),
        ),
{
    assert(events.push((id, true)).drop_last() =~= events);
    assert(events.push((id, false)).drop_last() =~= events);
}

/// What had arrived from a client is handed on under that client's id, the
/// reliable messages before the others, each in order; and the clients come
/// one after the other.
pub proof fn law_messages_come_client_by_client<F: Fn(Vec<u8>) -> Option<ClientToServer>>(
    decode: F,
    s: renet::RenetServer,
    ids: Seq<ClientId>,
    id: ClientId,
    n: int,
)
    ensures
        ({
            let reliable = decoded_all(decode, server_inbox(s)[(id, 2)]);
            let others = decoded_all(decode, server_inbox(s)[(id, 0)]);
            let rest = arrived_all(decode, s, ids);
            let all = arrived_all(decode, s, ids.push(id));
            &&& all.len() == rest.len() + reliable.len() + others.len()
            &&& 0 <= n < rest.len() ==> all[n] == rest[n]
            &&& 0 <= n < reliable.len() ==> all[rest.len() + n] == (id, reliable[n])
            &&& 0 <= n < others.len() ==> all[rest.len() + reliable.len() + n] == (id, others[n])
            &&& arrived_all(decode, s, Seq::empty()) == Seq::<(ClientId, ClientToServer)>::empty()
        }),
{
    assert(ids.push(id).drop_last() =~= ids);
    crate::net_client::lemma_decoded_concat(
        decode,
        server_inbox(s)[(id, 2)],
        server_inbox(s)[(id, 0)],
    );
}

} // verus!
