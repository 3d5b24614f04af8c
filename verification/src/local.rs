//! In-process transport for singleplayer: typed messages over unbounded
//! channels and a single client.

use crate::protocol::{ClientId, ClientToServer, ClientTransport, ServerToClient, ServerTransport};
use vstd::prelude::*;

verus! {

/// The one client that the local transport serves.
pub const LOCAL_CLIENT_ID: ClientId = 1;

#[verifier::external_type_specification]
#[verifier::external_body]
#[verifier::reject_recursive_types(T)]
pub struct ExSender<T>(crossbeam_channel::Sender<T>);

#[verifier::external_type_specification]
#[verifier::external_body]
#[verifier::reject_recursive_types(T)]
pub struct ExReceiver<T>(crossbeam_channel::Receiver<T>);

/// The messages that were handed to the server's sender so far, in order.
pub uninterp spec fn sent_to_client(tx: crossbeam_channel::Sender<ServerToClient>) -> Seq<
    ServerToClient,
>;

/// The messages that were handed to the client's sender so far, in order.
pub uninterp spec fn sent_to_server(tx: crossbeam_channel::Sender<ClientToServer>) -> Seq<
    ClientToServer,
>;

/// The messages that came out of the server's receiver so far, in order.
pub uninterp spec fn taken_by_server(rx: crossbeam_channel::Receiver<ClientToServer>) -> Seq<
    ClientToServer,
>;

/// The messages that came out of the client's receiver so far, in order.
pub uninterp spec fn taken_by_client(rx: crossbeam_channel::Receiver<ServerToClient>) -> Seq<
    ServerToClient,
>;

/// Whether the two ends are of one channel to the server.
pub uninterp spec fn joined_to_server(
    tx: crossbeam_channel::Sender<ClientToServer>,
    rx: crossbeam_channel::Receiver<ClientToServer>,
) -> bool;

/// Whether the two ends are of one channel to the client.
pub uninterp spec fn joined_to_client(
    tx: crossbeam_channel::Sender<ServerToClient>,
    rx: crossbeam_channel::Receiver<ServerToClient>,
) -> bool;

/// Whether what was received is what was sent, in order, as far as both go.
pub open spec fn in_order<T>(received: Seq<T>, sent: Seq<T>) -> bool {
    forall|n: int|
        0 <= n < received.len() && n < sent.len() ==> #[trigger] received[n] == sent[n]
}

/// Calls `crossbeam_channel::unbounded`: the two ends of one new channel to
/// the server, which nothing has gone through yet.
#[verifier::external_body]
fn open_channel_to_server() -> (ends: (
    crossbeam_channel::Sender<ClientToServer>,
    crossbeam_channel::Receiver<ClientToServer>,
))
    ensures
        joined_to_server(ends.0, ends.1),
        sent_to_server(ends.0) == Seq::<ClientToServer>::empty(),
        taken_by_server(ends.1) == Seq::<ClientToServer>::empty(),
{
    crossbeam_channel::unbounded()
}

/// Calls `crossbeam_channel::unbounded`: the two ends of one new channel to
/// the client, which nothing has gone through yet.
#[verifier::external_body]
fn open_channel_to_client() -> (ends: (
    crossbeam_channel::Sender<ServerToClient>,
    crossbeam_channel::Receiver<ServerToClient>,
))
    ensures
        joined_to_client(ends.0, ends.1),
        sent_to_client(ends.0) == Seq::<ServerToClient>::empty(),
        taken_by_client(ends.1) == Seq::<ServerToClient>::empty(),
{
    crossbeam_channel::unbounded()
}

/// Calls `crossbeam_channel::Sender::send` with the message, and drops the
/// error that says that the other end is gone. The sender stays that of its
/// channel. The channel is first in, first out: a receiver of it whose count
/// of messages is past this one took this one in its place.
#[verifier::external_body]
fn put_to_server(tx: &mut crossbeam_channel::Sender<ClientToServer>, msg: ClientToServer)
    ensures
        sent_to_server(*final(tx)) == sent_to_server(*old(tx)).push(msg),
        forall|rx: crossbeam_channel::Receiver<ClientToServer>| #[trigger]
            joined_to_server(*final(tx), rx) == joined_to_server(*old(tx), rx),
        forall|rx: crossbeam_channel::Receiver<ClientToServer>| #[trigger]
            joined_to_server(*old(tx), rx) && sent_to_server(*old(tx)).len() < taken_by_server(
                rx,
            ).len() ==> taken_by_server(rx)[sent_to_server(*old(tx)).len() as int]
                == sent_to_server(*final(tx)).last(),
{
    let _ = tx.send(msg);
}

/// Calls `crossbeam_channel::Sender::send` with the message, and drops the
/// error that says that the other end is gone. The sender stays that of its
/// channel. The channel is first in, first out: a receiver of it whose count
/// of messages is past this one took this one in its place.
#[verifier::external_body]
fn put_to_client(tx: &mut crossbeam_channel::Sender<ServerToClient>, msg: ServerToClient)
    ensures
        sent_to_client(*final(tx)) == sent_to_client(*old(tx)).push(msg),
        forall|rx: crossbeam_channel::Receiver<ServerToClient>| #[trigger]
            joined_to_client(*final(tx), rx) == joined_to_client(*old(tx), rx),
        forall|rx: crossbeam_channel::Receiver<ServerToClient>| #[trigger]
            joined_to_client(*old(tx), rx) && sent_to_client(*old(tx)).len() < taken_by_client(
                rx,
            ).len() ==> taken_by_client(rx)[sent_to_client(*old(tx)).len() as int]
                == sent_to_client(*final(tx)).last(),
{
    let _ = tx.send(msg);
}

/// Calls `crossbeam_channel::Receiver::try_recv`: takes the next message out,
/// if one is waiting. The receiver stays that of its channel. The channel is
/// first in, first out: the message is the one that the sender was handed in
/// the same place. Whether one is waiting rests with the other end and is
/// left unsaid.
#[verifier::external_body]
fn take_at_server(rx: &mut crossbeam_channel::Receiver<ClientToServer>) -> (msg: Option<
    ClientToServer,
>)
    ensures
        taken_by_server(*final(rx)) == match msg {
            Some(m) => taken_by_server(*old(rx)).push(m),
            None => taken_by_server(*old(rx)),
        },
        forall|tx: crossbeam_channel::Sender<ClientToServer>| #[trigger]
            joined_to_server(tx, *final(rx)) == joined_to_server(tx, *old(rx)),
        forall|tx: crossbeam_channel::Sender<ClientToServer>| #[trigger]
            joined_to_server(tx, *old(rx)) && msg is Some && taken_by_server(*old(rx)).len()
                < sent_to_server(tx).len() ==> msg->0 == sent_to_server(
                tx,
            )[taken_by_server(*old(rx)).len() as int],
{
    rx.try_recv().ok()
}

/// Calls `crossbeam_channel::Receiver::try_recv`: takes the next message out,
/// if one is waiting. The receiver stays that of its channel. The channel is
/// first in, first out: the message is the one that the sender was handed in
/// the same place. Whether one is waiting rests with the other end and is
/// left unsaid.
#[verifier::external_body]
fn take_at_client(rx: &mut crossbeam_channel::Receiver<ServerToClient>) -> (msg: Option<
    ServerToClient,
>)
    ensures
        taken_by_client(*final(rx)) == match msg {
            Some(m) => taken_by_client(*old(rx)).push(m),
            None => taken_by_client(*old(rx)),
        },
        forall|tx: crossbeam_channel::Sender<ServerToClient>| #[trigger]
            joined_to_client(tx, *final(rx)) == joined_to_client(tx, *old(rx)),
        forall|tx: crossbeam_channel::Sender<ServerToClient>| #[trigger]
            joined_to_client(tx, *old(rx)) && msg is Some && taken_by_client(*old(rx)).len()
                < sent_to_client(tx).len() ==> msg->0 == sent_to_client(
                tx,
            )[taken_by_client(*old(rx)).len() as int],
{
    rx.try_recv().ok()
}

/// The server's end.
pub struct LocalServerTransport {
    rx: crossbeam_channel::Receiver<ClientToServer>,
    tx: crossbeam_channel::Sender<ServerToClient>,
}

/// The client's end.
pub struct LocalClientTransport {
    tx: crossbeam_channel::Sender<ClientToServer>,
    rx: crossbeam_channel::Receiver<ServerToClient>,
}

impl LocalServerTransport {
    /// The messages sent so far, in order.
    pub closed spec fn sent(self) -> Seq<ServerToClient> {
        sent_to_client(self.tx)
    }

    /// The messages received so far, in order.
    pub closed spec fn received(self) -> Seq<ClientToServer> {
        taken_by_server(self.rx)
    }

    /// Whether the client's end is the other end of this one: the two share
    /// a channel in each direction, and what came out of it went into it.
    pub closed spec fn joined(self, client: LocalClientTransport) -> bool {
        &&& joined_to_server(client.tx, self.rx)
        &&& joined_to_client(self.tx, client.rx)
        &&& in_order(self.received(), client.sent())
        &&& in_order(client.received(), self.sent())
    }
}

impl LocalClientTransport {
    /// The messages sent so far, in order.
    pub closed spec fn sent(self) -> Seq<ClientToServer> {
        sent_to_server(self.tx)
    }

    /// The messages received so far, in order.
    pub closed spec fn received(self) -> Seq<ServerToClient> {
        taken_by_client(self.rx)
    }
}

/// What one end receives is what the other end sent, first in, first out and
/// unaltered: message by message, as far as both have got. [`pair`] joins two
/// ends, and whatever either of them sends or receives leaves them joined.
pub proof fn law_messages_arrive_in_order(
    server: LocalServerTransport,
    client: LocalClientTransport,
)
    requires
        server.joined(client),
    ensures
        in_order(server.received(), client.sent()),
        in_order(client.received(), server.sent()),
{
}

/// A connected pair of a server's and a client's end. Nothing has gone
/// through it yet.
pub fn pair() -> (ends: (LocalServerTransport, LocalClientTransport))
    ensures
        ends.0.joined(ends.1),
        ends.0.sent() == Seq::<ServerToClient>::empty(),
        ends.0.received() == Seq::<ClientToServer>::empty(),
        ends.1.sent() == Seq::<ClientToServer>::empty(),
        ends.1.received() == Seq::<ServerToClient>::empty(),
{
    let (c2s_tx, c2s_rx) = open_channel_to_server();
    let (s2c_tx, s2c_rx) = open_channel_to_client();
    (
        LocalServerTransport { rx: c2s_rx, tx: s2c_tx },
        LocalClientTransport { tx: c2s_tx, rx: s2c_rx },
    )
}

/// A received message with the id of the local client.
pub fn from_local_client(msg: Option<ClientToServer>) -> (r: Option<(ClientId, ClientToServer)>)
    ensures
        r == match msg {
            Some(m) => Some((LOCAL_CLIENT_ID, m)),
            None => None,
        },
{
    match msg {
        Some(m) => Some((LOCAL_CLIENT_ID, m)),
        None => None,
    }
}

impl ServerTransport for LocalServerTransport {
    fn try_recv(&mut self) -> (r: Option<(ClientId, ClientToServer)>)
        ensures
            final(self).sent() == old(self).sent(),
            match r {
                Some((id, msg)) => {
                    &&& id == LOCAL_CLIENT_ID
                    &&& final(self).received() == old(self).received().push(msg)
                },
                None => final(self).received() == old(self).received(),
            },
            forall|client: LocalClientTransport| #[trigger]
                old(self).joined(client) ==> final(self).joined(client),
    {
        from_local_client(take_at_server(&mut self.rx))
    }

    fn send(&mut self, _to: ClientId, msg: ServerToClient)
        ensures
            final(self).sent() == old(self).sent().push(msg),
            final(self).received() == old(self).received(),
            forall|client: LocalClientTransport| #[trigger]
                old(self).joined(client) ==> final(self).joined(client),
    {
        put_to_client(&mut self.tx, msg);
    }
}

impl ClientTransport for LocalClientTransport {
    fn send(&mut self, msg: ClientToServer)
        ensures
            final(self).sent() == old(self).sent().push(msg),
            final(self).received() == old(self).received(),
            forall|server: LocalServerTransport| #[trigger]
                server.joined(*old(self)) ==> server.joined(*final(self)),
    {
        put_to_server(&mut self.tx, msg);
    }

    fn try_recv(&mut self) -> (r: Option<ServerToClient>)
        ensures
            final(self).sent() == old(self).sent(),
            final(self).received() == match r {
                Some(msg) => old(self).received().push(msg),
                None => old(self).received(),
            },
            forall|server: LocalServerTransport| #[trigger]
                server.joined(*old(self)) ==> server.joined(*final(self)),
    {
        take_at_client(&mut self.rx)
    }
}

} // verus!
