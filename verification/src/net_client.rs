//! The client's side of a network connection: what is sent when, and what
//! becomes of the bytes that arrive.

use crate::channels::{client_msg_channel, reliable_channel_id, unreliable_channel_id};
use crate::protocol::{ClientToServer, ServerToClient};
use std::collections::VecDeque;
use vstd::prelude::*;

verus! {

#[verifier::external_type_specification]
#[verifier::external_body]
pub struct ExRenetClient(renet::RenetClient);

/// The channels that a `renet::RenetClient` was made with, and whether each
/// is reliable.
pub uninterp spec fn client_channels(c: renet::RenetClient) -> Map<u8, bool>;

/// The messages that a `renet::RenetClient` holds for its owner, per channel,
/// in the order in which `receive_message` hands them out.
pub uninterp spec fn client_inbox(c: renet::RenetClient) -> Map<u8, Seq<Seq<u8>>>;

/// The messages that a `renet::RenetClient` holds for the other side, per
/// channel, in the order in which they were handed to it.
pub uninterp spec fn client_outbox(c: renet::RenetClient) -> Map<u8, Seq<Seq<u8>>>;

/// Where a `renet::RenetClient` stands: 0 while it is connecting, 1 when it
/// is connected, 2 when it is disconnected.
pub uninterp spec fn client_status(c: renet::RenetClient) -> u8;

/// The channels of the default configuration.
pub open spec fn default_channels() -> Map<u8, bool> {
    map![0u8 => false, 1u8 => true, 2u8 => true]
}

/// Calls `renet::RenetClient::new` with the default configuration: an
/// unreliable channel 0 and the reliable channels 1 and 2, no messages, and
/// the client is still connecting.
#[verifier::external_body]
fn new_renet_client() -> (c: renet::RenetClient)
    ensures
        client_channels(c) == default_channels(),
        forall|ch: u8| ch <= 2 ==> #[trigger] client_inbox(c)[ch] == Seq::<Seq<u8>>::empty(),
        forall|ch: u8| ch <= 2 ==> #[trigger] client_outbox(c)[ch] == Seq::<Seq<u8>>::empty(),
        client_status(c) == 0,
{
    renet::RenetClient::new(renet::ConnectionConfig::default())
}

/// Calls `renet::RenetClient::is_connected`.
#[verifier::external_body]
fn is_connected(c: &renet::RenetClient) -> (b: bool)
    ensures
        b == (client_status(*c) == 1),
{
    c.is_connected()
}

/// Calls `renet::RenetClient::is_disconnected`.
#[verifier::external_body]
fn is_disconnected(c: &renet::RenetClient) -> (b: bool)
    ensures
        b == (client_status(*c) == 2),
{
    c.is_disconnected()
}

/// What handing a message to a `renet::RenetClient` does. A disconnected
/// client ignores it. Otherwise the message goes behind those that the
/// channel holds; where there is no room for it, a reliable channel
/// disconnects the client and an unreliable one drops the message.
pub open spec fn handed_over(
    before: renet::RenetClient,
    after: renet::RenetClient,
    channel: u8,
    message: Seq<u8>,
) -> bool {
    let old_box = client_outbox(before)[channel];
    let new_box = client_outbox(after)[channel];
    &&& client_channels(after) == client_channels(before)
    &&& forall|ch: u8|
        ch != channel && client_channels(before).contains_key(ch) ==> #[trigger] client_outbox(after)[ch]
            == client_outbox(before)[ch]
    &&& if client_status(before) == 2 {
        client_status(after) == 2 && new_box == old_box
    } else if client_status(after) == 2 {
        client_channels(before)[channel] && new_box == old_box
    } else {
        &&& client_status(after) == client_status(before)
        &&& client_inbox(after) == client_inbox(before)
        &&& new_box == old_box.push(message) || (new_box == old_box && !client_channels(
            before,
        )[channel])
    }
}

/// Calls `renet::RenetClient::send_message`. It panics on a channel that the
/// client was not made with. How much a channel has room for is left unsaid.
#[verifier::external_body]
fn send_message(c: &mut renet::RenetClient, channel: u8, message: Vec<u8>)
    requires
        client_channels(*old(c)).contains_key(channel),
    ensures
        handed_over(*old(c), *final(c), channel, message@),
{
    c.send_message(channel, message)
}

/// Calls `renet::RenetClient::receive_message`: takes the first message out
/// of a channel's inbox, if there is one. It panics on a channel that the
/// client was not made with.
#[verifier::external_body]
fn receive_message(c: &mut renet::RenetClient, channel: u8) -> (message: Option<Vec<u8>>)
    requires
        client_channels(*old(c)).contains_key(channel),
    ensures
        client_channels(*final(c)) == client_channels(*old(c)),
        client_outbox(*final(c)) == client_outbox(*old(c)),
        client_status(*final(c)) == client_status(*old(c)),
        match message {
            Some(m) => {
                &&& client_inbox(*old(c))[channel].len() > 0
                &&& m@ == client_inbox(*old(c))[channel][0]
                &&& client_inbox(*final(c)) == client_inbox(*old(c)).insert(
                    channel,
                    client_inbox(*old(c))[channel].drop_first(),
                )
            },
            None => {
                &&& client_inbox(*old(c))[channel].len() == 0
                &&& client_inbox(*final(c)) == client_inbox(*old(c))
            },
        },
{
    c.receive_message(channel).map(|bytes| bytes.to_vec())
}

/// A message on its way: its channel and its bytes.
#[derive(Debug)]
pub struct Parcel {
    pub channel: u8,
    pub bytes: Vec<u8>,
}

/// The client's end of a connection.
pub struct ClientLink {
    pub client: renet::RenetClient,
    /// Messages that arrived and were not fetched yet.
    pub received: VecDeque<ServerToClient>,
    /// Messages sent before the connection was up. The connection would
    /// lose them, so they wait here.
    pub pending: VecDeque<Parcel>,
}

/// Whether a function decodes messages: it answers for all bytes, and the
/// same for the same bytes.
pub open spec fn decodes<M, F: Fn(Vec<u8>) -> Option<M>>(f: F) -> bool {
    &&& forall|v: Vec<u8>| call_requires(f, (v,))
    &&& forall|v: Vec<u8>, w: Vec<u8>, a: Option<M>, b: Option<M>|
        v@ == w@ && call_ensures(f, (v,), a) && call_ensures(f, (w,), b) ==> a == b
}

/// Whether a decoding function can give an answer for some bytes.
pub open spec fn answers<M, F: Fn(Vec<u8>) -> Option<M>>(f: F, bytes: Seq<u8>, m: Option<M>) -> bool {
    exists|v: Vec<u8>| v@ == bytes && #[trigger] call_ensures(f, (v,), m)
}

/// What a decoding function answers.
pub open spec fn decoded_by<M, F: Fn(Vec<u8>) -> Option<M>>(f: F, bytes: Seq<u8>) -> Option<M> {
    choose|m: Option<M>| #[trigger] answers(f, bytes, m)
}

/// The messages among the given bytes; what cannot be decoded is dropped.
pub open spec fn decoded_all<M, F: Fn(Vec<u8>) -> Option<M>>(f: F, all: Seq<Seq<u8>>) -> Seq<M>
    decreases all.len(),
{
    if all.len() == 0 {
        Seq::empty()
    } else {
        let rest = decoded_all(f, all.drop_last());
        match decoded_by(f, all.last()) {
            Some(m) => rest.push(m),
            None => rest,
        }
    }
}

/// A decoding function's answer is the one that its name stands for.
pub proof fn lemma_decoded_by<M, F: Fn(Vec<u8>) -> Option<M>>(f: F, v: Vec<u8>, m: Option<M>)
    requires
        decodes(f),
        call_ensures(f, (v,), m),
    ensures
        decoded_by(f, v@) == m,
{
    assert(answers(f, v@, m));
    let n = decoded_by(f, v@);
    let w = choose|w: Vec<u8>| w@ == v@ && #[trigger] call_ensures(f, (w,), n);
    assert(v@ == w@ && call_ensures(f, (v,), m) && call_ensures(f, (w,), n));
}

/// The channel that a message travels on.
pub open spec fn channel_of(msg: ClientToServer) -> u8 {
    if msg is UpdatePlayer {
        0
    } else {
        2
    }
}

/// What sending a message does: after a disconnect it is dropped, on a
/// connection that is up it is handed over, and before that it waits behind
/// what waits already.
pub open spec fn accepted(
    before: ClientLink,
    after: ClientLink,
    msg: ClientToServer,
    bytes: Vec<u8>,
) -> bool {
    &&& after.received@ == before.received@
    &&& if client_status(before.client) == 2 {
        after.client == before.client && after.pending@ == before.pending@
    } else if client_status(before.client) == 1 {
        &&& handed_over(before.client, after.client, channel_of(msg), bytes@)
        &&& after.pending@ == before.pending@
    } else {
        &&& after.client == before.client
        &&& after.pending@ == before.pending@.push(Parcel { channel: channel_of(msg), bytes })
    }
}

/// What pumping does: if the connection is up, everything that waited is
/// handed over in order and waits no more; then what arrived is fetched.
pub open spec fn pumped<F: Fn(Vec<u8>) -> Option<ServerToClient>>(
    before: ClientLink,
    after: ClientLink,
    decode: F,
) -> bool {
    &&& after.pending@ == if client_status(before.client) == 1 {
        Seq::empty()
    } else {
        before.pending@
    }
    &&& exists|sent: renet::RenetClient|
        {
            &&& if client_status(before.client) == 1 {
                delivered(before.client, sent, before.pending@)
            } else {
                sent == before.client
            }
            &&& #[trigger] fetched(sent, after.client)
            &&& after.received@ == before.received@ + incoming(decode, sent)
        }
}

impl ClientLink {
    /// Whether the connection has the channels of the default configuration,
    /// and what waits travels on one of the two that are used.
    pub open spec fn wf(self) -> bool {
        &&& client_channels(self.client) == default_channels()
        &&& forall|n: int|
            0 <= n < self.pending@.len() ==> (#[trigger] self.pending@[n]).channel == 0
                || self.pending@[n].channel == 2
    }

    /// An end that starts to connect.
    pub fn new() -> (link: ClientLink)
        ensures
            link.wf(),
            client_status(link.client) == 0,
            forall|ch: u8|
                ch <= 2 ==> #[trigger] client_inbox(link.client)[ch] == Seq::<Seq<u8>>::empty(),
            forall|ch: u8|
                ch <= 2 ==> #[trigger] client_outbox(link.client)[ch] == Seq::<Seq<u8>>::empty(),
            link.received@ == Seq::<ServerToClient>::empty(),
            link.pending@ == Seq::<Parcel>::empty(),
    {
        ClientLink { client: new_renet_client(), received: VecDeque::new(), pending: VecDeque::new() }
    }

    /// Sends a message whose bytes are given. After a disconnect it is
    /// dropped; before the connection is up it waits.
    pub fn send(&mut self, msg: &ClientToServer, bytes: Vec<u8>)
        requires
            old(self).wf(),
        ensures
            final(self).wf(),
            accepted(*old(self), *final(self), *msg, bytes),
    {
        if is_disconnected(&self.client) {
            return ;
        }
        let channel: u8 = client_msg_channel(msg);
        if is_connected(&self.client) {
            send_message(&mut self.client, channel, bytes);
        } else {
            self.pending.push_back(Parcel { channel, bytes });
        }
    }

    /// Whether there is anything to flush to: the server is not gone.
    pub fn is_open(&self) -> (b: bool)
        ensures
            b == (client_status(self.client) != 2),
    {
        !is_disconnected(&self.client)
    }

    /// The next message that arrived.
    pub fn try_recv(&mut self) -> (msg: Option<ServerToClient>)
        ensures
            final(self).client == old(self).client,
            final(self).pending@ == old(self).pending@,
            match msg {
                Some(m) => {
                    &&& old(self).received@.len() > 0
                    &&& m == old(self).received@[0]
                    &&& final(self).received@ == old(self).received@.drop_first()
                },
                None => {
                    &&& old(self).received@.len() == 0
                    &&& final(self).received@ == old(self).received@
                },
            },
    {
        let msg = self.received.pop_front();
        assert(msg is Some ==> self.received@ =~= old(self).received@.drop_first());
        msg
    }

    /// Sends what waited for the connection, if it is up, and fetches what
    /// arrived: first the reliable messages, then the others. What cannot be
    /// decoded is dropped.
    pub fn pump<F: Fn(Vec<u8>) -> Option<ServerToClient> + Copy>(&mut self, decode: F)
        requires
            old(self).wf(),
            decodes(decode),
        ensures
            final(self).wf(),
            pumped(*old(self), *final(self), decode),
    {
        if is_connected(&self.client) {
            self.send_pending();
        }
        let ghost sent = self.client;
        let reliable: u8 = reliable_channel_id();
        let unreliable: u8 = unreliable_channel_id();
        self.fetch(reliable, decode);
        self.fetch(unreliable, decode);
        proof {
            lemma_decoded_concat(decode, client_inbox(sent)[2], client_inbox(sent)[0]);
            assert(self.received@ =~= old(self).received@ + incoming(decode, sent));
            assert(fetched(sent, self.client));
        }
    }

    /// Hands over everything that waited, in order.
    fn send_pending(&mut self)
        requires
            old(self).wf(),
        ensures
            final(self).wf(),
            final(self).pending@ == Seq::<Parcel>::empty(),
            final(self).received@ == old(self).received@,
            delivered(old(self).client, final(self).client, old(self).pending@),
    {
        let ghost waiting = self.pending@;
        let ghost mut n: int = 0;
        assert(waiting.skip(0) =~= waiting);
        assert(waiting.take(0) =~= Seq::<Parcel>::empty());
        while self.pending.len() > 0
            invariant
                self.wf(),
                old(self).wf(),
                waiting == old(self).pending@,
                0 <= n <= waiting.len(),
                delivered(old(self).client, self.client, waiting.take(n)),
                self.pending@ == waiting.skip(n),
                self.received@ == old(self).received@,
            decreases self.pending@.len(),
        {
            let ghost before = self.client;
            match self.pending.pop_front() {
                None => {},
                Some(parcel) => {
                    proof {
                        assert(parcel == waiting[n]);
                        assert(old(self).pending@[n].channel == 0 || old(self).pending@[n].channel
                            == 2);
                    }
                    let ghost handed = parcel;
                    send_message(&mut self.client, parcel.channel, parcel.bytes);
                    proof {
                        assert(handed_over(before, self.client, handed.channel, handed.bytes@));
                        let upto = waiting.take(n + 1);
                        assert(upto.drop_last() =~= waiting.take(n));
                        assert(upto.last() == waiting[n]);
                        assert(delivered(old(self).client, before, upto.drop_last()));
                        assert(delivered(old(self).client, self.client, upto));
                        n = n + 1;
                        assert(self.pending@ =~= waiting.skip(n));
                        assert forall|m: int| 0 <= m < self.pending@.len() implies (
                        #[trigger] self.pending@[m]).channel == 0 || self.pending@[m].channel
                            == 2 by {
                            assert(self.pending@[m] == old(self).pending@[n + m]);
                        }
                    }
                },
            }
        }
        assert(waiting.take(n) =~= waiting);
        assert(self.pending@ =~= Seq::<Parcel>::empty());
    }

    /// Fetches everything that arrived on a channel.
    fn fetch<F: Fn(Vec<u8>) -> Option<ServerToClient> + Copy>(&mut self, channel: u8, decode: F)
        requires
            client_channels(old(self).client).contains_key(channel),
            decodes(decode),
        ensures
            client_channels(final(self).client) == client_channels(old(self).client),
            client_outbox(final(self).client) == client_outbox(old(self).client),
            client_status(final(self).client) == client_status(old(self).client),
            client_inbox(final(self).client)[channel].len() == 0,
            forall|ch: u8|
                ch != channel ==> #[trigger] client_inbox(final(self).client)[ch] == client_inbox(old(self).client)[ch],
            final(self).pending@ == old(self).pending@,
            final(self).received@ == old(self).received@ + decoded_all(
                decode,
                client_inbox(old(self).client)[channel],
            ),
    {
        let ghost all = client_inbox(self.client)[channel];
        let ghost mut n: int = 0;
        let mut more = true;
        assert(all.skip(0) =~= all);
        assert(all.take(0) =~= Seq::<Seq<u8>>::empty());
        while more
            invariant
                decodes(decode),
                client_channels(self.client) == client_channels(old(self).client),
                client_channels(self.client).contains_key(channel),
                client_outbox(self.client) == client_outbox(old(self).client),
                client_status(self.client) == client_status(old(self).client),
                forall|ch: u8|
                    ch != channel ==> #[trigger] client_inbox(self.client)[ch] == client_inbox(
                        old(self).client,
                    )[ch],
                0 <= n <= all.len(),
                client_inbox(self.client)[channel] == all.skip(n),
                !more ==> n == all.len(),
                self.pending@ == old(self).pending@,
                self.received@ =~= old(self).received@ + decoded_all(decode, all.take(n)),
            decreases all.len() - n, if more { 1int } else { 0int },
        {
            match receive_message(&mut self.client, channel) {
                None => {
                    more = false;
                },
                Some(bytes) => {
                    let ghost content = bytes@;
                    let ghost held = bytes;
                    let msg = decode(bytes);
                    proof {
                        lemma_decoded_by(decode, held, msg);
                        assert(content == all[n]);
                        let upto = all.take(n + 1);
                        assert(upto.drop_last() =~= all.take(n));
                        assert(upto.last() == all[n]);
                        n = n + 1;
                        assert(client_inbox(self.client)[channel] =~= all.skip(n));
                    }
                    match msg {
                        Some(m) => {
                            self.received.push_back(m);
                        },
                        None => {},
                    }
                },
            }
        }
        assert(all.take(n) =~= all);
    }
}

/// Whether a connection got from one state to another by being handed the
/// given messages in order.
pub open spec fn delivered(
    before: renet::RenetClient,
    after: renet::RenetClient,
    parcels: Seq<Parcel>,
) -> bool
    decreases parcels.len(),
{
    if parcels.len() == 0 {
        after == before
    } else {
        exists|mid: renet::RenetClient|
            delivered(before, mid, parcels.drop_last()) && #[trigger] handed_over(
                mid,
                after,
                parcels.last().channel,
                parcels.last().bytes@,
            )
    }
}

/// Whether a connection got from one state to another by having everything
/// taken out that had arrived on the two channels that are used.
pub open spec fn fetched(before: renet::RenetClient, after: renet::RenetClient) -> bool {
    &&& client_channels(after) == client_channels(before)
    &&& client_outbox(after) == client_outbox(before)
    &&& client_status(after) == client_status(before)
    &&& client_inbox(after)[0].len() == 0
    &&& client_inbox(after)[2].len() == 0
    &&& client_inbox(after)[1] == client_inbox(before)[1]
}

/// The messages that had arrived: the reliable ones, then the others.
pub open spec fn incoming<F: Fn(Vec<u8>) -> Option<ServerToClient>>(
    decode: F,
    c: renet::RenetClient,
) -> Seq<ServerToClient> {
    decoded_all(decode, client_inbox(c)[2] + client_inbox(c)[0])
}

/// Decoding goes message by message.
pub proof fn lemma_decoded_concat<M, F: Fn(Vec<u8>) -> Option<M>>(
    f: F,
    a: Seq<Seq<u8>>,
    b: Seq<Seq<u8>>,
)
    ensures
        decoded_all(f, a + b) == decoded_all(f, a) + decoded_all(f, b),
    decreases b.len(),
{
    if b.len() == 0 {
        assert(a + b =~= a);
        assert(decoded_all(f, a) + decoded_all(f, b) =~= decoded_all(f, a));
    } else {
        lemma_decoded_concat(f, a, b.drop_last());
        assert((a + b).drop_last() =~= a + b.drop_last());
        assert((a + b).last() == b.last());
        assert(decoded_all(f, a + b) =~= decoded_all(f, a) + decoded_all(f, b));
    }
}

/// The bytes of the reliable messages among the given ones.
pub open spec fn reliable_bytes(parcels: Seq<Parcel>) -> Seq<Seq<u8>>
    decreases parcels.len(),
{
    if parcels.len() == 0 {
        Seq::empty()
    } else if parcels.last().channel == 2 {
        reliable_bytes(parcels.drop_last()).push(parcels.last().bytes@)
    } else {
        reliable_bytes(parcels.drop_last())
    }
}

/// No reliable message that was sent before the connection was up is lost,
/// and their order is kept: unless the connection breaks, they all end up
/// behind what it already holds.
pub proof fn law_waiting_messages_arrive_in_order(
    before: renet::RenetClient,
    after: renet::RenetClient,
    parcels: Seq<Parcel>,
)
    requires
        delivered(before, after, parcels),
        client_channels(before) == default_channels(),
        forall|n: int|
            0 <= n < parcels.len() ==> (#[trigger] parcels[n]).channel == 0 || parcels[n].channel == 2,
        client_status(after) != 2,
    ensures
        client_outbox(after)[2] == client_outbox(before)[2] + reliable_bytes(parcels),
        client_channels(after) == default_channels(),
        client_status(before) != 2,
    decreases parcels.len(),
{
    if parcels.len() == 0 {
        assert(client_outbox(before)[2] + reliable_bytes(parcels) =~= client_outbox(before)[2]);
    } else {
        let rest = parcels.drop_last();
        let last = parcels.last();
        let mid = choose|mid: renet::RenetClient|
            delivered(before, mid, parcels.drop_last()) && #[trigger] handed_over(
                mid,
                after,
                parcels.last().channel,
                parcels.last().bytes@,
            );
        assert forall|n: int| 0 <= n < rest.len() implies (#[trigger] rest[n]).channel == 0
            || rest[n].channel == 2 by {
            assert(rest[n] == parcels[n]);
        }
        assert(parcels[parcels.len() - 1] == last);
        law_waiting_messages_arrive_in_order(before, mid, rest);
        assert(client_channels(mid).contains_key(2));
        assert(client_outbox(after)[2] =~= client_outbox(before)[2] + reliable_bytes(parcels));
    }
}

/// The messages that were sent while the connection was not up are handed
/// over when it is, in the order in which they were sent, each exactly once
/// and on its own channel, and pumping again hands none of them over again.
///
/// `links` are the link's states while `msgs` are sent, `up` is the last of
/// them with the connection up, `after` is what pumping makes of it, and
/// `later` and `last` are the link before and after it is pumped again.
pub proof fn law_waiting_messages_are_handed_over_once<
    F: Fn(Vec<u8>) -> Option<ServerToClient>,
>(
    links: Seq<ClientLink>,
    msgs: Seq<ClientToServer>,
    bytes: Seq<Vec<u8>>,
    up: ClientLink,
    after: ClientLink,
    later: ClientLink,
    last: ClientLink,
    decode: F,
)
    requires
        links.len() == msgs.len() + 1,
        bytes.len() == msgs.len(),
        links[0].pending@ == Seq::<Parcel>::empty(),
        forall|n: int|
            0 <= n < msgs.len() ==> client_status((#[trigger] links[n]).client) == 0 && accepted(
                links[n],
                links[n + 1],
                msgs[n],
                bytes[n],
            ),
        up.pending@ == links.last().pending@,
        client_status(up.client) == 1,
        pumped(up, after, decode),
        later.pending@ == after.pending@,
        pumped(later, last, decode),
    ensures
        up.pending@ == Seq::new(
            msgs.len(),
            |n: int| Parcel { channel: channel_of(msgs[n]), bytes: bytes[n] },
        ),
        exists|sent: renet::RenetClient|
            delivered(up.client, sent, up.pending@) && #[trigger] fetched(sent, after.client),
        last.pending@ == Seq::<Parcel>::empty(),
        client_outbox(last.client) == client_outbox(later.client),
{
    lemma_waiting(links, msgs, bytes, msgs.len() as int);
}

proof fn lemma_waiting(
    links: Seq<ClientLink>,
    msgs: Seq<ClientToServer>,
    bytes: Seq<Vec<u8>>,
    k: int,
)
    requires
        links.len() == msgs.len() + 1,
        bytes.len() == msgs.len(),
        0 <= k <= msgs.len(),
        links[0].pending@ == Seq::<Parcel>::empty(),
        forall|n: int|
            0 <= n < msgs.len() ==> client_status((#[trigger] links[n]).client) == 0 && accepted(
                links[n],
                links[n + 1],
                msgs[n],
                bytes[n],
            ),
    ensures
        links[k].pending@ == Seq::new(
            k as nat,
            |n: int| Parcel { channel: channel_of(msgs[n]), bytes: bytes[n] },
        ),
    decreases k,
{
    let all = Seq::new(
        k as nat,
        |n: int| Parcel { channel: channel_of(msgs[n]), bytes: bytes[n] },
    );
    if k == 0 {
        assert(links[0].pending@ =~= all);
    } else {
        lemma_waiting(links, msgs, bytes, k - 1);
        assert(client_status(links[k - 1].client) == 0);
        assert(links[k].pending@ =~= all);
    }
}

/// The player's position alone travels on the channel that may lose messages;
/// everything else travels on the one that may not.
pub proof fn law_only_positions_may_be_lost(msg: ClientToServer)
    ensures
        default_channels()[channel_of(msg)] <==> !(msg is UpdatePlayer),
        default_channels().contains_key(channel_of(msg)),
        channel_of(msg) == 0 || channel_of(msg) == 2,
{
}

/// A message that is sent on a connection that is up goes out behind what
/// waits to go out; before the connection is up it waits behind what waits,
/// with nothing sent; after a disconnect nothing happens.
pub proof fn law_sending_goes_by_the_connection(
    before: ClientLink,
    after: ClientLink,
    msg: ClientToServer,
    bytes: Vec<u8>,
)
    requires
        before.wf(),
        accepted(before, after, msg, bytes),
    ensures
        after.received@ == before.received@,
        client_status(before.client) == 1 ==> after.pending@ == before.pending@,
        client_status(before.client) == 1 && client_status(after.client) != 2 && !(msg
            is UpdatePlayer) ==> client_outbox(after.client)[2] == client_outbox(
            before.client,
        )[2].push(bytes@),
        client_status(before.client) == 1 && msg is UpdatePlayer ==> client_outbox(after.client)[2]
            == client_outbox(before.client)[2],
        client_status(before.client) == 0 ==> {
            &&& client_outbox(after.client) == client_outbox(before.client)
            &&& after.pending@.len() == before.pending@.len() + 1
            &&& after.pending@.last().bytes@ == bytes@
            &&& after.pending@.last().channel == 0 <==> msg is UpdatePlayer
            &&& after.pending@.last().channel == 2 <==> !(msg is UpdatePlayer)
            &&& after.pending@.take(before.pending@.len() as int) == before.pending@
        },
        client_status(before.client) == 2 ==> after.client == before.client && after.pending@
            == before.pending@,
{
    if client_status(before.client) == 0 {
        assert(after.pending@.take(before.pending@.len() as int) =~= before.pending@);
    }
}

/// What arrives is handed on in order, the reliable messages before the
/// others, and nothing is made up: a message comes out for each that can be
/// decoded, and none for the others.
pub proof fn law_reliable_messages_come_first<F: Fn(Vec<u8>) -> Option<ServerToClient>>(
    decode: F,
    c: renet::RenetClient,
    all: Seq<Seq<u8>>,
    bytes: Seq<u8>,
)
    ensures
        incoming(decode, c) == decoded_all(decode, client_inbox(c)[2]) + decoded_all(
            decode,
            client_inbox(c)[0],
        ),
        decoded_all(decode, Seq::empty()) == Seq::<ServerToClient>::empty(),
        decoded_by(decode, bytes) is None ==> decoded_all(decode, all.push(bytes)) == decoded_all(
            decode,
            all,
        ),
        decoded_by(decode, bytes) is Some ==> decoded_all(decode, all.push(bytes)) == decoded_all(
            decode,
            all,
        ).push(decoded_by(decode, bytes)->0),
{
    lemma_decoded_concat(decode, client_inbox(c)[2], client_inbox(c)[0]);
    assert(all.push(bytes).drop_last() =~= all);
}

} // verus!
