//! Which channel a message travels on.
//!
//! Movement travels unreliably: a lost state is replaced by the next one.
//! Everything else travels reliably and in order.

use crate::protocol::{ClientToServer, ServerToClient};
use vstd::prelude::*;

verus! {

/// Protocol id that both sides must agree on.
pub const PROTOCOL_ID: u64 = 4;

/// Default UDP port of dedicated servers.
pub const DEFAULT_PORT: u16 = 24571;

/// Clients that a server accepts at once.
pub const MAX_CLIENTS: usize = 64;

/// The id of the reliable and ordered channel: what the conversion of
/// `renet::DefaultChannel::ReliableOrdered` into `u8` gives, which is 2.
#[verifier::external_body]
pub(crate) fn reliable_channel_id() -> (id: u8)
    ensures
        id == 2,
{
    renet::DefaultChannel::ReliableOrdered.into()
}

/// The id of the unreliable channel: what the conversion of
/// `renet::DefaultChannel::Unreliable` into `u8` gives, which is 0.
#[verifier::external_body]
pub(crate) fn unreliable_channel_id() -> (id: u8)
    ensures
        id == 0,
{
    renet::DefaultChannel::Unreliable.into()
}

/// The channel of a message from a client.
pub fn client_msg_channel(msg: &ClientToServer) -> (channel: u8)
    ensures
        channel == if *msg is UpdatePlayer {
            0u8
        } else {
            2u8
        },
{
    match msg {
        ClientToServer::UpdatePlayer(_) => unreliable_channel_id(),
        _ => reliable_channel_id(),
    }
}

/// The channel of a message from the server.
pub fn server_msg_channel(msg: &ServerToClient) -> (channel: u8)
    ensures
        channel == if *msg is PlayerMoved {
            0u8
        } else {
            2u8
        },
{
    match msg {
        ServerToClient::PlayerMoved { .. } => unreliable_channel_id(),
        _ => reliable_channel_id(),
    }
}

#[verifier::external_type_specification]
#[verifier::external_body]
pub struct ExIoError(std::io::Error);

/// The error that `std::io::Error::other` makes of a text.
pub uninterp spec fn other_error(text: Seq<char>) -> std::io::Error;

/// Calls `std::io::Error::other`. The error depends on nothing but the text.
#[verifier::external_body]
fn make_other_error(text: String) -> (e: std::io::Error)
    ensures
        e == other_error(text@),
{
    std::io::Error::other(text)
}

/// Wraps an error that can be displayed as an I/O error with its text.
pub fn io_err<E: core::fmt::Display>(e: E) -> (err: std::io::Error)
    ensures
        exists|text: String|
            vstd::string::to_string_from_display_ensures::<E>(&e, text) && err == other_error(
                #[trigger] text@,
            ),
{
    let text = e.to_string();
    make_other_error(text)
}

} // verus!
