//! Per-connection bridge decisions: what a connection task does when it is
//! accepted, for each arriving transport frame, and at teardown. The
//! transport reads and writes themselves live with the caller; every
//! decision between them is here and verified.

use vstd::prelude::*;
use crate::codec::{spec_decode, DecodeError};
use crate::models::{
    Client, ClientId, Command, CommandV, EntityDetails, Envelope, EnvelopeV, PingStatus, Status,
};
use crate::registry::{client_entity, server_entity, to_client_envelope};

verus! {

/// One already-decoded transport frame, as the bridge sees it.
#[derive(Debug)]
pub enum TransportFrame {
    /// A protocol frame: an encoded envelope.
    Binary(Vec<u8>),
    /// A non-protocol text frame.
    Text(String),
    /// A transport-level ping.
    Ping,
    /// A transport-level pong.
    Pong,
    /// The peer closed the connection.
    Close,
}

/// What the bridge does with one inbound frame.
#[derive(Debug)]
pub enum BridgeAction {
    /// Forward this envelope into the registry's inbound path.
    Forward(Envelope),
    /// Drop the frame and keep the connection: a non-protocol frame, or one
    /// malformed frame with its decode error for the log.
    Ignore(Option<DecodeError>),
    /// The peer is gone: hand this synthesized close to the registry and
    /// terminate the connection task.
    Disconnect(Envelope),
}

/// Relies on uuid::Uuid::new_v4: mints a random 128-bit identity for a
/// newly accepted connection. Nothing is promised of the value; the
/// registry rejects a colliding registration.
#[verifier::external_body]
fn mint_client_id() -> ClientId {
    ClientId(uuid::Uuid::new_v4().as_u128())
}

/// The record minted for a newly accepted connection: a fresh identity,
/// the connection's peer address, waiting for a partner, never pinged.
pub fn accept_client(current_socket_addr: Option<String>) -> (c: Client)
    ensures
        c.username is None,
        c.email is None,
        c.current_socket_addr == current_socket_addr,
        c.status == Some(Status::WaitingForPartner),
        c.ping_status is NeverPinged,
{
    let user_id = mint_client_id();
    Client {
        username: None,
        email: None,
        user_id,
        current_socket_addr,
        status: Some(Status::WaitingForPartner),
        ping_status: PingStatus::NeverPinged,
    }
}

/// The registration envelope a fresh connection sends to the registry
/// together with its outbound channel: server-addressed, announcing the
/// new record. If this send fails the connection is aborted, not retried.
pub fn registration_envelope(client: &Client) -> (r: Envelope)
    ensures
        r@ == (EnvelopeV {
            sender: server_entity(),
            intermediary: None,
            receiver: server_entity(),
            command: CommandV::ServerInitiated(client@),
        }),
{
    Envelope::new(
        EntityDetails::Server,
        EntityDetails::Server,
        None,
        Command::ServerInitiated(client.duplicate()),
    )
}

/// The greeting written to the client itself right after registration, so
/// the client learns its own identity before doing anything else.
pub fn greeting_envelope(client: &Client) -> (r: Envelope)
    ensures
        r@ == to_client_envelope(client@.user_id, CommandV::ServerInitiated(client@)),
{
    Envelope::new(
        EntityDetails::Server,
        EntityDetails::Client(client.user_id),
        None,
        Command::ServerInitiated(client.duplicate()),
    )
}

/// The close a bridge synthesizes when its transport ends, cleanly or not,
/// so the registry always learns of the disconnection.
pub open spec fn bridge_close_envelope(id: ClientId) -> EnvelopeV {
    EnvelopeV {
        sender: client_entity(id),
        intermediary: None,
        receiver: server_entity(),
        command: CommandV::ClosedConnection(id),
    }
}

pub fn closed_envelope(id: ClientId) -> (r: Envelope)
    ensures
        r@ == bridge_close_envelope(id),
{
    Envelope::new(
        EntityDetails::Client(id),
        EntityDetails::Server,
        None,
        Command::ClosedConnection(id),
    )
}

/// The bridge's decision for one inbound frame: a binary frame is decoded
/// and forwarded exactly when it encodes an envelope; one malformed frame
/// is dropped with its error and the connection stays open; non-protocol
/// frames are dropped silently; a close ends the connection through the
/// synthesized close envelope.
pub fn handle_frame(id: ClientId, frame: TransportFrame) -> (a: BridgeAction)
    ensures
        (match frame {
            TransportFrame::Binary(b) => (match spec_decode(b@) {
                Some(v) => a matches BridgeAction::Forward(env) && env@ == v && env.wf(),
                None => a matches BridgeAction::Ignore(e) && e is Some,
            }),
            TransportFrame::Text(_) => a matches BridgeAction::Ignore(e) && e is None,
            TransportFrame::Ping => a matches BridgeAction::Ignore(e) && e is None,
            TransportFrame::Pong => a matches BridgeAction::Ignore(e) && e is None,
            TransportFrame::Close => a matches BridgeAction::Disconnect(env) && env@
                == bridge_close_envelope(id),
        }),
{
    match frame {
        TransportFrame::Binary(b) => {
            match Envelope::deserialize(b.as_slice()) {
                Ok(env) => BridgeAction::Forward(env),
                Err(e) => BridgeAction::Ignore(Some(e)),
            }
        },
        TransportFrame::Text(_t) => BridgeAction::Ignore(None),
        TransportFrame::Ping => BridgeAction::Ignore(None),
        TransportFrame::Pong => BridgeAction::Ignore(None),
        TransportFrame::Close => BridgeAction::Disconnect(closed_envelope(id)),
    }
}

} // verus!
