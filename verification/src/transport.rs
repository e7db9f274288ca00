//! The boundary with the transport: the outside types that travel through the
//! directory, and the calls that only the outside crates can make.
//!
//! Nothing in this file is proved. Each function below states, above its
//! header, which outside function it calls and what is taken on trust.

use vstd::prelude::*;
use crate::room::PeerId;

verus! {

/// The sending half of tokio's unbounded channel. Opaque: a handle is carried
/// and handed to the outside call, never looked into.
#[verifier::external_type_specification]
#[verifier::external_body]
#[verifier::reject_recursive_types(T)]
pub struct ExUnboundedSender<T>(tokio::sync::mpsc::UnboundedSender<T>);

/// A websocket frame of axum, with its five kinds: text, binary, ping, pong
/// and close.
#[verifier::external_type_specification]
pub struct ExMessage(axum::extract::ws::Message);

/// What a close frame of axum carries. Opaque.
#[verifier::external_type_specification]
#[verifier::external_body]
pub struct ExCloseFrame<'t>(axum::extract::ws::CloseFrame<'t>);

/// A transport failure reported by axum. Opaque.
#[verifier::external_type_specification]
#[verifier::external_body]
pub struct ExTransportError(axum::Error);

/// Why a message could not be handed to a channel. Opaque.
#[verifier::external_type_specification]
#[verifier::external_body]
pub struct ExSignalingError(matchbox_signaling::SignalingError);

/// The body of a signal. Opaque: it is relayed, never inspected.
#[verifier::external_type_specification]
#[verifier::external_body]
pub struct ExValue(serde_json::Value);

/// The handle through which events reach one connection.
pub type SignalingChannel = tokio::sync::mpsc::UnboundedSender<
    Result<axum::extract::ws::Message, axum::Error>,
>;

/// What the relay tells a peer.
#[derive(Debug)]
pub enum Notice {
    /// A peer joined the recipient's room.
    NewPeer(PeerId),
    /// A peer of the recipient's room is gone.
    PeerLeft(PeerId),
    /// A peer sent the recipient a signal.
    Signal { sender: PeerId, data: serde_json::Value },
}

/// What one read from a connection amounts to.
#[derive(Debug)]
pub enum Inbound {
    /// A signal for another peer.
    Signal { receiver: PeerId, data: serde_json::Value },
    /// Keeps an idle connection from being reaped.
    KeepAlive,
    /// The transport failed.
    TransportError,
    /// The peer closed the connection.
    Closed,
    /// A text frame that is no request.
    Malformed,
    /// A frame of a kind that carries no request.
    Unsupported,
}

/// Calls `to_string` of `matchbox_protocol::JsonPeerEvent` on the event that
/// `notice` stands for and wraps the text in a text frame. Nothing is claimed
/// of the frame.
#[verifier::external_body]
pub(crate) fn frame_of(notice: &Notice) -> (frame: axum::extract::ws::Message) {
    let event = match notice {
        Notice::NewPeer(id) => matchbox_protocol::JsonPeerEvent::NewPeer(uuid::Uuid::from_u128(*id).into()),
        Notice::PeerLeft(id) => matchbox_protocol::JsonPeerEvent::PeerLeft(uuid::Uuid::from_u128(*id).into()),
        Notice::Signal { sender, data } => matchbox_protocol::JsonPeerEvent::Signal {
            sender: uuid::Uuid::from_u128(*sender).into(),
            data: data.clone(),
        },
    };
    axum::extract::ws::Message::Text(event.to_string())
}

/// Calls `matchbox_signaling::common_logic::try_send`, which hands `message`
/// to the channel without blocking. Whether it succeeds depends on whether the
/// receiving half still exists, so nothing is claimed of the result.
#[verifier::external_body]
pub(crate) fn channel_send(sender: &SignalingChannel, message: axum::extract::ws::Message) -> (sent:
    Result<(), matchbox_signaling::SignalingError>) {
    matchbox_signaling::common_logic::try_send(sender, message)
}

/// What `matchbox_signaling::common_logic::parse_request` makes of a text
/// frame that holds `text`: the request written in it, or `Malformed`.
pub uninterp spec fn request_in(text: Seq<char>) -> Inbound;

/// What a read from a connection amounts to. A failed read is a transport
/// error; a close frame closes; a text frame holds a request or is malformed;
/// a frame of any other kind carries no request.
pub open spec fn read_as(frame: Result<axum::extract::ws::Message, axum::Error>) -> Inbound {
    match frame {
        Ok(axum::extract::ws::Message::Text(text)) => request_in(text@),
        Ok(axum::extract::ws::Message::Close(_)) => Inbound::Closed,
        Ok(_) => Inbound::Unsupported,
        Err(_) => Inbound::TransportError,
    }
}

/// Calls `matchbox_signaling::common_logic::parse_request` and tells its six
/// outcomes apart. Taken on trust, as its source shows: it passes a failed
/// read on as a transport error, answers a close frame with `Close`, refuses a
/// frame that is neither text nor close as unsupported, and reads the request
/// in a text frame from its text alone.
#[verifier::external_body]
pub(crate) fn parse_frame(frame: Result<axum::extract::ws::Message, axum::Error>) -> (inbound: Inbound)
    ensures
        inbound == match frame {
            Ok(axum::extract::ws::Message::Text(text)) => request_in(text@),
            Ok(axum::extract::ws::Message::Close(_)) => Inbound::Closed,
            Ok(_) => Inbound::Unsupported,
            Err(_) => Inbound::TransportError,
        },
{
    match matchbox_signaling::common_logic::parse_request(frame) {
        Ok(matchbox_protocol::PeerRequest::Signal { receiver, data }) => Inbound::Signal {
            receiver: receiver.0.as_u128(),
            data,
        },
        Ok(matchbox_protocol::PeerRequest::KeepAlive) => Inbound::KeepAlive,
        Err(matchbox_signaling::ClientRequestError::Axum(_)) => Inbound::TransportError,
        Err(matchbox_signaling::ClientRequestError::Close) => Inbound::Closed,
        Err(matchbox_signaling::ClientRequestError::Json(_)) => Inbound::Malformed,
        Err(matchbox_signaling::ClientRequestError::UnsupportedType(_)) => Inbound::Unsupported,
    }
}

} // verus!
