use vstd::prelude::*;

use crate::codec::{
    parse_envelope, spec_parse_envelope, Confirmation, confirmation_text, success_confirmation,
    error_confirmation,
};
use crate::registry::ConnectionRegistry;

verus! {

/// One thing read from a connection's transport, as the per-connection loop
/// sees it.
pub enum SocketEvent {
    /// A text frame: the only carrier of envelopes.
    Text(Vec<u8>),
    /// A binary frame.
    Binary(Vec<u8>),
    /// A close frame from the peer.
    Close,
    /// Any other frame kind (ping, pong, raw).
    Other,
    /// An unrecoverable transport read error.
    ReadError,
}

/// What the router does with one event.
pub enum RouteAction {
    /// Exit the loop and proceed to teardown (registry removal).
    Disconnect,
    /// Drop the frame silently: no confirmation, no delivery.
    Ignore,
    /// Forward `contents` verbatim to the connection with handle `handle`
    /// (as a binary frame), then confirm to the sender.
    Forward { handle: u64, contents: Vec<u8> },
}

/// The ghost shape of a routing decision.
pub enum RouteDecision {
    Disconnect,
    Ignore,
    Deliver { handle: u64, contents: Seq<u8> },
}

pub open spec fn action_model(a: RouteAction) -> RouteDecision {
    match a {
        RouteAction::Disconnect => RouteDecision::Disconnect,
        RouteAction::Ignore => RouteDecision::Ignore,
        RouteAction::Forward { handle, contents } => RouteDecision::Deliver {
            handle,
            contents: contents@,
        },
    }
}

/// The routing rule: a close frame or a read error ends the loop; a text
/// frame that decodes as an envelope is delivered to the registered handle
/// of its receiver, or dropped when the receiver is offline; everything
/// else is dropped.
pub open spec fn spec_route(m: Map<Seq<u8>, u64>, ev: SocketEvent) -> RouteDecision {
    match ev {
        SocketEvent::Close => RouteDecision::Disconnect,
        SocketEvent::ReadError => RouteDecision::Disconnect,
        SocketEvent::Text(t) => match spec_parse_envelope(t@) {
            None => RouteDecision::Ignore,
            Some((rid, contents)) => if m.contains_key(rid) {
                RouteDecision::Deliver { handle: m[rid], contents }
            } else {
                RouteDecision::Ignore
            },
        },
        SocketEvent::Binary(_) => RouteDecision::Ignore,
        SocketEvent::Other => RouteDecision::Ignore,
    }
}

/// One step of the per-connection router loop: decides what to do with the
/// event just read from this connection, against the current registry.
pub fn route_frame(registry: &ConnectionRegistry, ev: &SocketEvent) -> (a: RouteAction)
    requires
        registry.wf(),
    ensures
        action_model(a) == spec_route(registry@, *ev),
{
    match ev {
        SocketEvent::Close => RouteAction::Disconnect,
        SocketEvent::ReadError => RouteAction::Disconnect,
        SocketEvent::Binary(_) => RouteAction::Ignore,
        SocketEvent::Other => RouteAction::Ignore,
        SocketEvent::Text(t) => match parse_envelope(t.as_slice()) {
            None => RouteAction::Ignore,
            Some(env) => match registry.lookup(&env.receiver_id) {
                Some(h) => RouteAction::Forward { handle: h, contents: env.contents },
                None => RouteAction::Ignore,
            },
        },
    }
}

/// The confirmation owed to the sender after a forward was attempted.
pub open spec fn spec_confirmation(forwarded_ok: bool) -> Confirmation {
    if forwarded_ok {
        Confirmation::Success
    } else {
        Confirmation::Error
    }
}

/// Classifies the outcome of the forwarding write: a clean write earns the
/// sender a `Success` confirmation, a failed one an `Error` confirmation.
pub fn confirmation_for(forwarded_ok: bool) -> (c: Confirmation)
    ensures
        c == spec_confirmation(forwarded_ok),
{
    if forwarded_ok {
        Confirmation::Success
    } else {
        Confirmation::Error
    }
}

/// The confirmation frame written back to the sender, as text.
pub fn confirmation_frame(forwarded_ok: bool) -> (r: String)
    ensures
        forwarded_ok ==> r@ == success_confirmation(),
        !forwarded_ok ==> r@ == error_confirmation(),
{
    let c = confirmation_for(forwarded_ok);
    confirmation_text(&c)
}

} // verus!
