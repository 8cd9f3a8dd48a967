use vstd::prelude::*;
use vstd::utf8::encode_utf8;

use crate::codec::{spec_parse_envelope, Confirmation};
use crate::handshake::{spec_handshake, spec_token_from_query, HandshakeModel, HandshakeRejection};
use crate::router::{spec_confirmation, spec_route, RouteDecision, SocketEvent};

verus! {

/// Delivery: once `b` is registered (with handle `h`), a text frame whose
/// envelope addresses `b` with payload `c` is delivered verbatim — the
/// payload handed to `b`'s handle is exactly `c` — and a clean forwarding
/// write earns the sender a `Success` confirmation.
pub proof fn lemma_delivery(m: Map<Seq<u8>, u64>, t: Vec<u8>, b: Seq<u8>, c: Seq<u8>, h: u64)
    requires
        spec_parse_envelope(t@) == Some((b, c)),
        m.contains_key(b),
        m[b] == h,
    ensures
        spec_route(m, SocketEvent::Text(t)) == (RouteDecision::Deliver { handle: h, contents: c }),
        spec_confirmation(true) == Confirmation::Success,
{
}

/// Offline drop: a text frame whose envelope addresses an identity with no
/// registered entry is dropped — no delivery anywhere, and no confirmation
/// of any kind is owed to the sender.
pub proof fn lemma_offline_drop(m: Map<Seq<u8>, u64>, t: Vec<u8>, b: Seq<u8>, c: Seq<u8>)
    requires
        spec_parse_envelope(t@) == Some((b, c)),
        !m.contains_key(b),
    ensures
        spec_route(m, SocketEvent::Text(t)) == RouteDecision::Ignore,
{
}

/// After disconnect: once `b`'s entry is removed, a subsequent send to `b`
/// behaves exactly as the offline case — the frame is dropped.
pub proof fn lemma_send_after_disconnect(m: Map<Seq<u8>, u64>, t: Vec<u8>, b: Seq<u8>, c: Seq<u8>)
    requires
        spec_parse_envelope(t@) == Some((b, c)),
    ensures
        spec_route(m.remove(b), SocketEvent::Text(t)) == RouteDecision::Ignore,
{
}

/// Concurrent senders: two frames addressed to the same registered
/// recipient `b` are each delivered with their own payload intact, to the
/// one handle registered for `b`; and the confirmation owed to each sender
/// is a function of that sender's own forwarding outcome alone.  (That the
/// two payload writes do not interleave on `b`'s transport is the outbound
/// send guard's charge: every write goes through the handle's exclusive
/// lock.)
pub proof fn lemma_concurrent_forwards(
    m: Map<Seq<u8>, u64>,
    t1: Vec<u8>,
    t2: Vec<u8>,
    b: Seq<u8>,
    c1: Seq<u8>,
    c2: Seq<u8>,
    ok1: bool,
    ok2: bool,
)
    requires
        spec_parse_envelope(t1@) == Some((b, c1)),
        spec_parse_envelope(t2@) == Some((b, c2)),
        m.contains_key(b),
    ensures
        spec_route(m, SocketEvent::Text(t1)) == (RouteDecision::Deliver {
            handle: m[b],
            contents: c1,
        }),
        spec_route(m, SocketEvent::Text(t2)) == (RouteDecision::Deliver {
            handle: m[b],
            contents: c2,
        }),
        spec_confirmation(ok1) == (if ok1 {
            Confirmation::Success
        } else {
            Confirmation::Error
        }),
        spec_confirmation(ok2) == (if ok2 {
            Confirmation::Success
        } else {
            Confirmation::Error
        }),
{
}

/// Idempotent teardown: removing a connection's entry twice leaves the
/// registry exactly as removing it once does — the second removal is a
/// no-op, not an error.
pub proof fn lemma_teardown_idempotent(m: Map<Seq<u8>, u64>, b: Seq<u8>)
    ensures
        m.remove(b).remove(b) =~= m.remove(b),
{
}

/// The handshake rejection matrix: no query and no token parameter are
/// turned away as unauthenticated (status 401); a query that cannot be
/// parsed as bad request (status 400); a token the verifier rejects (for
/// instance, expired) as unauthenticated; and a token the verifier accepts
/// as belonging to `id` admits the session, whereupon registration installs
/// `id`'s handle in the registry.
pub proof fn lemma_handshake_matrix(
    q: Seq<u8>,
    verified: Option<Seq<char>>,
    m: Map<Seq<u8>, u64>,
    h: u64,
)
    ensures
        spec_handshake(None, verified) == HandshakeModel::Reject(HandshakeRejection::Unauthenticated),
        HandshakeRejection::Unauthenticated.spec_status() == 401,
        HandshakeRejection::BadRequest.spec_status() == 400,
        spec_token_from_query(q) is None ==> spec_handshake(Some(q), verified)
            == HandshakeModel::Reject(HandshakeRejection::BadRequest),
        spec_token_from_query(q) == Some(None::<Seq<u8>>) ==> spec_handshake(Some(q), verified)
            == HandshakeModel::Reject(HandshakeRejection::Unauthenticated),
        spec_token_from_query(q) matches Some(Some(_)) && verified is None ==> spec_handshake(
            Some(q),
            verified,
        ) == HandshakeModel::Reject(HandshakeRejection::Unauthenticated),
        spec_token_from_query(q) matches Some(Some(_)) ==> match verified {
            Some(id) => spec_handshake(Some(q), verified) == HandshakeModel::Admit(encode_utf8(id))
                && m.insert(encode_utf8(id), h).contains_key(encode_utf8(id)) && m.insert(
                encode_utf8(id),
                h,
            )[encode_utf8(id)] == h,
            None => true,
        },
{
    match (spec_token_from_query(q), verified) {
        (Some(Some(_)), Some(id)) => {
            let key = encode_utf8(id);
            assert(spec_handshake(Some(q), verified) == HandshakeModel::Admit(key));
            assert(m.insert(key, h).contains_key(key));
            assert(m.insert(key, h)[key] == h);
        }
        _ => {}
    }
}

} // verus!
