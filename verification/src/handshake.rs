use vstd::prelude::*;
use vstd::utf8::encode_utf8;
use vstd::string::StrSliceExecFns;

use crate::bytes::string_from_utf8;
use crate::token::get_jwt;

verus! {

// ---------------------------------------------------------------------------
// The query grammar.
//
// A connection request carries its bearer token in the `access_token`
// parameter of the request's query string, written in form-urlencoded
// notation: pairs separated by `&`, a key separated from its value by the
// first `=`, `+` standing for a space, and `%` introducing two hex digits
// that stand for one byte.  A `%` not followed by two hex digits makes the
// query malformed.  When a key occurs twice, the last occurrence wins.
// ---------------------------------------------------------------------------

/// The parameter key that carries the bearer token: the bytes of
/// `access_token`.
pub open spec fn token_key() -> Seq<u8> {
    seq![97u8, 99u8, 99u8, 101u8, 115u8, 115u8, 95u8, 116u8, 111u8, 107u8, 101u8, 110u8]
}

pub open spec fn is_hex_digit(b: u8) -> bool {
    (48 <= b && b <= 57) || (65 <= b && b <= 70) || (97 <= b && b <= 102)
}

pub open spec fn hex_value(b: u8) -> u8 {
    if 48 <= b && b <= 57 {
        (b - 48) as u8
    } else if 65 <= b && b <= 70 {
        (b - 55) as u8
    } else {
        (b - 87) as u8
    }
}

/// The byte that ends a component: `&` always, `=` only while reading a key.
pub open spec fn stop_byte(b: u8, in_value: bool) -> bool {
    b == 38 || (!in_value && b == 61)
}

/// Percent-decodes one key or value, starting at `i`; returns the decoded
/// bytes and the index of the byte that stopped it (or the end), or `None`
/// on a malformed percent escape.
pub open spec fn spec_decode_part(s: Seq<u8>, i: int, in_value: bool) -> Option<(Seq<u8>, int)>
    decreases s.len() - i,
    when 0 <= i <= s.len()
{
    if i >= s.len() {
        Some((seq![], i))
    } else if stop_byte(s[i], in_value) {
        Some((seq![], i))
    } else if s[i] == 43 {
        match spec_decode_part(s, i + 1, in_value) {
            Some((rest, j)) => Some((seq![32u8] + rest, j)),
            None => None,
        }
    } else if s[i] == 37 {
        if i + 2 < s.len() && is_hex_digit(s[i + 1]) && is_hex_digit(s[i + 2]) {
            match spec_decode_part(s, i + 3, in_value) {
                Some((rest, j)) => Some(
                    (seq![(hex_value(s[i + 1]) * 16 + hex_value(s[i + 2])) as u8] + rest, j),
                ),
                None => None,
            }
        } else {
            None
        }
    } else {
        match spec_decode_part(s, i + 1, in_value) {
            Some((rest, j)) => Some((seq![s[i]] + rest, j)),
            None => None,
        }
    }
}

/// One `key[=value]` pair starting at `i`: the decoded key, the decoded
/// value (empty when there is no `=`), and the index just past the pair.
pub open spec fn spec_parse_piece(s: Seq<u8>, i: int) -> Option<(Seq<u8>, Seq<u8>, int)> {
    match spec_decode_part(s, i, false) {
        None => None,
        Some((key, j)) => if j < s.len() && s[j] == 61 {
            match spec_decode_part(s, j + 1, true) {
                None => None,
                Some((val, k)) => Some((key, val, k)),
            }
        } else {
            Some((key, seq![], j))
        },
    }
}

proof fn lemma_decode_part_bounds(s: Seq<u8>, i: int, in_value: bool)
    requires
        0 <= i <= s.len(),
    ensures
        spec_decode_part(s, i, in_value) matches Some(r) ==> i <= r.1 <= s.len() && (r.1 < s.len()
            ==> stop_byte(s[r.1], in_value)),
    decreases s.len() - i,
{
    if i < s.len() && !stop_byte(s[i], in_value) {
        if s[i] == 37 {
            if i + 2 < s.len() && is_hex_digit(s[i + 1]) && is_hex_digit(s[i + 2]) {
                lemma_decode_part_bounds(s, i + 3, in_value);
            }
        } else {
            lemma_decode_part_bounds(s, i + 1, in_value);
        }
    }
}

proof fn lemma_parse_piece_bounds(s: Seq<u8>, i: int)
    requires
        0 <= i <= s.len(),
    ensures
        spec_parse_piece(s, i) matches Some(r) ==> i <= r.2 <= s.len() && (r.2 < s.len() ==> s[r.2]
            == 38),
{
    lemma_decode_part_bounds(s, i, false);
    match spec_decode_part(s, i, false) {
        None => {}
        Some((key, j)) => {
            if j < s.len() && s[j] == 61 {
                lemma_decode_part_bounds(s, j + 1, true);
            }
        }
    }
}

/// Scans the pairs from `i` on.  `None` means the query is malformed;
/// `Some(None)` that no `access_token` key occurs; `Some(Some(t))` that the
/// last `access_token` pair carries the decoded value `t`.
pub open spec fn spec_find_token(s: Seq<u8>, i: int) -> Option<Option<Seq<u8>>>
    decreases s.len() - i,
    when 0 <= i <= s.len()
    via spec_find_token_dec
{
    match spec_parse_piece(s, i) {
        None => None,
        Some((key, val, k)) => {
            let here: Option<Seq<u8>> = if key == token_key() {
                Some(val)
            } else {
                None
            };
            if k >= s.len() {
                Some(here)
            } else {
                match spec_find_token(s, k + 1) {
                    None => None,
                    Some(rest) => Some(
                        if rest is Some {
                            rest
                        } else {
                            here
                        },
                    ),
                }
            }
        }
    }
}

#[via_fn]
proof fn spec_find_token_dec(s: Seq<u8>, i: int) {
    lemma_parse_piece_bounds(s, i);
}

/// What the whole query string says about the bearer token.
pub open spec fn spec_token_from_query(q: Seq<u8>) -> Option<Option<Seq<u8>>> {
    spec_find_token(q, 0)
}

/// A byte that passes through the query grammar unchanged: anything but the
/// two separators and the two decoding markers.
pub open spec fn plain_query_byte(b: u8) -> bool {
    b != 38 && b != 61 && b != 37 && b != 43
}

pub open spec fn all_plain(s: Seq<u8>) -> bool {
    forall|k: int| 0 <= k < s.len() ==> plain_query_byte(#[trigger] s[k])
}

proof fn lemma_decode_plain(f: Seq<u8>, i: int, s: Seq<u8>, in_value: bool)
    requires
        all_plain(s),
        0 <= i,
        i + s.len() <= f.len(),
        f.subrange(i, i + s.len()) =~= s,
        i + s.len() == f.len() || stop_byte(f[i + s.len()], in_value),
    ensures
        spec_decode_part(f, i, in_value) == Some((s, i + s.len())),
    decreases s.len(),
{
    if s.len() == 0 {
    } else {
        let b = s[0];
        assert(f[i] == f.subrange(i, i + s.len())[0]);
        assert(f[i] == b);
        let tail = s.drop_first();
        assert(all_plain(tail)) by {
            assert(forall|k: int| 0 <= k < tail.len() ==> #[trigger] tail[k] == s[k + 1]);
        }
        assert(s =~= seq![b] + tail);
        crate::bytes::lemma_subrange_drop_prefix(f, i, seq![b], tail);
        lemma_decode_plain(f, i + 1, tail, in_value);
        assert(spec_decode_part(f, i, in_value) == Some((seq![b] + tail, i + s.len())));
    }
}

/// Round trip at the handshake: a query of exactly `access_token=<t>`, with
/// a token whose bytes pass through the grammar unchanged (a compact token
/// string does), parses and yields that token.
pub proof fn lemma_token_query_round_trip(t: Seq<u8>)
    requires
        all_plain(t),
    ensures
        spec_token_from_query(token_key() + seq![61u8] + t) == Some(Some(t)),
{
    let tk = token_key();
    let q = tk + seq![61u8] + t;
    assert(all_plain(tk));
    assert(q =~= Seq::<u8>::empty() + tk + (seq![61u8] + t));
    crate::bytes::lemma_mid_window(q, Seq::<u8>::empty(), tk, seq![61u8] + t);
    assert(q.subrange(0, 12) =~= tk);
    assert(q[12] == ((tk + seq![61u8]) + t)[12]);
    assert(q[12] == 61);
    lemma_decode_plain(q, 0, tk, false);
    assert(q =~= (tk + seq![61u8]) + t + Seq::<u8>::empty());
    crate::bytes::lemma_mid_window(q, tk + seq![61u8], t, Seq::<u8>::empty());
    lemma_decode_plain(q, 13, t, true);
    assert(spec_parse_piece(q, 0) == Some((tk, t, q.len() as int)));
}

// ---------------------------------------------------------------------------
// The executable parser.
// ---------------------------------------------------------------------------

fn hex_digit(b: u8) -> (r: Option<u8>)
    ensures
        r matches Some(v) ==> is_hex_digit(b) && v == hex_value(b) && v <= 15,
        r is None ==> !is_hex_digit(b),
{
    if 48 <= b && b <= 57 {
        Some(b - 48)
    } else if 65 <= b && b <= 70 {
        Some(b - 55)
    } else if 97 <= b && b <= 102 {
        Some(b - 87)
    } else {
        None
    }
}

fn decode_part(s: &[u8], i: usize, in_value: bool) -> (r: Option<(Vec<u8>, usize)>)
    requires
        i <= s.len(),
    ensures
        match r {
            Some(p) => spec_decode_part(s@, i as int, in_value) == Some((p.0@, p.1 as int))
                && p.1 <= s.len(),
            None => spec_decode_part(s@, i as int, in_value) is None,
        },
    decreases s.len() - i,
{
    if i >= s.len() {
        return Some((Vec::new(), i));
    }
    let b = s[i];
    if b == 38 || (!in_value && b == 61) {
        return Some((Vec::new(), i));
    }
    if b == 43 {
        match decode_part(s, i + 1, in_value) {
            Some((mut rest, j)) => {
                let ghost tail = rest@;
                rest.insert(0, 32);
                proof {
                    assert(rest@ =~= seq![32u8] + tail);
                }
                Some((rest, j))
            }
            None => None,
        }
    } else if b == 37 {
        if s.len() - i > 2 {
            let h = hex_digit(s[i + 1]);
            let l = hex_digit(s[i + 2]);
            match (h, l) {
                (Some(hv), Some(lv)) => {
                    let v: u8 = hv * 16 + lv;
                    match decode_part(s, i + 3, in_value) {
                        Some((mut rest, j)) => {
                            let ghost tail = rest@;
                            rest.insert(0, v);
                            proof {
                                assert(rest@ =~= seq![v] + tail);
                            }
                            Some((rest, j))
                        }
                        None => None,
                    }
                }
                _ => None,
            }
        } else {
            None
        }
    } else {
        match decode_part(s, i + 1, in_value) {
            Some((mut rest, j)) => {
                let ghost tail = rest@;
                rest.insert(0, b);
                proof {
                    assert(rest@ =~= seq![b] + tail);
                }
                Some((rest, j))
            }
            None => None,
        }
    }
}

fn parse_piece(s: &[u8], i: usize) -> (r: Option<(Vec<u8>, Vec<u8>, usize)>)
    requires
        i <= s.len(),
    ensures
        match r {
            Some(p) => spec_parse_piece(s@, i as int) == Some((p.0@, p.1@, p.2 as int)) && i <= p.2
                <= s.len() && (p.2 < s.len() ==> s@[p.2 as int] == 38),
            None => spec_parse_piece(s@, i as int) is None,
        },
{
    proof {
        lemma_parse_piece_bounds(s@, i as int);
        lemma_decode_part_bounds(s@, i as int, false);
    }
    match decode_part(s, i, false) {
        None => None,
        Some((key, j)) => {
            if j < s.len() && s[j] == 61 {
                proof {
                    lemma_decode_part_bounds(s@, j + 1, true);
                }
                match decode_part(s, j + 1, true) {
                    None => None,
                    Some((val, k)) => Some((key, val, k)),
                }
            } else {
                Some((key, Vec::new(), j))
            }
        }
    }
}

fn is_token_key(k: &Vec<u8>) -> (r: bool)
    ensures
        r == (k@ == token_key()),
{
    if k.len() != 12 {
        return false;
    }
    let r = k[0] == 97 && k[1] == 99 && k[2] == 99 && k[3] == 101 && k[4] == 115 && k[5] == 115
        && k[6] == 95 && k[7] == 116 && k[8] == 111 && k[9] == 107 && k[10] == 101 && k[11] == 110;
    proof {
        if r {
            assert(k@ =~= token_key());
        } else if k@ == token_key() {
            assert(k@[0] == 97 && k@[1] == 99 && k@[2] == 99 && k@[3] == 101 && k@[4] == 115
                && k@[5] == 115 && k@[6] == 95 && k@[7] == 116 && k@[8] == 111 && k@[9] == 107
                && k@[10] == 101 && k@[11] == 110);
        }
    }
    r
}

fn find_token(s: &[u8], i: usize) -> (r: Option<Option<Vec<u8>>>)
    requires
        i <= s.len(),
    ensures
        match r {
            None => spec_find_token(s@, i as int) is None,
            Some(None) => spec_find_token(s@, i as int) == Some(None::<Seq<u8>>),
            Some(Some(v)) => spec_find_token(s@, i as int) == Some(Some(v@)),
        },
    decreases s.len() - i,
{
    match parse_piece(s, i) {
        None => None,
        Some((key, val, k)) => {
            let here: Option<Vec<u8>> = if is_token_key(&key) {
                Some(val)
            } else {
                None
            };
            if k >= s.len() {
                Some(here)
            } else {
                match find_token(s, k + 1) {
                    None => None,
                    Some(rest) => Some(
                        match rest {
                            Some(v) => Some(v),
                            None => here,
                        },
                    ),
                }
            }
        }
    }
}

// ---------------------------------------------------------------------------
// The handshake decision.
// ---------------------------------------------------------------------------

/// Why a connection request was turned away before any application data.
pub enum HandshakeRejection {
    /// The query string could not be parsed.
    BadRequest,
    /// No token was presented, or the one presented failed verification.
    Unauthenticated,
}

impl HandshakeRejection {
    /// The status a rejection maps to on the wire.
    pub open spec fn spec_status(&self) -> u16 {
        match self {
            HandshakeRejection::BadRequest => 400,
            HandshakeRejection::Unauthenticated => 401,
        }
    }

    pub fn status(&self) -> (s: u16)
        ensures
            s == self.spec_status(),
    {
        match self {
            HandshakeRejection::BadRequest => 400,
            HandshakeRejection::Unauthenticated => 401,
        }
    }
}

/// What the token parameter of a request's query said.
pub enum TokenExtraction {
    /// There was no query, or no `access_token` key in it.
    Missing,
    /// The query could not be parsed.
    Malformed,
    /// The token carried by the last `access_token` pair.
    Found(Vec<u8>),
}

/// Reads the bearer token out of a request's query string.
pub fn extract_token(query: &[u8]) -> (r: TokenExtraction)
    ensures
        match spec_token_from_query(query@) {
            None => r is Malformed,
            Some(None) => r is Missing,
            Some(Some(t)) => r matches TokenExtraction::Found(v) && v@ == t,
        },
{
    match find_token(query, 0) {
        None => TokenExtraction::Malformed,
        Some(None) => TokenExtraction::Missing,
        Some(Some(v)) => TokenExtraction::Found(v),
    }
}

/// The outcome of a handshake: an admitted session tagged with its verified
/// identity (as UTF-8 bytes), or a classified rejection.
pub enum HandshakeOutcome {
    Admitted(Vec<u8>),
    Rejected(HandshakeRejection),
}

/// The ghost shape of a handshake outcome.
pub enum HandshakeModel {
    Admit(Seq<u8>),
    Reject(HandshakeRejection),
}

pub open spec fn outcome_model(r: HandshakeOutcome) -> HandshakeModel {
    match r {
        HandshakeOutcome::Admitted(id) => HandshakeModel::Admit(id@),
        HandshakeOutcome::Rejected(why) => HandshakeModel::Reject(why),
    }
}

/// The handshake policy, with the identity verifier's answer for the
/// presented token abstracted as `verified`: `Some(id)` when the verifier
/// accepted the token as belonging to `id`, `None` when it rejected it.
pub open spec fn spec_handshake(query: Option<Seq<u8>>, verified: Option<Seq<char>>) -> HandshakeModel {
    match query {
        None => HandshakeModel::Reject(HandshakeRejection::Unauthenticated),
        Some(q) => match spec_token_from_query(q) {
            None => HandshakeModel::Reject(HandshakeRejection::BadRequest),
            Some(None) => HandshakeModel::Reject(HandshakeRejection::Unauthenticated),
            Some(Some(_)) => match verified {
                Some(id) => HandshakeModel::Admit(encode_utf8(id)),
                None => HandshakeModel::Reject(HandshakeRejection::Unauthenticated),
            },
        },
    }
}

/// Turns the identity verifier's answer into the handshake outcome: a
/// verified identity admits the session, anything else is classified as
/// `Unauthenticated`.
pub fn classify_verification(v: Result<String, anyhow::Error>) -> (r: HandshakeOutcome)
    ensures
        v matches Ok(id) ==> r matches HandshakeOutcome::Admitted(b) && b@ == encode_utf8(id@),
        v is Err ==> r == HandshakeOutcome::Rejected(HandshakeRejection::Unauthenticated),
{
    match v {
        Ok(id) => HandshakeOutcome::Admitted(id.as_str().as_bytes_vec()),
        Err(_) => HandshakeOutcome::Rejected(HandshakeRejection::Unauthenticated),
    }
}

/// The handshake authenticator: reads the bearer token out of the request's
/// query, has the identity verifier check it, and either admits the session
/// with the verified identity or rejects it with a classified reason.  No
/// side effects on rejection; the registry is untouched either way.
pub fn authenticate(query: Option<&Vec<u8>>, key: &jwt_compact::alg::Hs256Key) -> (r:
    HandshakeOutcome)
    ensures
        query is None ==> r == HandshakeOutcome::Rejected(HandshakeRejection::Unauthenticated),
        query matches Some(q) ==> match spec_token_from_query(q@) {
            None => r == HandshakeOutcome::Rejected(HandshakeRejection::BadRequest),
            Some(None) => r == HandshakeOutcome::Rejected(HandshakeRejection::Unauthenticated),
            Some(Some(_)) => r matches HandshakeOutcome::Admitted(_) || r
                == HandshakeOutcome::Rejected(HandshakeRejection::Unauthenticated),
        },
        query is None ==> outcome_model(r) == spec_handshake(None, None::<Seq<char>>),
        query matches Some(q) ==> exists|verified: Option<Seq<char>>|
            outcome_model(r) == #[trigger] spec_handshake(Some(q@), verified),
{
    match query {
        None => {
            proof {
                assert(outcome_model(
                    HandshakeOutcome::Rejected(HandshakeRejection::Unauthenticated),
                ) == spec_handshake(None, None::<Seq<char>>));
            }
            HandshakeOutcome::Rejected(HandshakeRejection::Unauthenticated)
        }
        Some(q) => {
            let ghost qv = Some(q@);
            match extract_token(q.as_slice()) {
                TokenExtraction::Malformed => {
                    proof {
                        assert(outcome_model(
                            HandshakeOutcome::Rejected(HandshakeRejection::BadRequest),
                        ) == spec_handshake(qv, None::<Seq<char>>));
                    }
                    HandshakeOutcome::Rejected(HandshakeRejection::BadRequest)
                }
                TokenExtraction::Missing => {
                    proof {
                        assert(outcome_model(
                            HandshakeOutcome::Rejected(HandshakeRejection::Unauthenticated),
                        ) == spec_handshake(qv, None::<Seq<char>>));
                    }
                    HandshakeOutcome::Rejected(HandshakeRejection::Unauthenticated)
                }
                TokenExtraction::Found(tok) => {
                    match string_from_utf8(tok) {
                        None => {
                            proof {
                                assert(outcome_model(
                                    HandshakeOutcome::Rejected(HandshakeRejection::Unauthenticated),
                                ) == spec_handshake(qv, None::<Seq<char>>));
                            }
                            HandshakeOutcome::Rejected(HandshakeRejection::Unauthenticated)
                        }
                        Some(tok_str) => {
                            let verdict = get_jwt(tok_str.as_str(), key);
                            let ghost verified: Option<Seq<char>> = match verdict {
                                Ok(ref id) => Some(id@),
                                Err(_) => None,
                            };
                            let r = classify_verification(verdict);
                            proof {
                                assert(outcome_model(r) == spec_handshake(qv, verified));
                            }
                            r
                        }
                    }
                }
            }
        }
    }
}

} // verus!
