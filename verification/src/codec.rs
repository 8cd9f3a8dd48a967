use vstd::prelude::*;
use vstd::string::StringExecFns;

use crate::bytes::{lemma_mid_window, lemma_subrange_drop_prefix, lemma_subrange_take_prefix};

verus! {

// ---------------------------------------------------------------------------
// The wire format.
//
// An inbound envelope is a JSON text frame of exactly the shape
//
//     {"receiver_id": <string>, "contents": <array of bytes>}
//
// with the two members in either order, no surrounding whitespace, strings
// using the one-character escapes of JSON (`\u` is not accepted), and each
// array element a decimal byte written without leading zeros.  Any frame
// outside this shape is dropped by the router without a response.
//
// An outbound confirmation is a JSON text frame tagged as a message
// confirmation whose status is `Success` or `Error`.
// ---------------------------------------------------------------------------

/// The bytes of the member key `receiver_id`.
pub open spec fn receiver_key() -> Seq<u8> {
    seq![114u8, 101u8, 99u8, 101u8, 105u8, 118u8, 101u8, 114u8, 95u8, 105u8, 100u8]
}

/// The bytes of the member key `contents`.
pub open spec fn contents_key() -> Seq<u8> {
    seq![99u8, 111u8, 110u8, 116u8, 101u8, 110u8, 116u8, 115u8]
}

/// What a one-character escape stands for, if the character may follow a
/// backslash at all.
pub open spec fn unescape(b: u8) -> Option<u8> {
    if b == 34 {
        Some(34u8)
    } else if b == 92 {
        Some(92u8)
    } else if b == 47 {
        Some(47u8)
    } else if b == 98 {
        Some(8u8)
    } else if b == 102 {
        Some(12u8)
    } else if b == 110 {
        Some(10u8)
    } else if b == 114 {
        Some(13u8)
    } else if b == 116 {
        Some(9u8)
    } else {
        None
    }
}

/// The body of a JSON string, read from `i` (just past the opening quote) to
/// its closing quote: the unescaped bytes and the index just past the quote.
pub open spec fn spec_parse_string_body(s: Seq<u8>, i: int) -> Option<(Seq<u8>, int)>
    decreases s.len() - i,
    when 0 <= i <= s.len()
{
    if i >= s.len() {
        None
    } else if s[i] == 34 {
        Some((seq![], i + 1))
    } else if s[i] == 92 {
        if i + 1 < s.len() {
            match unescape(s[i + 1]) {
                Some(c) => match spec_parse_string_body(s, i + 2) {
                    Some((rest, j)) => Some((seq![c] + rest, j)),
                    None => None,
                },
                None => None,
            }
        } else {
            None
        }
    } else if s[i] < 32 {
        None
    } else {
        match spec_parse_string_body(s, i + 1) {
            Some((rest, j)) => Some((seq![s[i]] + rest, j)),
            None => None,
        }
    }
}

/// A JSON string starting at `i` with its opening quote.
pub open spec fn spec_parse_string(s: Seq<u8>, i: int) -> Option<(Seq<u8>, int)> {
    if 0 <= i && i < s.len() && s[i] == 34 {
        spec_parse_string_body(s, i + 1)
    } else {
        None
    }
}

pub open spec fn is_digit(b: u8) -> bool {
    48 <= b && b <= 57
}

/// A decimal byte starting at `i`: one to three digits, no leading zero,
/// value at most 255, and not followed by a further digit.
pub open spec fn spec_parse_number(s: Seq<u8>, i: int) -> Option<(u8, int)> {
    if i < 0 || i >= s.len() || !is_digit(s[i]) {
        None
    } else if s[i] == 48 {
        if i + 1 < s.len() && is_digit(s[i + 1]) {
            None
        } else {
            Some((0u8, i + 1))
        }
    } else {
        let d1 = (s[i] - 48) as int;
        if i + 1 < s.len() && is_digit(s[i + 1]) {
            let d2 = d1 * 10 + (s[i + 1] - 48);
            if i + 2 < s.len() && is_digit(s[i + 2]) {
                let d3 = d2 * 10 + (s[i + 2] - 48);
                if i + 3 < s.len() && is_digit(s[i + 3]) {
                    None
                } else if d3 <= 255 {
                    Some((d3 as u8, i + 3))
                } else {
                    None
                }
            } else {
                Some((d2 as u8, i + 2))
            }
        } else {
            Some((d1 as u8, i + 1))
        }
    }
}

proof fn lemma_parse_number_bounds(s: Seq<u8>, i: int)
    ensures
        spec_parse_number(s, i) matches Some(r) ==> i < r.1 <= s.len(),
{
}

/// The elements of a non-empty byte array, read from `i` (at the first
/// digit) to the closing bracket.
pub open spec fn spec_parse_elements(s: Seq<u8>, i: int) -> Option<(Seq<u8>, int)>
    decreases s.len() - i,
    when 0 <= i <= s.len()
    via spec_parse_elements_dec
{
    match spec_parse_number(s, i) {
        None => None,
        Some((b, j)) => if j < s.len() && s[j] == 44 {
            match spec_parse_elements(s, j + 1) {
                Some((rest, k)) => Some((seq![b] + rest, k)),
                None => None,
            }
        } else if j < s.len() && s[j] == 93 {
            Some((seq![b], j + 1))
        } else {
            None
        },
    }
}

#[via_fn]
proof fn spec_parse_elements_dec(s: Seq<u8>, i: int) {
    lemma_parse_number_bounds(s, i);
}

/// A byte array starting at `i` with its opening bracket.
pub open spec fn spec_parse_array(s: Seq<u8>, i: int) -> Option<(Seq<u8>, int)> {
    if 0 <= i && i < s.len() && s[i] == 91 {
        if i + 1 < s.len() && s[i + 1] == 93 {
            Some((seq![], i + 2))
        } else {
            spec_parse_elements(s, i + 1)
        }
    } else {
        None
    }
}

/// One member of the envelope object, starting at its key's opening quote:
/// whether it is the `receiver_id` member (else it is `contents`), its
/// value, and the index just past it.
pub open spec fn spec_parse_member(s: Seq<u8>, i: int) -> Option<(bool, Seq<u8>, int)> {
    match spec_parse_string(s, i) {
        None => None,
        Some((key, j)) => if j < s.len() && s[j] == 58 {
            if key == receiver_key() {
                match spec_parse_string(s, j + 1) {
                    Some((v, k)) => Some((true, v, k)),
                    None => None,
                }
            } else if key == contents_key() {
                match spec_parse_array(s, j + 1) {
                    Some((v, k)) => Some((false, v, k)),
                    None => None,
                }
            } else {
                None
            }
        } else {
            None
        },
    }
}

/// The whole frame as an envelope: the receiver's identity bytes and the
/// payload bytes, or nothing when the frame is outside the shape.
pub open spec fn spec_parse_envelope(s: Seq<u8>) -> Option<(Seq<u8>, Seq<u8>)> {
    if s.len() > 0 && s[0] == 123 {
        match spec_parse_member(s, 1) {
            None => None,
            Some((first_is_rid, v1, i1)) => if i1 < s.len() && s[i1] == 44 {
                match spec_parse_member(s, i1 + 1) {
                    None => None,
                    Some((second_is_rid, v2, i2)) => if first_is_rid != second_is_rid && i2
                        < s.len() && s[i2] == 125 && i2 + 1 == s.len() {
                        if first_is_rid {
                            Some((v1, v2))
                        } else {
                            Some((v2, v1))
                        }
                    } else {
                        None
                    },
                }
            } else {
                None
            },
        }
    } else {
        None
    }
}

// ---------------------------------------------------------------------------
// The executable decoder.
// ---------------------------------------------------------------------------

fn parse_string_body(s: &[u8], i: usize) -> (r: Option<(Vec<u8>, usize)>)
    requires
        i <= s.len(),
    ensures
        match r {
            Some(p) => spec_parse_string_body(s@, i as int) == Some((p.0@, p.1 as int)) && i < p.1
                <= s.len(),
            None => spec_parse_string_body(s@, i as int) is None,
        },
    decreases s.len() - i,
{
    if i >= s.len() {
        return None;
    }
    let b = s[i];
    if b == 34 {
        return Some((Vec::new(), i + 1));
    }
    if b == 92 {
        if i + 1 < s.len() {
            let c = match unescape_byte(s[i + 1]) {
                Some(c) => c,
                None => {
                    return None;
                }
            };
            match parse_string_body(s, i + 2) {
                Some((mut rest, j)) => {
                    let ghost tail = rest@;
                    rest.insert(0, c);
                    proof {
                        assert(rest@ =~= seq![c] + tail);
                    }
                    Some((rest, j))
                }
                None => None,
            }
        } else {
            None
        }
    } else if b < 32 {
        None
    } else {
        match parse_string_body(s, i + 1) {
            Some((mut rest, j)) => {
                let ghost tail = rest@;
                rest.insert(0, b);
                proof {
                    assert(rest@ =~= seq![b] + tail);
                }
                Some((rest, j))
            }
            None => None,
        }
    }
}

fn unescape_byte(b: u8) -> (r: Option<u8>)
    ensures
        r == unescape(b),
{
    if b == 34 {
        Some(34)
    } else if b == 92 {
        Some(92)
    } else if b == 47 {
        Some(47)
    } else if b == 98 {
        Some(8)
    } else if b == 102 {
        Some(12)
    } else if b == 110 {
        Some(10)
    } else if b == 114 {
        Some(13)
    } else if b == 116 {
        Some(9)
    } else {
        None
    }
}

fn parse_string(s: &[u8], i: usize) -> (r: Option<(Vec<u8>, usize)>)
    ensures
        match r {
            Some(p) => spec_parse_string(s@, i as int) == Some((p.0@, p.1 as int)) && i < p.1
                <= s.len(),
            None => spec_parse_string(s@, i as int) is None,
        },
{
    if i < s.len() && s[i] == 34 {
        parse_string_body(s, i + 1)
    } else {
        None
    }
}

fn parse_number(s: &[u8], i: usize) -> (r: Option<(u8, usize)>)
    ensures
        match r {
            Some(p) => spec_parse_number(s@, i as int) == Some((p.0, p.1 as int)) && i < p.1
                <= s.len(),
            None => spec_parse_number(s@, i as int) is None,
        },
{
    if i >= s.len() {
        return None;
    }
    let b = s[i];
    if !(48 <= b && b <= 57) {
        return None;
    }
    if b == 48 {
        if i + 1 < s.len() && 48 <= s[i + 1] && s[i + 1] <= 57 {
            None
        } else {
            Some((0, i + 1))
        }
    } else {
        let d1 = b - 48;
        if i + 1 < s.len() && 48 <= s[i + 1] && s[i + 1] <= 57 {
            let d2 = d1 * 10 + (s[i + 1] - 48);
            if i + 2 < s.len() && 48 <= s[i + 2] && s[i + 2] <= 57 {
                let v: u32 = d2 as u32 * 10 + (s[i + 2] - 48) as u32;
                if i + 3 < s.len() && 48 <= s[i + 3] && s[i + 3] <= 57 {
                    None
                } else if v <= 255 {
                    Some((v as u8, i + 3))
                } else {
                    None
                }
            } else {
                Some((d2, i + 2))
            }
        } else {
            Some((d1, i + 1))
        }
    }
}

fn parse_elements(s: &[u8], i: usize) -> (r: Option<(Vec<u8>, usize)>)
    requires
        i <= s.len(),
    ensures
        match r {
            Some(p) => spec_parse_elements(s@, i as int) == Some((p.0@, p.1 as int)) && i < p.1
                <= s.len(),
            None => spec_parse_elements(s@, i as int) is None,
        },
    decreases s.len() - i,
{
    match parse_number(s, i) {
        None => None,
        Some((b, j)) => {
            if j < s.len() && s[j] == 44 {
                match parse_elements(s, j + 1) {
                    Some((mut rest, k)) => {
                        let ghost tail = rest@;
                        rest.insert(0, b);
                        proof {
                            assert(rest@ =~= seq![b] + tail);
                        }
                        Some((rest, k))
                    }
                    None => None,
                }
            } else if j < s.len() && s[j] == 93 {
                let mut one = Vec::new();
                one.push(b);
                proof {
                    assert(one@ =~= seq![b]);
                }
                Some((one, j + 1))
            } else {
                None
            }
        }
    }
}

fn parse_array(s: &[u8], i: usize) -> (r: Option<(Vec<u8>, usize)>)
    ensures
        match r {
            Some(p) => spec_parse_array(s@, i as int) == Some((p.0@, p.1 as int)) && i < p.1
                <= s.len(),
            None => spec_parse_array(s@, i as int) is None,
        },
{
    if i < s.len() && s[i] == 91 {
        if i + 1 < s.len() && s[i + 1] == 93 {
            Some((Vec::new(), i + 2))
        } else {
            parse_elements(s, i + 1)
        }
    } else {
        None
    }
}

fn is_receiver_key(k: &Vec<u8>) -> (r: bool)
    ensures
        r == (k@ == receiver_key()),
{
    if k.len() != 11 {
        return false;
    }
    let r = k[0] == 114 && k[1] == 101 && k[2] == 99 && k[3] == 101 && k[4] == 105 && k[5] == 118
        && k[6] == 101 && k[7] == 114 && k[8] == 95 && k[9] == 105 && k[10] == 100;
    proof {
        if r {
            assert(k@ =~= receiver_key());
        } else if k@ == receiver_key() {
            assert(k@[0] == 114 && k@[1] == 101 && k@[2] == 99 && k@[3] == 101 && k@[4] == 105
                && k@[5] == 118 && k@[6] == 101 && k@[7] == 114 && k@[8] == 95 && k@[9] == 105
                && k@[10] == 100);
        }
    }
    r
}

fn is_contents_key(k: &Vec<u8>) -> (r: bool)
    ensures
        r == (k@ == contents_key()),
{
    if k.len() != 8 {
        return false;
    }
    let r = k[0] == 99 && k[1] == 111 && k[2] == 110 && k[3] == 116 && k[4] == 101 && k[5] == 110
        && k[6] == 116 && k[7] == 115;
    proof {
        if r {
            assert(k@ =~= contents_key());
        } else if k@ == contents_key() {
            assert(k@[0] == 99 && k@[1] == 111 && k@[2] == 110 && k@[3] == 116 && k@[4] == 101
                && k@[5] == 110 && k@[6] == 116 && k@[7] == 115);
        }
    }
    r
}

fn parse_member(s: &[u8], i: usize) -> (r: Option<(bool, Vec<u8>, usize)>)
    ensures
        match r {
            Some(p) => spec_parse_member(s@, i as int) == Some((p.0, p.1@, p.2 as int)) && i < p.2
                <= s.len(),
            None => spec_parse_member(s@, i as int) is None,
        },
{
    match parse_string(s, i) {
        None => None,
        Some((key, j)) => {
            if j < s.len() && s[j] == 58 {
                if is_receiver_key(&key) {
                    match parse_string(s, j + 1) {
                        Some((v, k)) => Some((true, v, k)),
                        None => None,
                    }
                } else if is_contents_key(&key) {
                    match parse_array(s, j + 1) {
                        Some((v, k)) => Some((false, v, k)),
                        None => None,
                    }
                } else {
                    None
                }
            } else {
                None
            }
        }
    }
}

/// The decoded shape of an inbound frame: who it is for, and the opaque
/// payload to hand over.
pub struct Envelope {
    /// The recipient's identity, as UTF-8 bytes.
    pub receiver_id: Vec<u8>,
    /// The payload, forwarded verbatim and never reinterpreted.
    pub contents: Vec<u8>,
}

/// Decodes a text frame as an inbound envelope; any frame outside the
/// envelope shape yields `None`.
pub fn parse_envelope(frame: &[u8]) -> (r: Option<Envelope>)
    ensures
        match r {
            Some(e) => spec_parse_envelope(frame@) == Some((e.receiver_id@, e.contents@)),
            None => spec_parse_envelope(frame@) is None,
        },
{
    if frame.len() == 0 || frame[0] != 123 {
        return None;
    }
    match parse_member(frame, 1) {
        None => None,
        Some((first_is_rid, v1, i1)) => {
            if i1 < frame.len() && frame[i1] == 44 {
                match parse_member(frame, i1 + 1) {
                    None => None,
                    Some((second_is_rid, v2, i2)) => {
                        if first_is_rid != second_is_rid && i2 < frame.len() && frame[i2] == 125
                            && i2 + 1 == frame.len() {
                            if first_is_rid {
                                Some(Envelope { receiver_id: v1, contents: v2 })
                            } else {
                                Some(Envelope { receiver_id: v2, contents: v1 })
                            }
                        } else {
                            None
                        }
                    }
                }
            } else {
                None
            }
        }
    }
}

// ---------------------------------------------------------------------------
// The canonical encoding.
//
// `encode_envelope` writes the one unpadded frame for a given receiver and
// payload: members in declaration order, strings escaped with the
// one-character escapes, numbers in minimal decimal.  Parsing it gives the
// envelope back (`lemma_parse_of_encode`), so every envelope has a wire
// form that the decoder accepts.
// ---------------------------------------------------------------------------

/// Whether a byte can stand in a JSON string using only one-character
/// escapes: everything but the control bytes that have no short escape.
pub open spec fn escapable(b: u8) -> bool {
    b >= 32 || b == 8 || b == 9 || b == 10 || b == 12 || b == 13
}

pub open spec fn all_escapable(s: Seq<u8>) -> bool {
    forall|k: int| 0 <= k < s.len() ==> escapable(#[trigger] s[k])
}

/// The canonical encoding of one string byte.
pub open spec fn escape_byte(b: u8) -> Seq<u8> {
    if b == 34 {
        seq![92u8, 34u8]
    } else if b == 92 {
        seq![92u8, 92u8]
    } else if b == 8 {
        seq![92u8, 98u8]
    } else if b == 9 {
        seq![92u8, 116u8]
    } else if b == 10 {
        seq![92u8, 110u8]
    } else if b == 12 {
        seq![92u8, 102u8]
    } else if b == 13 {
        seq![92u8, 114u8]
    } else {
        seq![b]
    }
}

/// The canonical encoding of a string's contents.
pub open spec fn encode_string_bytes(s: Seq<u8>) -> Seq<u8>
    decreases s.len(),
{
    if s.len() == 0 {
        seq![]
    } else {
        escape_byte(s[0]) + encode_string_bytes(s.drop_first())
    }
}

/// The minimal decimal digits of a byte.
pub open spec fn encode_number(b: u8) -> Seq<u8> {
    if b < 10 {
        seq![(48 + b) as u8]
    } else if b < 100 {
        seq![(48 + b / 10) as u8, (48 + b % 10) as u8]
    } else {
        seq![(48 + b / 100) as u8, (48 + (b / 10) % 10) as u8, (48 + b % 10) as u8]
    }
}

/// The canonical encoding of an array's elements, without the brackets.
pub open spec fn encode_elements(c: Seq<u8>) -> Seq<u8>
    decreases c.len(),
{
    if c.len() == 0 {
        seq![]
    } else if c.len() == 1 {
        encode_number(c[0])
    } else {
        encode_number(c[0]) + seq![44u8] + encode_elements(c.drop_first())
    }
}

/// The canonical frame for an envelope addressed to `rid` carrying `c`.
pub open spec fn encode_envelope_bytes(rid: Seq<u8>, c: Seq<u8>) -> Seq<u8> {
    seq![123u8, 34u8] + receiver_key() + seq![34u8, 58u8, 34u8] + encode_string_bytes(rid) + seq![
        34u8,
        44u8,
        34u8,
    ] + contents_key() + seq![34u8, 58u8, 91u8] + encode_elements(c) + seq![93u8, 125u8]
}




proof fn lemma_parse_encoded_string_body(f: Seq<u8>, i: int, s: Seq<u8>)
    requires
        all_escapable(s),
        0 <= i,
        i + encode_string_bytes(s).len() + 1 <= f.len(),
        f.subrange(i, i + encode_string_bytes(s).len() + 1) =~= encode_string_bytes(s) + seq![34u8],
    ensures
        spec_parse_string_body(f, i) == Some((s, i + encode_string_bytes(s).len() + 1)),
    decreases s.len(),
{
    let e = encode_string_bytes(s);
    let n = e.len() + 1;
    if s.len() == 0 {
        assert(f[i] == (e + seq![34u8])[0]);
    } else {
        let b = s[0];
        assert(escapable(b));
        let eb = escape_byte(b);
        let tail = s.drop_first();
        assert(all_escapable(tail)) by {
            assert(forall|k: int| 0 <= k < tail.len() ==> tail[k] == s[k + 1]);
        }
        let et = encode_string_bytes(tail);
        assert(e == eb + et);
        assert((eb + et) + seq![34u8] =~= eb + (et + seq![34u8]));
        lemma_subrange_drop_prefix(f, i, eb, et + seq![34u8]);
        if b == 34 || b == 92 || b == 8 || b == 9 || b == 10 || b == 12 || b == 13 {
            // a two-byte escape: backslash, then the code
            assert(f[i] == f.subrange(i, i + n)[0]);
            assert(f[i + 1] == f.subrange(i, i + n)[1]);
            assert(f[i] == 92);
            assert(unescape(f[i + 1]) == Some(b));
            lemma_parse_encoded_string_body(f, i + 2, tail);
            assert(spec_parse_string_body(f, i) == Some((seq![b] + tail, i + n)));
            assert(seq![b] + tail =~= s);
        } else {
            // the byte stands for itself
            assert(f[i] == f.subrange(i, i + n)[0]);
            assert(f[i] == b);
            assert(b != 34 && b != 92 && b >= 32);
            lemma_parse_encoded_string_body(f, i + 1, tail);
            assert(spec_parse_string_body(f, i) == Some((seq![b] + tail, i + n)));
            assert(seq![b] + tail =~= s);
        }
    }
}

proof fn lemma_parse_encoded_number(f: Seq<u8>, i: int, b: u8)
    requires
        0 <= i,
        i + encode_number(b).len() < f.len(),
        f.subrange(i, i + encode_number(b).len()) =~= encode_number(b),
        !is_digit(f[i + encode_number(b).len()]),
    ensures
        spec_parse_number(f, i) == Some((b, i + encode_number(b).len())),
{
    let e = encode_number(b);
    let n = e.len() as int;
    if b < 10 {
        assert(f[i] == f.subrange(i, i + n)[0]);
    } else if b < 100 {
        assert(f[i] == f.subrange(i, i + n)[0]);
        assert(f[i + 1] == f.subrange(i, i + n)[1]);
        assert(b / 10 >= 1 && b / 10 <= 9);
        assert((b / 10) * 10 + b % 10 == b);
    } else {
        assert(f[i] == f.subrange(i, i + n)[0]);
        assert(f[i + 1] == f.subrange(i, i + n)[1]);
        assert(f[i + 2] == f.subrange(i, i + n)[2]);
        assert(b / 100 >= 1 && b / 100 <= 2);
        assert((b / 10) % 10 <= 9 && b % 10 <= 9);
        assert(((b / 100) * 10 + (b / 10) % 10) * 10 + b % 10 == b) by {
            assert(b / 10 == (b / 100) * 10 + (b / 10) % 10) by {
                assert((b / 10) / 10 == b / 100);
                assert(b / 10 == ((b / 10) / 10) * 10 + (b / 10) % 10);
            }
            assert(b == (b / 10) * 10 + b % 10);
        }
    }
}

proof fn lemma_parse_encoded_elements(f: Seq<u8>, i: int, c: Seq<u8>)
    requires
        c.len() > 0,
        0 <= i,
        i + encode_elements(c).len() + 1 <= f.len(),
        f.subrange(i, i + encode_elements(c).len() + 1) =~= encode_elements(c) + seq![93u8],
    ensures
        spec_parse_elements(f, i) == Some((c, i + encode_elements(c).len() + 1)),
    decreases c.len(),
{
    let e = encode_elements(c);
    let n = e.len() + 1;
    let b = c[0];
    let eb = encode_number(b);
    if c.len() == 1 {
        assert(e == eb);
        lemma_subrange_take_prefix(f, i, eb, seq![93u8]);
        assert(f[i + eb.len()] == f.subrange(i, i + n)[eb.len() as int]);
        assert(f[i + eb.len()] == 93);
        lemma_parse_encoded_number(f, i, b);
        assert(seq![b] =~= c);
    } else {
        let tail = c.drop_first();
        let et = encode_elements(tail);
        assert(e == (eb + seq![44u8]) + et);
        assert(e + seq![93u8] =~= (eb + seq![44u8]) + (et + seq![93u8]));
        lemma_subrange_take_prefix(f, i, eb + seq![44u8], et + seq![93u8]);
        lemma_subrange_take_prefix(f, i, eb, seq![44u8]);
        assert(f[i + eb.len()] == f.subrange(i, i + n)[eb.len() as int]);
        assert(f[i + eb.len()] == 44);
        lemma_parse_encoded_number(f, i, b);
        lemma_subrange_drop_prefix(f, i, eb + seq![44u8], et + seq![93u8]);
        lemma_parse_encoded_elements(f, i + eb.len() + 1, tail);
        assert(spec_parse_elements(f, i) == Some((seq![b] + tail, i + n)));
        assert(seq![b] + tail =~= c);
    }
}

/// Bytes that need no escape encode as themselves.
proof fn lemma_encode_clean_identity(s: Seq<u8>)
    requires
        forall|k: int| 0 <= k < s.len() ==> 32 <= #[trigger] s[k] && s[k] != 34 && s[k] != 92,
    ensures
        encode_string_bytes(s) == s,
    decreases s.len(),
{
    if s.len() > 0 {
        let tail = s.drop_first();
        assert(forall|k: int| 0 <= k < tail.len() ==> #[trigger] tail[k] == s[k + 1]);
        lemma_encode_clean_identity(tail);
        assert(escape_byte(s[0]) == seq![s[0]]);
        assert(seq![s[0]] + tail =~= s);
    }
}

proof fn lemma_keys_clean()
    ensures
        forall|k: int|
            0 <= k < receiver_key().len() ==> 32 <= #[trigger] receiver_key()[k]
                && receiver_key()[k] != 34 && receiver_key()[k] != 92,
        forall|k: int|
            0 <= k < contents_key().len() ==> 32 <= #[trigger] contents_key()[k]
                && contents_key()[k] != 34 && contents_key()[k] != 92,
        all_escapable(receiver_key()),
        all_escapable(contents_key()),
        encode_string_bytes(receiver_key()) == receiver_key(),
        encode_string_bytes(contents_key()) == contents_key(),
{
    lemma_encode_clean_identity(receiver_key());
    lemma_encode_clean_identity(contents_key());
}

/// Round trip: the canonical frame of any envelope whose receiver bytes
/// have a one-character escape (everything but the unescapable control
/// bytes) decodes back to exactly that envelope.
#[verifier::rlimit(100)]
pub proof fn lemma_parse_of_encode(rid: Seq<u8>, c: Seq<u8>)
    requires
        all_escapable(rid),
    ensures
        spec_parse_envelope(encode_envelope_bytes(rid, c)) == Some((rid, c)),
{
    let rk = receiver_key();
    let ck = contents_key();
    let er = encode_string_bytes(rid);
    let ec = encode_elements(c);
    let f = encode_envelope_bytes(rid, c);
    let h1 = seq![123u8, 34u8];
    let m1 = seq![34u8, 58u8, 34u8];
    let m2 = seq![34u8, 44u8, 34u8];
    let m3 = seq![34u8, 58u8, 91u8];
    let t1 = seq![93u8, 125u8];
    assert(f == h1 + rk + m1 + er + m2 + ck + m3 + ec + t1);
    lemma_keys_clean();

    // the first member's key: the string starting at index 2
    assert(f =~= h1 + (rk + seq![34u8]) + (seq![58u8, 34u8] + er + m2 + ck + m3 + ec + t1));
    lemma_mid_window(f, h1, rk + seq![34u8], seq![58u8, 34u8] + er + m2 + ck + m3 + ec + t1);
    lemma_parse_encoded_string_body(f, 2, rk);
    assert(f[0] == 123);
    assert(f[1] == 34);
    assert(f[14] == 58);
    assert(f[15] == 34);

    // the first member's value: the string starting at index 16
    let p2 = h1 + rk + m1;
    assert(p2.len() == 16);
    assert(f =~= p2 + (er + seq![34u8]) + (seq![44u8, 34u8] + ck + m3 + ec + t1));
    lemma_mid_window(f, p2, er + seq![34u8], seq![44u8, 34u8] + ck + m3 + ec + t1);
    lemma_parse_encoded_string_body(f, 16, rid);
    let j2 = 16 + er.len() as int + 1;
    assert(spec_parse_member(f, 1) == Some((true, rid, j2)));

    // the comma and the second member's key
    let p3 = p2 + (er + seq![34u8]);
    assert(f =~= p3 + seq![44u8, 34u8] + (ck + m3 + ec + t1));
    lemma_mid_window(f, p3, seq![44u8, 34u8], ck + m3 + ec + t1);
    assert(f[j2] == f.subrange(j2, j2 + 2)[0]);
    assert(f[j2 + 1] == f.subrange(j2, j2 + 2)[1]);
    assert(f[j2] == 44);
    assert(f[j2 + 1] == 34);
    let p4 = p3 + seq![44u8, 34u8];
    assert(f =~= p4 + (ck + seq![34u8]) + (seq![58u8, 91u8] + ec + t1));
    lemma_mid_window(f, p4, ck + seq![34u8], seq![58u8, 91u8] + ec + t1);
    lemma_parse_encoded_string_body(f, j2 + 2, ck);
    let jk = j2 + 2 + ck.len() as int + 1;
    assert(jk == j2 + 11);

    // the colon and the array
    let p5 = p4 + (ck + seq![34u8]);
    assert(f =~= p5 + seq![58u8, 91u8] + (ec + t1));
    lemma_mid_window(f, p5, seq![58u8, 91u8], ec + t1);
    assert(f[jk] == f.subrange(jk, jk + 2)[0]);
    assert(f[jk + 1] == f.subrange(jk, jk + 2)[1]);
    assert(f[jk] == 58);
    assert(f[jk + 1] == 91);
    let p6 = p5 + seq![58u8, 91u8];
    assert(p6.len() == jk + 2);
    if c.len() == 0 {
        assert(ec == Seq::<u8>::empty());
        assert(f =~= p6 + t1 + Seq::<u8>::empty());
        lemma_mid_window(f, p6, t1, Seq::<u8>::empty());
        assert(f[jk + 2] == f.subrange(jk + 2, jk + 4)[0]);
        assert(f[jk + 3] == f.subrange(jk + 2, jk + 4)[1]);
        assert(f[jk + 2] == 93);
        assert(f[jk + 3] == 125);
        assert(spec_parse_array(f, jk + 1) == Some((Seq::<u8>::empty(), jk + 3)));
        assert(spec_parse_member(f, j2 + 1) == Some((false, ec, jk + 3)));
        assert(f.len() == jk + 4);
    } else {
        assert(f =~= p6 + (ec + seq![93u8]) + seq![125u8]);
        lemma_mid_window(f, p6, ec + seq![93u8], seq![125u8]);
        lemma_parse_encoded_elements(f, jk + 2, c);
        // the array is not empty: its first byte is a digit, not `]`
        assert(f[jk + 2] == f.subrange(jk + 2, jk + 2 + ec.len() + 1)[0]);
        assert(ec[0] == (encode_number(c[0]))[0]) by {
            assert(ec == if c.len() == 1 {
                encode_number(c[0])
            } else {
                (encode_number(c[0]) + seq![44u8]) + encode_elements(c.drop_first())
            });
        }
        assert(is_digit(ec[0]));
        assert(f[jk + 2] != 93);
        assert(spec_parse_array(f, jk + 1) == Some((c, jk + 2 + ec.len() + 1)));
        let jend = jk + 2 + ec.len() as int + 1;
        assert(spec_parse_member(f, j2 + 1) == Some((false, c, jend)));
        let p7 = p6 + (ec + seq![93u8]);
        assert(f =~= p7 + seq![125u8] + Seq::<u8>::empty());
        lemma_mid_window(f, p7, seq![125u8], Seq::<u8>::empty());
        assert(f[jend] == f.subrange(jend, jend + 1)[0]);
        assert(f[jend] == 125);
        assert(f.len() == jend + 1);
    }
}

// ---------------------------------------------------------------------------
// The executable encoder.
// ---------------------------------------------------------------------------

fn escaped_byte(b: u8) -> (r: Vec<u8>)
    ensures
        r@ == escape_byte(b),
{
    let mut v: Vec<u8> = Vec::new();
    if b == 34 || b == 92 {
        v.push(92);
        v.push(b);
    } else if b == 8 {
        v.push(92);
        v.push(98);
    } else if b == 9 {
        v.push(92);
        v.push(116);
    } else if b == 10 {
        v.push(92);
        v.push(110);
    } else if b == 12 {
        v.push(92);
        v.push(102);
    } else if b == 13 {
        v.push(92);
        v.push(114);
    } else {
        v.push(b);
    }
    proof {
        assert(v@ =~= escape_byte(b));
    }
    v
}

fn encode_string_rec(s: &[u8], i: usize) -> (r: Vec<u8>)
    requires
        i <= s.len(),
    ensures
        r@ == encode_string_bytes(s@.subrange(i as int, s@.len() as int)),
    decreases s.len() - i,
{
    let ghost win = s@.subrange(i as int, s@.len() as int);
    if i >= s.len() {
        proof {
            assert(win.len() == 0);
        }
        Vec::new()
    } else {
        let mut out = escaped_byte(s[i]);
        let mut rest = encode_string_rec(s, i + 1);
        out.append(&mut rest);
        proof {
            assert(win.drop_first() =~= s@.subrange(i + 1, s@.len() as int));
            assert(win[0] == s@[i as int]);
            assert(out@ == escape_byte(win[0]) + encode_string_bytes(win.drop_first()));
        }
        out
    }
}

fn number_bytes(b: u8) -> (r: Vec<u8>)
    ensures
        r@ == encode_number(b),
{
    let mut v: Vec<u8> = Vec::new();
    if b < 10 {
        v.push(48 + b);
    } else if b < 100 {
        v.push(48 + b / 10);
        v.push(48 + b % 10);
    } else {
        v.push(48 + b / 100);
        v.push(48 + (b / 10) % 10);
        v.push(48 + b % 10);
    }
    proof {
        assert(v@ =~= encode_number(b));
    }
    v
}

fn encode_elements_rec(c: &[u8], i: usize) -> (r: Vec<u8>)
    requires
        i <= c.len(),
    ensures
        r@ == encode_elements(c@.subrange(i as int, c@.len() as int)),
    decreases c.len() - i,
{
    let ghost win = c@.subrange(i as int, c@.len() as int);
    if i >= c.len() {
        proof {
            assert(win.len() == 0);
        }
        Vec::new()
    } else {
        let mut out = number_bytes(c[i]);
        proof {
            assert(win[0] == c@[i as int]);
        }
        if i + 1 < c.len() {
            out.push(44);
            let mut rest = encode_elements_rec(c, i + 1);
            out.append(&mut rest);
            proof {
                assert(win.drop_first() =~= c@.subrange(i + 1, c@.len() as int));
                assert(out@ =~= (encode_number(win[0]) + seq![44u8]) + encode_elements(
                    win.drop_first(),
                ));
            }
        } else {
            proof {
                assert(win.len() == 1);
            }
        }
        out
    }
}

/// Writes the canonical frame for an envelope addressed to `receiver_id`
/// carrying `contents`.  Decoding it gives the envelope back
/// (`lemma_parse_of_encode`), provided every receiver byte has a
/// one-character escape.
pub fn encode_envelope(receiver_id: &Vec<u8>, contents: &Vec<u8>) -> (r: Vec<u8>)
    ensures
        r@ == encode_envelope_bytes(receiver_id@, contents@),
{
    let mut out: Vec<u8> = Vec::new();
    out.push(123);
    out.push(34);
    out.push(114);
    out.push(101);
    out.push(99);
    out.push(101);
    out.push(105);
    out.push(118);
    out.push(101);
    out.push(114);
    out.push(95);
    out.push(105);
    out.push(100);
    out.push(34);
    out.push(58);
    out.push(34);
    let ghost head = out@;
    proof {
        assert(head =~= seq![123u8, 34u8] + receiver_key() + seq![34u8, 58u8, 34u8]);
    }
    let mut er = encode_string_rec(receiver_id.as_slice(), 0);
    proof {
        assert(receiver_id@.subrange(0, receiver_id@.len() as int) =~= receiver_id@);
    }
    out.append(&mut er);
    out.push(34);
    out.push(44);
    out.push(34);
    out.push(99);
    out.push(111);
    out.push(110);
    out.push(116);
    out.push(101);
    out.push(110);
    out.push(116);
    out.push(115);
    out.push(34);
    out.push(58);
    out.push(91);
    let ghost mid = out@;
    proof {
        assert(mid =~= head + encode_string_bytes(receiver_id@) + seq![34u8, 44u8, 34u8]
            + contents_key() + seq![34u8, 58u8, 91u8]);
    }
    let mut ec = encode_elements_rec(contents.as_slice(), 0);
    proof {
        assert(contents@.subrange(0, contents@.len() as int) =~= contents@);
    }
    out.append(&mut ec);
    out.push(93);
    out.push(125);
    proof {
        assert(out@ =~= encode_envelope_bytes(receiver_id@, contents@));
    }
    out
}

// ---------------------------------------------------------------------------
// The outbound confirmation.
// ---------------------------------------------------------------------------

/// The tagged result sent back to a message's original sender after a
/// routing attempt.
pub enum Confirmation {
    Success,
    Error,
}

/// The text of a `Success` confirmation frame.
pub open spec fn success_confirmation() -> Seq<char> {
    "{\"MessageConfirmation\":\"Success\"}"@
}

/// The text of an `Error` confirmation frame.
pub open spec fn error_confirmation() -> Seq<char> {
    "{\"MessageConfirmation\":\"Error\"}"@
}

/// Encodes a confirmation as the text frame written back to the sender.
pub fn confirmation_text(c: &Confirmation) -> (r: String)
    ensures
        c is Success ==> r@ == success_confirmation(),
        c is Error ==> r@ == error_confirmation(),
{
    match c {
        Confirmation::Success => String::from_str("{\"MessageConfirmation\":\"Success\"}"),
        Confirmation::Error => String::from_str("{\"MessageConfirmation\":\"Error\"}"),
    }
}

} // verus!
