use vstd::prelude::*;
use vstd::utf8::encode_utf8;

verus! {

/// Relies on std's `String::from_utf8`: when `bytes` is valid UTF-8 it
/// returns the string made of exactly those bytes, and otherwise an error,
/// mapped here to `None`.
#[verifier::external_body]
pub(crate) fn string_from_utf8(bytes: Vec<u8>) -> (r: Option<String>)
    ensures
        r matches Some(s) ==> encode_utf8(s@) == bytes@,
{
    String::from_utf8(bytes).ok()
}

/// Byte-for-byte equality of two byte slices.
pub fn bytes_eq(a: &[u8], b: &[u8]) -> (r: bool)
    ensures
        r == (a@ == b@),
{
    if a.len() != b.len() {
        return false;
    }
    let mut i: usize = 0;
    while i < a.len()
        invariant
            i <= a.len(),
            a@.len() == b@.len(),
            forall|k: int| 0 <= k < i ==> a@[k] == b@[k],
        decreases a@.len() - i,
    {
        if a[i] != b[i] {
            return false;
        }
        i += 1;
    }
    proof {
        assert(a@ =~= b@);
    }
    true
}

/// If the window of `f` at `i` reads `p + q`, the window past `p` reads `q`.
pub(crate) proof fn lemma_subrange_drop_prefix(f: Seq<u8>, i: int, p: Seq<u8>, q: Seq<u8>)
    requires
        0 <= i,
        i + p.len() + q.len() <= f.len(),
        f.subrange(i, i + p.len() + q.len()) == p + q,
    ensures
        f.subrange(i + p.len(), i + p.len() + q.len()) =~= q,
{
    let d = p.len() as int;
    let n = d + q.len();
    assert forall|k: int| 0 <= k < q.len() implies f.subrange(i + d, i + n)[k] == q[k] by {
        assert(f.subrange(i, i + n)[d + k] == f[i + (d + k)]);
        assert(f.subrange(i + d, i + n)[k] == f[(i + d) + k]);
        assert((p + q)[d + k] == q[k]);
    }
}

/// If the window of `f` at `i` reads `p + q`, the window of `p` alone reads `p`.
pub(crate) proof fn lemma_subrange_take_prefix(f: Seq<u8>, i: int, p: Seq<u8>, q: Seq<u8>)
    requires
        0 <= i,
        i + p.len() + q.len() <= f.len(),
        f.subrange(i, i + p.len() + q.len()) == p + q,
    ensures
        f.subrange(i, i + p.len()) =~= p,
{
    let d = p.len() as int;
    let n = d + q.len();
    assert forall|k: int| 0 <= k < p.len() implies f.subrange(i, i + d)[k] == p[k] by {
        assert(f.subrange(i, i + n)[k] == f[i + k]);
        assert(f.subrange(i, i + d)[k] == f[i + k]);
        assert((p + q)[k] == p[k]);
    }
}

/// Reads the window of `f` that a `prefix + window + suffix` split names.
pub(crate) proof fn lemma_mid_window(f: Seq<u8>, p: Seq<u8>, w: Seq<u8>, s: Seq<u8>)
    requires
        f =~= p + w + s,
    ensures
        f.subrange(p.len() as int, p.len() as int + w.len()) =~= w,
{
    let d = p.len() as int;
    assert forall|k: int| 0 <= k < w.len() implies f.subrange(d, d + w.len())[k] == w[k] by {
        assert(f.subrange(d, d + w.len())[k] == f[d + k]);
        assert(f[d + k] == ((p + w) + s)[d + k]);
        assert(((p + w) + s)[d + k] == (p + w)[d + k]);
        assert((p + w)[d + k] == w[k]);
    }
}

} // verus!
