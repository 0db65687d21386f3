//! Keyed integrity tags over blob bytes, and their constant-time verification.

use vstd::prelude::*;

verus! {

/// The HMAC-SHA-256 tag of `msg` under `key`.
pub uninterp spec fn hmac_sha256_of(key: Seq<u8>, msg: Seq<u8>) -> Seq<u8>;

/// Relies on hmac's `Hmac<Sha256>`: `Mac::new_from_slice` (which accepts a key of
/// any length), `update` with the message, then `finalize`; the result is the
/// HMAC-SHA-256 tag of the message under the key.
#[verifier::external_body]
fn hmac_sha256(key: &[u8], msg: &[u8]) -> (tag: Vec<u8>)
    ensures
        tag@ == hmac_sha256_of(key@, msg@),
{
    let mut mac = <hmac::Hmac<sha2::Sha256> as hmac::Mac>::new_from_slice(key)
        .expect("HMAC takes a key of any length");
    hmac::Mac::update(&mut mac, msg);
    hmac::Mac::finalize(mac).into_bytes().to_vec()
}

/// A candidate tag was not the tag of the bytes under the key.
#[derive(Clone, Copy, Debug, PartialEq, Eq)]
pub struct TagMismatch;

/// Whether `candidate` is the tag of `bytes` under `key`.
pub open spec fn tag_accepted(bytes: Seq<u8>, key: Seq<u8>, candidate: Seq<u8>) -> bool {
    candidate == hmac_sha256_of(key, bytes)
}

/// The integrity tag of `bytes` under `key`.
pub fn compute_tag(bytes: &[u8], key: &[u8]) -> (tag: Vec<u8>)
    ensures
        tag@ == hmac_sha256_of(key@, bytes@),
{
    hmac_sha256(key, bytes)
}

proof fn lemma_or_xor_zero(d: u8, x: u8, y: u8)
    ensures
        (d | (x ^ y)) == 0 <==> (d == 0 && x == y),
{
    assert((d | (x ^ y)) == 0 <==> (d == 0 && x == y)) by (bit_vector);
}

/// Equality of two byte strings whose running time depends on their lengths
/// only, not on where they first differ.
pub fn constant_time_eq(a: &[u8], b: &[u8]) -> (r: bool)
    ensures
        r == (a@ == b@),
{
    if a.len() != b.len() {
        return false;
    }
    let mut diff: u8 = 0;
    let mut i: usize = 0;
    assert(a@.subrange(0, 0) =~= b@.subrange(0, 0));
    while i < a.len()
        invariant
            a@.len() == b@.len(),
            i <= a@.len(),
            (diff == 0) == (a@.subrange(0, i as int) == b@.subrange(0, i as int)),
        decreases a@.len() - i,
    {
        let x = a[i];
        let y = b[i];
        let ghost sa = a@.subrange(0, i as int);
        let ghost sb = b@.subrange(0, i as int);
        proof {
            lemma_or_xor_zero(diff, x, y);
            assert(a@.subrange(0, i + 1) =~= sa.push(x));
            assert(b@.subrange(0, i + 1) =~= sb.push(y));
            if sa.push(x) == sb.push(y) {
                assert(sa =~= sa.push(x).drop_last());
                assert(sb =~= sb.push(y).drop_last());
                assert(sa.push(x)[i as int] == x);
                assert(sb.push(y)[i as int] == y);
            }
        }
        diff = diff | (x ^ y);
        i = i + 1;
    }
    assert(a@.subrange(0, i as int) =~= a@);
    assert(b@.subrange(0, i as int) =~= b@);
    diff == 0
}

/// Checks `candidate` against the tag of `bytes` under `key`, in constant time.
pub fn verify_tag(bytes: &[u8], key: &[u8], candidate: &[u8]) -> (r: Result<(), TagMismatch>)
    ensures
        r is Ok <==> tag_accepted(bytes@, key@, candidate@),
{
    let expected = compute_tag(bytes, key);
    if constant_time_eq(expected.as_slice(), candidate) {
        Ok(())
    } else {
        Err(TagMismatch)
    }
}

/// The tag computed for some bytes under a key is accepted for them.
/// (A candidate is refused exactly when it differs from the tag of the bytes
/// under the key: see `tag_accepted`. Nothing here says that altered bytes or
/// keys change the tag, which a MAC cannot promise for every pair.)
pub proof fn lemma_computed_tag_verifies(bytes: Seq<u8>, key: Seq<u8>)
    ensures
        tag_accepted(bytes, key, hmac_sha256_of(key, bytes)),
{
}

} // verus!
