//! The signing primitive and its comparison. The HMAC itself is computed by
//! an outside cryptography crate; everything around it is verified.
use vstd::prelude::*;
use crate::b64::b64_encode;

verus! {

/// The HMAC-SHA256 digest of a message under a key. The digest is a pure
/// function of its two arguments; its value is left unstated, since no
/// contract here should pretend to define SHA-256.
pub uninterp spec fn mac_of(message: Seq<u8>, key: Seq<u8>) -> Seq<u8>;

/// Relies on `jsonwebtoken::crypto::sign` with `Algorithm::HS256`: it
/// returns the base64url text (no padding) of the HMAC-SHA256 digest of
/// `message` under `key`, and its HMAC arm never fails.
#[verifier::external_body]
pub fn hmac_b64(message: &[u8], key: &[u8]) -> (r: Vec<u8>)
    ensures
        r@ == b64_encode(mac_of(message@, key@)),
{
    match jsonwebtoken::crypto::sign(
        message,
        &jsonwebtoken::EncodingKey::from_secret(key),
        jsonwebtoken::Algorithm::HS256,
    ) {
        Ok(s) => s.into_bytes(),
        Err(_) => Vec::new(),
    }
}

/// Fixed-time equality of two byte slices: every byte is inspected whatever
/// the contents, so the comparison leaks no prefix length through timing.
pub fn ct_eq(a: &[u8], b: &[u8]) -> (r: bool)
    ensures
        r == (a@ == b@),
{
    if a.len() != b.len() {
        return false;
    }
    let mut diff: u8 = 0;
    let mut i: usize = 0;
    while i < a.len()
        invariant
            i <= a@.len(),
            a@.len() == b@.len(),
            (diff == 0) == (forall|k: int| 0 <= k < i ==> a@[k] == b@[k]),
        decreases a@.len() - i,
    {
        let x = a[i];
        let y = b[i];
        let d2 = diff | (x ^ y);
        proof {
            assert(((diff | (x ^ y)) == 0) == (diff == 0 && x == y)) by (bit_vector);
            if d2 == 0 {
                assert forall|k: int| 0 <= k < i + 1 implies a@[k] == b@[k] by {
                    if k == i {
                        assert(a@[k] == x && b@[k] == y);
                    }
                }
            } else if x != y {
                assert(a@[i as int] != b@[i as int]);
                assert(!(forall|k: int| 0 <= k < i + 1 ==> a@[k] == b@[k]));
            } else {
                if forall|k: int| 0 <= k < i + 1 ==> a@[k] == b@[k] {
                    assert(forall|k: int| 0 <= k < i ==> a@[k] == b@[k]);
                    assert(false);
                }
            }
        }
        diff = d2;
        i = i + 1;
    }
    if diff == 0 {
        proof {
            assert(a@ =~= b@);
        }
        true
    } else {
        false
    }
}

} // verus!
