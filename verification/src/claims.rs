//! The claims payload: a deterministic JSON-shaped text
//! `{"sub":"<base64url(subject)>","exp":<seconds>}`. The subject rides
//! base64url-encoded, so the text needs no string escaping and parses
//! unambiguously; the expiry is a signed decimal of Unix seconds.
use vstd::prelude::*;
use crate::b64;
use crate::b64::{b64_encode, b64_decode, b64_valid};
use crate::num;
use crate::num::{dec_of_int, parse_dec};
use crate::scan;
use crate::scan::find_byte;

verus! {

/// The bytes of `{"sub":"`.
pub open spec fn claims_prefix() -> Seq<u8> {
    seq![123u8, 34u8, 115u8, 117u8, 98u8, 34u8, 58u8, 34u8]
}

/// The bytes of `","exp":`.
pub open spec fn claims_mid() -> Seq<u8> {
    seq![34u8, 44u8, 34u8, 101u8, 120u8, 112u8, 34u8, 58u8]
}

/// The claims text for a subject and an expiry second.
pub open spec fn claims_text(sub: Seq<u8>, exp: i64) -> Seq<u8> {
    claims_prefix() + b64_encode(sub) + claims_mid() + dec_of_int(exp as int) + seq![125u8]
}

/// The subject and expiry a claims text denotes, where it is well-formed.
pub open spec fn parse_claims(s: Seq<u8>) -> Option<(Seq<u8>, i64)> {
    if s.len() < 8 || s.subrange(0, 8) != claims_prefix() {
        None
    } else {
        let rest = s.skip(8);
        let q = find_byte(rest, 34);
        if q < 0 {
            None
        } else {
            let e = rest.take(q);
            if !b64_valid(e) {
                None
            } else {
                let tail = rest.skip(q);
                if tail.len() < 8 || tail.subrange(0, 8) != claims_mid() {
                    None
                } else {
                    let num_part = tail.skip(8);
                    if num_part.len() < 2 || num_part[num_part.len() - 1] != 125 {
                        None
                    } else {
                        match parse_dec(num_part.take(num_part.len() - 1)) {
                            None => None,
                            Some(n) => Some((b64_decode(e), n)),
                        }
                    }
                }
            }
        }
    }
}

/// Parsing inverts serialization for every subject and expiry.
pub proof fn lemma_claims_roundtrip(sub: Seq<u8>, exp: i64)
    ensures
        parse_claims(claims_text(sub, exp)) == Some((sub, exp)),
{
    let e = b64_encode(sub);
    let d = dec_of_int(exp as int);
    let s = claims_text(sub, exp);
    b64::lemma_b64_encode_alphabet(sub);
    b64::lemma_b64_roundtrip(sub);
    num::lemma_dec_roundtrip(exp);
    if exp >= 0 {
        num::lemma_dec_of_nat(exp as int);
    } else {
        num::lemma_dec_of_nat(-(exp as int));
        assert(d.len() >= 2);
    }
    assert(s.subrange(0, 8) =~= claims_prefix());
    let rest = s.skip(8);
    assert(rest =~= e + claims_mid() + d + seq![125u8]);
    assert forall|k: int| 0 <= k < e.len() implies rest[k] != 34u8 by {
        assert(rest[k] == e[k]);
        assert(b64::is_b64_byte(e[k]));
        b64::lemma_b64_byte_not_delim(e[k]);
    }
    assert(rest[e.len() as int] == 34u8);
    scan::lemma_find_byte_at(rest, 34u8, e.len() as int);
    assert(rest.take(e.len() as int) =~= e);
    let tail = rest.skip(e.len() as int);
    assert(tail =~= claims_mid() + d + seq![125u8]);
    assert(tail.subrange(0, 8) =~= claims_mid());
    let num_part = tail.skip(8);
    assert(num_part =~= d + seq![125u8]);
    assert(num_part.len() >= 2);
    assert(num_part[num_part.len() - 1] == 125u8);
    assert(num_part.take(num_part.len() - 1) =~= d);
}

/// Serializes a subject and an expiry as the claims text.
pub fn serialize_claims(sub: &[u8], exp: i64) -> (r: Vec<u8>)
    ensures
        r@ == claims_text(sub@, exp),
{
    let mut out: Vec<u8> = Vec::new();
    out.push(123);
    out.push(34);
    out.push(115);
    out.push(117);
    out.push(98);
    out.push(34);
    out.push(58);
    out.push(34);
    proof {
        assert(out@ =~= claims_prefix());
    }
    let e = b64::encode(sub);
    scan::push_all(&mut out, e.as_slice());
    out.push(34);
    out.push(44);
    out.push(34);
    out.push(101);
    out.push(120);
    out.push(112);
    out.push(34);
    out.push(58);
    let d = num::print_dec(exp);
    scan::push_all(&mut out, d.as_slice());
    out.push(125);
    proof {
        assert(out@ =~= claims_text(sub@, exp));
    }
    out
}

/// Parses a claims text; `None` exactly where it is not well-formed.
pub fn parse_claims_exec(s: &[u8]) -> (r: Option<(Vec<u8>, i64)>)
    ensures
        r is Some <==> parse_claims(s@) is Some,
        r matches Some(p) ==> parse_claims(s@) == Some((p.0@, p.1)),
{
    if s.len() < 8 {
        return None;
    }
    if s[0] != 123 || s[1] != 34 || s[2] != 115 || s[3] != 117 || s[4] != 98 || s[5] != 34
        || s[6] != 58 || s[7] != 34 {
        proof {
            assert(s@.subrange(0, 8) != claims_prefix());
        }
        return None;
    }
    proof {
        assert(s@.subrange(0, 8) =~= claims_prefix());
    }
    let ghost rest = s@.skip(8);
    let qa = match scan::find_byte_from(s, 34, 8) {
        None => {
            return None;
        },
        Some(q) => q,
    };
    proof {
        assert(find_byte(rest, 34u8) == qa - 8);
    }
    let eseg = scan::copy_range(s, 8, qa);
    let subj = match b64::decode(eseg.as_slice()) {
        None => {
            proof {
                assert(s@.subrange(8, qa as int) =~= rest.take(qa - 8));
            }
            return None;
        },
        Some(v) => v,
    };
    proof {
        assert(s@.subrange(8, qa as int) =~= rest.take(qa - 8));
    }
    let ghost tail = rest.skip(qa - 8);
    if s.len() - qa < 8 {
        return None;
    }
    proof {
        assert(tail =~= s@.skip(qa as int));
    }
    if s[qa] != 34 || s[qa + 1] != 44 || s[qa + 2] != 34 || s[qa + 3] != 101 || s[qa + 4] != 120
        || s[qa + 5] != 112 || s[qa + 6] != 34 || s[qa + 7] != 58 {
        proof {
            assert(tail.subrange(0, 8) != claims_mid());
        }
        return None;
    }
    proof {
        assert(tail.subrange(0, 8) =~= claims_mid());
    }
    let ghost num_part = tail.skip(8);
    proof {
        assert(num_part =~= s@.skip(qa + 8));
    }
    if s.len() - (qa + 8) < 2 {
        return None;
    }
    if s[s.len() - 1] != 125 {
        proof {
            assert(num_part[num_part.len() - 1] == s@[s@.len() - 1]);
        }
        return None;
    }
    proof {
        assert(num_part[num_part.len() - 1] == s@[s@.len() - 1]);
        assert(s@.subrange(qa + 8, s@.len() - 1) =~= num_part.take(num_part.len() - 1));
    }
    let dpart = scan::copy_range(s, qa + 8, s.len() - 1);
    match num::parse_dec_exec(dpart.as_slice()) {
        None => None,
        Some(n) => Some((subj, n)),
    }
}

} // verus!
