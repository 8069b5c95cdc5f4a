//! The laws of the token protocol, each proved once and for all subjects,
//! times-to-live, instants and keys.
use vstd::prelude::*;
use crate::b64;
use crate::b64::{b64_encode, b64_decode, b64_valid};
use crate::claims;
use crate::claims::claims_text;
use crate::crypto::mac_of;
use crate::scan;
use crate::token::{header_text, split3, DOT};
use crate::authority::{
    expiry_of,
    message_of,
    token_of,
    validate_spec,
    Verdict,
    ValidateError,
};

verus! {

/// An issued token splits into its header, claims and signature segments.
pub proof fn lemma_split_own_token(sub: Seq<u8>, exp: i64, key: Seq<u8>)
    ensures
        split3(token_of(sub, exp, key)) == Some(
            (
                b64_encode(header_text()),
                b64_encode(claims_text(sub, exp)),
                b64_encode(mac_of(message_of(sub, exp), key)),
            ),
        ),
{
    let h = b64_encode(header_text());
    let c = b64_encode(claims_text(sub, exp));
    let g = b64_encode(mac_of(message_of(sub, exp), key));
    let t = token_of(sub, exp, key);
    assert(t =~= h + seq![DOT] + c + seq![DOT] + g);
    b64::lemma_b64_encode_alphabet(header_text());
    b64::lemma_b64_encode_alphabet(claims_text(sub, exp));
    b64::lemma_b64_encode_alphabet(mac_of(message_of(sub, exp), key));
    assert forall|k: int| 0 <= k < h.len() implies t[k] != DOT by {
        assert(t[k] == h[k]);
        b64::lemma_b64_byte_not_delim(h[k]);
    }
    assert(t[h.len() as int] == DOT);
    scan::lemma_find_byte_at(t, DOT, h.len() as int);
    let rest = t.skip(h.len() as int + 1);
    assert(rest =~= c + seq![DOT] + g);
    assert forall|k: int| 0 <= k < c.len() implies rest[k] != DOT by {
        assert(rest[k] == c[k]);
        b64::lemma_b64_byte_not_delim(c[k]);
    }
    assert(rest[c.len() as int] == DOT);
    scan::lemma_find_byte_at(rest, DOT, c.len() as int);
    let gg = rest.skip(c.len() as int + 1);
    assert(gg =~= g);
    assert forall|k: int| 0 <= k < gg.len() implies gg[k] != DOT by {
        assert(gg[k] == g[k]);
        b64::lemma_b64_byte_not_delim(g[k]);
    }
    scan::lemma_find_byte_none(gg, DOT);
    assert(t.take(h.len() as int) =~= h);
    assert(rest.take(c.len() as int) =~= c);
}

/// Validating a token this authority issued reports `Valid` up to and
/// including its expiry second and `Expired` after it — never a protocol
/// error and never a signature mismatch.
pub proof fn lemma_validate_own_token(sub: Seq<u8>, exp: i64, key: Seq<u8>, at: i64)
    ensures
        validate_spec(token_of(sub, exp, key), at, key) == if exp >= at {
            Ok::<Verdict, ValidateError>(Verdict::Valid)
        } else {
            Ok::<Verdict, ValidateError>(Verdict::Expired)
        },
{
    let h = b64_encode(header_text());
    let c = b64_encode(claims_text(sub, exp));
    let g = b64_encode(mac_of(message_of(sub, exp), key));
    lemma_split_own_token(sub, exp, key);
    b64::lemma_b64_roundtrip(header_text());
    b64::lemma_b64_roundtrip(claims_text(sub, exp));
    b64::lemma_b64_roundtrip(mac_of(message_of(sub, exp), key));
    assert(h + seq![DOT] + c =~= message_of(sub, exp));
    claims::lemma_claims_roundtrip(sub, exp);
}

/// Round trip: a token issued with a non-negative time-to-live validates
/// at the instant of issuance.
pub proof fn lemma_issue_round_trip(sub: Seq<u8>, ttl_seconds: i64, now: i64, key: Seq<u8>)
    requires
        ttl_seconds >= 0,
    ensures
        validate_spec(token_of(sub, expiry_of(now, ttl_seconds), key), now, key) == Ok::<
            Verdict,
            ValidateError,
        >(Verdict::Valid),
{
    lemma_validate_own_token(sub, expiry_of(now, ttl_seconds), key, now);
}

/// Expiry boundary: validation strictly after the expiry second reports
/// `Expired`; validation at or before it reports `Valid`.
pub proof fn lemma_expiry_boundary(sub: Seq<u8>, ttl_seconds: i64, now: i64, at: i64, key: Seq<u8>)
    ensures
        at > expiry_of(now, ttl_seconds) ==> validate_spec(
            token_of(sub, expiry_of(now, ttl_seconds), key),
            at,
            key,
        ) == Ok::<Verdict, ValidateError>(Verdict::Expired),
        at <= expiry_of(now, ttl_seconds) ==> validate_spec(
            token_of(sub, expiry_of(now, ttl_seconds), key),
            at,
            key,
        ) == Ok::<Verdict, ValidateError>(Verdict::Valid),
{
    lemma_validate_own_token(sub, expiry_of(now, ttl_seconds), key, at);
}

/// A negative time-to-live still issues a token, and that token is already
/// expired at the instant of issuance: a negative verdict, not a failure.
pub proof fn lemma_negative_ttl(sub: Seq<u8>, ttl_seconds: i64, now: i64, key: Seq<u8>)
    requires
        ttl_seconds < 0,
        now > i64::MIN,
    ensures
        validate_spec(token_of(sub, expiry_of(now, ttl_seconds), key), now, key) == Ok::<
            Verdict,
            ValidateError,
        >(Verdict::Expired),
{
    lemma_validate_own_token(sub, expiry_of(now, ttl_seconds), key, now);
}

/// Tamper detection: a decodable token whose signature segment is not the
/// mac of its first two segments is reported a signature mismatch, whatever
/// the instant — its claims are never consulted.
pub proof fn lemma_forged_signature(h: Seq<u8>, c: Seq<u8>, g: Seq<u8>, at: i64, key: Seq<u8>)
    requires
        b64_valid(h),
        b64_valid(c),
        b64_valid(g),
        g != b64_encode(mac_of(h + seq![DOT] + c, key)),
    ensures
        validate_spec(h + seq![DOT] + c + seq![DOT] + g, at, key) == Ok::<
            Verdict,
            ValidateError,
        >(Verdict::SignatureMismatch),
{
    let t = h + seq![DOT] + c + seq![DOT] + g;
    b64::lemma_b64_valid_alphabet(h);
    b64::lemma_b64_valid_alphabet(c);
    b64::lemma_b64_valid_alphabet(g);
    assert forall|k: int| 0 <= k < h.len() implies t[k] != DOT by {
        assert(t[k] == h[k]);
        b64::lemma_b64_byte_not_delim(h[k]);
    }
    assert(t[h.len() as int] == DOT);
    scan::lemma_find_byte_at(t, DOT, h.len() as int);
    let rest = t.skip(h.len() as int + 1);
    assert(rest =~= c + seq![DOT] + g);
    assert forall|k: int| 0 <= k < c.len() implies rest[k] != DOT by {
        assert(rest[k] == c[k]);
        b64::lemma_b64_byte_not_delim(c[k]);
    }
    assert(rest[c.len() as int] == DOT);
    scan::lemma_find_byte_at(rest, DOT, c.len() as int);
    let gg = rest.skip(c.len() as int + 1);
    assert(gg =~= g);
    assert forall|k: int| 0 <= k < gg.len() implies gg[k] != DOT by {
        assert(gg[k] == g[k]);
        b64::lemma_b64_byte_not_delim(g[k]);
    }
    scan::lemma_find_byte_none(gg, DOT);
    assert(t.take(h.len() as int) =~= h);
    assert(rest.take(c.len() as int) =~= c);
}

/// Tamper detection on an issued token: replacing its signature segment
/// with any other decodable segment is reported a signature mismatch at
/// every instant.
pub proof fn lemma_tampered_signature_rejected(
    sub: Seq<u8>,
    exp: i64,
    g2: Seq<u8>,
    at: i64,
    key: Seq<u8>,
)
    requires
        b64_valid(g2),
        g2 != b64_encode(mac_of(message_of(sub, exp), key)),
    ensures
        validate_spec(message_of(sub, exp) + seq![DOT] + g2, at, key) == Ok::<
            Verdict,
            ValidateError,
        >(Verdict::SignatureMismatch),
{
    let h = b64_encode(header_text());
    let c = b64_encode(claims_text(sub, exp));
    b64::lemma_b64_roundtrip(header_text());
    b64::lemma_b64_roundtrip(claims_text(sub, exp));
    assert(h + seq![DOT] + c =~= message_of(sub, exp));
    lemma_forged_signature(h, c, g2, at, key);
    assert(message_of(sub, exp) + seq![DOT] + g2 =~= h + seq![DOT] + c + seq![DOT] + g2);
}

/// Authenticity gates every positive report: a verdict other than a
/// signature mismatch is only ever reached through a matching signature.
pub proof fn lemma_validate_authentic(t: Seq<u8>, at: i64, key: Seq<u8>)
    ensures
        ({
            let r = validate_spec(t, at, key);
            (r == Ok::<Verdict, ValidateError>(Verdict::Valid) || r == Ok::<
                Verdict,
                ValidateError,
            >(Verdict::Expired)) ==> match split3(t) {
                Some((h, c, g)) => g == b64_encode(mac_of(h + seq![DOT] + c, key)),
                None => false,
            }
        }),
{
}

/// Concurrency independence: tokens issued for any two subjects, in any
/// order and at any instants, each validate on their own terms; neither
/// call's outcome depends on the other.
pub proof fn lemma_independent_issues(
    sub1: Seq<u8>,
    ttl1: i64,
    now1: i64,
    sub2: Seq<u8>,
    ttl2: i64,
    now2: i64,
    key: Seq<u8>,
)
    requires
        ttl1 >= 0,
        ttl2 >= 0,
    ensures
        validate_spec(token_of(sub1, expiry_of(now1, ttl1), key), now1, key) == Ok::<
            Verdict,
            ValidateError,
        >(Verdict::Valid),
        validate_spec(token_of(sub2, expiry_of(now2, ttl2), key), now2, key) == Ok::<
            Verdict,
            ValidateError,
        >(Verdict::Valid),
{
    lemma_issue_round_trip(sub1, ttl1, now1, key);
    lemma_issue_round_trip(sub2, ttl2, now2, key);
}

/// No cross-subject substitution: tokens of distinct subjects are distinct,
/// whatever their expiries.
pub proof fn lemma_distinct_subjects(
    sub_a: Seq<u8>,
    exp_a: i64,
    sub_b: Seq<u8>,
    exp_b: i64,
    key: Seq<u8>,
)
    requires
        sub_a != sub_b,
    ensures
        token_of(sub_a, exp_a, key) != token_of(sub_b, exp_b, key),
{
    if token_of(sub_a, exp_a, key) == token_of(sub_b, exp_b, key) {
        lemma_split_own_token(sub_a, exp_a, key);
        lemma_split_own_token(sub_b, exp_b, key);
        b64::lemma_b64_roundtrip(claims_text(sub_a, exp_a));
        b64::lemma_b64_roundtrip(claims_text(sub_b, exp_b));
        claims::lemma_claims_roundtrip(sub_a, exp_a);
        claims::lemma_claims_roundtrip(sub_b, exp_b);
        assert(b64_decode(b64_encode(claims_text(sub_a, exp_a))) == b64_decode(
            b64_encode(claims_text(sub_b, exp_b)),
        ));
        assert(false);
    }
}

/// No leakage: a validation response is drawn from a fixed set — a verdict
/// or the one protocol error — and never carries claim contents.
pub proof fn lemma_response_fixed_set(t: Seq<u8>, at: i64, key: Seq<u8>)
    ensures
        match validate_spec(t, at, key) {
            Ok(v) => v == Verdict::Valid || v == Verdict::SignatureMismatch || v
                == Verdict::Expired,
            Err(e) => e == ValidateError::InvalidArgument,
        },
{
}

/// A protocol error or a signature mismatch depends on the presented bytes
/// alone, never on the clock: only the expiry comparison reads the instant.
pub proof fn lemma_malformed_time_independent(t: Seq<u8>, at1: i64, at2: i64, key: Seq<u8>)
    ensures
        (validate_spec(t, at1, key) is Err) == (validate_spec(t, at2, key) is Err),
        (validate_spec(t, at1, key) == Ok::<Verdict, ValidateError>(Verdict::SignatureMismatch))
            == (validate_spec(t, at2, key) == Ok::<Verdict, ValidateError>(
            Verdict::SignatureMismatch,
        )),
{
}

} // verus!
