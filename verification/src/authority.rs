//! The signing authority: it owns the process-wide secret, mints signed
//! tokens bound to a subject and an expiry, and validates presented tokens.
//!
//! A protocol-level failure (a token that is not decodable as an envelope)
//! is an `Err`; a decodable token that is forged or stale is a successful
//! call reporting a negative verdict. The signature is checked before any
//! claim field is read, so nothing about the claims — the expiry included —
//! is reported for a token whose signature does not match.
use vstd::prelude::*;
use crate::b64;
use crate::b64::{b64_encode, b64_decode, b64_valid};
use crate::claims;
use crate::claims::{claims_text, parse_claims};
use crate::crypto;
use crate::crypto::mac_of;
use crate::scan;
use crate::token;
use crate::token::{header_text, split3, DOT};

verus! {

/// The outcome of validating a decodable token.
#[derive(PartialEq, Eq, Structural, Clone, Copy, Debug)]
pub enum Verdict {
    /// The signature matches and the expiry has not passed.
    Valid,
    /// The signature does not match the claims; nothing of the claims is
    /// reported.
    SignatureMismatch,
    /// The signature matches but the expiry has passed.
    Expired,
}

/// The protocol-level failure of a validate call.
#[derive(PartialEq, Eq, Structural, Clone, Copy, Debug)]
pub enum ValidateError {
    /// The presented bytes are not decodable as a token envelope.
    InvalidArgument,
}

impl Verdict {
    /// The diagnostic text carried beside the validity flag: one of three
    /// fixed strings, never claim contents.
    pub fn message(&self) -> (r: &'static str)
        ensures
            self is Valid ==> r@ == ""@,
            self is SignatureMismatch ==> r@ == "signature mismatch"@,
            self is Expired ==> r@ == "token expired"@,
    {
        match self {
            Verdict::Valid => "",
            Verdict::SignatureMismatch => "signature mismatch",
            Verdict::Expired => "token expired",
        }
    }

    /// Whether the token was reported valid.
    pub fn is_valid(&self) -> (r: bool)
        ensures
            r == (self is Valid),
    {
        match self {
            Verdict::Valid => true,
            _ => false,
        }
    }
}

/// The expiry second of a token issued at `now` with a requested
/// time-to-live, saturating at the ends of the representable range.
pub open spec fn expiry_of(now: i64, ttl_seconds: i64) -> i64 {
    if now + ttl_seconds > i64::MAX {
        i64::MAX
    } else if now + ttl_seconds < i64::MIN {
        i64::MIN
    } else {
        (now + ttl_seconds) as i64
    }
}

/// The first two segments of a token: what the signature covers.
pub open spec fn message_of(sub: Seq<u8>, exp: i64) -> Seq<u8> {
    b64_encode(header_text()) + seq![DOT] + b64_encode(claims_text(sub, exp))
}

/// The token issued for a subject and an expiry under a key.
pub open spec fn token_of(sub: Seq<u8>, exp: i64, key: Seq<u8>) -> Seq<u8> {
    message_of(sub, exp) + seq![DOT] + b64_encode(mac_of(message_of(sub, exp), key))
}

/// What validating bytes at an instant under a key reports.
pub open spec fn validate_spec(t: Seq<u8>, now: i64, key: Seq<u8>) -> Result<
    Verdict,
    ValidateError,
> {
    match split3(t) {
        None => Err(ValidateError::InvalidArgument),
        Some((h, c, g)) => {
            if !(b64_valid(h) && b64_valid(c) && b64_valid(g)) {
                Err(ValidateError::InvalidArgument)
            } else if g != b64_encode(mac_of(h + seq![DOT] + c, key)) {
                Ok(Verdict::SignatureMismatch)
            } else {
                match parse_claims(b64_decode(c)) {
                    None => Err(ValidateError::InvalidArgument),
                    Some((sub, exp)) => if exp >= now {
                        Ok(Verdict::Valid)
                    } else {
                        Ok(Verdict::Expired)
                    },
                }
            }
        },
    }
}

/// The signing authority. It holds the symmetric signing secret for its
/// lifetime; the secret never appears in a token or a verdict.
pub struct RefMonImpl {
    secret: Vec<u8>,
}

impl RefMonImpl {
    /// The signing secret, as the contracts speak of it.
    pub closed spec fn key(&self) -> Seq<u8> {
        self.secret@
    }

    /// Constructs an authority owning `secret`.
    pub fn new(secret: Vec<u8>) -> (r: RefMonImpl)
        ensures
            r.key() == secret@,
    {
        RefMonImpl { secret }
    }

    /// Issues a token for `subject` expiring `ttl_seconds` after `now`.
    /// A non-positive time-to-live is accepted and yields an
    /// already-expired token: expiry is enforced at validation, not here.
    pub fn issue_at(&self, subject: &[u8], ttl_seconds: i64, now: i64) -> (t: Vec<u8>)
        ensures
            t@ == token_of(subject@, expiry_of(now, ttl_seconds), self.key()),
    {
        let exp: i64 = if ttl_seconds >= 0 {
            if now <= i64::MAX - ttl_seconds {
                now + ttl_seconds
            } else {
                i64::MAX
            }
        } else {
            if now >= i64::MIN - ttl_seconds {
                now + ttl_seconds
            } else {
                i64::MIN
            }
        };
        proof {
            assert(exp == expiry_of(now, ttl_seconds));
        }
        let header = token::header_vec();
        let claims_bytes = claims::serialize_claims(subject, exp);
        let mut msg = b64::encode(header.as_slice());
        msg.push(DOT);
        let cseg = b64::encode(claims_bytes.as_slice());
        scan::push_all(&mut msg, cseg.as_slice());
        proof {
            assert(msg@ =~= message_of(subject@, exp));
        }
        let sig = crypto::hmac_b64(msg.as_slice(), self.secret.as_slice());
        let mut tok = msg;
        tok.push(DOT);
        scan::push_all(&mut tok, sig.as_slice());
        proof {
            assert(tok@ =~= token_of(subject@, exp, self.key()));
        }
        tok
    }

    /// Validates a presented token against the secret at instant `now`.
    /// Bytes that are not decodable as an envelope fail the call; a
    /// decodable token yields a verdict, with the signature checked before
    /// the claims are read.
    pub fn validate_at(&self, tok: &[u8], now: i64) -> (r: Result<Verdict, ValidateError>)
        ensures
            r == validate_spec(tok@, now, self.key()),
    {
        let n = tok.len();
        let (i, j) = match token::split_token(tok) {
            None => {
                return Err(ValidateError::InvalidArgument);
            },
            Some(p) => p,
        };
        let hseg = scan::copy_range(tok, 0, i);
        let cseg = scan::copy_range(tok, i + 1, j);
        let gseg = scan::copy_range(tok, j + 1, n);
        let cbytes = match b64::decode(cseg.as_slice()) {
            None => {
                return Err(ValidateError::InvalidArgument);
            },
            Some(v) => v,
        };
        if b64::decode(hseg.as_slice()).is_none() {
            return Err(ValidateError::InvalidArgument);
        }
        if b64::decode(gseg.as_slice()).is_none() {
            return Err(ValidateError::InvalidArgument);
        }
        let msg = scan::copy_range(tok, 0, j);
        proof {
            assert(msg@ =~= hseg@ + seq![DOT] + cseg@);
        }
        let expect = crypto::hmac_b64(msg.as_slice(), self.secret.as_slice());
        if !crypto::ct_eq(gseg.as_slice(), expect.as_slice()) {
            return Ok(Verdict::SignatureMismatch);
        }
        match claims::parse_claims_exec(cbytes.as_slice()) {
            None => Err(ValidateError::InvalidArgument),
            Some(p) => {
                if p.1 >= now {
                    Ok(Verdict::Valid)
                } else {
                    Ok(Verdict::Expired)
                }
            },
        }
    }

    /// Issues a token for `subject` against the server's clock: its expiry
    /// is the current second plus `ttl_seconds`, for some reading `now` of
    /// the clock.
    pub fn issue(&self, subject: &[u8], ttl_seconds: i64) -> (t: Vec<u8>)
        ensures
            exists|now: i64| t@ == token_of(subject@, expiry_of(now, ttl_seconds), self.key()),
    {
        let now = crate::clock::unix_now();
        let t = self.issue_at(subject, ttl_seconds, now);
        proof {
            assert(t@ == token_of(subject@, expiry_of(now, ttl_seconds), self.key()));
        }
        t
    }

    /// Validates a token against the server's clock: the verdict is what
    /// `validate_spec` reports for some reading `now` of the clock. Whether
    /// the call fails, and whether the signature mismatches, does not depend
    /// on that reading; only the expiry comparison does.
    pub fn validate(&self, tok: &[u8]) -> (r: Result<Verdict, ValidateError>)
        ensures
            exists|now: i64| r == validate_spec(tok@, now, self.key()),
            forall|at: i64| (r is Err) == (validate_spec(tok@, at, self.key()) is Err),
            forall|at: i64|
                (r == Ok::<Verdict, ValidateError>(Verdict::SignatureMismatch)) == (validate_spec(
                    tok@,
                    at,
                    self.key(),
                ) == Ok::<Verdict, ValidateError>(Verdict::SignatureMismatch)),
    {
        let now = crate::clock::unix_now();
        let r = self.validate_at(tok, now);
        proof {
            assert(r == validate_spec(tok@, now, self.key()));
            assert forall|at: i64| (r is Err) == (validate_spec(tok@, at, self.key()) is Err) by {
                crate::laws::lemma_malformed_time_independent(tok@, now, at, self.key());
            }
            assert forall|at: i64|
                (r == Ok::<Verdict, ValidateError>(Verdict::SignatureMismatch)) == (validate_spec(
                    tok@,
                    at,
                    self.key(),
                ) == Ok::<Verdict, ValidateError>(Verdict::SignatureMismatch)) by {
                crate::laws::lemma_malformed_time_independent(tok@, now, at, self.key());
            }
        }
        r
    }
}

} // verus!
