//! A minimal trusted-issuer library: it mints symmetric-key signed bearer
//! tokens bound to a subject and an absolute expiry time, and validates
//! tokens presented later.
//!
//! A token is the transport-safe text
//! `base64url(header) "." base64url(claims) "." base64url(mac)`, where the
//! header is a fixed algorithm tag, the claims carry the subject and the
//! expiry second, and the mac is an HMAC-SHA256 over the first two segments
//! under a process-wide secret.
pub mod b64;
pub mod num;
pub mod scan;
pub mod crypto;
pub mod claims;
pub mod token;
pub mod clock;
pub mod authority;
pub mod laws;
