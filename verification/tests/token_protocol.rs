use refmon::authority::{RefMonImpl, ValidateError, Verdict};

const NOW: i64 = 1_700_000_000;

fn authority() -> RefMonImpl {
    RefMonImpl::new(b"super-secret-key-for-demo-2025".to_vec())
}

#[test]
fn round_trip_immediate() {
    let auth = authority();
    let tok = auth.issue_at(b"alice", 3600, NOW);
    assert_eq!(auth.validate_at(&tok, NOW), Ok(Verdict::Valid));
}

#[test]
fn round_trip_zero_ttl() {
    let auth = authority();
    let tok = auth.issue_at(b"alice", 0, NOW);
    assert_eq!(auth.validate_at(&tok, NOW), Ok(Verdict::Valid));
    assert_eq!(auth.validate_at(&tok, NOW + 1), Ok(Verdict::Expired));
}

#[test]
fn expiry_boundary() {
    let auth = authority();
    let tok = auth.issue_at(b"alice", 3600, NOW);
    assert_eq!(auth.validate_at(&tok, NOW + 3599), Ok(Verdict::Valid));
    assert_eq!(auth.validate_at(&tok, NOW + 3600), Ok(Verdict::Valid));
    let late = auth.validate_at(&tok, NOW + 3601);
    assert_eq!(late, Ok(Verdict::Expired));
    assert_eq!(late.unwrap().message(), "token expired");
    assert!(!late.unwrap().is_valid());
}

#[test]
fn negative_ttl_is_expired_not_failure() {
    let auth = authority();
    let tok = auth.issue_at(b"alice", -1, NOW);
    assert_eq!(auth.validate_at(&tok, NOW), Ok(Verdict::Expired));
}

#[test]
fn clock_backed_issue_and_validate() {
    let auth = authority();
    let tok = auth.issue(b"bob", 3600);
    assert_eq!(auth.validate(&tok), Ok(Verdict::Valid));
    let stale = auth.issue(b"bob", -1);
    assert_eq!(auth.validate(&stale), Ok(Verdict::Expired));
}

#[test]
fn tamper_any_bit_never_validates() {
    let auth = authority();
    let tok = auth.issue_at(b"alice", 3600, NOW);
    for idx in 0..tok.len() {
        for bit in 0..8 {
            let mut t = tok.clone();
            t[idx] ^= 1u8 << bit;
            let r = auth.validate_at(&t, NOW);
            assert_ne!(r, Ok(Verdict::Valid), "flip at byte {idx} bit {bit}");
        }
    }
}

#[test]
fn tamper_signature_in_alphabet_is_mismatch() {
    let auth = authority();
    let mut tok = auth.issue_at(b"alice", 3600, NOW);
    let last = tok.len() - 1;
    tok[last] = if tok[last] == b'A' { b'B' } else { b'A' };
    let r = auth.validate_at(&tok, NOW);
    assert_eq!(r, Ok(Verdict::SignatureMismatch));
    assert_eq!(r.unwrap().message(), "signature mismatch");
}

#[test]
fn tamper_claims_in_alphabet_is_mismatch() {
    let auth = authority();
    let mut tok = auth.issue_at(b"alice", 3600, NOW);
    let first_dot = tok.iter().position(|&b| b == b'.').unwrap();
    let idx = first_dot + 1;
    tok[idx] = if tok[idx] == b'A' { b'B' } else { b'A' };
    assert_eq!(auth.validate_at(&tok, NOW), Ok(Verdict::SignatureMismatch));
}

#[test]
fn malformed_inputs_fail_the_call() {
    let auth = authority();
    let cases: Vec<Vec<u8>> = vec![
        b"".to_vec(),
        b"not a token!!".to_vec(),
        b"onlyone.dot".to_vec(),
        b"a.b.c.d".to_vec(),
        vec![0xff, b'.', 0xfe, b'.', 0xfd],
        b"A.AA.AA".to_vec(),
    ];
    for c in cases {
        assert_eq!(
            auth.validate_at(&c, NOW),
            Err(ValidateError::InvalidArgument),
            "input {c:?}"
        );
    }
}

#[test]
fn malformed_is_distinct_from_invalid() {
    let auth = authority();
    let mut tok = auth.issue_at(b"alice", 3600, NOW);
    let last = tok.len() - 1;
    tok[last] = if tok[last] == b'A' { b'B' } else { b'A' };
    assert!(matches!(auth.validate_at(&tok, NOW), Ok(_)));
    assert!(matches!(
        auth.validate_at(b"garbage", NOW),
        Err(ValidateError::InvalidArgument)
    ));
}

#[test]
fn swapped_signatures_do_not_cross_validate() {
    let auth = authority();
    let tok_a = auth.issue_at(b"alice", 3600, NOW);
    let tok_b = auth.issue_at(b"bob", 3600, NOW);
    assert_ne!(tok_a, tok_b);
    let sig_at = |t: &[u8]| t.iter().rposition(|&b| b == b'.').unwrap();
    let (da, db) = (sig_at(&tok_a), sig_at(&tok_b));
    let mut forged = tok_a[..da + 1].to_vec();
    forged.extend_from_slice(&tok_b[db + 1..]);
    assert_eq!(auth.validate_at(&forged, NOW), Ok(Verdict::SignatureMismatch));
}

#[test]
fn distinct_keys_reject_each_other() {
    let auth1 = authority();
    let auth2 = RefMonImpl::new(b"another-secret".to_vec());
    let tok = auth1.issue_at(b"alice", 3600, NOW);
    assert_eq!(auth2.validate_at(&tok, NOW), Ok(Verdict::SignatureMismatch));
}

#[test]
fn awkward_subjects_round_trip() {
    let auth = authority();
    let subjects: Vec<&[u8]> = vec![
        b"",
        b"a",
        b"dotted.subject",
        b"quote\"and\\slash",
        b"{\"sub\":\"x\",\"exp\":1}",
        "caf\u{e9}".as_bytes(),
    ];
    for s in subjects {
        let tok = auth.issue_at(s, 60, NOW);
        assert_eq!(auth.validate_at(&tok, NOW), Ok(Verdict::Valid), "subject {s:?}");
    }
}

#[test]
fn huge_ttl_saturates() {
    let auth = authority();
    let tok = auth.issue_at(b"alice", i64::MAX, NOW);
    assert_eq!(auth.validate_at(&tok, NOW), Ok(Verdict::Valid));
    assert_eq!(auth.validate_at(&tok, i64::MAX), Ok(Verdict::Valid));
}

#[test]
fn interleaved_issues_validate_independently() {
    let auth = authority();
    let subjects: Vec<Vec<u8>> = (0..8).map(|i| format!("subject-{i}").into_bytes()).collect();
    let tokens: Vec<Vec<u8>> = subjects.iter().map(|s| auth.issue_at(s, 600, NOW)).collect();
    for tok in tokens.iter().rev() {
        assert_eq!(auth.validate_at(tok, NOW), Ok(Verdict::Valid));
    }
    for (i, tok) in tokens.iter().enumerate() {
        for (j, other) in tokens.iter().enumerate() {
            if i != j {
                assert_ne!(tok, other);
            }
        }
    }
}

#[test]
fn verdict_messages_are_fixed() {
    assert_eq!(Verdict::Valid.message(), "");
    assert_eq!(Verdict::SignatureMismatch.message(), "signature mismatch");
    assert_eq!(Verdict::Expired.message(), "token expired");
    assert!(Verdict::Valid.is_valid());
    assert!(!Verdict::Expired.is_valid());
}

#[test]
fn token_interops_with_jwt_crypto() {
    let secret = b"super-secret-key-for-demo-2025";
    let auth = RefMonImpl::new(secret.to_vec());
    let tok = auth.issue_at(b"alice", 3600, NOW);
    let text = String::from_utf8(tok.clone()).unwrap();
    let header = jsonwebtoken::decode_header(&text).unwrap();
    assert_eq!(header.alg, jsonwebtoken::Algorithm::HS256);
    let sig_dot = tok.iter().rposition(|&b| b == b'.').unwrap();
    let message = &tok[..sig_dot];
    let signature = std::str::from_utf8(&tok[sig_dot + 1..]).unwrap();
    let key = jsonwebtoken::DecodingKey::from_secret(secret);
    let ok = jsonwebtoken::crypto::verify(signature, message, &key, jsonwebtoken::Algorithm::HS256)
        .unwrap();
    assert!(ok);
    let bad = jsonwebtoken::crypto::verify(
        signature,
        &message[..message.len() - 1],
        &key,
        jsonwebtoken::Algorithm::HS256,
    )
    .unwrap();
    assert!(!bad);
}
