use refmon::b64;
use refmon::claims;
use refmon::num;

#[test]
fn b64_known_values() {
    assert_eq!(b64::encode(b""), b"");
    assert_eq!(b64::encode(b"f"), b"Zg");
    assert_eq!(b64::encode(b"fo"), b"Zm8");
    assert_eq!(b64::encode(b"foo"), b"Zm9v");
    assert_eq!(b64::encode(b"foob"), b"Zm9vYg");
    assert_eq!(b64::encode(b"fooba"), b"Zm9vYmE");
    assert_eq!(b64::encode(b"foobar"), b"Zm9vYmFy");
    assert_eq!(b64::encode(&[0xfb, 0xef]), b"--8");
    assert_eq!(b64::encode(&[0xff, 0xff, 0xfe]), b"___-");
}

#[test]
fn b64_round_trip() {
    let cases: Vec<Vec<u8>> = vec![
        vec![],
        vec![0],
        vec![255],
        b"hello world".to_vec(),
        (0u8..=255).collect(),
    ];
    for c in cases {
        let e = b64::encode(&c);
        assert_eq!(b64::decode(&e), Some(c.clone()), "case {c:?}");
    }
}

#[test]
fn b64_rejects_non_canonical() {
    assert_eq!(b64::decode(b"A"), None);
    assert_eq!(b64::decode(b"AAAAB"), None);
    assert_eq!(b64::decode(b"Z h"), None);
    assert_eq!(b64::decode(b"Zg=="), None);
    assert_eq!(b64::decode(b"Zh"), None);
    assert_eq!(b64::decode(b"Zm9"), None);
    assert_eq!(b64::decode(b"Zm8"), Some(b"fo".to_vec()));
}

#[test]
fn decimal_known_values() {
    assert_eq!(num::print_dec(0), b"0");
    assert_eq!(num::print_dec(7), b"7");
    assert_eq!(num::print_dec(-1), b"-1");
    assert_eq!(num::print_dec(1_700_000_000), b"1700000000");
    assert_eq!(num::print_dec(i64::MAX), b"9223372036854775807");
    assert_eq!(num::print_dec(i64::MIN), b"-9223372036854775808");
}

#[test]
fn decimal_parse_bounds() {
    assert_eq!(num::parse_dec_exec(b"9223372036854775807"), Some(i64::MAX));
    assert_eq!(num::parse_dec_exec(b"9223372036854775808"), None);
    assert_eq!(num::parse_dec_exec(b"-9223372036854775808"), Some(i64::MIN));
    assert_eq!(num::parse_dec_exec(b"-9223372036854775809"), None);
    assert_eq!(num::parse_dec_exec(b""), None);
    assert_eq!(num::parse_dec_exec(b"-"), None);
    assert_eq!(num::parse_dec_exec(b"12a"), None);
    assert_eq!(num::parse_dec_exec(b"007"), Some(7));
    let mut long = vec![b'1'];
    long.extend(std::iter::repeat(b'0').take(40));
    assert_eq!(num::parse_dec_exec(&long), None);
}

#[test]
fn decimal_round_trip() {
    for n in [0i64, 1, -1, 42, -42, 1_700_000_000, i64::MAX, i64::MIN] {
        assert_eq!(num::parse_dec_exec(&num::print_dec(n)), Some(n));
    }
}

#[test]
fn claims_known_text() {
    let c = claims::serialize_claims(b"hi", 42);
    assert_eq!(c, b"{\"sub\":\"aGk\",\"exp\":42}".to_vec());
    let parsed = claims::parse_claims_exec(&c).unwrap();
    assert_eq!(parsed.0, b"hi".to_vec());
    assert_eq!(parsed.1, 42);
}

#[test]
fn claims_round_trip_negative_expiry() {
    let c = claims::serialize_claims(b"x", -5);
    let parsed = claims::parse_claims_exec(&c).unwrap();
    assert_eq!(parsed.0, b"x".to_vec());
    assert_eq!(parsed.1, -5);
}

#[test]
fn claims_reject_malformed() {
    assert_eq!(claims::parse_claims_exec(b""), None);
    assert_eq!(claims::parse_claims_exec(b"{\"exp\":1,\"sub\":\"aGk\"}"), None);
    assert_eq!(claims::parse_claims_exec(b"{\"sub\":\"aGk\",\"exp\":}"), None);
    assert_eq!(claims::parse_claims_exec(b"{\"sub\":\"a\",\"exp\":1}"), None);
    assert_eq!(claims::parse_claims_exec(b"{\"sub\":\"aGk\",\"exp\":1"), None);
}
