//! Base64url (no padding) over byte sequences: the transport encoding of the
//! three token segments. The alphabet is `A-Z a-z 0-9 - _`; a remainder of
//! one input byte yields two characters, of two bytes three characters, and
//! decoding is strict: it accepts only canonical encodings (valid alphabet,
//! length not 1 mod 4, zero trailing bits).
use vstd::prelude::*;

verus! {

/// The character standing for a six-bit value.
pub open spec fn b64_char(v: u8) -> u8 {
    if v < 26 {
        (v + 65) as u8
    } else if v < 52 {
        (v + 71) as u8
    } else if v < 62 {
        (v - 4) as u8
    } else if v == 62 {
        45u8
    } else {
        95u8
    }
}

/// The six-bit value of an alphabet character, or 255 for a byte outside
/// the alphabet.
pub open spec fn b64_val(c: u8) -> u8 {
    if 65 <= c && c <= 90 {
        (c - 65) as u8
    } else if 97 <= c && c <= 122 {
        (c - 71) as u8
    } else if 48 <= c && c <= 57 {
        (c + 4) as u8
    } else if c == 45 {
        62u8
    } else if c == 95 {
        63u8
    } else {
        255u8
    }
}

pub open spec fn is_b64_byte(c: u8) -> bool {
    b64_val(c) != 255
}

pub proof fn lemma_b64_char_inverse(v: u8)
    requires
        v < 64,
    ensures
        b64_val(b64_char(v)) == v,
        is_b64_byte(b64_char(v)),
        b64_char(v) != 46u8,
        b64_char(v) != 34u8,
        b64_char(v) != 125u8,
{
}

/// No alphabet byte is a dot, a double quote, or a closing brace: the
/// delimiters of the token envelope and of the claims text.
pub proof fn lemma_b64_byte_not_delim(c: u8)
    requires
        is_b64_byte(c),
    ensures
        c != 46u8,
        c != 34u8,
        c != 125u8,
{
}

/// The encoding of a byte sequence, front group first.
pub open spec fn b64_encode(s: Seq<u8>) -> Seq<u8>
    decreases s.len(),
{
    if s.len() == 0 {
        Seq::empty()
    } else if s.len() == 1 {
        seq![b64_char(s[0] >> 2), b64_char((s[0] & 3) << 4)]
    } else if s.len() == 2 {
        seq![
            b64_char(s[0] >> 2),
            b64_char(((s[0] & 3) << 4) | (s[1] >> 4)),
            b64_char((s[1] & 15) << 2),
        ]
    } else {
        seq![
            b64_char(s[0] >> 2),
            b64_char(((s[0] & 3) << 4) | (s[1] >> 4)),
            b64_char(((s[1] & 15) << 2) | (s[2] >> 6)),
            b64_char(s[2] & 63),
        ] + b64_encode(s.skip(3))
    }
}

/// Whether a sequence is a canonical encoding of some byte sequence.
pub open spec fn b64_valid(s: Seq<u8>) -> bool
    decreases s.len(),
{
    if s.len() == 0 {
        true
    } else if s.len() == 1 {
        false
    } else if s.len() == 2 {
        is_b64_byte(s[0]) && is_b64_byte(s[1]) && b64_val(s[1]) & 15 == 0
    } else if s.len() == 3 {
        is_b64_byte(s[0]) && is_b64_byte(s[1]) && is_b64_byte(s[2]) && b64_val(s[2]) & 3 == 0
    } else {
        is_b64_byte(s[0]) && is_b64_byte(s[1]) && is_b64_byte(s[2]) && is_b64_byte(s[3])
            && b64_valid(s.skip(4))
    }
}

/// The bytes a sequence encodes; meaningful where `b64_valid` holds.
pub open spec fn b64_decode(s: Seq<u8>) -> Seq<u8>
    decreases s.len(),
{
    if s.len() < 2 {
        Seq::empty()
    } else if s.len() == 2 {
        seq![(b64_val(s[0]) << 2) | (b64_val(s[1]) >> 4)]
    } else if s.len() == 3 {
        seq![
            (b64_val(s[0]) << 2) | (b64_val(s[1]) >> 4),
            ((b64_val(s[1]) & 15) << 4) | (b64_val(s[2]) >> 2),
        ]
    } else {
        seq![
            (b64_val(s[0]) << 2) | (b64_val(s[1]) >> 4),
            ((b64_val(s[1]) & 15) << 4) | (b64_val(s[2]) >> 2),
            ((b64_val(s[2]) & 3) << 6) | b64_val(s[3]),
        ] + b64_decode(s.skip(4))
    }
}

/// Every encoding is canonical and decodes back to the bytes it encodes.
pub proof fn lemma_b64_roundtrip(s: Seq<u8>)
    ensures
        b64_valid(b64_encode(s)),
        b64_decode(b64_encode(s)) == s,
    decreases s.len(),
{
    if s.len() == 0 {
        assert(b64_decode(b64_encode(s)) =~= s);
    } else if s.len() == 1 {
        let b0 = s[0];
        assert(b0 >> 2 < 64 && (b0 & 3) << 4 < 64 && ((b0 & 3) << 4) & 15 == 0 && (((b0 >> 2)
            << 2) | (((b0 & 3) << 4) >> 4)) == b0) by (bit_vector);
        lemma_b64_char_inverse(b0 >> 2);
        lemma_b64_char_inverse((b0 & 3) << 4);
        assert(b64_decode(b64_encode(s)) =~= s);
    } else if s.len() == 2 {
        let b0 = s[0];
        let b1 = s[1];
        assert(b0 >> 2 < 64 && (((b0 & 3) << 4) | (b1 >> 4)) < 64 && (b1 & 15) << 2 < 64 && ((
        b1 & 15) << 2) & 3 == 0 && (((b0 >> 2) << 2) | ((((b0 & 3) << 4) | (b1 >> 4)) >> 4))
            == b0 && ((((((b0 & 3) << 4) | (b1 >> 4)) & 15) << 4) | (((b1 & 15) << 2) >> 2))
            == b1) by (bit_vector);
        lemma_b64_char_inverse(b0 >> 2);
        lemma_b64_char_inverse(((b0 & 3) << 4) | (b1 >> 4));
        lemma_b64_char_inverse((b1 & 15) << 2);
        assert(b64_decode(b64_encode(s)) =~= s);
    } else {
        let b0 = s[0];
        let b1 = s[1];
        let b2 = s[2];
        assert(b0 >> 2 < 64 && (((b0 & 3) << 4) | (b1 >> 4)) < 64 && ((((b1 & 15) << 2) | (b2
            >> 6))) < 64 && b2 & 63 < 64 && (((b0 >> 2) << 2) | ((((b0 & 3) << 4) | (b1 >> 4))
            >> 4)) == b0 && ((((((b0 & 3) << 4) | (b1 >> 4)) & 15) << 4) | ((((b1 & 15) << 2)
            | (b2 >> 6)) >> 2)) == b1 && ((((((b1 & 15) << 2) | (b2 >> 6)) & 3) << 6) | (b2
            & 63)) == b2) by (bit_vector);
        lemma_b64_char_inverse(b0 >> 2);
        lemma_b64_char_inverse(((b0 & 3) << 4) | (b1 >> 4));
        lemma_b64_char_inverse(((b1 & 15) << 2) | (b2 >> 6));
        lemma_b64_char_inverse(b2 & 63);
        lemma_b64_roundtrip(s.skip(3));
        let e = b64_encode(s);
        assert(e.skip(4) =~= b64_encode(s.skip(3)));
        assert(e[0] == b64_char(b0 >> 2) && e[1] == b64_char(((b0 & 3) << 4) | (b1 >> 4)) && e[2]
            == b64_char(((b1 & 15) << 2) | (b2 >> 6)) && e[3] == b64_char(b2 & 63));
        assert(b64_decode(e) =~= seq![b0, b1, b2] + b64_decode(e.skip(4)));
        assert(seq![b0, b1, b2] + s.skip(3) =~= s);
    }
}

/// Every byte of an encoding lies in the alphabet.
pub proof fn lemma_b64_encode_alphabet(s: Seq<u8>)
    ensures
        forall|k: int| 0 <= k < b64_encode(s).len() ==> is_b64_byte(#[trigger] b64_encode(s)[k]),
    decreases s.len(),
{
    if s.len() == 0 {
    } else if s.len() == 1 {
        let b0 = s[0];
        assert(b0 >> 2 < 64 && (b0 & 3) << 4 < 64) by (bit_vector);
    } else if s.len() == 2 {
        let b0 = s[0];
        let b1 = s[1];
        assert(b0 >> 2 < 64 && (((b0 & 3) << 4) | (b1 >> 4)) < 64 && (b1 & 15) << 2 < 64)
            by (bit_vector);
    } else {
        let b0 = s[0];
        let b1 = s[1];
        let b2 = s[2];
        assert(b0 >> 2 < 64 && (((b0 & 3) << 4) | (b1 >> 4)) < 64 && (((b1 & 15) << 2) | (b2
            >> 6)) < 64 && b2 & 63 < 64) by (bit_vector);
        lemma_b64_encode_alphabet(s.skip(3));
        assert forall|k: int| 0 <= k < b64_encode(s).len() implies is_b64_byte(
            #[trigger] b64_encode(s)[k],
        ) by {
            if k >= 4 {
                assert(b64_encode(s)[k] == b64_encode(s.skip(3))[k - 4]);
            }
        }
    }
}

/// Every byte of a canonical encoding lies in the alphabet.
pub proof fn lemma_b64_valid_alphabet(s: Seq<u8>)
    requires
        b64_valid(s),
    ensures
        forall|k: int| 0 <= k < s.len() ==> is_b64_byte(#[trigger] s[k]),
    decreases s.len(),
{
    if s.len() >= 4 {
        lemma_b64_valid_alphabet(s.skip(4));
        assert forall|k: int| 0 <= k < s.len() implies is_b64_byte(#[trigger] s[k]) by {
            if k >= 4 {
                assert(s[k] == s.skip(4)[k - 4]);
            }
        }
    }
}

/// Encoding distributes over concatenation at group boundaries.
pub proof fn lemma_b64_encode_append(a: Seq<u8>, b: Seq<u8>)
    requires
        a.len() % 3 == 0,
    ensures
        b64_encode(a + b) == b64_encode(a) + b64_encode(b),
    decreases a.len(),
{
    if a.len() == 0 {
        assert(a + b =~= b);
        assert(b64_encode(a) + b64_encode(b) =~= b64_encode(b));
    } else {
        let ab = a + b;
        assert(ab.len() >= 3);
        lemma_b64_encode_append(a.skip(3), b);
        assert(ab.skip(3) =~= a.skip(3) + b);
        if a.len() == 3 && b.len() == 0 {
            assert(ab =~= a);
            assert(b64_encode(b) =~= Seq::<u8>::empty());
            assert(b64_encode(a) + b64_encode(b) =~= b64_encode(a));
        } else {
            assert(ab[0] == a[0] && ab[1] == a[1] && ab[2] == a[2]);
            assert(b64_encode(ab) =~= b64_encode(a) + b64_encode(b));
        }
    }
}

/// Validity and decoding distribute over concatenation at group boundaries,
/// for an all-alphabet left part.
pub proof fn lemma_b64_decode_append(a: Seq<u8>, b: Seq<u8>)
    requires
        a.len() % 4 == 0,
        forall|k: int| 0 <= k < a.len() ==> is_b64_byte(#[trigger] a[k]),
    ensures
        b64_valid(a + b) == b64_valid(b),
        b64_decode(a + b) == b64_decode(a) + b64_decode(b),
    decreases a.len(),
{
    if a.len() == 0 {
        assert(a + b =~= b);
        assert(b64_decode(a) + b64_decode(b) =~= b64_decode(b));
    } else {
        let ab = a + b;
        assert(ab.len() >= 4);
        assert(forall|k: int| 0 <= k < a.skip(4).len() ==> is_b64_byte(#[trigger] a.skip(4)[k]));
        lemma_b64_decode_append(a.skip(4), b);
        assert(ab.skip(4) =~= a.skip(4) + b);
        if a.len() == 4 && b.len() == 0 {
            assert(ab =~= a);
            assert(b64_valid(a.skip(4)));
            assert(b64_decode(b) =~= Seq::<u8>::empty());
            assert(b64_decode(a) + b64_decode(b) =~= b64_decode(a));
        } else {
            assert(ab[0] == a[0] && ab[1] == a[1] && ab[2] == a[2] && ab[3] == a[3]);
            assert(a.skip(4).len() % 4 == 0);
            assert(b64_decode(a) =~= seq![
                (b64_val(a[0]) << 2) | (b64_val(a[1]) >> 4),
                ((b64_val(a[1]) & 15) << 4) | (b64_val(a[2]) >> 2),
                ((b64_val(a[2]) & 3) << 6) | b64_val(a[3]),
            ] + b64_decode(a.skip(4)));
            assert(b64_decode(ab) =~= b64_decode(a) + b64_decode(b));
        }
    }
}

/// Executable form of `b64_char`.
pub fn b64_char_exec(v: u8) -> (r: u8)
    requires
        v < 64,
    ensures
        r == b64_char(v),
{
    if v < 26 {
        v + 65
    } else if v < 52 {
        v + 71
    } else if v < 62 {
        v - 4
    } else if v == 62 {
        45
    } else {
        95
    }
}

/// Executable form of `b64_val`.
pub fn b64_val_exec(c: u8) -> (r: u8)
    ensures
        r == b64_val(c),
{
    if 65 <= c && c <= 90 {
        c - 65
    } else if 97 <= c && c <= 122 {
        c - 71
    } else if 48 <= c && c <= 57 {
        c + 4
    } else if c == 45 {
        62
    } else if c == 95 {
        63
    } else {
        255
    }
}

/// Encodes a byte slice as base64url without padding.
pub fn encode(s: &[u8]) -> (r: Vec<u8>)
    ensures
        r@ == b64_encode(s@),
{
    let mut out: Vec<u8> = Vec::new();
    let mut i: usize = 0;
    while s.len() - i >= 3
        invariant
            i <= s.len(),
            i % 3 == 0,
            out@ == b64_encode(s@.take(i as int)),
        decreases s.len() - i,
    {
        let b0 = s[i];
        let b1 = s[i + 1];
        let b2 = s[i + 2];
        proof {
            assert(b0 >> 2 < 64 && (((b0 & 3) << 4) | (b1 >> 4)) < 64 && (((b1 & 15) << 2) | (
            b2 >> 6)) < 64 && b2 & 63 < 64) by (bit_vector);
        }
        out.push(b64_char_exec(b0 >> 2));
        out.push(b64_char_exec(((b0 & 3) << 4) | (b1 >> 4)));
        out.push(b64_char_exec(((b1 & 15) << 2) | (b2 >> 6)));
        out.push(b64_char_exec(b2 & 63));
        proof {
            let pre = s@.take(i as int);
            let grp = s@.subrange(i as int, i as int + 3);
            assert(s@.take(i as int + 3) =~= pre + grp);
            lemma_b64_encode_append(pre, grp);
            assert(grp.skip(3) =~= Seq::<u8>::empty());
            assert(b64_encode(grp.skip(3)) =~= Seq::<u8>::empty());
            assert(b64_encode(grp) =~= seq![
                b64_char(grp[0] >> 2),
                b64_char(((grp[0] & 3) << 4) | (grp[1] >> 4)),
                b64_char(((grp[1] & 15) << 2) | (grp[2] >> 6)),
                b64_char(grp[2] & 63),
            ]);
            assert(out@ =~= b64_encode(pre) + b64_encode(grp));
        }
        i = i + 3;
    }
    proof {
        let pre = s@.take(i as int);
        let tail = s@.subrange(i as int, s@.len() as int);
        assert(s@ =~= pre + tail);
        lemma_b64_encode_append(pre, tail);
    }
    if s.len() - i == 1 {
        let b0 = s[i];
        proof {
            assert(b0 >> 2 < 64 && (b0 & 3) << 4 < 64) by (bit_vector);
        }
        out.push(b64_char_exec(b0 >> 2));
        out.push(b64_char_exec((b0 & 3) << 4));
        proof {
            let tail = s@.subrange(i as int, s@.len() as int);
            assert(tail =~= seq![b0]);
            assert(out@ =~= b64_encode(s@.take(i as int)) + b64_encode(tail));
        }
    } else if s.len() - i == 2 {
        let b0 = s[i];
        let b1 = s[i + 1];
        proof {
            assert(b0 >> 2 < 64 && (((b0 & 3) << 4) | (b1 >> 4)) < 64 && (b1 & 15) << 2 < 64)
                by (bit_vector);
        }
        out.push(b64_char_exec(b0 >> 2));
        out.push(b64_char_exec(((b0 & 3) << 4) | (b1 >> 4)));
        out.push(b64_char_exec((b1 & 15) << 2));
        proof {
            let tail = s@.subrange(i as int, s@.len() as int);
            assert(tail =~= seq![b0, b1]);
            assert(out@ =~= b64_encode(s@.take(i as int)) + b64_encode(tail));
        }
    } else {
        proof {
            let tail = s@.subrange(i as int, s@.len() as int);
            assert(tail =~= Seq::<u8>::empty());
            assert(out@ =~= b64_encode(s@.take(i as int)) + b64_encode(tail));
        }
    }
    out
}

/// Decodes a base64url slice; `None` exactly where the slice is not a
/// canonical encoding.
pub fn decode(s: &[u8]) -> (r: Option<Vec<u8>>)
    ensures
        r is Some <==> b64_valid(s@),
        r matches Some(v) ==> v@ == b64_decode(s@),
{
    let mut out: Vec<u8> = Vec::new();
    let mut i: usize = 0;
    while s.len() - i >= 4
        invariant
            i <= s.len(),
            i % 4 == 0,
            forall|k: int| 0 <= k < i ==> is_b64_byte(#[trigger] s@[k]),
            out@ == b64_decode(s@.take(i as int)),
        decreases s.len() - i,
    {
        let v0 = b64_val_exec(s[i]);
        let v1 = b64_val_exec(s[i + 1]);
        let v2 = b64_val_exec(s[i + 2]);
        let v3 = b64_val_exec(s[i + 3]);
        if v0 == 255 || v1 == 255 || v2 == 255 || v3 == 255 {
            proof {
                lemma_prefix_split(s@, i as int);
            }
            return None;
        }
        out.push((v0 << 2) | (v1 >> 4));
        out.push(((v1 & 15) << 4) | (v2 >> 2));
        out.push(((v2 & 3) << 6) | v3);
        proof {
            let pre = s@.take(i as int);
            let grp = s@.subrange(i as int, i as int + 4);
            assert(s@.take(i as int + 4) =~= pre + grp);
            lemma_b64_decode_append(pre, grp);
            assert(grp.skip(4) =~= Seq::<u8>::empty());
            assert(b64_decode(grp.skip(4)) =~= Seq::<u8>::empty());
            assert(b64_decode(grp) =~= seq![
                (b64_val(grp[0]) << 2) | (b64_val(grp[1]) >> 4),
                ((b64_val(grp[1]) & 15) << 4) | (b64_val(grp[2]) >> 2),
                ((b64_val(grp[2]) & 3) << 6) | b64_val(grp[3]),
            ]);
            assert(out@ =~= b64_decode(pre) + b64_decode(grp));
        }
        i = i + 4;
    }
    proof {
        lemma_prefix_split(s@, i as int);
    }
    let rem = s.len() - i;
    if rem == 0 {
        proof {
            assert(s@.subrange(i as int, s@.len() as int) =~= Seq::<u8>::empty());
            assert(out@ =~= b64_decode(s@.take(i as int)) + Seq::<u8>::empty());
        }
        Some(out)
    } else if rem == 1 {
        None
    } else if rem == 2 {
        let v0 = b64_val_exec(s[i]);
        let v1 = b64_val_exec(s[i + 1]);
        proof {
            assert(s@.subrange(i as int, s@.len() as int) =~= seq![s@[i as int], s@[i as int + 1]]);
        }
        if v0 == 255 || v1 == 255 || v1 & 15 != 0 {
            return None;
        }
        out.push((v0 << 2) | (v1 >> 4));
        proof {
            let tail = s@.subrange(i as int, s@.len() as int);
            assert(out@ =~= b64_decode(s@.take(i as int)) + b64_decode(tail));
        }
        Some(out)
    } else {
        let v0 = b64_val_exec(s[i]);
        let v1 = b64_val_exec(s[i + 1]);
        let v2 = b64_val_exec(s[i + 2]);
        proof {
            assert(s@.subrange(i as int, s@.len() as int) =~= seq![
                s@[i as int],
                s@[i as int + 1],
                s@[i as int + 2],
            ]);
        }
        if v0 == 255 || v1 == 255 || v2 == 255 || v2 & 3 != 0 {
            return None;
        }
        out.push((v0 << 2) | (v1 >> 4));
        out.push(((v1 & 15) << 4) | (v2 >> 2));
        proof {
            let tail = s@.subrange(i as int, s@.len() as int);
            assert(out@ =~= b64_decode(s@.take(i as int)) + b64_decode(tail));
        }
        Some(out)
    }
}

/// Splitting at a group boundary inside an all-alphabet prefix carries
/// validity and decoding over to the remainder.
proof fn lemma_prefix_split(s: Seq<u8>, i: int)
    requires
        0 <= i <= s.len(),
        i % 4 == 0,
        forall|k: int| 0 <= k < i ==> is_b64_byte(#[trigger] s[k]),
    ensures
        b64_valid(s) == b64_valid(s.subrange(i, s.len() as int)),
        b64_decode(s) == b64_decode(s.take(i)) + b64_decode(s.subrange(i, s.len() as int)),
{
    let pre = s.take(i);
    let tail = s.subrange(i, s.len() as int);
    assert(s =~= pre + tail);
    lemma_b64_decode_append(pre, tail);
}

} // verus!
