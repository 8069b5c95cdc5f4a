//! Signed decimal text for the expiry second: printing an `i64` and parsing
//! one back, with parsing strict enough to reject values outside the `i64`
//! range.
use vstd::prelude::*;
use vstd::arithmetic::div_mod::lemma_fundamental_div_mod;

verus! {

pub open spec fn is_digit(c: u8) -> bool {
    48 <= c && c <= 57
}

pub open spec fn all_digits(s: Seq<u8>) -> bool {
    forall|k: int| 0 <= k < s.len() ==> is_digit(#[trigger] s[k])
}

/// The value of a digit string, most significant digit first.
pub open spec fn dec_val(s: Seq<u8>) -> int
    decreases s.len(),
{
    if s.len() == 0 {
        0
    } else {
        dec_val(s.drop_last()) * 10 + (s.last() - 48)
    }
}

/// The canonical digit string of a non-negative number.
pub open spec fn dec_of_nat(n: int) -> Seq<u8>
    decreases n,
{
    if n < 10 {
        seq![(48 + n) as u8]
    } else {
        dec_of_nat(n / 10) + seq![(48 + n % 10) as u8]
    }
}

/// The canonical decimal text of an integer.
pub open spec fn dec_of_int(n: int) -> Seq<u8> {
    if n < 0 {
        seq![45u8] + dec_of_nat(-n)
    } else {
        dec_of_nat(n)
    }
}

/// The number a decimal text denotes, where it denotes an `i64`.
pub open spec fn parse_dec(s: Seq<u8>) -> Option<i64> {
    if s.len() > 0 && s[0] == 45 {
        let d = s.skip(1);
        if d.len() > 0 && all_digits(d) && dec_val(d) <= 0x8000000000000000 {
            Some((-dec_val(d)) as i64)
        } else {
            None
        }
    } else if s.len() > 0 && all_digits(s) && dec_val(s) <= 0x7fffffffffffffff {
        Some(dec_val(s) as i64)
    } else {
        None
    }
}

/// The canonical digit string of `n` consists of digits and denotes `n`.
pub proof fn lemma_dec_of_nat(n: int)
    requires
        n >= 0,
    ensures
        all_digits(dec_of_nat(n)),
        dec_val(dec_of_nat(n)) == n,
        dec_of_nat(n).len() >= 1,
    decreases n,
{
    if n < 10 {
        let s = dec_of_nat(n);
        assert(s =~= seq![(48 + n) as u8]);
        assert(s.drop_last() =~= Seq::<u8>::empty());
        assert(dec_val(s.drop_last()) == 0);
    } else {
        lemma_dec_of_nat(n / 10);
        lemma_fundamental_div_mod(n, 10);
        let pre = dec_of_nat(n / 10);
        let s = dec_of_nat(n);
        assert(s =~= pre + seq![(48 + n % 10) as u8]);
        assert(s.drop_last() =~= pre);
        assert(s.last() == (48 + n % 10) as u8);
        assert(dec_val(s) == dec_val(pre) * 10 + n % 10);
        assert(forall|k: int|
            0 <= k < s.len() ==> is_digit(#[trigger] s[k]));
    }
}

/// Parsing inverts printing on every `i64`.
pub proof fn lemma_dec_roundtrip(n: i64)
    ensures
        parse_dec(dec_of_int(n as int)) == Some(n),
{
    if n >= 0 {
        lemma_dec_of_nat(n as int);
        let s = dec_of_int(n as int);
        assert(is_digit(s[0]));
        assert(s[0] != 45);
        assert(dec_val(s) <= 0x7fffffffffffffff);
    } else {
        lemma_dec_of_nat(-(n as int));
        let s = dec_of_int(n as int);
        assert(s.skip(1) =~= dec_of_nat(-(n as int)));
        assert(dec_val(s.skip(1)) == -(n as int));
        assert(dec_val(s.skip(1)) <= 0x8000000000000000);
    }
}

/// A digit string denotes a non-negative number no smaller than what any of
/// its prefixes denotes.
pub proof fn lemma_dec_val_bounds(s: Seq<u8>, i: int)
    requires
        all_digits(s),
        0 <= i <= s.len(),
    ensures
        dec_val(s) >= 0,
        dec_val(s.take(i)) >= 0,
        dec_val(s) >= dec_val(s.take(i)),
    decreases s.len() - i,
{
    lemma_dec_val_nonneg(s);
    if i == s.len() {
        assert(s.take(i) =~= s);
    } else {
        lemma_dec_val_bounds(s, i + 1);
        let t = s.take(i + 1);
        assert(t.drop_last() =~= s.take(i));
        lemma_dec_val_nonneg(s.take(i));
        assert(dec_val(t) == dec_val(s.take(i)) * 10 + (s[i] - 48));
    }
}

proof fn lemma_dec_val_nonneg(s: Seq<u8>)
    requires
        all_digits(s),
    ensures
        dec_val(s) >= 0,
    decreases s.len(),
{
    if s.len() > 0 {
        assert(all_digits(s.drop_last())) by {
            assert(forall|k: int| 0 <= k < s.len() - 1 ==> s.drop_last()[k] == s[k]);
        }
        lemma_dec_val_nonneg(s.drop_last());
    }
}

/// Prints `n` as canonical decimal text.
pub fn print_dec(n: i64) -> (r: Vec<u8>)
    ensures
        r@ == dec_of_int(n as int),
{
    let neg = n < 0;
    let m: u64 = if n < 0 {
        (-(n as i128)) as u64
    } else {
        n as u64
    };
    proof {
        assert(m == if n < 0 { -(n as int) } else { n as int });
    }
    let mut buf: Vec<u8> = Vec::new();
    if m == 0 {
        buf.push(48);
        proof {
            assert(buf@ =~= dec_of_nat(0));
        }
    } else {
        let mut m2: u64 = m;
        while m2 > 0
            invariant
                m2 <= m,
                m2 > 0 ==> dec_of_nat(m as int) == dec_of_nat(m2 as int) + buf@,
                m2 == 0 ==> dec_of_nat(m as int) == buf@,
            decreases m2,
        {
            let d: u8 = (m2 % 10) as u8 + 48;
            buf.insert(0, d);
            proof {
                if m2 >= 10 {
                    assert(dec_of_nat(m2 as int) == dec_of_nat(m2 as int / 10) + seq![d]);
                    assert(dec_of_nat(m2 as int / 10) + (seq![d] + buf@.drop_first()) =~=
                        (dec_of_nat(m2 as int / 10) + seq![d]) + buf@.drop_first());
                    assert(m2 as int / 10 == (m2 / 10) as int);
                } else {
                    assert(dec_of_nat(m2 as int) =~= seq![d]);
                }
                assert(seq![d] + buf@.drop_first() =~= buf@);
            }
            m2 = m2 / 10;
        }
        proof {
            assert(buf@ == dec_of_nat(m as int));
        }
    }
    if neg {
        buf.insert(0, 45);
        proof {
            assert(seq![45u8] + buf@.drop_first() =~= buf@);
        }
    }
    buf
}

/// Parses decimal text; `None` exactly where the text does not denote an
/// `i64`.
pub fn parse_dec_exec(s: &[u8]) -> (r: Option<i64>)
    ensures
        r == parse_dec(s@),
{
    if s.len() == 0 {
        return None;
    }
    let neg = s[0] == 45;
    let start: usize = if neg {
        1
    } else {
        0
    };
    if s.len() == start {
        return None;
    }
    let ghost d = if neg {
        s@.skip(1)
    } else {
        s@
    };
    let mut acc: u128 = 0;
    let mut i: usize = start;
    while i < s.len()
        invariant
            start < s@.len(),
            start <= i <= s@.len(),
            neg == (s@[0] == 45),
            start == if neg { 1int } else { 0int },
            d == if neg { s@.skip(1) } else { s@ },
            all_digits(d.take(i - start)),
            acc == dec_val(d.take(i - start)),
            acc <= 0x8000000000000000,
        decreases s@.len() - i,
    {
        let c = s[i];
        if c < 48 || c > 57 {
            proof {
                assert(d[i - start] == c);
                assert(!all_digits(d));
            }
            return None;
        }
        acc = acc * 10 + (c - 48) as u128;
        proof {
            let t = d.take(i - start + 1);
            assert(t.drop_last() =~= d.take(i - start));
            assert(t.last() == c);
            assert(all_digits(t));
        }
        if acc > 0x8000000000000000 {
            proof {
                lemma_prefix_forces_overflow(d, i - start + 1);
            }
            return None;
        }
        i = i + 1;
    }
    proof {
        assert(d.take(i - start) =~= d);
    }
    if neg {
        if acc > 0x8000000000000000 {
            return None;
        }
        proof {
            assert(dec_val(d) <= 0x8000000000000000);
        }
        if acc == 0x8000000000000000 {
            Some(i64::MIN)
        } else {
            Some(-((acc as i64)))
        }
    } else {
        if acc > 0x7fffffffffffffff {
            return None;
        }
        Some(acc as i64)
    }
}

/// A digit prefix already past the `i64` range forces the whole string past
/// it.
proof fn lemma_prefix_forces_overflow(d: Seq<u8>, j: int)
    requires
        0 < j <= d.len(),
        all_digits(d.take(j)),
        dec_val(d.take(j)) > 0x8000000000000000,
    ensures
        !all_digits(d) || dec_val(d) > 0x8000000000000000,
{
    if all_digits(d) {
        lemma_dec_val_bounds(d, j);
    }
}

} // verus!
