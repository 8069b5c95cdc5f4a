//! The token envelope: three dot-separated base64url segments — a fixed
//! algorithm header, the claims text, and the signature.
use vstd::prelude::*;
use crate::scan;
use crate::scan::find_byte;

verus! {

/// The dot separating the token's segments.
pub const DOT: u8 = 46;

/// The bytes of the fixed header `{"alg":"HS256","typ":"JWT"}`.
pub open spec fn header_text() -> Seq<u8> {
    seq![
        123u8, 34u8, 97u8, 108u8, 103u8, 34u8, 58u8, 34u8, 72u8, 83u8, 50u8, 53u8, 54u8, 34u8,
        44u8, 34u8, 116u8, 121u8, 112u8, 34u8, 58u8, 34u8, 74u8, 87u8, 84u8, 34u8, 125u8,
    ]
}

/// Builds the fixed header bytes.
pub fn header_vec() -> (r: Vec<u8>)
    ensures
        r@ == header_text(),
{
    let r: Vec<u8> = vec![
        123u8, 34u8, 97u8, 108u8, 103u8, 34u8, 58u8, 34u8, 72u8, 83u8, 50u8, 53u8, 54u8, 34u8,
        44u8, 34u8, 116u8, 121u8, 112u8, 34u8, 58u8, 34u8, 74u8, 87u8, 84u8, 34u8, 125u8,
    ];
    proof {
        assert(r@ =~= header_text());
    }
    r
}

/// The three segments of a token, where it has exactly two dots.
pub open spec fn split3(t: Seq<u8>) -> Option<(Seq<u8>, Seq<u8>, Seq<u8>)> {
    let i = find_byte(t, DOT);
    if i < 0 {
        None
    } else {
        let rest = t.skip(i + 1);
        let j = find_byte(rest, DOT);
        if j < 0 {
            None
        } else {
            let g = rest.skip(j + 1);
            if find_byte(g, DOT) >= 0 {
                None
            } else {
                Some((t.take(i), rest.take(j), g))
            }
        }
    }
}

/// Finds the two separating dots; `None` exactly where the envelope does not
/// consist of three dot-free segments.
pub fn split_token(t: &[u8]) -> (r: Option<(usize, usize)>)
    ensures
        r matches Some(p) ==> p.0 < p.1 < t@.len() && t@[p.0 as int] == DOT && t@[p.1 as int]
            == DOT && split3(t@) == Some(
            (
                t@.subrange(0, p.0 as int),
                t@.subrange(p.0 + 1, p.1 as int),
                t@.subrange(p.1 + 1, t@.len() as int),
            ),
        ),
        r is None ==> split3(t@) is None,
{
    let n = t.len();
    let i = match scan::find_byte_from(t, DOT, 0) {
        None => {
            proof {
                assert(t@.skip(0) =~= t@);
            }
            return None;
        },
        Some(i) => i,
    };
    proof {
        assert(t@.skip(0) =~= t@);
        assert(find_byte(t@, DOT) == i);
    }
    let j = match scan::find_byte_from(t, DOT, i + 1) {
        None => {
            return None;
        },
        Some(j) => j,
    };
    let ghost rest = t@.skip(i + 1);
    proof {
        assert(find_byte(rest, DOT) == j - (i + 1));
    }
    match scan::find_byte_from(t, DOT, j + 1) {
        None => {},
        Some(_) => {
            proof {
                assert(rest.skip(j - i) =~= t@.skip(j + 1));
            }
            return None;
        },
    }
    proof {
        assert(rest.skip(j - i) =~= t@.skip(j + 1));
        assert(t@.take(i as int) =~= t@.subrange(0, i as int));
        assert(rest.take(j - (i + 1)) =~= t@.subrange(i + 1, j as int));
        assert(rest.skip(j - i) =~= t@.subrange(j + 1, n as int));
    }
    Some((i, j))
}

} // verus!
