//! Decimal parsing of satoshi amounts and fee rates.
//!
//! Spend requests arrive as text form fields; amounts and fee rates must
//! parse as unsigned decimal integers before any other work is done.

use vstd::prelude::*;
use vstd::string::StringSliceAdditionalSpecFns;

verus! {

/// An ASCII decimal digit, as a byte.
pub open spec fn is_dec_digit(b: u8) -> bool {
    48 <= b <= 57
}

/// The number denoted by a string of decimal digit bytes, most
/// significant digit first.
pub open spec fn dec_value(s: Seq<u8>) -> nat
    decreases s.len(),
{
    if s.len() == 0 {
        0
    } else {
        dec_value(s.drop_last()) * 10 + (s.last() - 48) as nat
    }
}

pub open spec fn all_dec_digits(s: Seq<u8>) -> bool {
    forall|i: int| 0 <= i < s.len() ==> is_dec_digit(#[trigger] s[i])
}

/// The digit portion of a decimal literal: an optional leading `+`
/// (byte 43) is ignored, as the standard library's integer parser does.
pub open spec fn dec_digits_part(s: Seq<u8>) -> Seq<u8> {
    if s.len() > 0 && s[0] == 43 {
        s.drop_first()
    } else {
        s
    }
}

/// Whether a byte string is a well-formed unsigned decimal literal whose
/// value fits in `u64`.
pub open spec fn parses_as_u64(s: Seq<u8>) -> bool {
    let d = dec_digits_part(s);
    &&& d.len() > 0
    &&& all_dec_digits(d)
    &&& dec_value(d) <= u64::MAX
}

/// The value of a well-formed unsigned decimal literal.
pub open spec fn parsed_u64(s: Seq<u8>) -> nat {
    dec_value(dec_digits_part(s))
}

/// A digit string denotes at least as much as any of its prefixes.
proof fn lemma_dec_value_prefix(s: Seq<u8>, k: int)
    requires
        0 <= k <= s.len(),
    ensures
        dec_value(s.take(k)) <= dec_value(s),
    decreases s.len(),
{
    if k < s.len() {
        assert(s.drop_last().take(k) == s.take(k));
        lemma_dec_value_prefix(s.drop_last(), k);
        assert(dec_value(s.drop_last()) * 10 >= dec_value(s.drop_last())) by (nonlinear_arith);
    } else {
        assert(s.take(k) == s);
    }
}

/// Parses an unsigned decimal integer, accepting exactly the strings the
/// standard library's `u64` parser accepts: an optional leading `+`
/// followed by one or more ASCII digits, with a value that fits in `u64`.
pub fn parse_u64_dec(s: &str) -> (r: Option<u64>)
    ensures
        parses_as_u64(s.spec_bytes()) <==> r is Some,
        r is Some ==> r->0 == parsed_u64(s.spec_bytes()),
{
    let b = s.as_bytes();
    let ghost whole = s.spec_bytes();
    let start: usize = if b.len() > 0 && b[0] == 43 {
        1
    } else {
        0
    };
    let ghost d = dec_digits_part(whole);
    proof {
        assert(d =~= whole.subrange(start as int, whole.len() as int));
    }
    if start >= b.len() {
        return None;
    }
    let mut acc: u64 = 0;
    let mut j: usize = start;
    while j < b.len()
        invariant
            start <= j <= b.len(),
            b@ == whole,
            whole == s.spec_bytes(),
            d == dec_digits_part(whole),
            d == whole.subrange(start as int, whole.len() as int),
            all_dec_digits(d.take(j - start)),
            acc == dec_value(d.take(j - start)),
        decreases b.len() - j,
    {
        let c = b[j];
        if c < 48 || c > 57 {
            proof {
                assert(d[j - start] == c);
                assert(!all_dec_digits(d));
            }
            return None;
        }
        let digit = (c - 48) as u64;
        proof {
            assert(d.take(j - start + 1).drop_last() == d.take(j - start));
            assert(d.take(j - start + 1).last() == d[j - start]);
        }
        if acc > (u64::MAX - digit) / 10 {
            proof {
                let pre = d.take(j - start + 1);
                assert(dec_value(pre) == acc * 10 + digit);
                assert(acc * 10 + digit > u64::MAX) by (nonlinear_arith)
                    requires
                        acc > (u64::MAX - digit) / 10,
                        digit <= 9,
                ;
                lemma_dec_value_prefix(d, j - start + 1);
            }
            return None;
        }
        proof {
            assert(acc * 10 + digit <= u64::MAX) by (nonlinear_arith)
                requires
                    acc <= (u64::MAX - digit) / 10,
                    digit <= 9,
            ;
        }
        acc = acc * 10 + digit;
        j += 1;
    }
    proof {
        assert(d.take(j - start) == d);
    }
    Some(acc)
}

} // verus!
