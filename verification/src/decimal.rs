//! Decimal text for 64-bit signed integers: the value of a run of digits,
//! and the canonical decimal rendering of a value.  Integer literals are
//! parsed with these functions, and integer nodes are rendered with them;
//! `lemma_decimal_round_trip` states that rendering inverts parsing.

use vstd::prelude::*;

verus! {

use crate::text::{is_digit_char, char_is_digit, push_char};
use vstd::string::StrSliceExecFns;

/// The numeric value of one digit character.
pub open spec fn digit_val(c: char) -> int {
    c as int - 48
}

/// Every character of the text is a decimal digit.
pub open spec fn all_digits(s: Seq<char>) -> bool {
    forall|k: int| 0 <= k < s.len() ==> is_digit_char(s[k])
}

/// The value of a run of digits read in base ten.
pub open spec fn digits_val(s: Seq<char>) -> int
    decreases s.len(),
{
    if s.len() == 0 {
        0
    } else {
        10 * digits_val(s.drop_last()) + digit_val(s.last())
    }
}

/// What parsing a digit run as an `i64` yields: the base-ten value where the
/// text is a non-empty run of digits whose value fits, nothing otherwise.
pub open spec fn spec_parse_i64(s: Seq<char>) -> Option<i64> {
    if s.len() > 0 && all_digits(s) && digits_val(s) <= i64::MAX {
        Some(digits_val(s) as i64)
    } else {
        None
    }
}

/// The digit character of one value below ten.
pub open spec fn spec_digit_char(d: int) -> char {
    if d == 0 {
        '0'
    } else if d == 1 {
        '1'
    } else if d == 2 {
        '2'
    } else if d == 3 {
        '3'
    } else if d == 4 {
        '4'
    } else if d == 5 {
        '5'
    } else if d == 6 {
        '6'
    } else if d == 7 {
        '7'
    } else if d == 8 {
        '8'
    } else {
        '9'
    }
}

/// The decimal digits of a non-negative value, most significant first.
pub open spec fn dec_digits(n: int) -> Seq<char>
    decreases n,
{
    if n < 10 {
        seq![spec_digit_char(n)]
    } else {
        dec_digits(n / 10).push(spec_digit_char(n % 10))
    }
}

/// The decimal rendering of a signed value: a minus sign before the digits
/// of the magnitude where the value is negative.
pub open spec fn spec_i64_string(v: int) -> Seq<char> {
    if v < 0 {
        seq!['-'] + dec_digits(-v)
    } else {
        dec_digits(v)
    }
}

/// The value of a run of digits is never negative.
pub proof fn lemma_digits_val_nonneg(s: Seq<char>)
    requires
        all_digits(s),
    ensures
        digits_val(s) >= 0,
    decreases s.len(),
{
    if s.len() > 0 {
        assert(all_digits(s.drop_last()));
        lemma_digits_val_nonneg(s.drop_last());
    }
}

/// The value of a prefix of a digit run is at most the value of the whole.
pub proof fn lemma_digits_val_prefix(s: Seq<char>, i: int)
    requires
        all_digits(s),
        0 <= i <= s.len(),
    ensures
        digits_val(s.subrange(0, i)) <= digits_val(s),
    decreases s.len() - i,
{
    if i < s.len() {
        let t = s.subrange(0, i + 1);
        assert(t.drop_last() =~= s.subrange(0, i));
        assert(all_digits(t.drop_last()));
        lemma_digits_val_nonneg(t.drop_last());
        assert(digits_val(s.subrange(0, i)) <= digits_val(s.subrange(0, i + 1)));
        lemma_digits_val_prefix(s, i + 1);
    } else {
        assert(s.subrange(0, i) =~= s);
    }
}

/// Parses a non-empty run of decimal digits as an `i64`, per
/// [`spec_parse_i64`].
pub fn parse_decimal_i64(s: &str) -> (r: Option<i64>)
    ensures
        r == spec_parse_i64(s@),
{
    let n = s.unicode_len();
    if n == 0 {
        return None;
    }
    let mut acc: i64 = 0;
    let mut i: usize = 0;
    while i < n
        invariant
            n == s@.len(),
            0 < n,
            i <= n,
            all_digits(s@.subrange(0, i as int)),
            acc == digits_val(s@.subrange(0, i as int)),
            0 <= acc <= i64::MAX,
        decreases n - i,
    {
        let c = s.get_char(i);
        if !char_is_digit(c) {
            proof {
                assert(!all_digits(s@));
            }
            return None;
        }
        let d: i64 = ((c as u32) - 48) as i64;
        proof {
            assert(s@.subrange(0, i + 1).drop_last() =~= s@.subrange(0, i as int));
            assert(s@.subrange(0, i + 1).last() == s@[i as int]);
        }
        if acc > (i64::MAX - d) / 10 {
            proof {
                let t = s@.subrange(0, i + 1);
                assert(digits_val(t) == 10 * acc + d);
                assert(10 * acc + d > i64::MAX) by {
                    assert(acc >= (i64::MAX - d) / 10 + 1);
                    assert(10 * ((i64::MAX - d) / 10) + (i64::MAX - d) % 10 == i64::MAX - d);
                };
                if all_digits(s@) {
                    lemma_digits_val_prefix(s@, i + 1);
                    assert(digits_val(s@) > i64::MAX);
                }
            }
            return None;
        }
        acc = acc * 10 + d;
        i = i + 1;
    }
    proof {
        assert(s@.subrange(0, n as int) =~= s@);
    }
    Some(acc)
}

/// The digit character of a value below ten, per [`spec_digit_char`].
fn digit_char(d: u64) -> (c: char)
    requires
        d < 10,
    ensures
        c == spec_digit_char(d as int),
{
    match d {
        0 => '0',
        1 => '1',
        2 => '2',
        3 => '3',
        4 => '4',
        5 => '5',
        6 => '6',
        7 => '7',
        8 => '8',
        _ => '9',
    }
}

/// Renders a signed value as decimal text, per [`spec_i64_string`].
pub fn i64_to_string(v: i64) -> (r: String)
    ensures
        r@ == spec_i64_string(v as int),
{
    let mag: u64 = if v >= 0 {
        v as u64
    } else {
        // -v computed without overflowing i64::MIN
        let neg: i64 = -(v + 1);
        (neg as u64) + 1
    };
    proof {
        assert(mag as int == if v >= 0 { v as int } else { -(v as int) });
    }
    let mut digits: Vec<char> = Vec::new();
    if mag == 0 {
        digits.push('0');
        proof {
            assert(dec_digits(mag as int) =~= digits@.reverse());
        }
    } else {
        let mut m = mag;
        while m > 0
            invariant
                if m > 0 {
                    dec_digits(mag as int) =~= dec_digits(m as int) + digits@.reverse()
                } else {
                    dec_digits(mag as int) =~= digits@.reverse()
                },
            decreases m,
        {
            let d = m % 10;
            let ghost prev = digits@;
            digits.push(digit_char(d));
            proof {
                assert(digits@ =~= prev.push(spec_digit_char(d as int)));
                assert(digits@.reverse() =~= seq![spec_digit_char(d as int)] + prev.reverse());
                if m >= 10 {
                    assert(dec_digits(m as int) == dec_digits(m as int / 10).push(
                        spec_digit_char(m as int % 10),
                    ));
                    assert(dec_digits((m / 10) as int) + digits@.reverse() =~= dec_digits(
                        m as int,
                    ) + prev.reverse());
                } else {
                    assert(dec_digits(m as int) =~= seq![spec_digit_char(d as int)]);
                    assert(dec_digits(mag as int) =~= digits@.reverse());
                }
            }
            m = m / 10;
        }
    }
    let mut out = String::new();
    let ghost prefix: Seq<char> = if v < 0 {
        seq!['-']
    } else {
        Seq::empty()
    };
    if v < 0 {
        push_char(&mut out, '-');
    }
    proof {
        assert(out@ =~= prefix);
        assert(digits@.subrange(digits@.len() as int, digits@.len() as int) =~= Seq::<
            char,
        >::empty());
    }
    let mut i = digits.len();
    while i > 0
        invariant
            i <= digits@.len(),
            out@ =~= prefix + digits@.subrange(i as int, digits@.len() as int).reverse(),
        decreases i,
    {
        i = i - 1;
        push_char(&mut out, digits[i]);
        proof {
            assert(digits@.subrange(i as int, digits@.len() as int).reverse() =~= digits@.subrange(
                i + 1,
                digits@.len() as int,
            ).reverse().push(digits@[i as int]));
            assert(out@ =~= prefix + digits@.subrange(i as int, digits@.len() as int).reverse());
        }
    }
    proof {
        assert(digits@.subrange(0, digits@.len() as int) =~= digits@);
        assert(out@ =~= prefix + dec_digits(mag as int));
        if v >= 0 {
            assert(out@ =~= dec_digits(v as int));
        }
    }
    out
}

/// Rendering a non-negative value yields digits that parse back to the same
/// value: decimal text round-trips.
pub proof fn lemma_decimal_round_trip(n: int)
    requires
        0 <= n,
    ensures
        all_digits(dec_digits(n)),
        digits_val(dec_digits(n)) == n,
    decreases n,
{
    if n < 10 {
        let d = dec_digits(n);
        assert(d =~= seq![spec_digit_char(n)]);
        assert(d.drop_last() =~= Seq::<char>::empty());
        assert(digits_val(d) == 10 * digits_val(Seq::<char>::empty()) + digit_val(d.last()));
        assert(digit_val(spec_digit_char(n)) == n);
    } else {
        lemma_decimal_round_trip(n / 10);
        let d = dec_digits(n);
        assert(d.drop_last() =~= dec_digits(n / 10));
        assert(digits_val(d) == 10 * (n / 10) + (n % 10));
    }
}

} // verus!
