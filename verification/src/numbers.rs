//! Decimal and hexadecimal numerals: the grammar of the numeric fields
//! and of the pieces of a textual IP address.

use vstd::prelude::*;
use vstd::string::*;

verus! {

pub open spec fn is_digit(c: char) -> bool {
    48 <= c as u32 <= 57
}

pub open spec fn digit_val(c: char) -> int {
    c as u32 - 48
}

pub open spec fn all_digits(s: Seq<char>) -> bool {
    forall|i: int| 0 <= i < s.len() ==> is_digit(s[i])
}

/// The value of a string of decimal digits, most significant first.
pub open spec fn digits_val(s: Seq<char>) -> int
    decreases s.len(),
{
    if s.len() == 0 {
        0
    } else {
        10 * digits_val(s.drop_last()) + digit_val(s.last())
    }
}

pub open spec fn is_hex_digit(c: char) -> bool {
    48 <= c as u32 <= 57 || 97 <= c as u32 <= 102 || 65 <= c as u32 <= 70
}

pub open spec fn hex_digit_val(c: char) -> int {
    if 48 <= c as u32 <= 57 {
        c as u32 - 48
    } else if 97 <= c as u32 <= 102 {
        c as u32 - 87
    } else {
        c as u32 - 55
    }
}

pub open spec fn all_hex_digits(s: Seq<char>) -> bool {
    forall|i: int| 0 <= i < s.len() ==> is_hex_digit(s[i])
}

/// The value of a string of hexadecimal digits, most significant first.
pub open spec fn hex_val(s: Seq<char>) -> int
    decreases s.len(),
{
    if s.len() == 0 {
        0
    } else {
        16 * hex_val(s.drop_last()) + hex_digit_val(s.last())
    }
}

/// The digits of an unsigned decimal numeral: an optional leading `+`
/// sign is not part of the value.
pub open spec fn digits_of_uint(s: Seq<char>) -> Seq<char> {
    if s.len() > 0 && s[0] == '+' {
        s.skip(1)
    } else {
        s
    }
}

/// A non-negative decimal numeral: an optional `+` sign followed by at
/// least one decimal digit.
pub open spec fn valid_uint_text(s: Seq<char>) -> bool {
    digits_of_uint(s).len() > 0 && all_digits(digits_of_uint(s))
}

pub open spec fn uint_val(s: Seq<char>) -> int {
    digits_val(digits_of_uint(s))
}

/// What parsing a bounded numeric field yields: its value when the text
/// is a numeral whose value fits in `usize`, nothing otherwise.
pub open spec fn spec_parse_usize(s: Seq<char>) -> Option<usize> {
    if valid_uint_text(s) && uint_val(s) <= usize::MAX {
        Some(uint_val(s) as usize)
    } else {
        None
    }
}

pub proof fn lemma_digits_val_nonneg(s: Seq<char>)
    requires
        all_digits(s),
    ensures
        digits_val(s) >= 0,
    decreases s.len(),
{
    if s.len() > 0 {
        assert(forall|i: int| 0 <= i < s.drop_last().len() ==> s.drop_last()[i] == s[i]);
        lemma_digits_val_nonneg(s.drop_last());
    }
}

/// A digit string is worth at least any of its prefixes.
pub proof fn lemma_digits_prefix_le(s: Seq<char>, k: int)
    requires
        all_digits(s),
        0 <= k <= s.len(),
    ensures
        digits_val(s.take(k)) <= digits_val(s),
    decreases s.len(),
{
    if k == s.len() {
        assert(s.take(k) =~= s);
    } else {
        let p = s.drop_last();
        assert(forall|i: int| 0 <= i < p.len() ==> p[i] == s[i]);
        lemma_digits_val_nonneg(p);
        lemma_digits_prefix_le(p, k);
        assert(s.take(k) =~= p.take(k));
    }
}

/// At most four hexadecimal digits stay below 2^16.
pub proof fn lemma_hex_val_bound(s: Seq<char>)
    requires
        all_hex_digits(s),
        s.len() <= 4,
    ensures
        0 <= hex_val(s) < if s.len() == 0 {
            1int
        } else if s.len() == 1 {
            16int
        } else if s.len() == 2 {
            256int
        } else if s.len() == 3 {
            4096int
        } else {
            65536int
        },
    decreases s.len(),
{
    if s.len() > 0 {
        assert(forall|i: int| 0 <= i < s.drop_last().len() ==> s.drop_last()[i] == s[i]);
        lemma_hex_val_bound(s.drop_last());
    }
}

/// Parse `s` as an unsigned decimal numeral.
///
/// Returns the value exactly when `s` is an optional `+` sign followed by
/// decimal digits and the value fits in `usize`.
pub fn parse_usize_text(s: &str) -> (r: Option<usize>)
    ensures
        r == spec_parse_usize(s@),
{
    let n = s.unicode_len();
    let start: usize = if n > 0 && s.get_char(0) == '+' {
        1
    } else {
        0
    };
    let ghost d = digits_of_uint(s@);
    proof {
        assert(d =~= s@.skip(start as int));
    }
    if n == start {
        return None;
    }
    let mut i: usize = start;
    let mut acc: usize = 0;
    while i < n
        invariant
            start <= i <= n,
            n == s@.len(),
            start == 1 ==> s@[0] == '+',
            d == digits_of_uint(s@),
            d =~= s@.skip(start as int),
            all_digits(d.take(i - start)),
            acc == digits_val(d.take(i - start)),
        decreases n - i,
    {
        let c = s.get_char(i);
        let v = c as u32;
        proof {
            assert(d[i - start as int] == s@[i as int]);
        }
        if v < 48 || v > 57 {
            // a non-digit inside the numeral: the text is not a numeral
            return None;
        }
        let dv = (v - 48) as usize;
        let ghost k = i - start as int;
        proof {
            assert(d.take(k + 1).drop_last() =~= d.take(k));
            assert(d.take(k + 1).last() == d[k]);
            assert(digits_val(d.take(k + 1)) == 10 * acc + dv);
        }
        let step = match acc.checked_mul(10) {
            Some(p) => p.checked_add(dv),
            None => None,
        };
        match step {
            Some(next) => {
                acc = next;
            },
            None => {
                // the value no longer fits in usize, and growing the
                // numeral can only increase it
                proof {
                    if valid_uint_text(s@) {
                        lemma_digits_prefix_le(d, k + 1);
                    }
                }
                return None;
            },
        }
        i = i + 1;
    }
    proof {
        assert(d.take(n - start as int) =~= d);
    }
    Some(acc)
}

} // verus!
