//! Amounts of money and how they are read from text.
//!
//! An amount is a signed count of hundredths of the currency unit. Text is
//! read as an optional sign, digits, and an optional point with further
//! digits; what lies beyond the second digit after the point is rounded,
//! halves away from zero.

use crate::text::{chars_of, decimal_of, digit_char, push_decimal};
use vstd::prelude::*;

verus! {

/// Largest whole part whose hundredfold may still fit an amount.
pub const WHOLE_CAP: u64 = 92233720368547758;

/// `c` is one of `0` to `9`.
pub open spec fn is_digit(c: char) -> bool {
    48 <= c as u32 <= 57
}

/// The number that the digit `c` stands for.
pub open spec fn digit_of(c: char) -> int {
    c as u32 - 48
}

/// Every character of `s` is a digit.
pub open spec fn all_digits(s: Seq<char>) -> bool {
    forall|i: int| 0 <= i < s.len() ==> is_digit(#[trigger] s[i])
}

/// The number written by the digits `s`, most significant first.
pub open spec fn number_of(s: Seq<char>) -> int
    decreases s.len(),
{
    if s.len() == 0 {
        0
    } else {
        10 * number_of(s.drop_last()) + digit_of(s.last())
    }
}

/// Index of the first point in `s`; `s.len()` if it holds none.
pub open spec fn point_at(s: Seq<char>) -> int
    decreases s.len(),
{
    if s.len() == 0 || s[0] == '.' {
        0
    } else {
        1 + point_at(s.drop_first())
    }
}

/// What stands in front of the first point.
pub open spec fn whole_part(s: Seq<char>) -> Seq<char> {
    s.take(point_at(s))
}

/// What stands behind the first point.
pub open spec fn fraction_part(s: Seq<char>) -> Seq<char> {
    if point_at(s) < s.len() {
        s.skip(point_at(s) + 1)
    } else {
        Seq::empty()
    }
}

/// Digits with at most one point among them, and at least one digit.
pub open spec fn is_plain_decimal(s: Seq<char>) -> bool {
    &&& all_digits(whole_part(s))
    &&& all_digits(fraction_part(s))
    &&& whole_part(s).len() + fraction_part(s).len() > 0
}

/// The digit at index `i` of `s`, zero beyond its end.
pub open spec fn digit_at(s: Seq<char>, i: int) -> int {
    if 0 <= i < s.len() {
        digit_of(s[i])
    } else {
        0
    }
}

/// The plain decimal `s` in hundredths, rounded half up.
pub open spec fn hundredths(s: Seq<char>) -> int {
    let f = fraction_part(s);
    100 * number_of(whole_part(s)) + 10 * digit_at(f, 0) + digit_at(f, 1) + if digit_at(f, 2)
        >= 5 {
        1int
    } else {
        0int
    }
}

/// `s` starts with a minus sign.
pub open spec fn has_minus(s: Seq<char>) -> bool {
    s.len() > 0 && s[0] == '-'
}

/// `s` without its sign, if it has one.
pub open spec fn unsigned_part(s: Seq<char>) -> Seq<char> {
    if s.len() > 0 && (s[0] == '-' || s[0] == '+') {
        s.drop_first()
    } else {
        s
    }
}

/// The signed decimal `s` in hundredths.
pub open spec fn signed_hundredths(s: Seq<char>) -> int {
    if has_minus(s) {
        -hundredths(unsigned_part(s))
    } else {
        hundredths(unsigned_part(s))
    }
}

/// The amount that `s` writes: `None` where `s` is no signed decimal or the
/// amount does not fit.
pub open spec fn amount_of(s: Seq<char>) -> Option<i64> {
    if is_plain_decimal(unsigned_part(s)) && i64::MIN <= signed_hundredths(s) <= i64::MAX {
        Some(signed_hundredths(s) as i64)
    } else {
        None
    }
}

/// Digits write a number that is not negative and not smaller than the
/// number written by any of their prefixes.
pub proof fn lemma_number_of_prefix(s: Seq<char>, k: int)
    requires
        all_digits(s),
        0 <= k <= s.len(),
    ensures
        0 <= number_of(s.take(k)) <= number_of(s),
    decreases s.len(),
{
    if s.len() == 0 {
        assert(s.take(k) == s);
    } else if k == s.len() {
        assert(s.take(k) == s);
        lemma_number_of_prefix(s.drop_last(), 0);
        assert(is_digit(s.last()));
    } else {
        lemma_number_of_prefix(s.drop_last(), k);
        assert(s.drop_last().take(k) == s.take(k));
        assert(is_digit(s.last()));
    }
}

/// Where no point stands in front of index `k`, the first point stands at
/// `k` or behind it: at `k` if a point stands there or `s` ends there.
pub proof fn lemma_point_at(s: Seq<char>, k: int)
    requires
        0 <= k <= s.len(),
        forall|j: int| 0 <= j < k ==> #[trigger] s[j] != '.',
    ensures
        k <= point_at(s) <= s.len(),
        (k == s.len() || s[k] == '.') ==> point_at(s) == k,
        (k < s.len() && s[k] != '.') ==> point_at(s) > k,
    decreases s.len(),
{
    if s.len() == 0 {
    } else if k == 0 {
        if s[0] != '.' {
            lemma_point_at(s.drop_first(), 0);
        }
    } else {
        let rest = s.drop_first();
        assert(s[0] != '.');
        assert forall|j: int| 0 <= j < k - 1 implies #[trigger] rest[j] != '.' by {
            assert(rest[j] == s[j + 1]);
        }
        if k - 1 < rest.len() {
            assert(rest[k - 1] == s[k]);
        }
        lemma_point_at(rest, k - 1);
    }
}

fn char_is_digit(c: char) -> (b: bool)
    ensures
        b == is_digit(c),
{
    let u: u32 = c as u32;
    48 <= u && u <= 57
}

fn char_digit(c: char) -> (d: u64)
    requires
        is_digit(c),
    ensures
        d == digit_of(c),
        d <= 9,
{
    let u: u32 = c as u32;
    (u - 48) as u64
}

/// Reads an amount: an optional `+` or `-`, digits, and an optional point
/// with further digits. The result is in hundredths, rounded half away from
/// zero; `None` where the text is no such number or the amount does not fit.
pub fn parse_amount(text: &str) -> (r: Option<i64>)
    ensures
        r == amount_of(text@),
{
    let cs = chars_of(text);
    let n: usize = cs.len();
    let negative: bool = n > 0 && cs[0] == '-';
    let start: usize = if n > 0 && (cs[0] == '-' || cs[0] == '+') {
        1
    } else {
        0
    };
    let ghost body: Seq<char> = unsigned_part(text@);
    assert(body == cs@.skip(start as int));
    assert(negative == has_minus(text@));
    let mut i: usize = start;
    let mut whole: u64 = 0;
    assert(body.take(0) == Seq::<char>::empty());
    while i < n && char_is_digit(cs[i])
        invariant
            start <= i <= n,
            n == cs@.len(),
            body == cs@.skip(start as int),
            body == unsigned_part(text@),
            all_digits(body.take(i - start)),
            whole == number_of(body.take(i - start)),
            whole <= 10 * WHOLE_CAP + 9,
        decreases n - i,
    {
        let ghost seen = body.take(i - start);
        let ghost more = body.take(i - start + 1);
        proof {
            assert(body[i - start] == cs@[i as int]);
            assert(more.drop_last() == seen);
            assert(more.last() == cs@[i as int]);
            assert forall|j: int| 0 <= j < more.len() implies is_digit(#[trigger] more[j]) by {
                if j < seen.len() {
                    assert(more[j] == seen[j]);
                }
            }
        }
        if whole > WHOLE_CAP {
            proof {
                assert forall|j: int| 0 <= j < i - start + 1 implies #[trigger] body[j]
                    != '.' by {
                    assert(body[j] == more[j]);
                    assert(is_digit(more[j]));
                }
                lemma_point_at(body, i - start + 1);
                if is_plain_decimal(body) {
                    lemma_number_of_prefix(whole_part(body), i - start);
                    assert(whole_part(body).take(i - start) == seen);
                    lemma_fraction_bounds(body);
                }
            }
            return None;
        }
        whole = whole * 10 + char_digit(cs[i]);
        i += 1;
    }
    let whole_len: usize = i - start;
    proof {
        assert forall|j: int| 0 <= j < whole_len implies #[trigger] body[j] != '.' by {
            assert(body[j] == body.take(whole_len as int)[j]);
            assert(is_digit(body.take(whole_len as int)[j]));
        }
        lemma_point_at(body, whole_len as int);
        if i < n {
            assert(body[whole_len as int] == cs@[i as int]);
        }
    }
    if i < n && cs[i] != '.' {
        proof {
            assert(whole_part(body)[whole_len as int] == body[whole_len as int]);
        }
        return None;
    }
    assert(point_at(body) == whole_len);
    assert(whole_part(body) == body.take(whole_len as int));
    let ghost frac: Seq<char> = fraction_part(body);
    let mut first: u64 = 0;
    let mut second: u64 = 0;
    let mut third: u64 = 0;
    let mut frac_len: usize = 0;
    if i < n {
        i += 1;
        let frac_start: usize = i;
        assert(frac == cs@.skip(frac_start as int));
        while i < n
            invariant
                frac_start <= i <= n,
                n == cs@.len(),
                frac == cs@.skip(frac_start as int),
                frac == fraction_part(body),
                body == unsigned_part(text@),
                frac_len == i - frac_start,
                all_digits(frac.take(frac_len as int)),
                first == digit_at(frac.take(frac_len as int), 0),
                second == digit_at(frac.take(frac_len as int), 1),
                third == digit_at(frac.take(frac_len as int), 2),
                first <= 9,
                second <= 9,
                third <= 9,
            decreases n - i,
        {
            let ghost seen = frac.take(frac_len as int);
            let ghost more = frac.take(frac_len + 1);
            proof {
                assert(frac[frac_len as int] == cs@[i as int]);
                assert forall|j: int| 0 <= j < seen.len() implies more[j] == seen[j] by {}
                assert(more[frac_len as int] == cs@[i as int]);
            }
            if !char_is_digit(cs[i]) {
                assert(!is_digit(frac[frac_len as int]));
                return None;
            }
            let d: u64 = char_digit(cs[i]);
            if frac_len == 0 {
                first = d;
            } else if frac_len == 1 {
                second = d;
            } else if frac_len == 2 {
                third = d;
            }
            proof {
                assert forall|j: int| 0 <= j < more.len() implies is_digit(
                    #[trigger] more[j],
                ) by {
                    if j < seen.len() {
                        assert(more[j] == seen[j]);
                    }
                }
            }
            frac_len += 1;
            i += 1;
        }
        assert(frac.take(frac_len as int) == frac);
    } else {
        assert(frac.take(0) == frac);
    }
    if whole_len == 0 && frac_len == 0 {
        return None;
    }
    assert(is_plain_decimal(body));
    let round: i128 = if third >= 5 {
        1
    } else {
        0
    };
    let magnitude: i128 = 100 * (whole as i128) + 10 * (first as i128) + (second as i128)
        + round;
    assert(magnitude == hundredths(body));
    let signed: i128 = if negative {
        -magnitude
    } else {
        magnitude
    };
    if signed < i64::MIN as i128 || signed > i64::MAX as i128 {
        return None;
    }
    Some(signed as i64)
}

/// The part of a plain decimal behind the point adds less than a whole.
pub proof fn lemma_fraction_bounds(s: Seq<char>)
    requires
        all_digits(fraction_part(s)),
    ensures
        0 <= hundredths(s) - 100 * number_of(whole_part(s)) <= 100,
{
    let f = fraction_part(s);
    if f.len() > 0 {
        assert(is_digit(f[0]));
    }
    if f.len() > 1 {
        assert(is_digit(f[1]));
    }
    if f.len() > 2 {
        assert(is_digit(f[2]));
    }
}

/// The amount `hundredths` as it is shown: a minus sign if it is negative,
/// the currency sign, the whole part, a point, and two digits.
pub open spec fn currency_text(hundredths: int) -> Seq<char> {
    let size = if hundredths < 0 {
        -hundredths
    } else {
        hundredths
    };
    (if hundredths < 0 {
        seq!['-', '$']
    } else {
        seq!['$']
    }) + decimal_of((size / 100) as nat) + seq![
        '.',
        digit_char(size % 100 / 10),
        digit_char(size % 10),
    ]
}

/// Writes an amount as it is shown.
pub fn format_currency(hundredths: i128) -> (text: String)
    ensures
        text@ == currency_text(hundredths as int),
{
    let mut text = String::new();
    let size: u128 = if hundredths < 0 {
        text.push('-');
        (-(hundredths + 1)) as u128 + 1
    } else {
        hundredths as u128
    };
    text.push('$');
    push_decimal(&mut text, size / 100);
    text.push('.');
    let tens: u8 = (size % 100 / 10) as u8;
    let ones: u8 = (size % 10) as u8;
    text.push((48 + tens) as char);
    text.push((48 + ones) as char);
    assert(text@ =~= currency_text(hundredths as int));
    text
}

} // verus!
