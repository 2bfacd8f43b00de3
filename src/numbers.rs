use vstd::prelude::*;

use crate::json::{Json, JsonModel};
use crate::text::{digits_value, is_digit};

verus! {

/// The value of a JSON number text that is a plain decimal integer: an
/// optional `-`, then digits.
pub open spec fn integer_value(t: Seq<char>) -> Option<int> {
    if t.len() > 0 && t[0] == '-' {
        let d = t.drop_first();
        if d.len() > 0 && (forall|i: int| 0 <= i < d.len() ==> is_digit(#[trigger] d[i])) {
            Some(-(digits_value(d) as int))
        } else {
            None
        }
    } else if t.len() > 0 && (forall|i: int| 0 <= i < t.len() ==> is_digit(#[trigger] t[i])) {
        Some(digits_value(t) as int)
    } else {
        None
    }
}

/// The value of `j` where it is an integer within `lo..=hi`.
pub open spec fn int_in(j: JsonModel, lo: int, hi: int) -> Option<int> {
    match j {
        JsonModel::Number(t) => match integer_value(t) {
            Some(v) => if lo <= v <= hi {
                Some(v)
            } else {
                None
            },
            None => None,
        },
        _ => None,
    }
}

/// The integer that `t` spells, where it is one of `-bound..=bound` (or of
/// `0..=bound` without a sign).
fn integer_of(t: &str, bound: u64) -> (r: Option<i128>)
    ensures
        match integer_value(t@) {
            Some(v) => if -(bound as int) <= v <= bound {
                r == Some(v as i128)
            } else {
                r is None
            },
            None => r is None,
        },
{
    let n = t.unicode_len();
    if n == 0 {
        return None;
    }
    let neg = t.get_char(0) == '-';
    let start: usize = if neg { 1 } else { 0 };
    if start == n {
        return None;
    }
    let ghost d = t@.subrange(start as int, n as int);
    assert(neg ==> d =~= t@.drop_first());
    assert(!neg ==> d =~= t@);
    let mut value: u64 = 0;
    let mut big = false;
    let mut i = start;
    assert(d.subrange(0, 0) =~= Seq::<char>::empty());
    while i < n
        invariant
            start <= i <= n,
            n == t@.len(),
            n > 0,
            neg == (t@[0] == '-'),
            start == (if neg { 1usize } else { 0usize }),
            neg ==> d == t@.drop_first(),
            !neg ==> d == t@,
            d == t@.subrange(start as int, n as int),
            forall|k: int| 0 <= k < i - start ==> is_digit(#[trigger] d[k]),
            !big ==> value == digits_value(d.subrange(0, i - start)),
            big ==> digits_value(d.subrange(0, i - start)) > bound,
            value <= bound,
        decreases n - i,
    {
        let c = t.get_char(i);
        assert(c == d[i - start]);
        if !('0' <= c && c <= '9') {
            assert(!is_digit(d[i - start]));
            return None;
        }
        let digit = (c as u32 - '0' as u32) as u64;
        let ghost next = d.subrange(0, i - start + 1);
        assert(next.drop_last() =~= d.subrange(0, i - start));
        if !big {
            if digit > bound || value > (bound - digit) / 10 {
                assert(value * 10 + digit > bound) by (nonlinear_arith)
                    requires
                        digit > bound || value > (bound - digit) / 10,
                        digit <= 9,
                ;
                big = true;
            } else {
                assert(value * 10 + digit <= bound) by (nonlinear_arith)
                    requires
                        value <= (bound - digit) / 10,
                        digit <= bound,
                ;
                value = value * 10 + digit;
            }
        } else {
            assert(digits_value(next) >= digits_value(d.subrange(0, i - start))) by (nonlinear_arith)
                requires
                    digits_value(next) == digits_value(d.subrange(0, i - start)) * 10 + (next.last() as nat
                        - '0' as nat) as nat,
            ;
        }
        i += 1;
    }
    assert(d.subrange(0, d.len() as int) =~= d);
    if big {
        return None;
    }
    if neg {
        Some(-(value as i128))
    } else {
        Some(value as i128)
    }
}

/// The value of `j` where it is a non-negative integer that fits `u64`.
pub fn as_u64(j: &Json) -> (r: Option<u64>)
    ensures
        match int_in(j@, 0, u64::MAX as int) {
            Some(v) => r == Some(v as u64),
            None => r is None,
        },
{
    match j {
        Json::Number(t) => match integer_of(t.as_str(), u64::MAX) {
            Some(v) => {
                if v >= 0 {
                    Some(v as u64)
                } else {
                    None
                }
            },
            None => None,
        },
        _ => None,
    }
}

/// The value of `j` where it is an integer that fits `i64`.
pub fn as_i64(j: &Json) -> (r: Option<i64>)
    ensures
        match int_in(j@, i64::MIN as int, i64::MAX as int) {
            Some(v) => r == Some(v as i64),
            None => r is None,
        },
{
    match j {
        Json::Number(t) => match integer_of(t.as_str(), 9223372036854775808u64) {
            Some(v) => {
                if v <= 9223372036854775807i128 {
                    Some(v as i64)
                } else {
                    None
                }
            },
            None => None,
        },
        _ => None,
    }
}

} // verus!
