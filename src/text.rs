use vstd::prelude::*;

verus! {

/// Character-wise equality of two string slices.
pub fn str_eq(a: &str, b: &str) -> (r: bool)
    ensures
        r == (a@ == b@),
{
    let n = a.unicode_len();
    let m = b.unicode_len();
    if n != m {
        return false;
    }
    let mut i: usize = 0;
    while i < n
        invariant
            n == a@.len(),
            m == b@.len(),
            n == m,
            i <= n,
            forall|j: int| 0 <= j < i ==> a@[j] == b@[j],
        decreases n - i,
    {
        if a.get_char(i) != b.get_char(i) {
            return false;
        }
        i += 1;
    }
    assert(a@ =~= b@);
    true
}

/// A new `String` holding the characters of `s`.
pub fn owned(s: &str) -> (r: String)
    ensures
        r@ == s@,
{
    String::from_str(s)
}

/// `a` followed by `b`.
pub fn concat(a: &str, b: &str) -> (r: String)
    ensures
        r@ == a@ + b@,
{
    let mut out = String::from_str(a);
    out.append(b);
    out
}

/// The first position at or after `i` where `pat` occurs in `s`.
pub open spec fn find_from(s: Seq<char>, pat: Seq<char>, i: int) -> Option<int>
    decreases s.len() + 1 - i,
{
    if i < 0 || i + pat.len() > s.len() {
        None
    } else if s.subrange(i, i + pat.len()) == pat {
        Some(i)
    } else {
        find_from(s, pat, i + 1)
    }
}

pub proof fn lemma_find_from_bounds(s: Seq<char>, pat: Seq<char>, i: int)
    ensures
        find_from(s, pat, i) matches Some(k) ==> i <= k && k + pat.len() <= s.len(),
    decreases s.len() + 1 - i,
{
    if !(i < 0 || i + pat.len() > s.len()) && s.subrange(i, i + pat.len()) != pat {
        lemma_find_from_bounds(s, pat, i + 1);
    }
}

/// The first position at or after `from` where `pat` occurs in `s`.
pub fn find_str(s: &str, pat: &str, from: usize) -> (r: Option<usize>)
    ensures
        match find_from(s@, pat@, from as int) {
            Some(k) => from <= k && k + pat@.len() <= s@.len() && r == Some(k as usize),
            None => r is None,
        },
{
    proof {
        lemma_find_from_bounds(s@, pat@, from as int);
    }
    let n = s.unicode_len();
    let m = pat.unicode_len();
    let mut i = from;
    while i <= n && m <= n - i
        invariant
            n == s@.len(),
            m == pat@.len(),
            from <= i,
            find_from(s@, pat@, from as int) == find_from(s@, pat@, i as int),
        decreases n + 1 - i,
    {
        let mut j: usize = 0;
        while j < m && s.get_char(i + j) == pat.get_char(j)
            invariant
                n == s@.len(),
                m == pat@.len(),
                i + m <= n,
                j <= m,
                forall|q: int| 0 <= q < j ==> s@[i + q] == pat@[q],
            decreases m - j,
        {
            j += 1;
        }
        if j == m {
            assert(s@.subrange(i as int, i + m) =~= pat@);
            return Some(i);
        }
        assert(s@.subrange(i as int, i + m)[j as int] != pat@[j as int]);
        i += 1;
    }
    None
}

pub open spec fn is_digit(c: char) -> bool {
    '0' <= c <= '9'
}

/// The value of a string of decimal digits.
pub open spec fn digits_value(s: Seq<char>) -> nat
    decreases s.len(),
{
    if s.len() == 0 {
        0
    } else {
        digits_value(s.drop_last()) * 10 + (s.last() as nat - '0' as nat) as nat
    }
}

/// How a machine-size unsigned integer is read from text: an optional `+`,
/// then at least one decimal digit, with a value that fits.
pub open spec fn parse_usize(s: Seq<char>) -> Option<nat> {
    let d = unsigned_digits(s);
    if d.len() > 0 && (forall|i: int| 0 <= i < d.len() ==> is_digit(#[trigger] d[i])) && digits_value(d)
        <= usize::MAX {
        Some(digits_value(d))
    } else {
        None
    }
}

proof fn lemma_digits_grow(d: Seq<char>, i: int, j: int)
    requires
        0 <= i <= j <= d.len(),
        forall|k: int| 0 <= k < d.len() ==> is_digit(#[trigger] d[k]),
    ensures
        digits_value(d.subrange(0, i)) <= digits_value(d.subrange(0, j)),
    decreases j - i,
{
    if i < j {
        lemma_digits_grow(d, i, j - 1);
        let t = d.subrange(0, j);
        assert(t.drop_last() =~= d.subrange(0, j - 1));
        assert(is_digit(t.last()));
    }
}

/// The digits that `parse_usize` reads from `t`.
pub open spec fn unsigned_digits(t: Seq<char>) -> Seq<char> {
    if t.len() > 1 && t[0] == '+' {
        t.drop_first()
    } else {
        t
    }
}

proof fn lemma_parse_rejects_non_digit(t: Seq<char>, k: int)
    requires
        0 <= k < unsigned_digits(t).len(),
        !is_digit(unsigned_digits(t)[k]),
    ensures
        parse_usize(t) is None,
{
}

proof fn lemma_parse_rejects_large(t: Seq<char>, n: int)
    requires
        0 <= n <= unsigned_digits(t).len(),
        forall|k: int| 0 <= k < n ==> is_digit(#[trigger] unsigned_digits(t)[k]),
        digits_value(unsigned_digits(t).subrange(0, n)) > usize::MAX,
    ensures
        parse_usize(t) is None,
{
    let d = unsigned_digits(t);
    if forall|k: int| 0 <= k < d.len() ==> is_digit(#[trigger] d[k]) {
        lemma_digits_grow(d, n, d.len() as int);
        assert(d.subrange(0, d.len() as int) =~= d);
    }
}

/// The integer that the characters of `s` in `start..end` spell.
pub fn parse_usize_in(s: &str, start: usize, end: usize) -> (r: Option<usize>)
    requires
        start <= end <= s@.len(),
    ensures
        match parse_usize(s@.subrange(start as int, end as int)) {
            Some(v) => r == Some(v as usize),
            None => r is None,
        },
{
    let ghost t = s@.subrange(start as int, end as int);
    let mut b = start;
    if end - start > 1 && s.get_char(start) == '+' {
        b = start + 1;
    }
    let ghost d = s@.subrange(b as int, end as int);
    assert(d =~= unsigned_digits(t));
    if b == end {
        assert(d.len() == 0);
        return None;
    }
    let mut value: usize = 0;
    let mut i = b;
    assert(d.subrange(0, 0) =~= Seq::<char>::empty());
    while i < end
        invariant
            b <= i <= end <= s@.len(),
            d == s@.subrange(b as int, end as int),
            d == unsigned_digits(t),
            t == s@.subrange(start as int, end as int),
            forall|k: int| 0 <= k < i - b ==> is_digit(#[trigger] d[k]),
            value == digits_value(d.subrange(0, i - b)),
        decreases end - i,
    {
        let c = s.get_char(i);
        assert(c == d[i - b]);
        if !('0' <= c && c <= '9') {
            proof {
                lemma_parse_rejects_non_digit(t, i - b);
            }
            return None;
        }
        let digit = (c as u32 - '0' as u32) as usize;
        let ghost pre = d.subrange(0, i - b);
        let ghost next = d.subrange(0, i - b + 1);
        assert(next.drop_last() =~= pre);
        if value > (usize::MAX - digit) / 10 {
            assert(value * 10 + digit > usize::MAX) by (nonlinear_arith)
                requires
                    value > (usize::MAX - digit) / 10,
                    digit <= 9,
            ;
            proof {
                assert(digits_value(next) == value * 10 + digit);
                lemma_parse_rejects_large(t, i - b + 1);
            }
            return None;
        }
        assert(value * 10 + digit <= usize::MAX) by (nonlinear_arith)
            requires
                value <= (usize::MAX - digit) / 10,
                digit <= 9,
        ;
        value = value * 10 + digit;
        i += 1;
    }
    assert(d.subrange(0, d.len() as int) =~= d);
    Some(value)
}

} // verus!
