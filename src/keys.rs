use vstd::prelude::*;

use crate::entity::Entity;
use crate::text::{concat, owned};

verus! {

/// The text of a decimal digit.
pub open spec fn digit_char(d: nat) -> char {
    if d == 0 {
        '0'
    } else if d == 1 {
        '1'
    } else if d == 2 {
        '2'
    } else if d == 3 {
        '3'
    } else if d == 4 {
        '4'
    } else if d == 5 {
        '5'
    } else if d == 6 {
        '6'
    } else if d == 7 {
        '7'
    } else if d == 8 {
        '8'
    } else {
        '9'
    }
}

/// The decimal text of `n`, without leading zeros.
pub open spec fn decimal(n: nat) -> Seq<char>
    decreases n,
{
    if n < 10 {
        seq![digit_char(n)]
    } else {
        decimal(n / 10).push(digit_char(n % 10))
    }
}

proof fn lemma_decimal_len(n: nat)
    ensures
        decimal(n).len() >= 1,
        n >= 10 ==> decimal(n).len() >= 2,
    decreases n,
{
    if n >= 10 {
        lemma_decimal_len(n / 10);
    }
}

proof fn lemma_digit_char_injective(a: nat, b: nat)
    requires
        a < 10,
        b < 10,
        digit_char(a) == digit_char(b),
    ensures
        a == b,
{
}

/// Different numbers have different decimal texts.
pub proof fn lemma_decimal_injective(a: nat, b: nat)
    requires
        decimal(a) == decimal(b),
    ensures
        a == b,
    decreases a,
{
    lemma_decimal_len(a);
    lemma_decimal_len(b);
    if a < 10 && b < 10 {
        assert(decimal(a)[0] == digit_char(a));
        assert(decimal(b)[0] == digit_char(b));
        lemma_digit_char_injective(a, b);
    } else if a >= 10 && b >= 10 {
        let da = decimal(a);
        let db = decimal(b);
        assert(da.last() == digit_char(a % 10));
        assert(db.last() == digit_char(b % 10));
        lemma_digit_char_injective(a % 10, b % 10);
        assert(da.drop_last() =~= decimal(a / 10));
        assert(db.drop_last() =~= decimal(b / 10));
        lemma_decimal_injective(a / 10, b / 10);
    }
}

/// The text of one decimal digit.
fn digit_str(d: u128) -> (r: &'static str)
    requires
        d < 10,
    ensures
        r@ == seq![digit_char(d as nat)],
{
    proof {
        reveal_strlit("0");
        reveal_strlit("1");
        reveal_strlit("2");
        reveal_strlit("3");
        reveal_strlit("4");
        reveal_strlit("5");
        reveal_strlit("6");
        reveal_strlit("7");
        reveal_strlit("8");
        reveal_strlit("9");
    }
    let r = if d == 0 {
        "0"
    } else if d == 1 {
        "1"
    } else if d == 2 {
        "2"
    } else if d == 3 {
        "3"
    } else if d == 4 {
        "4"
    } else if d == 5 {
        "5"
    } else if d == 6 {
        "6"
    } else if d == 7 {
        "7"
    } else if d == 8 {
        "8"
    } else {
        "9"
    };
    assert(r@ =~= seq![digit_char(d as nat)]);
    r
}

/// The decimal text of `n`.
pub fn decimal_string(n: u128) -> (r: String)
    ensures
        r@ == decimal(n as nat),
    decreases n,
{
    if n < 10 {
        owned(digit_str(n))
    } else {
        let head = decimal_string(n / 10);
        let r = concat(head.as_str(), digit_str(n % 10));
        assert(r@ =~= decimal(n as nat));
        r
    }
}

/// The index of the last `c` in `s`, where there is one.
pub open spec fn last_index_of(s: Seq<char>, c: char) -> Option<int>
    decreases s.len(),
{
    if s.len() == 0 {
        None
    } else if s.last() == c {
        Some(s.len() - 1)
    } else {
        last_index_of(s.drop_last(), c)
    }
}

/// The last component of a `/`-separated path.
pub open spec fn file_name(path: Seq<char>) -> Seq<char> {
    match last_index_of(path, '/') {
        Some(i) => path.subrange(i + 1, path.len() as int),
        None => path,
    }
}

/// A file's name without its extension; a name that starts with its only dot
/// is kept whole, and an empty name reads `unknown`.
pub open spec fn file_stem(path: Seq<char>) -> Seq<char> {
    let name = file_name(path);
    if name.len() == 0 {
        "unknown"@
    } else {
        match last_index_of(name, '.') {
            Some(d) => if d == 0 {
                name
            } else {
                name.subrange(0, d)
            },
            None => name,
        }
    }
}

/// The index of the last `c` in `s`.
pub fn find_last(s: &str, c: char) -> (r: Option<usize>)
    ensures
        match last_index_of(s@, c) {
            Some(i) => 0 <= i < s@.len() && r == Some(i as usize),
            None => r is None,
        },
        s@.len() <= usize::MAX,
{
    let n = s.unicode_len();
    let mut found: Option<usize> = None;
    let mut i: usize = 0;
    assert(s@.subrange(0, 0) =~= Seq::<char>::empty());
    while i < n
        invariant
            n == s@.len(),
            i <= n,
            match last_index_of(s@.subrange(0, i as int), c) {
                Some(k) => 0 <= k < i && found == Some(k as usize),
                None => found is None,
            },
        decreases n - i,
    {
        let ghost next = s@.subrange(0, i + 1);
        assert(next.drop_last() =~= s@.subrange(0, i as int));
        if s.get_char(i) == c {
            found = Some(i);
        }
        i += 1;
    }
    assert(s@.subrange(0, n as int) =~= s@);
    found
}

/// The stem of a file path: its last component without the extension.
pub fn file_stem_of(path: &str) -> (r: String)
    ensures
        r@ == file_stem(path@),
{
    let n = path.unicode_len();
    let start = match find_last(path, '/') {
        Some(i) => i + 1,
        None => 0,
    };
    let name = path.substring_char(start, n);
    assert(name@ == file_name(path@));
    let m = name.unicode_len();
    if m == 0 {
        proof {
            reveal_strlit("unknown");
        }
        return owned("unknown");
    }
    match find_last(name, '.') {
        Some(d) => {
            if d == 0 {
                owned(name)
            } else {
                owned(name.substring_char(0, d))
            }
        },
        None => owned(name),
    }
}

/// The `k`-th storage key tried for a record whose key `base` is taken.
pub open spec fn unique_candidate(base: Seq<char>, stem: Seq<char>, k: nat) -> Seq<char> {
    if k == 0 {
        base + "@"@ + stem
    } else {
        base + "@"@ + stem + "_"@ + decimal(k)
    }
}

/// `k` is the first attempt whose key is free.
pub open spec fn is_first_free(taken: Set<Seq<char>>, base: Seq<char>, stem: Seq<char>, k: nat) -> bool {
    &&& !taken.contains(unique_candidate(base, stem, k))
    &&& forall|j: nat| j < k ==> taken.contains(#[trigger] unique_candidate(base, stem, j))
}

/// The first free key among `{base}@{stem}`, `{base}@{stem}_1`, `{base}@{stem}_2`, ...
pub open spec fn suffixed_key(taken: Set<Seq<char>>, base: Seq<char>, stem: Seq<char>) -> Seq<char> {
    unique_candidate(base, stem, choose|k: nat| is_first_free(taken, base, stem, k))
}

/// The key under which a record with logical key `base` from file `source`
/// is stored: `base` itself while free, else the first free suffixed key.
pub open spec fn storage_key(taken: Set<Seq<char>>, base: Seq<char>, source: Seq<char>) -> Seq<char> {
    if taken.contains(base) {
        suffixed_key(taken, base, file_stem(source))
    } else {
        base
    }
}

/// The storage keys in use.
pub open spec fn keys_of(entries: Seq<(String, Entity)>) -> Set<Seq<char>> {
    entries.map_values(|e: (String, Entity)| e.0@).to_set()
}

proof fn lemma_candidates_distinct(base: Seq<char>, stem: Seq<char>, a: nat, b: nat)
    requires
        a != b,
    ensures
        unique_candidate(base, stem, a) != unique_candidate(base, stem, b),
{
    let p = base + "@"@ + stem;
    if a != 0 && b != 0 {
        if unique_candidate(base, stem, a) == unique_candidate(base, stem, b) {
            let ca = p + "_"@ + decimal(a);
            let cb = p + "_"@ + decimal(b);
            lemma_decimal_len(a);
            lemma_decimal_len(b);
            assert(ca.len() == cb.len());
            assert(ca.subrange((p + "_"@).len() as int, ca.len() as int) =~= decimal(a));
            assert(cb.subrange((p + "_"@).len() as int, cb.len() as int) =~= decimal(b));
            lemma_decimal_injective(a, b);
        }
    } else {
        let k = if a == 0 {
            b
        } else {
            a
        };
        lemma_decimal_len(k);
        reveal_strlit("_");
        assert(unique_candidate(base, stem, k).len() > p.len());
    }
}

pub proof fn lemma_first_free_unique(taken: Set<Seq<char>>, base: Seq<char>, stem: Seq<char>, k: nat)
    requires
        is_first_free(taken, base, stem, k),
    ensures
        suffixed_key(taken, base, stem) == unique_candidate(base, stem, k),
{
    let c = choose|k: nat| is_first_free(taken, base, stem, k);
    assert(is_first_free(taken, base, stem, c));
    if c < k {
        assert(taken.contains(unique_candidate(base, stem, c)));
    } else if k < c {
        assert(taken.contains(unique_candidate(base, stem, k)));
    }
}

/// Whether `key` is a storage key in use.
pub fn contains_key(entries: &Vec<(String, Entity)>, key: &String) -> (r: bool)
    ensures
        r == keys_of(entries@).contains(key@),
{
    let ghost ks = entries@.map_values(|e: (String, Entity)| e.0@);
    let mut i: usize = 0;
    while i < entries.len()
        invariant
            i <= entries.len(),
            ks == entries@.map_values(|e: (String, Entity)| e.0@),
            forall|k: int| 0 <= k < i ==> ks[k] != key@,
        decreases entries.len() - i,
    {
        if entries[i].0 == *key {
            assert(ks[i as int] == key@);
            assert(ks.contains(key@));
            return true;
        }
        i += 1;
    }
    assert(!ks.contains(key@));
    false
}

/// The first free key among `{base_key}@{stem}`, `{base_key}@{stem}_1`, ...,
/// where `stem` is the stem of `source_file`.
pub fn make_unique_key(base_key: &str, source_file: &str, existing: &Vec<(String, Entity)>) -> (r: String)
    ensures
        r@ == suffixed_key(keys_of(existing@), base_key@, file_stem(source_file@)),
        !keys_of(existing@).contains(r@),
{
    let ghost taken = keys_of(existing@);
    let ghost ks = existing@.map_values(|e: (String, Entity)| e.0@);
    proof {
        ks.lemma_cardinality_of_set();
    }
    let stem = file_stem_of(source_file);
    let at = concat(base_key, "@");
    let prefix = concat(at.as_str(), stem.as_str());
    let mut key = prefix.clone();
    let _n = existing.len();
    let mut counter: u128 = 1;
    let ghost mut seen: Set<Seq<char>> = Set::empty();
    while contains_key(existing, &key)
        invariant
            taken == keys_of(existing@),
            taken.finite(),
            taken.len() <= existing@.len(),
            existing@.len() <= usize::MAX,
            1 <= counter <= existing@.len() + 1,
            prefix@ == base_key@ + "@"@ + file_stem(source_file@),
            key@ == unique_candidate(base_key@, file_stem(source_file@), (counter - 1) as nat),
            forall|j: nat| j < counter - 1 ==> taken.contains(#[trigger] unique_candidate(base_key@, file_stem(source_file@), j)),
            seen.finite(),
            seen.len() == counter - 1,
            seen.subset_of(taken),
            forall|x: Seq<char>| seen.contains(x) ==> exists|j: nat| j < counter - 1 && x == #[trigger] unique_candidate(base_key@, file_stem(source_file@), j),
        decreases existing@.len() + 1 - counter,
    {
        proof {
            let c = key@;
            if seen.contains(c) {
                let j = choose|j: nat| j < counter - 1 && c == #[trigger] unique_candidate(base_key@, file_stem(source_file@), j);
                lemma_candidates_distinct(base_key@, file_stem(source_file@), j, (counter - 1) as nat);
            }
            assert(taken.contains(c));
            seen = seen.insert(c);
            vstd::set_lib::lemma_len_subset(seen, taken);
            assert(seen.len() == counter);
        }
        assert(counter <= existing@.len());
        let under = concat(prefix.as_str(), "_");
        let digits = decimal_string(counter);
        key = concat(under.as_str(), digits.as_str());
        counter = counter + 1;
    }
    proof {
        lemma_first_free_unique(taken, base_key@, file_stem(source_file@), (counter - 1) as nat);
    }
    key
}

} // verus!
