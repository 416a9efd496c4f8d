//! Reading numbers, booleans and time zones from text.

use vstd::prelude::*;

verus! {

/// The characters of `s`.
pub fn chars_of(s: &str) -> (r: Vec<char>)
    ensures
        r@ == s@,
{
    let mut v: Vec<char> = Vec::new();
    for c in it: s.chars()
        invariant
            v@ == it.seq().take(it.index() as int),
    {
        v.push(c);
    }
    v
}

pub open spec fn is_digit(c: char) -> bool {
    '0' <= c <= '9'
}

pub open spec fn all_digits(d: Seq<char>) -> bool {
    d.len() > 0 && forall|i: int| 0 <= i < d.len() ==> is_digit(#[trigger] d[i])
}

/// The number that the decimal digits `d` write.
pub open spec fn digits_value(d: Seq<char>) -> int
    decreases d.len(),
{
    if d.len() == 0 {
        0
    } else {
        digits_value(d.drop_last()) * 10 + (d.last() as int - '0' as int)
    }
}

/// The integer that `s` writes as Rust's `str::parse` reads integers: an
/// optional `+`, or `-` where `signed`, then one or more ASCII digits and
/// nothing else.
pub open spec fn decimal_value(s: Seq<char>, signed: bool) -> Option<int> {
    if s.len() > 0 && s[0] == '+' && all_digits(s.drop_first()) {
        Some(digits_value(s.drop_first()))
    } else if signed && s.len() > 0 && s[0] == '-' && all_digits(s.drop_first()) {
        Some(-digits_value(s.drop_first()))
    } else if all_digits(s) {
        Some(digits_value(s))
    } else {
        None
    }
}

/// The integer that `s` writes, when it lies within `min..=max`: what
/// `str::parse` gives for an integer type of that range.
pub open spec fn integer_in(s: Seq<char>, signed: bool, min: int, max: int) -> Option<int> {
    match decimal_value(s, signed) {
        Some(v) => if min <= v <= max {
            Some(v)
        } else {
            None
        },
        None => None,
    }
}

proof fn lemma_digits_grow(d: Seq<char>, k: int)
    requires
        0 <= k <= d.len(),
        forall|i: int| 0 <= i < d.len() ==> is_digit(#[trigger] d[i]),
    ensures
        digits_value(d.take(k)) <= digits_value(d),
        0 <= digits_value(d.take(k)),
    decreases d.len() - k,
{
    if k < d.len() {
        assert(d.drop_last().take(k) =~= d.take(k));
        assert forall|i: int| 0 <= i < d.drop_last().len() implies is_digit(#[trigger] d.drop_last()[i]) by {
            assert(d.drop_last()[i] == d[i]);
        }
        lemma_digits_grow(d.drop_last(), k);
        assert(is_digit(d.last()));
    } else {
        assert(d.take(k) =~= d);
        lemma_digits_nonneg(d);
    }
}

proof fn lemma_digits_nonneg(d: Seq<char>)
    requires
        forall|i: int| 0 <= i < d.len() ==> is_digit(#[trigger] d[i]),
    ensures
        0 <= digits_value(d),
    decreases d.len(),
{
    if d.len() > 0 {
        assert forall|i: int| 0 <= i < d.drop_last().len() implies is_digit(#[trigger] d.drop_last()[i]) by {
            assert(d.drop_last()[i] == d[i]);
        }
        lemma_digits_nonneg(d.drop_last());
        assert(is_digit(d.last()));
    }
}

/// The value of the digits `d[start..]`, or `None` when they are not all
/// digits, there are none, or the value exceeds `limit`.
fn digits_up_to(d: &Vec<char>, start: usize, limit: u128) -> (r: Option<u128>)
    requires
        start <= d@.len(),
        limit <= 0x1_0000_0000_0000_0000,
    ensures
        match r {
            Some(v) => all_digits(d@.skip(start as int)) && v == digits_value(d@.skip(start as int)) && v <= limit,
            None => !all_digits(d@.skip(start as int)) || digits_value(d@.skip(start as int)) > limit,
        },
{
    let ghost t = d@.skip(start as int);
    if start == d.len() {
        return None;
    }
    let mut acc: u128 = 0;
    let mut k: usize = start;
    while k < d.len()
        invariant
            start <= k <= d@.len(),
            t == d@.skip(start as int),
            limit <= 0x1_0000_0000_0000_0000,
            acc <= limit,
            forall|i: int| 0 <= i < k - start ==> is_digit(#[trigger] t[i]),
            acc == digits_value(t.take(k - start)),
        decreases d@.len() - k,
    {
        let c = d[k];
        assert(t[k - start] == c);
        if !('0' <= c && c <= '9') {
            return None;
        }
        let digit = (c as u32 - '0' as u32) as u128;
        proof {
            assert(t.take(k - start + 1).drop_last() =~= t.take(k - start));
            assert(t.take(k - start + 1).last() == c);
        }
        let next = acc * 10 + digit;
        if next > limit {
            proof {
                assert forall|i: int| 0 <= i < k - start + 1 implies is_digit(#[trigger] t[i]) by {}
                if forall|i: int| 0 <= i < t.len() ==> is_digit(#[trigger] t[i]) {
                    lemma_digits_grow(t, k - start + 1);
                }
            }
            return None;
        }
        acc = next;
        k = k + 1;
    }
    proof {
        assert(t.take(t.len() as int) =~= t);
    }
    Some(acc)
}

/// What `str::parse` gives for an integer type whose values are
/// `min..=max` (`signed` when it has negative ones).
pub fn parse_integer(d: &Vec<char>, signed: bool, min: i128, max: i128) -> (r: Option<i128>)
    requires
        -0x1_0000_0000_0000_0000 <= min <= 0 <= max <= u64::MAX,
    ensures
        match r {
            Some(v) => integer_in(d@, signed, min as int, max as int) == Some(v as int),
            None => integer_in(d@, signed, min as int, max as int) is None,
        },
{
    if d.len() > 0 && d[0] == '+' {
        assert(d@.skip(1) =~= d@.drop_first());
        match digits_up_to(d, 1, max as u128) {
            Some(v) => Some(v as i128),
            None => None,
        }
    } else if signed && d.len() > 0 && d[0] == '-' {
        assert(d@.skip(1) =~= d@.drop_first());
        let bound = (0 - min) as u128;
        match digits_up_to(d, 1, bound) {
            Some(v) => Some(0 - (v as i128)),
            None => None,
        }
    } else {
        assert(d@.skip(0) =~= d@);
        match digits_up_to(d, 0, max as u128) {
            Some(v) => {
                Some(v as i128)
            },
            None => {
                proof {
                    if all_digits(d@) {
                        lemma_digits_nonneg(d@);
                    }
                }
                None
            },
        }
    }
}

/// `s` with every `from` replaced by `to`.
pub open spec fn replaced(s: Seq<char>, from: char, to: char) -> Seq<char> {
    s.map_values(|c: char| if c == from {
        to
    } else {
        c
    })
}

pub fn replace_char(s: &Vec<char>, from: char, to: char) -> (r: Vec<char>)
    ensures
        r@ == replaced(s@, from, to),
{
    let mut v: Vec<char> = Vec::new();
    let mut k: usize = 0;
    while k < s.len()
        invariant
            k <= s@.len(),
            v@ == replaced(s@.take(k as int), from, to),
        decreases s@.len() - k,
    {
        let c = s[k];
        v.push(if c == from {
            to
        } else {
            c
        });
        proof {
            assert(replaced(s@.take(k + 1), from, to) =~= replaced(s@.take(k as int), from, to).push(
                if c == from {
                    to
                } else {
                    c
                },
            ));
        }
        k = k + 1;
    }
    assert(s@.take(s@.len() as int) =~= s@);
    v
}

/// Where the first `c` in `s` stands, if anywhere.
pub open spec fn first_index_of(s: Seq<char>, c: char) -> Option<int> {
    if exists|k: int| 0 <= k < s.len() && s[k] == c {
        Some(
            choose|k: int|
                0 <= k < s.len() && s[k] == c && forall|j: int| 0 <= j < k ==> s[j] != c,
        )
    } else {
        None
    }
}

pub fn find_char(s: &Vec<char>, c: char) -> (r: Option<usize>)
    ensures
        match r {
            Some(k) => k < s@.len() && s@[k as int] == c && first_index_of(s@, c) == Some(k as int),
            None => first_index_of(s@, c) is None,
        },
{
    let mut k: usize = 0;
    while k < s.len()
        invariant
            k <= s@.len(),
            forall|j: int| 0 <= j < k ==> s@[j] != c,
        decreases s@.len() - k,
    {
        if s[k] == c {
            proof {
                let w = choose|m: int|
                    0 <= m < s@.len() && s@[m] == c && forall|j: int| 0 <= j < m ==> s@[j] != c;
                assert(0 <= w < s@.len() && s@[w] == c && forall|j: int| 0 <= j < w ==> s@[j] != c);
                assert(w == k) by {
                    if w < k {
                    } else if w > k {
                        assert(s@[k as int] != c);
                    }
                }
            }
            return Some(k);
        }
        k = k + 1;
    }
    None
}

/// The elements `s[start..end]`.
pub fn sub_chars(s: &Vec<char>, start: usize, end: usize) -> (r: Vec<char>)
    requires
        start <= end <= s@.len(),
    ensures
        r@ == s@.subrange(start as int, end as int),
{
    let mut v: Vec<char> = Vec::new();
    let mut k: usize = start;
    while k < end
        invariant
            start <= k <= end <= s@.len(),
            v@ == s@.subrange(start as int, k as int),
        decreases end - k,
    {
        v.push(s[k]);
        proof {
            assert(s@.subrange(start as int, k + 1) =~= s@.subrange(start as int, k as int).push(s@[k as int]));
        }
        k = k + 1;
    }
    v
}

/// `s` and `t` hold the same characters.
pub fn chars_equal(s: &Vec<char>, t: &str) -> (r: bool)
    ensures
        r == (s@ == t@),
{
    let tc = chars_of(t);
    if s.len() != tc.len() {
        return false;
    }
    let mut k: usize = 0;
    while k < s.len()
        invariant
            k <= s@.len() == tc@.len(),
            tc@ == t@,
            forall|j: int| 0 <= j < k ==> s@[j] == tc@[j],
        decreases s@.len() - k,
    {
        if s[k] != tc[k] {
            return false;
        }
        k = k + 1;
    }
    assert(s@ =~= tc@);
    true
}

} // verus!
