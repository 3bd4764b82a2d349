//! Role multiplicities such as `(1)`, `*`, `1..3` or `2..*`.
use vstd::prelude::*;

use crate::text::to_chars;

verus! {

/// How many targets a role takes.
#[derive(Clone, Copy, Debug, PartialEq, Eq, Hash, Structural)]
pub enum Multiplicity {
    /// Exactly this many.
    Exact(u32),
    /// At least the first, at most the second (`None` means unbounded).
    Range(u32, Option<u32>),
}

/// Whether `c` is an ASCII decimal digit.
pub open spec fn is_digit(c: char) -> bool {
    '0' <= c && c <= '9'
}

/// Whether every character of `s` is a decimal digit.
pub open spec fn all_digits(s: Seq<char>) -> bool {
    forall|i: int| 0 <= i < s.len() ==> is_digit(#[trigger] s[i])
}

/// The value of the decimal digit `c`.
pub open spec fn digit_value(c: char) -> nat {
    (c as u32 - '0' as u32) as nat
}

/// The number written by the decimal digits `s`.
pub open spec fn digits_value(s: Seq<char>) -> nat
    decreases s.len(),
{
    if s.len() == 0 {
        0
    } else {
        digits_value(s.drop_last()) * 10 + digit_value(s.last())
    }
}

/// What `str::parse::<u32>` yields: an optional `+` sign followed by one or
/// more decimal digits whose value fits in a `u32`.
pub open spec fn spec_parse_u32(s: Seq<char>) -> Option<u32> {
    let body = if s.len() > 0 && s[0] == '+' { s.drop_first() } else { s };
    if body.len() > 0 && all_digits(body) && digits_value(body) <= u32::MAX {
        Some(digits_value(body) as u32)
    } else {
        None
    }
}

/// `s` with every leading and trailing `c` removed.
pub open spec fn trim_char(s: Seq<char>, c: char) -> Seq<char> {
    let lead = leading_count(s, c);
    let rest = s.skip(lead as int);
    rest.take(rest.len() - trailing_count(rest, c))
}

/// How many copies of `c` start `s`.
pub open spec fn leading_count(s: Seq<char>, c: char) -> nat
    decreases s.len(),
{
    if s.len() > 0 && s[0] == c {
        1 + leading_count(s.drop_first(), c)
    } else {
        0
    }
}

/// How many copies of `c` end `s`.
pub open spec fn trailing_count(s: Seq<char>, c: char) -> nat
    decreases s.len(),
{
    if s.len() > 0 && s.last() == c {
        1 + trailing_count(s.drop_last(), c)
    } else {
        0
    }
}

/// Index of the first `..` in `s` at or after `from`, if any.
pub open spec fn find_dotdot(s: Seq<char>, from: int) -> Option<int>
    decreases s.len() - from,
{
    if from < 0 || from + 1 >= s.len() {
        None
    } else if s[from] == '.' && s[from + 1] == '.' {
        Some(from)
    } else {
        find_dotdot(s, from + 1)
    }
}

/// The second piece of `s` split at `..`: from just after the first `..`
/// up to the next `..` or the end.
pub open spec fn second_part(s: Seq<char>, first: int) -> Seq<char> {
    match find_dotdot(s, first + 2) {
        Some(j) => s.subrange(first + 2, j),
        None => s.skip(first + 2),
    }
}

/// The multiplicity written by `text` (`Multiplicity::parse`).
pub open spec fn spec_parse(text: Seq<char>) -> Multiplicity {
    spec_parse_trimmed(trim_char(trim_char(text, '('), ')'))
}

/// The multiplicity written by `s` once its brackets are trimmed.
pub open spec fn spec_parse_trimmed(s: Seq<char>) -> Multiplicity {
    if s == seq!['*'] {
        Multiplicity::Range(1, None)
    } else if spec_parse_u32(s) is Some {
        Multiplicity::Exact(spec_parse_u32(s)->0)
    } else if find_dotdot(s, 0) is Some {
        spec_range_part(s, find_dotdot(s, 0)->0)
    } else {
        Multiplicity::Range(0, None)
    }
}

/// The range `min..max` written by `s` whose first `..` is at `i`.
pub open spec fn spec_range_part(s: Seq<char>, i: int) -> Multiplicity {
    let min = match spec_parse_u32(s.take(i)) {
        Some(v) => v,
        None => 0u32,
    };
    let second = second_part(s, i);
    let max = if second == seq!['*'] {
        None
    } else {
        match spec_parse_u32(second) {
            Some(v) => Some(v),
            None => Some(0u32),
        }
    };
    Multiplicity::Range(min, max)
}

/// Whether `count` satisfies `m`.
pub open spec fn spec_validate(m: Multiplicity, count: u32) -> bool {
    match m {
        Multiplicity::Exact(v) => count == v,
        Multiplicity::Range(min, max) => min <= count && match max {
            Some(mx) => count <= mx,
            None => true,
        },
    }
}

/// Whether `m` requires at least one target.
pub open spec fn spec_min_required(m: Multiplicity) -> bool {
    match m {
        Multiplicity::Range(min, _) => min > 0,
        Multiplicity::Exact(v) => v > 0,
    }
}

proof fn lemma_digits_value_prefix(s: Seq<char>, k: int)
    requires
        0 <= k <= s.len(),
        all_digits(s),
    ensures
        digits_value(s.take(k)) <= digits_value(s),
    decreases s.len(),
{
    if k == s.len() {
        assert(s.take(k) =~= s);
    } else {
        let t = s.drop_last();
        assert(all_digits(t)) by {
            assert forall|i: int| 0 <= i < t.len() implies is_digit(#[trigger] t[i]) by {
                assert(t[i] == s[i]);
            }
        }
        lemma_digits_value_prefix(t, k);
        assert(t.take(k) =~= s.take(k));
    }
}

/// Facts about a found `..`.
pub proof fn lemma_find_dotdot(s: Seq<char>, from: int)
    ensures
        find_dotdot(s, from) matches Some(j) ==> from <= j && j + 1 < s.len() && s[j] == '.' && s[j + 1] == '.',
    decreases s.len() - from,
{
    if from >= 0 && from + 1 < s.len() && !(s[from] == '.' && s[from + 1] == '.') {
        lemma_find_dotdot(s, from + 1);
    }
}

fn parse_u32_range(v: &Vec<char>, lo: usize, hi: usize) -> (r: Option<u32>)
    requires
        lo <= hi <= v.len(),
    ensures
        r == spec_parse_u32(v@.subrange(lo as int, hi as int)),
{
    let ghost s = v@.subrange(lo as int, hi as int);
    let mut start = lo;
    if lo < hi && v[lo] == '+' {
        start = lo + 1;
    }
    let ghost body = v@.subrange(start as int, hi as int);
    proof {
        if lo < hi && v@[lo as int] == '+' {
            assert(body =~= s.drop_first());
        } else {
            assert(body =~= s);
        }
    }
    if start >= hi {
        return None;
    }
    let mut acc: u64 = 0;
    let mut i = start;
    while i < hi
        invariant
            lo <= start <= i <= hi <= v.len(),
            s == v@.subrange(lo as int, hi as int),
            body == (if s.len() > 0 && s[0] == '+' { s.drop_first() } else { s }),
            body.len() > 0,
            body == v@.subrange(start as int, hi as int),
            all_digits(v@.subrange(start as int, i as int)),
            acc == digits_value(v@.subrange(start as int, i as int)),
            acc <= u32::MAX,
        decreases hi - i,
    {
        let c = v[i];
        if !('0' <= c && c <= '9') {
            assert(body[i - start] == c);
            assert(!all_digits(body)) by {
                assert(!is_digit(body[i - start]));
            }
            return None;
        }
        let ghost pre = v@.subrange(start as int, i as int);
        let ghost next = v@.subrange(start as int, i + 1);
        assert(next.drop_last() =~= pre);
        assert(all_digits(next));
        let d = (c as u32 - '0' as u32) as u64;
        acc = acc * 10 + d;
        if acc > 0xffff_ffffu64 {
            proof {
                assert(body.take(i + 1 - start) =~= next);
                if all_digits(body) {
                    lemma_digits_value_prefix(body, i + 1 - start);
                    assert(digits_value(next) == acc);
                    assert(digits_value(body) > u32::MAX);
                }
            }
            return None;
        }
        i = i + 1;
    }
    Some(acc as u32)
}

/// The bounds of `v[lo..hi]` with every leading and trailing `c` removed.
pub fn trim_range(v: &Vec<char>, lo: usize, hi: usize, c: char) -> (r: (usize, usize))
    requires
        lo <= hi <= v.len(),
    ensures
        lo <= r.0 <= r.1 <= hi,
        v@.subrange(r.0 as int, r.1 as int) == trim_char(v@.subrange(lo as int, hi as int), c),
{
    let ghost s = v@.subrange(lo as int, hi as int);
    let mut a = lo;
    while a < hi && v[a] == c
        invariant
            lo <= a <= hi <= v.len(),
            leading_count(s, c) == (a - lo) + leading_count(v@.subrange(a as int, hi as int), c),
        decreases hi - a,
    {
        assert(v@.subrange(a as int, hi as int).drop_first() =~= v@.subrange(a + 1, hi as int));
        a = a + 1;
    }
    assert(leading_count(v@.subrange(a as int, hi as int), c) == 0);
    let ghost rest = s.skip((a - lo) as int);
    assert(rest =~= v@.subrange(a as int, hi as int));
    let mut b = hi;
    while b > a && v[b - 1] == c
        invariant
            lo <= a <= b <= hi <= v.len(),
            rest == v@.subrange(a as int, hi as int),
            trailing_count(rest, c) == (hi - b) + trailing_count(v@.subrange(a as int, b as int), c),
        decreases b - a,
    {
        assert(v@.subrange(a as int, b as int).drop_last() =~= v@.subrange(a as int, b - 1));
        b = b - 1;
    }
    assert(trailing_count(v@.subrange(a as int, b as int), c) == 0);
    assert(rest.take(rest.len() - trailing_count(rest, c)) =~= v@.subrange(a as int, b as int));
    (a, b)
}

fn find_dotdot_exec(v: &Vec<char>, lo: usize, from: usize, hi: usize) -> (r: Option<usize>)
    requires
        lo <= from <= hi <= v.len(),
    ensures
        match find_dotdot(v@.subrange(lo as int, hi as int), from - lo) {
            Some(j) => r == Some((j + lo) as usize),
            None => r is None,
        },
{
    let ghost s = v@.subrange(lo as int, hi as int);
    let mut i = from;
    while i < hi && hi - i > 1
        invariant
            lo <= from <= i <= hi <= v.len(),
            s == v@.subrange(lo as int, hi as int),
            find_dotdot(s, from - lo) == find_dotdot(s, i - lo),
        decreases hi - i,
    {
        assert(s[i - lo] == v@[i as int]);
        assert(s[i - lo + 1] == v@[i + 1]);
        if v[i] == '.' && v[i + 1] == '.' {
            return Some(i);
        }
        i = i + 1;
    }
    None
}


fn parse_trimmed(v: &Vec<char>, a: usize, b: usize) -> (m: Multiplicity)
    requires
        a <= b <= v.len(),
    ensures
        m == spec_parse_trimmed(v@.subrange(a as int, b as int)),
{
    let ghost s = v@.subrange(a as int, b as int);
    if b > a && b - a == 1 && v[a] == '*' {
        assert(s =~= seq!['*']);
        return Multiplicity::Range(1, None);
    }
    assert(s != seq!['*']) by {
        if s == seq!['*'] {
            assert(s.len() == 1 && s[0] == v@[a as int]);
        }
    }
    match parse_u32_range(v, a, b) {
        Some(val) => {
            return Multiplicity::Exact(val);
        },
        None => {},
    }
    match find_dotdot_exec(v, a, a, b) {
        Some(i) => {
            proof {
                lemma_find_dotdot(s, 0);
            }
            parse_range_part(v, a, b, i)
        },
        None => Multiplicity::Range(0, None),
    }
}

fn parse_range_part(v: &Vec<char>, a: usize, b: usize, i: usize) -> (m: Multiplicity)
    requires
        a <= i,
        i + 1 < b <= v.len(),
    ensures
        m == spec_range_part(v@.subrange(a as int, b as int), i - a),
{
    let ghost s = v@.subrange(a as int, b as int);
    assert(s.take(i - a) =~= v@.subrange(a as int, i as int));
    let min = match parse_u32_range(v, a, i) {
        Some(x) => x,
        None => 0u32,
    };
    let end = match find_dotdot_exec(v, a, i + 2, b) {
        Some(j) => {
            proof {
                lemma_find_dotdot(s, i - a + 2);
            }
            assert(s.subrange(i - a + 2, j - a) =~= v@.subrange(i + 2, j as int));
            j
        },
        None => {
            assert(s.skip(i - a + 2) =~= v@.subrange(i + 2, b as int));
            b
        },
    };
    let ghost second = v@.subrange(i + 2, end as int);
    assert(second == second_part(s, i - a));
    let max = if end - i == 3 && v[i + 2] == '*' {
        assert(second =~= seq!['*']);
        None
    } else {
        assert(second != seq!['*']) by {
            if second == seq!['*'] {
                assert(second.len() == 1 && second[0] == v@[i + 2]);
            }
        }
        match parse_u32_range(v, i + 2, end) {
            Some(x) => Some(x),
            None => Some(0u32),
        }
    };
    Multiplicity::Range(min, max)
}

impl Multiplicity {
    /// Parses a multiplicity such as `(1)`, `*`, `1..3` or `2..*`;
    /// anything unrecognised is `0..*`.
    pub fn parse(text: &str) -> (m: Self)
        ensures
            m == spec_parse(text@),
    {
        let v = to_chars(text);
        let (a0, b0) = trim_range(&v, 0, v.len(), '(');
        assert(v@.subrange(0, v@.len() as int) =~= text@);
        let (a, b) = trim_range(&v, a0, b0, ')');
        parse_trimmed(&v, a, b)
    }

    /// Whether `count` targets satisfy this multiplicity (the count is
    /// taken as a `u32`).
    pub fn validate(&self, count: usize) -> (b: bool)
        ensures
            b == spec_validate(*self, count as u32),
    {
        let count = count as u32;
        match self {
            Multiplicity::Exact(val) => count == *val,
            Multiplicity::Range(min, max) => {
                if count < *min {
                    return false;
                }
                match max {
                    Some(max_val) => count <= *max_val,
                    None => true,
                }
            },
        }
    }

    /// Whether this multiplicity requires at least one target.
    pub fn min_required(&self) -> (b: bool)
        ensures
            b == spec_min_required(*self),
    {
        match self {
            Multiplicity::Range(min, _) => *min > 0,
            Multiplicity::Exact(val) => *val > 0,
        }
    }
}

} // verus!
