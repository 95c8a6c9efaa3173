//! Text as sequences of characters: searching, splitting, trimming, numbers.

use vstd::prelude::*;

verus! {

/// `String::push` appends one character.
pub assume_specification[ String::push ](s: &mut String, c: char)
    ensures
        final(s)@ == old(s)@.push(c),
;

/// The characters of `s`.
pub fn to_chars(s: &str) -> (r: Vec<char>)
    ensures
        r@ == s@,
{
    let mut out: Vec<char> = Vec::new();
    for c in iter: s.chars()
        invariant
            out@ == s@.take(iter.index() as int),
            iter.seq() == s@,
    {
        out.push(c);
    }
    assert(s@.take(s@.len() as int) =~= s@);
    out
}

/// The string made of the characters `from..to` of `s`.
pub fn from_chars(s: &Vec<char>, from: usize, to: usize) -> (r: String)
    requires
        from <= to <= s@.len(),
    ensures
        r@ == s@.subrange(from as int, to as int),
{
    let mut out = String::new();
    let mut i: usize = from;
    assert(out@ =~= s@.subrange(from as int, from as int));
    while i < to
        invariant
            from <= i <= to <= s@.len(),
            out@ == s@.subrange(from as int, i as int),
        decreases to - i,
    {
        out.push(s[i]);
        i = i + 1;
        assert(out@ =~= s@.subrange(from as int, i as int));
    }
    out
}

/// The characters `from..to` of `s`.
pub fn slice_chars(s: &Vec<char>, from: usize, to: usize) -> (r: Vec<char>)
    requires
        from <= to <= s@.len(),
    ensures
        r@ == s@.subrange(from as int, to as int),
{
    let mut out: Vec<char> = Vec::new();
    let mut i: usize = from;
    assert(out@ =~= s@.subrange(from as int, from as int));
    while i < to
        invariant
            from <= i <= to <= s@.len(),
            out@ == s@.subrange(from as int, i as int),
        decreases to - i,
    {
        out.push(s[i]);
        i = i + 1;
        assert(out@ =~= s@.subrange(from as int, i as int));
    }
    out
}

/// `needle` stands in `hay` from position `at` on.
pub open spec fn occurs_at(hay: Seq<char>, needle: Seq<char>, at: int) -> bool {
    &&& 0 <= at
    &&& at + needle.len() <= hay.len()
    &&& hay.subrange(at, at + needle.len()) == needle
}

/// `needle` is a part of `hay`.
pub open spec fn occurs(hay: Seq<char>, needle: Seq<char>) -> bool {
    exists|at: int| occurs_at(hay, needle, at)
}

/// Whether `needle` stands in `hay` from position `at` on.
fn matches_at(hay: &Vec<char>, needle: &Vec<char>, at: usize) -> (r: bool)
    requires
        at + needle@.len() <= hay@.len(),
    ensures
        r == occurs_at(hay@, needle@, at as int),
{
    let n: usize = needle.len();
    let total: usize = hay.len();
    let mut i: usize = 0;
    while i < n
        invariant
            n == needle@.len(),
            total == hay@.len(),
            i <= n,
            at + n <= total,
            forall|k: int| 0 <= k < i ==> hay@[at + k] == #[trigger] needle@[k],
        decreases n - i,
    {
        if hay[at + i] != needle[i] {
            assert(hay@.subrange(at as int, at + n)[i as int] != needle@[i as int]);
            return false;
        }
        i = i + 1;
    }
    assert(hay@.subrange(at as int, at + n) =~= needle@);
    true
}

/// Whether `needle` is a part of `hay`.
pub fn contains(hay: &str, needle: &str) -> (r: bool)
    ensures
        r == occurs(hay@, needle@),
{
    let h = to_chars(hay);
    let n = to_chars(needle);
    if n.len() > h.len() {
        return false;
    }
    let last: usize = h.len() - n.len();
    let mut at: usize = 0;
    while at <= last
        invariant
            h@ == hay@,
            n@ == needle@,
            last + n@.len() == h@.len(),
            at <= last + 1,
            forall|k: int| 0 <= k < at ==> !occurs_at(h@, n@, k),
        decreases last + 1 - at,
    {
        if matches_at(&h, &n, at) {
            return true;
        }
        if at == last {
            assert forall|k: int| !occurs_at(h@, n@, k) by {
                if 0 <= k && k + n@.len() <= h@.len() {
                    assert(k <= last);
                }
            }
            return false;
        }
        at = at + 1;
    }
    false
}

/// Whether two strings are the same.
pub fn same(a: &str, b: &str) -> (r: bool)
    ensures
        r == (a@ == b@),
{
    let x = to_chars(a);
    let y = to_chars(b);
    if x.len() != y.len() {
        return false;
    }
    let r = matches_at(&x, &y, 0);
    assert(x@.subrange(0, x@.len() as int) =~= x@);
    r
}

/// A character with the Unicode property `White_Space`.
pub open spec fn is_white(c: char) -> bool {
    let v = c as u32;
    ||| 0x9 <= v <= 0xd
    ||| v == 0x20
    ||| v == 0x85
    ||| v == 0xa0
    ||| v == 0x1680
    ||| 0x2000 <= v <= 0x200a
    ||| v == 0x2028
    ||| v == 0x2029
    ||| v == 0x202f
    ||| v == 0x205f
    ||| v == 0x3000
}

/// Whether `c` has the Unicode property `White_Space`.
pub fn white(c: char) -> (r: bool)
    ensures
        r == is_white(c),
{
    let v: u32 = c as u32;
    (0x9 <= v && v <= 0xd) || v == 0x20 || v == 0x85 || v == 0xa0 || v == 0x1680 || (0x2000 <= v
        && v <= 0x200a) || v == 0x2028 || v == 0x2029 || v == 0x202f || v == 0x205f || v == 0x3000
}

/// `s` without the characters at its start and end that `drop` names.
pub open spec fn trimmed(s: Seq<char>, drop: spec_fn(char) -> bool) -> Seq<char>
    decreases s.len(),
{
    if s.len() == 0 {
        s
    } else if drop(s[0]) {
        trimmed(s.drop_first(), drop)
    } else if drop(s.last()) {
        trimmed(s.drop_last(), drop)
    } else {
        s
    }
}

/// A sequence whose first and last characters stay is not trimmed.
pub proof fn lemma_trimmed_same(s: Seq<char>, drop: spec_fn(char) -> bool)
    requires
        s.len() > 0 ==> !drop(s[0]) && !drop(s.last()),
    ensures
        trimmed(s, drop) == s,
{
}

/// Trimming gives a part of the sequence that starts and ends with a character that stays.
pub proof fn lemma_trimmed_part(s: Seq<char>, drop: spec_fn(char) -> bool) -> (r: (int, int))
    ensures
        0 <= r.0 <= r.1 <= s.len(),
        trimmed(s, drop) == s.subrange(r.0, r.1),
        r.0 < r.1 ==> !drop(s[r.0]) && !drop(s[r.1 - 1]),
    decreases s.len(),
{
    if s.len() == 0 {
        assert(s =~= s.subrange(0, 0));
        (0, 0)
    } else if drop(s[0]) {
        let (a, b) = lemma_trimmed_part(s.drop_first(), drop);
        assert(s.drop_first().subrange(a, b) =~= s.subrange(a + 1, b + 1));
        (a + 1, b + 1)
    } else if drop(s.last()) {
        let (a, b) = lemma_trimmed_part(s.drop_last(), drop);
        assert(s.drop_last().subrange(a, b) =~= s.subrange(a, b));
        (a, b)
    } else {
        assert(s =~= s.subrange(0, s.len() as int));
        (0, s.len() as int)
    }
}

/// Where a sequence starts and ends after white space is trimmed.
fn trim_white_ends(s: &Vec<char>) -> (r: (usize, usize))
    ensures
        r.0 <= r.1 <= s@.len(),
        s@.subrange(r.0 as int, r.1 as int) == trimmed(s@, |c: char| is_white(c)),
{
    let ghost drop = |c: char| is_white(c);
    let n: usize = s.len();
    let mut from: usize = 0;
    assert(s@.subrange(0, n as int) =~= s@);
    while from < n && white(s[from])
        invariant
            n == s@.len(),
            from <= n,
            drop == (|c: char| is_white(c)),
            trimmed(s@.subrange(from as int, n as int), drop) == trimmed(s@, drop),
        decreases n - from,
    {
        assert(s@.subrange(from as int, n as int).drop_first() =~= s@.subrange(
            from + 1,
            n as int,
        ));
        from = from + 1;
    }
    let mut to: usize = n;
    while from < to && white(s[to - 1])
        invariant
            n == s@.len(),
            from <= to <= n,
            drop == (|c: char| is_white(c)),
            from < n ==> !is_white(s@[from as int]),
            trimmed(s@.subrange(from as int, to as int), drop) == trimmed(s@, drop),
        decreases to - from,
    {
        assert(s@.subrange(from as int, to as int).drop_last() =~= s@.subrange(
            from as int,
            to - 1,
        ));
        to = to - 1;
    }
    proof {
        lemma_trimmed_same(s@.subrange(from as int, to as int), drop);
    }
    (from, to)
}

/// `s` without white space at its start and end.
pub fn trim(s: &str) -> (r: String)
    ensures
        r@ == trimmed(s@, |c: char| is_white(c)),
{
    let chars = to_chars(s);
    let (from, to) = trim_white_ends(&chars);
    from_chars(&chars, from, to)
}

/// Where a sequence starts and ends after hyphens are trimmed.
fn trim_hyphen_ends(s: &Vec<char>) -> (r: (usize, usize))
    ensures
        r.0 <= r.1 <= s@.len(),
        s@.subrange(r.0 as int, r.1 as int) == trimmed(s@, |c: char| c == '-'),
{
    let ghost drop = |c: char| c == '-';
    let n: usize = s.len();
    let mut from: usize = 0;
    assert(s@.subrange(0, n as int) =~= s@);
    while from < n && s[from] == '-'
        invariant
            n == s@.len(),
            from <= n,
            drop == (|c: char| c == '-'),
            trimmed(s@.subrange(from as int, n as int), drop) == trimmed(s@, drop),
        decreases n - from,
    {
        assert(s@.subrange(from as int, n as int).drop_first() =~= s@.subrange(
            from + 1,
            n as int,
        ));
        from = from + 1;
    }
    let mut to: usize = n;
    while from < to && s[to - 1] == '-'
        invariant
            n == s@.len(),
            from <= to <= n,
            drop == (|c: char| c == '-'),
            from < n ==> s@[from as int] != '-',
            trimmed(s@.subrange(from as int, to as int), drop) == trimmed(s@, drop),
        decreases to - from,
    {
        assert(s@.subrange(from as int, to as int).drop_last() =~= s@.subrange(
            from as int,
            to - 1,
        ));
        to = to - 1;
    }
    proof {
        lemma_trimmed_same(s@.subrange(from as int, to as int), drop);
    }
    (from, to)
}

/// `s` without the hyphens at its start and end.
pub fn trim_hyphens(s: &str) -> (r: String)
    ensures
        r@ == trimmed(s@, |c: char| c == '-'),
{
    let chars = to_chars(s);
    let (from, to) = trim_hyphen_ends(&chars);
    from_chars(&chars, from, to)
}

/// Where `c` first stands in `s` from position `from` on.
pub fn find_char(s: &Vec<char>, from: usize, to: usize, c: char) -> (r: Option<usize>)
    requires
        from <= to <= s@.len(),
    ensures
        match r {
            Some(at) => from <= at < to && s@[at as int] == c && forall|k: int|
                from <= k < at ==> #[trigger] s@[k] != c,
            None => forall|k: int| from <= k < to ==> #[trigger] s@[k] != c,
        },
{
    let mut i: usize = from;
    while i < to
        invariant
            from <= i <= to <= s@.len(),
            forall|k: int| from <= k < i ==> #[trigger] s@[k] != c,
        decreases to - i,
    {
        if s[i] == c {
            return Some(i);
        }
        i = i + 1;
    }
    None
}

/// What stands before and after the first `c`, if there is one.
pub open spec fn split_once(s: Seq<char>, c: char) -> Option<(Seq<char>, Seq<char>)>
    decreases s.len(),
{
    if s.len() == 0 {
        None
    } else if s[0] == c {
        Some((Seq::empty(), s.drop_first()))
    } else {
        match split_once(s.drop_first(), c) {
            Some((a, b)) => Some((seq![s[0]] + a, b)),
            None => None,
        }
    }
}

pub proof fn lemma_split_at(s: Seq<char>, c: char, at: int)
    requires
        0 <= at < s.len(),
        s[at] == c,
        forall|k: int| 0 <= k < at ==> #[trigger] s[k] != c,
    ensures
        split_once(s, c) == Some((s.subrange(0, at), s.subrange(at + 1, s.len() as int))),
    decreases at,
{
    if at == 0 {
        assert(s.subrange(0, 0) =~= Seq::empty());
        assert(s.drop_first() =~= s.subrange(1, s.len() as int));
    } else {
        let t = s.drop_first();
        assert forall|k: int| 0 <= k < at - 1 implies #[trigger] t[k] != c by {
            assert(t[k] == s[k + 1]);
        }
        lemma_split_at(t, c, at - 1);
        assert(seq![s[0]] + t.subrange(0, at - 1) =~= s.subrange(0, at));
        assert(t.subrange(at, t.len() as int) =~= s.subrange(at + 1, s.len() as int));
    }
}

pub proof fn lemma_no_split(s: Seq<char>, c: char)
    requires
        forall|k: int| 0 <= k < s.len() ==> #[trigger] s[k] != c,
    ensures
        split_once(s, c) is None,
    decreases s.len(),
{
    if s.len() > 0 {
        let t = s.drop_first();
        assert forall|k: int| 0 <= k < t.len() implies #[trigger] t[k] != c by {
            assert(t[k] == s[k + 1]);
        }
        lemma_no_split(t, c);
    }
}

/// Splits the characters `from..` of `s` at the first `c`.
pub fn split(s: &Vec<char>, from: usize, c: char) -> (r: Option<usize>)
    requires
        from <= s@.len(),
    ensures
        match r {
            Some(at) => from <= at < s@.len() && split_once(
                s@.subrange(from as int, s@.len() as int),
                c,
            ) == Some(
                (s@.subrange(from as int, at as int), s@.subrange(at + 1, s@.len() as int)),
            ),
            None => split_once(s@.subrange(from as int, s@.len() as int), c) is None,
        },
{
    let ghost t = s@.subrange(from as int, s@.len() as int);
    match find_char(s, from, s.len(), c) {
        Some(at) => {
            proof {
                assert forall|k: int| 0 <= k < at - from implies #[trigger] t[k] != c by {
                    assert(t[k] == s@[from + k]);
                }
                lemma_split_at(t, c, at - from);
                assert(t.subrange(0, at - from) =~= s@.subrange(from as int, at as int));
                assert(t.subrange(at - from + 1, t.len() as int) =~= s@.subrange(
                    at + 1,
                    s@.len() as int,
                ));
            }
            Some(at)
        },
        None => {
            proof {
                assert forall|k: int| 0 <= k < t.len() implies #[trigger] t[k] != c by {
                    assert(t[k] == s@[from + k]);
                }
                lemma_no_split(t, c);
            }
            None
        },
    }
}

/// What follows the last `c` in `s`, or all of `s` where there is none.
pub open spec fn after_last(s: Seq<char>, c: char) -> Seq<char>
    decreases s.len(),
{
    if s.len() == 0 {
        s
    } else if s.last() == c {
        Seq::empty()
    } else {
        after_last(s.drop_last(), c).push(s.last())
    }
}

/// What follows the last `c` in `s` is the longest end of it without a `c`.
pub proof fn lemma_after_last(s: Seq<char>, c: char, from: int)
    requires
        0 <= from <= s.len(),
        from > 0 ==> s[from - 1] == c,
        forall|k: int| from <= k < s.len() ==> #[trigger] s[k] != c,
    ensures
        after_last(s, c) == s.subrange(from, s.len() as int),
    decreases s.len(),
{
    if s.len() == 0 {
        assert(s =~= s.subrange(0, 0));
    } else if from == s.len() {
        assert(s.subrange(from, from) =~= Seq::empty());
    } else {
        lemma_after_last(s.drop_last(), c, from);
        assert(s.drop_last().subrange(from, s.len() - 1).push(s.last()) =~= s.subrange(
            from,
            s.len() as int,
        ));
    }
}

/// What follows the last `c` in `s`, or all of `s` where there is none.
pub fn last_segment(s: &str, c: char) -> (r: String)
    ensures
        r@ == after_last(s@, c),
{
    let chars = to_chars(s);
    let mut from: usize = chars.len();
    while from > 0 && chars[from - 1] != c
        invariant
            from <= chars@.len(),
            forall|k: int| from <= k < chars@.len() ==> #[trigger] chars@[k] != c,
        decreases from,
    {
        from = from - 1;
    }
    proof {
        lemma_after_last(chars@, c, from as int);
    }
    from_chars(&chars, from, chars.len())
}

/// An ASCII digit.
pub open spec fn is_digit(c: char) -> bool {
    '0' <= c <= '9'
}

/// The number that a sequence of digits writes.
pub open spec fn digits_value(s: Seq<char>) -> int
    decreases s.len(),
{
    if s.len() == 0 {
        0
    } else {
        10 * digits_value(s.drop_last()) + (s.last() as int - '0' as int)
    }
}

/// `s` is one or more digits.
pub open spec fn all_digits(s: Seq<char>) -> bool {
    s.len() > 0 && forall|k: int| 0 <= k < s.len() ==> is_digit(#[trigger] s[k])
}

/// The integer that `s` writes: digits, with a `+` in front or, where that is allowed, a `-`.
pub open spec fn integer_of(s: Seq<char>, signed: bool) -> Option<int> {
    if all_digits(s) {
        Some(digits_value(s))
    } else if s.len() > 0 && s[0] == '+' && all_digits(s.drop_first()) {
        Some(digits_value(s.drop_first()))
    } else if s.len() > 0 && s[0] == '-' && signed && all_digits(s.drop_first()) {
        Some(-digits_value(s.drop_first()))
    } else {
        None
    }
}

/// The integer that `s` writes, if it lies between `min` and `max`.
pub open spec fn integer_within(s: Seq<char>, min: int, max: int) -> Option<int> {
    match integer_of(s, min < 0) {
        Some(v) => if min <= v <= max {
            Some(v)
        } else {
            None
        },
        None => None,
    }
}

/// More digits never make a number smaller.
proof fn lemma_digits_grow(s: Seq<char>, n: int)
    requires
        0 <= n <= s.len(),
        forall|k: int| 0 <= k < s.len() ==> is_digit(#[trigger] s[k]),
    ensures
        0 <= digits_value(s.take(n)) <= digits_value(s),
    decreases s.len() - n,
{
    if n == s.len() {
        assert(s.take(n) =~= s);
        lemma_digits_nonnegative(s);
    } else {
        lemma_digits_grow(s, n + 1);
        assert(s.take(n + 1).drop_last() =~= s.take(n));
        lemma_digits_nonnegative(s.take(n));
    }
}

proof fn lemma_digits_nonnegative(s: Seq<char>)
    requires
        forall|k: int| 0 <= k < s.len() ==> is_digit(#[trigger] s[k]),
    ensures
        0 <= digits_value(s),
    decreases s.len(),
{
    if s.len() > 0 {
        assert(is_digit(s.last()));
        lemma_digits_nonnegative(s.drop_last());
    }
}

/// The digits `from..to` of `s` as a number, if there are any, all are digits, and the number is
/// not above `limit`.
fn parse_digits(s: &Vec<char>, from: usize, to: usize, limit: u64) -> (r: Option<u64>)
    requires
        from <= to <= s@.len(),
    ensures
        r == ({
            let t = s@.subrange(from as int, to as int);
            if all_digits(t) && digits_value(t) <= limit {
                Some(digits_value(t) as u64)
            } else {
                None
            }
        }),
{
    if from == to {
        return None;
    }
    let ghost t = s@.subrange(from as int, to as int);
    let mut value: u128 = 0;
    let mut i: usize = from;
    assert(t.take(0) =~= Seq::<char>::empty());
    let mut beyond: bool = false;
    while i < to
        invariant
            from <= i <= to <= s@.len(),
            t == s@.subrange(from as int, to as int),
            forall|k: int| 0 <= k < i - from ==> is_digit(#[trigger] t[k]),
            !beyond ==> value == digits_value(t.take(i - from)) && value <= limit,
            beyond ==> digits_value(t.take(i - from)) > limit,
        decreases to - i,
    {
        let c: char = s[i];
        assert(t[i - from] == c);
        if c < '0' || c > '9' {
            assert(!is_digit(t[i - from]));
            return None;
        }
        let d: u32 = c as u32 - '0' as u32;
        proof {
            let next = t.take(i - from + 1);
            assert(next.drop_last() =~= t.take(i - from));
            assert(next.last() == c);
            assert forall|k: int| 0 <= k < i - from + 1 implies is_digit(#[trigger] t[k]) by {}
            assert forall|k: int| 0 <= k < next.drop_last().len() implies is_digit(
                #[trigger] next.drop_last()[k],
            ) by {
                assert(next.drop_last()[k] == t[k]);
            }
            lemma_digits_nonnegative(next.drop_last());
        }
        if !beyond {
            value = value * 10 + d as u128;
            if value > limit as u128 {
                beyond = true;
            }
        }
        i = i + 1;
    }
    assert(t.take(to - from) =~= t);
    if beyond {
        None
    } else {
        Some(value as u64)
    }
}

/// The integer that the characters `from..to` of `s` write, if it lies between `min` and `max`.
pub fn parse_integer(s: &Vec<char>, from: usize, to: usize, min: i64, max: i64) -> (r: Option<i64>)
    requires
        from <= to <= s@.len(),
        min <= 0 <= max,
    ensures
        r == match integer_within(s@.subrange(from as int, to as int), min as int, max as int) {
            Some(v) => Some(v as i64),
            None => None,
        },
{
    let ghost t = s@.subrange(from as int, to as int);
    if from == to {
        return None;
    }
    let first: char = s[from];
    assert(t[0] == first);
    assert(t.drop_first() =~= s@.subrange(from + 1, to as int));
    if first == '+' {
        assert(!all_digits(t));
        return match parse_digits(s, from + 1, to, max as u64) {
            Some(v) => {
                proof {
                    lemma_digits_nonnegative(t.drop_first());
                }
                Some(v as i64)
            },
            None => None,
        };
    }
    if first == '-' {
        assert(!all_digits(t));
        if min == 0 {
            return None;
        }
        let limit: u64 = (-(min as i128)) as u64;
        return match parse_digits(s, from + 1, to, limit) {
            Some(v) => {
                proof {
                    lemma_digits_nonnegative(t.drop_first());
                }
                Some((-(v as i128)) as i64)
            },
            None => {
                proof {
                    if all_digits(t.drop_first()) {
                        lemma_digits_nonnegative(t.drop_first());
                    }
                }
                None
            },
        };
    }
    match parse_digits(s, from, to, max as u64) {
        Some(v) => {
            proof {
                lemma_digits_nonnegative(t);
            }
            Some(v as i64)
        },
        None => None,
    }
}

/// The character for a digit.
pub open spec fn digit(d: int) -> char {
    if d == 0 {
        '0'
    } else if d == 1 {
        '1'
    } else if d == 2 {
        '2'
    } else if d == 3 {
        '3'
    } else if d == 4 {
        '4'
    } else if d == 5 {
        '5'
    } else if d == 6 {
        '6'
    } else if d == 7 {
        '7'
    } else if d == 8 {
        '8'
    } else {
        '9'
    }
}

/// `n` in decimal digits.
pub open spec fn digits_of(n: nat) -> Seq<char>
    decreases n,
{
    if n < 10 {
        seq![digit(n as int)]
    } else {
        digits_of(n / 10).push(digit((n % 10) as int))
    }
}

/// `n` in decimal, with a `-` in front where it is negative.
pub open spec fn decimal(n: int) -> Seq<char> {
    if n < 0 {
        seq!['-'] + digits_of((-n) as nat)
    } else {
        digits_of(n as nat)
    }
}

/// What is written in digits reads back as the same number.
pub proof fn lemma_digits_read_back(n: nat)
    ensures
        all_digits(digits_of(n)),
        digits_value(digits_of(n)) == n,
    decreases n,
{
    let s = digits_of(n);
    if n < 10 {
        assert(s.drop_last() =~= Seq::<char>::empty());
        assert(digits_value(s.drop_last()) == 0);
    } else {
        lemma_digits_read_back(n / 10);
        assert(s.drop_last() =~= digits_of(n / 10));
        assert forall|k: int| 0 <= k < s.len() implies is_digit(#[trigger] s[k]) by {
            if k < s.len() - 1 {
                assert(s[k] == digits_of(n / 10)[k]);
            }
        }
    }
}

/// What is written in decimal reads back as the same integer.
pub proof fn decimal_reads_back(n: int)
    ensures
        integer_of(decimal(n), true) == Some(n),
        n >= 0 ==> integer_of(decimal(n), false) == Some(n),
{
    if n < 0 {
        lemma_digits_read_back((-n) as nat);
        assert(decimal(n).drop_first() =~= digits_of((-n) as nat));
        assert(!is_digit(decimal(n)[0]));
    } else {
        lemma_digits_read_back(n as nat);
    }
}

/// The character for a digit.
fn digit_char(d: u64) -> (r: char)
    requires
        d < 10,
    ensures
        r == digit(d as int),
{
    if d == 0 {
        '0'
    } else if d == 1 {
        '1'
    } else if d == 2 {
        '2'
    } else if d == 3 {
        '3'
    } else if d == 4 {
        '4'
    } else if d == 5 {
        '5'
    } else if d == 6 {
        '6'
    } else if d == 7 {
        '7'
    } else if d == 8 {
        '8'
    } else {
        '9'
    }
}

/// Appends `n` in decimal digits.
fn push_digits(out: &mut String, n: u64)
    ensures
        final(out)@ == old(out)@ + digits_of(n as nat),
    decreases n,
{
    let ghost start = out@;
    if n < 10 {
        out.push(digit_char(n));
        assert(out@ =~= start + digits_of(n as nat));
    } else {
        push_digits(out, n / 10);
        out.push(digit_char(n % 10));
        assert(out@ =~= start + digits_of(n as nat));
    }
}

/// Appends `n` in decimal.
pub fn push_decimal(out: &mut String, n: i64)
    ensures
        final(out)@ == old(out)@ + decimal(n as int),
{
    if n < 0 {
        let ghost start = out@;
        out.push('-');
        push_digits(out, (-(n as i128)) as u64);
        assert(out@ =~= start + decimal(n as int));
    } else {
        push_digits(out, n as u64);
    }
}

/// `n` in decimal.
pub fn show(n: i64) -> (r: String)
    ensures
        r@ == decimal(n as int),
{
    let mut out = String::new();
    push_decimal(&mut out, n);
    assert(out@ =~= decimal(n as int));
    out
}

/// Trimming takes away everything that `drop` names at the start and at the end, and nothing else.
pub proof fn ends_are_trimmed(
    pre: Seq<char>,
    mid: Seq<char>,
    post: Seq<char>,
    drop: spec_fn(char) -> bool,
)
    requires
        forall|i: int| 0 <= i < pre.len() ==> drop(#[trigger] pre[i]),
        forall|i: int| 0 <= i < post.len() ==> drop(#[trigger] post[i]),
        mid.len() > 0 ==> !drop(mid[0]) && !drop(mid[mid.len() - 1]),
    ensures
        trimmed(pre + mid + post, drop) == mid,
    decreases pre.len() + post.len(),
{
    let s = pre + mid + post;
    if pre.len() > 0 {
        assert(s[0] == pre[0]);
        assert(s.drop_first() =~= pre.drop_first() + mid + post);
        ends_are_trimmed(pre.drop_first(), mid, post, drop);
    } else if mid.len() == 0 {
        if post.len() > 0 {
            assert(s[0] == post[0]);
            assert(s.drop_first() =~= pre + mid + post.drop_first());
            ends_are_trimmed(pre, mid, post.drop_first(), drop);
        } else {
            assert(s =~= mid);
        }
    } else if post.len() > 0 {
        assert(s[0] == mid[0]);
        assert(s.last() == post[post.len() - 1]);
        assert(s.drop_last() =~= pre + mid + post.drop_last());
        ends_are_trimmed(pre, mid, post.drop_last(), drop);
    } else {
        assert(s =~= mid);
    }
}

/// A number is written with the digits of its decimal places, without leading zeros, and with a `-`
/// in front if it is negative.
pub proof fn decimals_are_written_by_place(n: int)
    ensures
        0 <= n < 10 ==> decimal(n).len() == 1 && decimal(n)[0] as int == 0x30 + n,
        n >= 10 ==> decimal(n).len() == decimal(n / 10).len() + 1 && decimal(n).take(
            decimal(n).len() - 1,
        ) == decimal(n / 10) && decimal(n)[decimal(n).len() - 1] as int == 0x30 + n % 10,
        n < 0 ==> decimal(n) == seq!['-'] + decimal(-n),
{
    if n >= 10 {
        assert(decimal(n).take(decimal(n).len() - 1) =~= decimal(n / 10));
    }
}

/// A sign in front of digits counts: a `-` where numbers can be negative, a `+` everywhere. Digits
/// count for ten times as much as those after them, and nothing but digits is a number.
pub proof fn numbers_are_read_by_place(s: Seq<char>, c: char, signed: bool)
    ensures
        all_digits(s) ==> integer_of(seq!['+'] + s, signed) == integer_of(s, signed),
        all_digits(s) ==> (integer_of(s, true) matches Some(v) && integer_of(
            seq!['-'] + s,
            true,
        ) == Some(-v)),
        integer_of(seq!['-'] + s, false) is None,
        integer_of(Seq::empty(), signed) is None,
        all_digits(s) && '0' <= c <= '9' ==> (integer_of(s, signed) matches Some(v) && integer_of(
            s.push(c),
            signed,
        ) == Some(10 * v + (c as int - 0x30))),
        '0' <= c <= '9' ==> integer_of(seq![c], signed) == Some(c as int - 0x30),
        !('0' <= c <= '9') ==> integer_of(s.push(c), signed) is None,
{
    let plus = seq!['+'] + s;
    let minus = seq!['-'] + s;
    assert(plus.drop_first() =~= s);
    assert(minus.drop_first() =~= s);
    assert(plus[0] == '+' && minus[0] == '-');
    assert(!is_digit(plus[0]) && !is_digit(minus[0]));
    let more = s.push(c);
    assert(more.drop_last() =~= s);
    assert(more[more.len() - 1] == c);
    if all_digits(s) && is_digit(c) {
        assert forall|k: int| 0 <= k < more.len() implies is_digit(#[trigger] more[k]) by {
            if k < s.len() {
                assert(more[k] == s[k]);
            }
        }
    }
    if !is_digit(c) {
        assert(!all_digits(more));
        if more.len() > 1 {
            assert(more.drop_first()[more.len() - 2] == c);
        }
    }
    let one = seq![c];
    if is_digit(c) {
        assert(one.drop_last() =~= Seq::empty());
        assert(one[0] == c);
        reveal_with_fuel(digits_value, 2);
        assert(all_digits(one));
    }
}

/// Text is found in another exactly if it stands there character for character, and wherever that
/// is.
pub proof fn parts_are_found_anywhere(
    before: Seq<char>,
    needle: Seq<char>,
    after: Seq<char>,
    hay: Seq<char>,
    at: int,
)
    ensures
        occurs(before + needle + after, needle),
        occurs_at(hay, needle, at) <==> 0 <= at && at + needle.len() <= hay.len() && forall|k: int|
            0 <= k < needle.len() ==> #[trigger] hay[at + k] == needle[k],
        occurs(hay, needle) <==> exists|i: int| #[trigger] occurs_at(hay, needle, i),
{
    let whole = before + needle + after;
    let from = before.len() as int;
    assert(whole.subrange(from, from + needle.len()) =~= needle);
    assert(occurs_at(whole, needle, from));
    if occurs_at(hay, needle, at) {
        assert forall|k: int| 0 <= k < needle.len() implies #[trigger] hay[at + k] == needle[k] by {
            assert(hay.subrange(at, at + needle.len())[k] == needle[k]);
        }
    }
    if 0 <= at && at + needle.len() <= hay.len() && forall|k: int|
        0 <= k < needle.len() ==> #[trigger] hay[at + k] == needle[k] {
        let found = hay.subrange(at, at + needle.len());
        assert forall|k: int| 0 <= k < needle.len() implies found[k] == needle[k] by {
            assert(hay[at + k] == needle[k]);
        }
        assert(found =~= needle);
    }
}

} // verus!
