//! Regions as text, in the form `X,Y WIDTHxHEIGHT`.

use vstd::prelude::*;

use crate::text::{
    all_digits, decimal, decimal_reads_back, digits_of, integer_of, integer_within, is_digit,
    is_white, lemma_digits_read_back, lemma_no_split, lemma_split_at, lemma_trimmed_same,
    parse_integer, push_decimal, split, split_once, to_chars, trim, trimmed,
};
use crate::util::LRegion;

verus! {

/// Why text is not a region.
#[derive(Debug, Clone, Copy, PartialEq, Eq, Structural)]
pub enum RegionError {
    /// A separator is missing.
    Shape,
    /// A part is not a number that fits in an `i32`.
    Number,
}

/// The `i32` that `s` writes.
pub open spec fn coordinate(s: Seq<char>) -> Option<int> {
    integer_within(s, i32::MIN as int, i32::MAX as int)
}

/// The region that `s` writes.
pub open spec fn region_of(s: Seq<char>) -> Result<LRegion, RegionError> {
    match split_once(trimmed(s, |c: char| is_white(c)), ',') {
        None => Err(RegionError::Shape),
        Some((x, rest)) => match split_once(rest, ' ') {
            None => Err(RegionError::Shape),
            Some((y, rest)) => match split_once(rest, 'x') {
                None => Err(RegionError::Shape),
                Some((width, height)) => match (
                    coordinate(x),
                    coordinate(y),
                    coordinate(width),
                    coordinate(height),
                ) {
                    (Some(x), Some(y), Some(width), Some(height)) => Ok(
                        LRegion {
                            x: x as i32,
                            y: y as i32,
                            width: width as i32,
                            height: height as i32,
                        },
                    ),
                    _ => Err(RegionError::Number),
                },
            },
        },
    }
}

/// The text form of a region.
pub open spec fn text_of(r: LRegion) -> Seq<char> {
    decimal(r.x as int) + seq![','] + decimal(r.y as int) + seq![' '] + decimal(r.width as int)
        + seq!['x'] + decimal(r.height as int)
}

/// The `i32` that the characters `from..to` of `s` write.
fn parse_coordinate(s: &Vec<char>, from: usize, to: usize) -> (r: Option<i32>)
    requires
        from <= to <= s@.len(),
    ensures
        match r {
            Some(v) => coordinate(s@.subrange(from as int, to as int)) == Some(v as int),
            None => coordinate(s@.subrange(from as int, to as int)) is None,
        },
{
    match parse_integer(s, from, to, -0x8000_0000, 0x7fff_ffff) {
        Some(v) => Some(v as i32),
        None => None,
    }
}

impl LRegion {
    /// The region as text.
    pub fn to_string(&self) -> (r: String)
        ensures
            r@ == text_of(*self),
    {
        let mut out = String::new();
        self.push_to(&mut out);
        assert(out@ =~= text_of(*self));
        out
    }

    /// Adds the region to text.
    pub fn push_to(&self, out: &mut String)
        ensures
            final(out)@ == old(out)@ + text_of(*self),
    {
        let ghost before = out@;
        push_decimal(out, self.x as i64);
        out.push(',');
        push_decimal(out, self.y as i64);
        out.push(' ');
        push_decimal(out, self.width as i64);
        out.push('x');
        push_decimal(out, self.height as i64);
        assert(out@ =~= before + text_of(*self));
    }

    /// The region that `input` writes. White space around it is skipped.
    pub fn parse(input: &str) -> (r: Result<LRegion, RegionError>)
        ensures
            r == region_of(input@),
    {
        let input = trim(input);
        let s = to_chars(input.as_str());
        let n: usize = s.len();
        assert(s@.subrange(0, n as int) =~= s@);
        let comma: usize = match split(&s, 0, ',') {
            Some(at) => at,
            None => {
                return Err(RegionError::Shape);
            },
        };
        let space: usize = match split(&s, comma + 1, ' ') {
            Some(at) => at,
            None => {
                return Err(RegionError::Shape);
            },
        };
        let cross: usize = match split(&s, space + 1, 'x') {
            Some(at) => at,
            None => {
                return Err(RegionError::Shape);
            },
        };
        let x = parse_coordinate(&s, 0, comma);
        let y = parse_coordinate(&s, comma + 1, space);
        let width = parse_coordinate(&s, space + 1, cross);
        let height = parse_coordinate(&s, cross + 1, n);
        match (x, y, width, height) {
            (Some(x), Some(y), Some(width), Some(height)) => Ok(LRegion { x, y, width, height }),
            _ => Err(RegionError::Number),
        }
    }
}

/// Decimal text is made of digits, with a hyphen at most in front, and ends with a digit.
proof fn lemma_decimal_chars(n: int)
    ensures
        decimal(n).len() > 0,
        is_digit(decimal(n).last()),
        forall|k: int|
            0 <= k < decimal(n).len() ==> is_digit(#[trigger] decimal(n)[k]) || decimal(n)[k] == '-',
{
    let m = if n < 0 {
        (-n) as nat
    } else {
        n as nat
    };
    lemma_digits_read_back(m);
    let d = digits_of(m);
    assert(all_digits(d));
    let s = decimal(n);
    if n < 0 {
        assert(s =~= seq!['-'] + d);
        assert forall|k: int| 0 <= k < s.len() implies is_digit(#[trigger] s[k]) || s[k] == '-' by {
            if k > 0 {
                assert(s[k] == d[k - 1]);
            }
        }
        assert(s.last() == d.last());
    }
    assert(is_digit(d[d.len() - 1]));
}

proof fn lemma_decimal_split(n: int, c: char, rest: Seq<char>)
    requires
        !is_digit(c),
        c != '-',
    ensures
        split_once(decimal(n) + seq![c] + rest, c) == Some((decimal(n), rest)),
{
    let d = decimal(n);
    let s = d + seq![c] + rest;
    lemma_decimal_chars(n);
    assert forall|k: int| 0 <= k < d.len() implies #[trigger] s[k] != c by {
        assert(s[k] == d[k]);
    }
    lemma_split_at(s, c, d.len() as int);
    assert(s.subrange(0, d.len() as int) =~= d);
    assert(s.subrange(d.len() as int + 1, s.len() as int) =~= rest);
}

/// Text made from a region reads back as the same region.
pub proof fn regions_read_back(r: LRegion)
    ensures
        region_of(text_of(r)) == Ok::<LRegion, RegionError>(r),
{
    let s = text_of(r);
    let x = decimal(r.x as int);
    let y = decimal(r.y as int);
    let w = decimal(r.width as int);
    let h = decimal(r.height as int);
    lemma_decimal_chars(r.x as int);
    lemma_decimal_chars(r.height as int);
    assert(s[0] == x[0]);
    assert(s.last() == h.last());
    lemma_trimmed_same(s, |c: char| is_white(c));
    let third = w + seq!['x'] + h;
    let second = y + seq![' '] + third;
    assert(s =~= x + seq![','] + second);
    lemma_decimal_split(r.x as int, ',', second);
    lemma_decimal_split(r.y as int, ' ', third);
    lemma_decimal_split(r.width as int, 'x', h);
    decimal_reads_back(r.x as int);
    decimal_reads_back(r.y as int);
    decimal_reads_back(r.width as int);
    decimal_reads_back(r.height as int);
}

/// The character `c` is nowhere in `s`.
pub open spec fn lacks(s: Seq<char>, c: char) -> bool {
    forall|k: int| 0 <= k < s.len() ==> #[trigger] s[k] != c
}

/// `s` is a number that fits in an `i32`.
pub open spec fn writes_i32(s: Seq<char>) -> bool {
    integer_of(s, true) matches Some(v) && -0x8000_0000 <= v <= 0x7fff_ffff
}

/// The text of a region names the horizontal position, the vertical one, the width and the height,
/// in this order. The first three end with the first comma, space and `x` that follow. Each has to
/// be a number that fits in an `i32`.
pub proof fn regions_are_read_in_order(
    x: Seq<char>,
    y: Seq<char>,
    width: Seq<char>,
    height: Seq<char>,
)
    requires
        lacks(x, ','),
        lacks(y, ' '),
        lacks(width, 'x'),
        x.len() > 0 && !is_white(x[0]),
        height.len() > 0 && !is_white(height.last()),
    ensures
        ({
            let s = x + seq![','] + y + seq![' '] + width + seq!['x'] + height;
            match region_of(s) {
                Ok(r) => {
                    &&& integer_of(x, true) == Some(r.x as int)
                    &&& integer_of(y, true) == Some(r.y as int)
                    &&& integer_of(width, true) == Some(r.width as int)
                    &&& integer_of(height, true) == Some(r.height as int)
                },
                Err(e) => {
                    &&& e == RegionError::Number
                    &&& !(writes_i32(x) && writes_i32(y) && writes_i32(width) && writes_i32(height))
                },
            }
        }),
{
    let s = x + seq![','] + y + seq![' '] + width + seq!['x'] + height;
    let third = width + seq!['x'] + height;
    let second = y + seq![' '] + third;
    assert(s =~= x + seq![','] + second);
    assert(s[0] == x[0]);
    assert(s.last() == height.last());
    lemma_trimmed_same(s, |c: char| is_white(c));
    lemma_first_split(x, ',', second);
    lemma_first_split(y, ' ', third);
    lemma_first_split(width, 'x', height);
}

/// Splitting at the first `c` gives what stands before and after it.
proof fn lemma_first_split(a: Seq<char>, c: char, rest: Seq<char>)
    requires
        lacks(a, c),
    ensures
        split_once(a + seq![c] + rest, c) == Some((a, rest)),
{
    let s = a + seq![c] + rest;
    assert forall|k: int| 0 <= k < a.len() implies #[trigger] s[k] != c by {
        assert(s[k] == a[k]);
    }
    lemma_split_at(s, c, a.len() as int);
    assert(s.subrange(0, a.len() as int) =~= a);
    assert(s.subrange(a.len() as int + 1, s.len() as int) =~= rest);
}

/// Text without a comma, or without a space after it, or without an `x` after that, is no region.
pub proof fn separators_are_needed(s: Seq<char>, x: Seq<char>, y: Seq<char>, rest: Seq<char>)
    requires
        s.len() > 0 ==> !is_white(s[0]) && !is_white(s.last()),
        lacks(x, ','),
        lacks(y, ' '),
    ensures
        lacks(s, ',') ==> region_of(s) == Err::<LRegion, RegionError>(RegionError::Shape),
        s == x + seq![','] + rest && lacks(rest, ' ') ==> region_of(s) == Err::<
            LRegion,
            RegionError,
        >(RegionError::Shape),
        s == x + seq![','] + y + seq![' '] + rest && lacks(rest, 'x') ==> region_of(s) == Err::<
            LRegion,
            RegionError,
        >(RegionError::Shape),
{
    lemma_trimmed_same(s, |c: char| is_white(c));
    if lacks(s, ',') {
        lemma_no_split(s, ',');
    }
    if s == x + seq![','] + rest && lacks(rest, ' ') {
        lemma_first_split(x, ',', rest);
        lemma_no_split(rest, ' ');
    }
    if s == x + seq![','] + y + seq![' '] + rest && lacks(rest, 'x') {
        let second = y + seq![' '] + rest;
        assert(s =~= x + seq![','] + second);
        lemma_first_split(x, ',', second);
        lemma_first_split(y, ' ', rest);
        lemma_no_split(rest, 'x');
    }
}

/// White space around the text of a region makes no difference.
pub proof fn white_space_around_is_skipped(before: Seq<char>, s: Seq<char>, after: Seq<char>)
    requires
        forall|k: int| 0 <= k < before.len() ==> is_white(#[trigger] before[k]),
        forall|k: int| 0 <= k < after.len() ==> is_white(#[trigger] after[k]),
    ensures
        region_of(before + s + after) == region_of(s),
    decreases before.len() + after.len(),
{
    let all = before + s + after;
    if before.len() > 0 {
        assert(all[0] == before[0]);
        assert(all.drop_first() =~= before.drop_first() + s + after);
        white_space_around_is_skipped(before.drop_first(), s, after);
    } else if after.len() > 0 {
        assert(all =~= s + after);
        assert(all.last() == after.last());
        assert(all.drop_last() =~= before + s + after.drop_last());
        white_space_around_is_skipped(before, s, after.drop_last());
        lemma_end_is_trimmed(all, |c: char| is_white(c));
    } else {
        assert(all =~= s);
    }
}

/// Taking a character that is dropped off the end changes nothing.
proof fn lemma_end_is_trimmed(s: Seq<char>, drop: spec_fn(char) -> bool)
    requires
        s.len() > 0,
        drop(s.last()),
    ensures
        trimmed(s, drop) == trimmed(s.drop_last(), drop),
    decreases s.len(),
{
    if drop(s[0]) {
        let t = s.drop_first();
        if t.len() > 0 {
            assert(t.last() == s.last());
            lemma_end_is_trimmed(t, drop);
            assert(t.drop_last() =~= s.drop_last().drop_first());
            assert(s.drop_last()[0] == s[0]);
        } else {
            assert(s.drop_last() =~= t);
        }
    }
}

} // verus!
