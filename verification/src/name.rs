//! Turning what an application calls itself into the name of a directory.

use vstd::prelude::*;

use crate::text::{lemma_trimmed_part, lemma_trimmed_same, trim_hyphens, trimmed};

verus! {

/// Everything that is not kept in a name: anything but letters, numbers, and a few signs.
pub const SAFE_FILENAME: &'static str = "[^\\pL\\pN\\-_+=]+";

/// Two or more hyphens.
pub const HYPHENS: &'static str = "--+";

/// What `str::to_lowercase` gives.
pub uninterp spec fn lowercase(s: Seq<char>) -> Seq<char>;

/// An ASCII character in lower case.
pub open spec fn ascii_lower(c: char) -> char {
    if 'A' <= c <= 'Z' {
        ((c as u32 + 32) as u8) as char
    } else {
        c
    }
}

/// `str::to_lowercase` depends on the text alone. ASCII text changes in its capital letters only.
pub assume_specification[ str::to_lowercase ](s: &str) -> (r: String)
    ensures
        r@ == lowercase(s@),
        (forall|i: int| 0 <= i < s@.len() ==> (#[trigger] s@[i]) as u32 <= 127) ==> r@ == s@.map(
            |_i: int, c: char| ascii_lower(c),
        ),
;

/// Whether a regular expression counts a character as a letter or a number (`\pL` or `\pN`).
pub uninterp spec fn letter_or_number(c: char) -> bool;

/// An ASCII letter or digit.
pub open spec fn ascii_alphanumeric(c: char) -> bool {
    ||| 'a' <= c <= 'z'
    ||| 'A' <= c <= 'Z'
    ||| '0' <= c <= '9'
}

/// One of the signs that are kept in a name.
pub open spec fn kept_sign(c: char) -> bool {
    c == '-' || c == '_' || c == '+' || c == '='
}

/// `s` with every longest run of characters that `bad` names replaced by `with`.
pub open spec fn squeezed(s: Seq<char>, bad: spec_fn(char) -> bool, with: Seq<char>) -> Seq<char>
    decreases s.len(),
{
    if s.len() == 0 {
        s
    } else {
        let rest = squeezed(s.drop_last(), bad, with);
        if !bad(s.last()) {
            rest.push(s.last())
        } else if s.len() > 1 && bad(s[s.len() - 2]) {
            rest
        } else {
            rest + with
        }
    }
}

/// `regex::Regex::replace_all` for the two patterns of this module: every match, which is the
/// longest run of the characters that the pattern names, is replaced by `with`. For
/// [`SAFE_FILENAME`] these are the characters that are neither letters, numbers, nor one of the
/// signs that are kept; for [`HYPHENS`] they are hyphens, of which a single one stays as it is.
/// Of ASCII characters, a regular expression counts the letters and digits that one expects.
#[verifier::external_body]
fn replace_all(pattern: &str, text: &str, with: &str) -> (r: String)
    requires
        pattern@ == SAFE_FILENAME@ || pattern@ == HYPHENS@,
        with@ == seq!['-'],
    ensures
        pattern@ == SAFE_FILENAME@ ==> r@ == squeezed(
            text@,
            |c: char| !letter_or_number(c) && !kept_sign(c),
            with@,
        ),
        pattern@ == SAFE_FILENAME@ ==> forall|i: int|
            0 <= i < r@.len() && (#[trigger] r@[i]) as u32 <= 127 ==> ascii_alphanumeric(r@[i])
                || kept_sign(r@[i]),
        pattern@ == SAFE_FILENAME@ && (forall|i: int|
            0 <= i < text@.len() ==> ascii_alphanumeric(#[trigger] text@[i]) || kept_sign(
                text@[i],
            )) ==> r@ == text@,
        pattern@ == HYPHENS@ ==> r@ == squeezed(text@, |c: char| c == '-', with@),
{
    regex::Regex::new(pattern).unwrap().replace_all(text, with).into_owned()
}

/// What a name is turned into: lower case, with everything that does not belong in the name of a
/// directory replaced by hyphens, of which none are doubled and none stand at either end.
pub open spec fn converted(s: Seq<char>) -> Seq<char> {
    let safe = squeezed(
        lowercase(s),
        |c: char| !letter_or_number(c) && !kept_sign(c),
        seq!['-'],
    );
    trimmed(squeezed(safe, |c: char| c == '-', seq!['-']), |c: char| c == '-')
}

/// No two hyphens stand next to each other.
pub open spec fn no_double_hyphen(s: Seq<char>) -> bool {
    forall|i: int| 0 <= i < s.len() - 1 && #[trigger] s[i] == '-' ==> s[i + 1] != '-'
}

/// The name can be that of a directory: of ASCII characters, only letters, digits and a few signs
/// are left, and hyphens stand alone and between other characters.
pub open spec fn safe_name(s: Seq<char>) -> bool {
    &&& forall|i: int|
        0 <= i < s.len() && (#[trigger] s[i]) as u32 <= 127 ==> ascii_alphanumeric(s[i])
            || kept_sign(s[i])
    &&& no_double_hyphen(s)
    &&& s.len() > 0 ==> s[0] != '-' && s.last() != '-'
}

/// `s` is ASCII text.
pub open spec fn ascii(s: Seq<char>) -> bool {
    forall|i: int| 0 <= i < s.len() ==> (#[trigger] s[i]) as u32 <= 127
}

/// No ASCII capital letter is in `s`.
pub open spec fn no_capitals(s: Seq<char>) -> bool {
    forall|i: int| 0 <= i < s.len() ==> !('A' <= #[trigger] s[i] <= 'Z')
}

/// What [`convert_application_name`] makes of `input`. The result is safe as the name of a
/// directory: it holds no path separator and no dot. ASCII text becomes ASCII text without capital
/// letters, and if it needs no other change it is only put in lower case.
pub open spec fn names(input: Seq<char>, r: Seq<char>) -> bool {
    &&& r == converted(input)
    &&& safe_name(r)
    &&& ascii(input) ==> ascii(r) && no_capitals(r)
    &&& safe_name(input) && ascii(input) ==> r == input.map(|_i: int, c: char| ascii_lower(c))
}

/// What is left after runs of characters are replaced by hyphens are characters that stay, and
/// hyphens.
proof fn lemma_squeezed_chars(s: Seq<char>, bad: spec_fn(char) -> bool)
    ensures
        forall|i: int|
            0 <= i < squeezed(s, bad, seq!['-']).len() ==> {
                let c = #[trigger] squeezed(s, bad, seq!['-'])[i];
                c == '-' || (s.contains(c) && !bad(c))
            },
    decreases s.len(),
{
    let r = squeezed(s, bad, seq!['-']);
    if s.len() > 0 {
        let t = s.drop_last();
        let q = squeezed(t, bad, seq!['-']);
        lemma_squeezed_chars(t, bad);
        assert forall|i: int| 0 <= i < r.len() implies r[i] == '-' || (s.contains(
            #[trigger] r[i],
        ) && !bad(r[i])) by {
            if i < q.len() {
                assert(r[i] == q[i]);
                if q[i] != '-' {
                    let k = choose|k: int| 0 <= k < t.len() && t[k] == q[i];
                    assert(s[k] == r[i]);
                }
            } else if !bad(s.last()) {
                assert(s[s.len() - 1] == r[i]);
            }
        }
    }
}

/// Where no character is to be replaced, nothing is.
proof fn lemma_squeezed_same(s: Seq<char>, bad: spec_fn(char) -> bool, with: Seq<char>)
    requires
        forall|i: int| 0 <= i < s.len() ==> !bad(#[trigger] s[i]),
    ensures
        squeezed(s, bad, with) == s,
    decreases s.len(),
{
    if s.len() > 0 {
        lemma_squeezed_same(s.drop_last(), bad, with);
        assert(!bad(s[s.len() - 1]));
        assert(s.drop_last().push(s.last()) =~= s);
    }
}

/// A converted name holds only characters that stay.
proof fn lemma_converted_chars(s: Seq<char>)
    ensures
        forall|i: int|
            0 <= i < converted(s).len() ==> {
                let c = #[trigger] converted(s)[i];
                c == '-' || (lowercase(s).contains(c) && (letter_or_number(c) || kept_sign(c)))
            },
        no_double_hyphen(converted(s)),
{
    let bad = |c: char| !letter_or_number(c) && !kept_sign(c);
    let hyphen = |c: char| c == '-';
    let safe = squeezed(lowercase(s), bad, seq!['-']);
    let single = squeezed(safe, hyphen, seq!['-']);
    let r = converted(s);
    lemma_squeezed_chars(lowercase(s), bad);
    lemma_squeezed_hyphens(safe);
    let (a, b) = lemma_trimmed_part(single, hyphen);
    assert forall|i: int| 0 <= i < r.len() implies {
        let c = #[trigger] r[i];
        c == '-' || (lowercase(s).contains(c) && (letter_or_number(c) || kept_sign(c)))
    } by {
        assert(r[i] == single[a + i]);
        assert(safe.contains(single[a + i]));
        let k = choose|k: int| 0 <= k < safe.len() && safe[k] == single[a + i];
        assert(safe[k] == r[i]);
    }
    assert forall|i: int| 0 <= i < r.len() - 1 && #[trigger] r[i] == '-' implies r[i + 1]
        != '-' by {
        assert(r[i] == single[a + i] && r[i + 1] == single[a + i + 1]);
    }
}

/// Converting a name a second time changes nothing, if it is ASCII text, or if its conversion is
/// in lower case already.
pub proof fn converted_names_stay(input: Seq<char>, once: Seq<char>, twice: Seq<char>)
    requires
        names(input, once),
        names(once, twice),
    ensures
        ascii(input) || lowercase(once) == once ==> twice == once,
{
    let bad = |c: char| !letter_or_number(c) && !kept_sign(c);
    let hyphen = |c: char| c == '-';
    if ascii(input) {
        assert(once.map(|_i: int, c: char| ascii_lower(c)) =~= once);
    } else if lowercase(once) == once {
        lemma_converted_chars(input);
        assert forall|i: int| 0 <= i < once.len() implies !bad(#[trigger] once[i]) by {}
        lemma_squeezed_same(once, bad, seq!['-']);
        lemma_squeezed_nothing(once);
        lemma_trimmed_same(once, hyphen);
    }
}

proof fn lemma_squeezed_hyphens(s: Seq<char>)
    ensures
        ({
            let r = squeezed(s, |c: char| c == '-', seq!['-']);
            &&& no_double_hyphen(r)
            &&& r.len() <= s.len()
            &&& s.len() > 0 ==> r.len() > 0 && r.last() == s.last()
            &&& forall|i: int| 0 <= i < r.len() ==> s.contains(#[trigger] r[i])
        }),
    decreases s.len(),
{
    let bad = |c: char| c == '-';
    let r = squeezed(s, bad, seq!['-']);
    if s.len() > 0 {
        let t = s.drop_last();
        let q = squeezed(t, bad, seq!['-']);
        lemma_squeezed_hyphens(t);
        assert forall|i: int| 0 <= i < r.len() implies s.contains(#[trigger] r[i]) by {
            if i < q.len() {
                assert(r[i] == q[i]);
                assert(t.contains(q[i]));
                let k = choose|k: int| 0 <= k < t.len() && t[k] == q[i];
                assert(s[k] == r[i]);
            } else {
                assert(s[s.len() - 1] == r[i]);
            }
        }
        assert forall|i: int| 0 <= i < r.len() - 1 && #[trigger] r[i] == '-' implies r[i + 1]
            != '-' by {
            if i + 1 < q.len() {
                assert(r[i] == q[i] && r[i + 1] == q[i + 1]);
            } else {
                assert(r[i] == q[i]);
                assert(q.last() == t.last());
            }
        }
    }
}

proof fn lemma_squeezed_nothing(s: Seq<char>)
    requires
        no_double_hyphen(s),
    ensures
        squeezed(s, |c: char| c == '-', seq!['-']) == s,
    decreases s.len(),
{
    if s.len() > 0 {
        let t = s.drop_last();
        assert forall|i: int| 0 <= i < t.len() - 1 && #[trigger] t[i] == '-' implies t[i + 1]
            != '-' by {
            assert(s[i] == t[i] && s[i + 1] == t[i + 1]);
        }
        lemma_squeezed_nothing(t);
        if s.len() > 1 && s.last() == '-' {
            assert(s[s.len() - 2] != '-') by {
                if s[s.len() - 2] == '-' {
                    assert(s[s.len() - 2 + 1] != '-');
                }
            }
        }
        assert(t.push(s.last()) =~= s);
        assert(t + seq![s.last()] =~= s);
    }
}

/// The name of the directory for an application that calls itself `input`.
///
/// Whatever the input, the result is safe as the name of a directory: it holds no path separator
/// and no dot. ASCII names that need no change are only put in lower case. That the lower case of
/// other text is its own lower case is not stated.
pub fn convert_application_name(input: &str) -> (r: String)
    ensures
        names(input@, r@),
{
    proof {
        reveal_strlit("-");
        assert("-"@ =~= seq!['-']);
    }
    let lower = input.to_lowercase();
    let safe = replace_all(SAFE_FILENAME, lower.as_str(), "-");
    let single = replace_all(HYPHENS, safe.as_str(), "-");
    let name = trim_hyphens(single.as_str());
    proof {
        let hyphen = |c: char| c == '-';
        lemma_converted_chars(input@);
        lemma_squeezed_hyphens(safe@);
        let (a, b) = lemma_trimmed_part(single@, hyphen);
        assert forall|i: int|
            0 <= i < name@.len() && (#[trigger] name@[i]) as u32 <= 127 implies ascii_alphanumeric(
            name@[i],
        ) || kept_sign(name@[i]) by {
            assert(name@[i] == single@[a + i]);
            assert(safe@.contains(single@[a + i]));
            let k = choose|k: int| 0 <= k < safe@.len() && safe@[k] == single@[a + i];
            assert(safe@[k] == name@[i]);
        }
        if ascii(input@) {
            let l = input@.map(|_i: int, c: char| ascii_lower(c));
            assert(lower@ == l);
            assert forall|i: int| 0 <= i < name@.len() implies (#[trigger] name@[i]) as u32 <= 127
                && !('A' <= name@[i] <= 'Z') by {
                if name@[i] != '-' {
                    let k = choose|k: int| 0 <= k < l.len() && l[k] == name@[i];
                    assert(l[k] == ascii_lower(input@[k]));
                }
            }
        }
        if safe_name(input@) && ascii(input@) {
            let l = input@.map(|_i: int, c: char| ascii_lower(c));
            assert(lower@ == l);
            assert forall|i: int| 0 <= i < l.len() implies ascii_alphanumeric(#[trigger] l[i])
                || kept_sign(l[i]) by {
                assert(ascii_alphanumeric(input@[i]) || kept_sign(input@[i]));
            }
            assert(safe@ == l);
            assert forall|i: int| 0 <= i < l.len() - 1 && #[trigger] l[i] == '-' implies l[i + 1]
                != '-' by {
                assert(input@[i] == '-');
                assert(input@[i + 1] != '-');
                assert(ascii_alphanumeric(input@[i + 1]) || kept_sign(input@[i + 1]));
            }
            lemma_squeezed_nothing(l);
            if l.len() > 0 {
                assert(ascii_alphanumeric(input@[0]) || kept_sign(input@[0]));
                assert(ascii_alphanumeric(input@[l.len() - 1]) || kept_sign(
                    input@[l.len() - 1],
                ));
            }
            lemma_trimmed_same(l, hyphen);
        }
    }
    name
}

/// A safe name is a single, plain component of a path: it holds no separator, and it is neither
/// `.` nor `..`.
pub proof fn safe_names_stay_in_their_directory(s: Seq<char>)
    requires
        safe_name(s),
    ensures
        forall|i: int| 0 <= i < s.len() ==> #[trigger] s[i] != '/' && s[i] != '.',
{
    assert forall|i: int| 0 <= i < s.len() implies #[trigger] s[i] != '/' && s[i] != '.' by {
        if s[i] == '/' || s[i] == '.' {
            assert(s[i] as u32 <= 127);
        }
    }
}

/// Names that differ only in case become the same. What is in lower case stays as it is, up to the
/// characters that cannot stay: where there are none, and no hyphens that are doubled or at either
/// end, nothing else changes.
pub proof fn only_case_and_unsafe_characters_change(a: Seq<char>, b: Seq<char>)
    ensures
        lowercase(a) == lowercase(b) ==> converted(a) == converted(b),
        no_double_hyphen(converted(a)),
        converted(a).len() > 0 ==> converted(a)[0] != '-' && converted(a)[converted(a).len() - 1]
            != '-',
        ({
            let l = lowercase(a);
            (forall|i: int|
                0 <= i < l.len() ==> letter_or_number(#[trigger] l[i]) || l[i] == '-' || l[i] == '_'
                    || l[i] == '+' || l[i] == '=') && (forall|i: int|
                0 <= i < l.len() - 1 && #[trigger] l[i] == '-' ==> l[i + 1] != '-') && (l.len() > 0
                ==> l[0] != '-' && l[l.len() - 1] != '-') ==> converted(a) == l
        }),
{
    let bad = |c: char| !letter_or_number(c) && !kept_sign(c);
    let hyphen = |c: char| c == '-';
    let l = lowercase(a);
    lemma_converted_chars(a);
    let single = squeezed(squeezed(l, bad, seq!['-']), hyphen, seq!['-']);
    let (i, j) = lemma_trimmed_part(single, hyphen);
    if converted(a).len() > 0 {
        assert(converted(a)[0] == single[i]);
        assert(converted(a)[converted(a).len() - 1] == single[j - 1]);
    }
    if (forall|i: int|
        0 <= i < l.len() ==> letter_or_number(#[trigger] l[i]) || l[i] == '-' || l[i] == '_' || l[i]
            == '+' || l[i] == '=') && (forall|i: int|
        0 <= i < l.len() - 1 && #[trigger] l[i] == '-' ==> l[i + 1] != '-') && (l.len() > 0 ==> l[0]
        != '-' && l[l.len() - 1] != '-') {
        assert forall|i: int| 0 <= i < l.len() implies !bad(#[trigger] l[i]) by {}
        lemma_squeezed_same(l, bad, seq!['-']);
        lemma_squeezed_nothing(l);
        lemma_trimmed_same(l, hyphen);
    }
}

/// The character is neither a letter or number nor one of the signs that are kept, or it is a hyphen.
pub open spec fn separates(c: char) -> bool {
    c == '-' || !(letter_or_number(c) || c == '_' || c == '+' || c == '=')
}

/// `s` is not empty and holds nothing that separates.
pub open spec fn unbroken(s: Seq<char>) -> bool {
    s.len() > 0 && forall|i: int|
        0 <= i < s.len() ==> #[trigger] s[i] != '-' && (letter_or_number(s[i]) || s[i] == '_' || s[i]
            == '+' || s[i] == '=')
}

/// Everything between two words becomes a single hyphen, however much it is, and everything around
/// them is left out.
pub proof fn words_are_joined_by_hyphens(
    s: Seq<char>,
    pre: Seq<char>,
    a: Seq<char>,
    run: Seq<char>,
    b: Seq<char>,
    post: Seq<char>,
)
    requires
        unbroken(a),
        unbroken(b),
        run.len() > 0,
        forall|i: int| 0 <= i < run.len() ==> separates(#[trigger] run[i]),
        forall|i: int| 0 <= i < pre.len() ==> separates(#[trigger] pre[i]),
        forall|i: int| 0 <= i < post.len() ==> separates(#[trigger] post[i]),
    ensures
        lowercase(s) == pre + a + run + b + post ==> converted(s) == a + seq!['-'] + b,
        lowercase(s) == pre + a + post ==> converted(s) == a,
        lowercase(s) == run ==> converted(s).len() == 0,
{
    let bad = |c: char| !letter_or_number(c) && !kept_sign(c);
    let hyphen = |c: char| c == '-';
    let h = seq!['-'];
    lemma_run(pre);
    lemma_run(run);
    lemma_run(post);
    lemma_word(a);
    lemma_word(b);
    let squeeze = |t: Seq<char>| squeezed(squeezed(t, bad, h), hyphen, h);
    let p = squeezed(pre, bad, h);
    let r = squeezed(run, bad, h);
    let q = squeezed(post, bad, h);
    if lowercase(s) == pre + a + run + b + post {
        lemma_squeezed_append(pre, a, bad);
        lemma_squeezed_append(pre + a, run, bad);
        assert((pre + a).last() == a[a.len() - 1]);
        lemma_squeezed_append(pre + a + run, b, bad);
        lemma_squeezed_append(pre + a + run + b, post, bad);
        assert((pre + a + run + b).last() == b[b.len() - 1]);
        lemma_squeezed_append(p, a, hyphen);
        lemma_squeezed_append(p + a, r, hyphen);
        assert((p + a).last() == a[a.len() - 1]);
        lemma_squeezed_append(p + a + r, b, hyphen);
        lemma_squeezed_append(p + a + r + b, q, hyphen);
        assert((p + a + r + b).last() == b[b.len() - 1]);
        let mid = a + h + b;
        let before = squeezed(p, hyphen, h);
        let after = squeezed(q, hyphen, h);
        assert(before + a + h + b + after =~= before + mid + after);
        assert(mid[0] == a[0] && mid[mid.len() - 1] == b[b.len() - 1]);
        crate::text::ends_are_trimmed(before, mid, after, hyphen);
    }
    if lowercase(s) == pre + a + post {
        lemma_squeezed_append(pre, a, bad);
        lemma_squeezed_append(pre + a, post, bad);
        assert((pre + a).last() == a[a.len() - 1]);
        lemma_squeezed_append(p, a, hyphen);
        lemma_squeezed_append(p + a, q, hyphen);
        assert((p + a).last() == a[a.len() - 1]);
        crate::text::ends_are_trimmed(squeezed(p, hyphen, h), a, squeezed(q, hyphen, h), hyphen);
    }
    if lowercase(s) == run {
        let none = Seq::<char>::empty();
        assert(h + none + none =~= h);
        crate::text::ends_are_trimmed(h, none, none, hyphen);
    }
}

/// Runs are replaced on both sides of a seam by themselves, unless one goes across it.
proof fn lemma_squeezed_append(s: Seq<char>, t: Seq<char>, bad: spec_fn(char) -> bool)
    requires
        s.len() > 0 && t.len() > 0 ==> !bad(s.last()) || !bad(t[0]),
    ensures
        squeezed(s + t, bad, seq!['-']) == squeezed(s, bad, seq!['-']) + squeezed(
            t,
            bad,
            seq!['-'],
        ),
    decreases t.len(),
{
    let h = seq!['-'];
    if t.len() == 0 {
        assert(s + t =~= s);
        assert(squeezed(s, bad, h) + squeezed(t, bad, h) =~= squeezed(s, bad, h));
    } else {
        let u = t.drop_last();
        assert((s + t).drop_last() =~= s + u);
        assert((s + t).last() == t.last());
        if u.len() > 0 {
            assert(u[0] == t[0]);
            assert((s + t)[s.len() + t.len() - 2] == t[t.len() - 2]);
        } else if s.len() > 0 {
            assert((s + t)[s.len() + t.len() - 2] == s.last());
            assert(t.last() == t[0]);
        }
        lemma_squeezed_append(s, u, bad);
        assert(squeezed(s + t, bad, h) =~= squeezed(s, bad, h) + squeezed(t, bad, h));
    }
}

/// What separates is hyphens once everything else is replaced, and a single one once those are.
proof fn lemma_run(s: Seq<char>)
    requires
        forall|i: int| 0 <= i < s.len() ==> separates(#[trigger] s[i]),
    ensures
        ({
            let t = squeezed(s, |c: char| !letter_or_number(c) && !kept_sign(c), seq!['-']);
            let u = squeezed(t, |c: char| c == '-', seq!['-']);
            &&& forall|i: int| 0 <= i < t.len() ==> #[trigger] t[i] == '-'
            &&& s.len() > 0 ==> t.len() > 0 && u == seq!['-']
            &&& s.len() == 0 ==> u.len() == 0
            &&& forall|i: int| 0 <= i < u.len() ==> #[trigger] u[i] == '-'
        }),
    decreases s.len(),
{
    let bad = |c: char| !letter_or_number(c) && !kept_sign(c);
    let t = squeezed(s, bad, seq!['-']);
    lemma_squeezed_chars(s, bad);
    assert forall|i: int| 0 <= i < t.len() implies #[trigger] t[i] == '-' by {
        if t[i] != '-' {
            let k = choose|k: int| 0 <= k < s.len() && s[k] == t[i];
            assert(separates(s[k]));
        }
    }
    if s.len() > 0 {
        let v = s.drop_last();
        assert forall|i: int| 0 <= i < v.len() implies separates(#[trigger] v[i]) by {
            assert(v[i] == s[i]);
        }
        lemma_run(v);
        if s.len() > 1 {
            assert(v.len() > 0);
        }
        assert(t.len() > 0);
        lemma_hyphens(t);
    }
}

proof fn lemma_hyphens(t: Seq<char>)
    requires
        t.len() > 0,
        forall|i: int| 0 <= i < t.len() ==> #[trigger] t[i] == '-',
    ensures
        squeezed(t, |c: char| c == '-', seq!['-']) == seq!['-'],
    decreases t.len(),
{
    assert(t[t.len() - 1] == '-');
    if t.len() > 1 {
        assert(t[t.len() - 2] == '-');
        lemma_hyphens(t.drop_last());
    } else {
        let hyphen = |c: char| c == '-';
        assert(t.drop_last() =~= Seq::empty());
        assert(squeezed(t.drop_last(), hyphen, seq!['-']) =~= Seq::empty());
        assert(Seq::<char>::empty() + seq!['-'] =~= seq!['-']);
    }
}

/// A word is not changed.
proof fn lemma_word(a: Seq<char>)
    requires
        unbroken(a),
    ensures
        squeezed(a, |c: char| !letter_or_number(c) && !kept_sign(c), seq!['-']) == a,
        squeezed(a, |c: char| c == '-', seq!['-']) == a,
{
    let bad = |c: char| !letter_or_number(c) && !kept_sign(c);
    let hyphen = |c: char| c == '-';
    assert forall|i: int| 0 <= i < a.len() implies !bad(#[trigger] a[i]) && !hyphen(a[i]) by {}
    lemma_squeezed_same(a, bad, seq!['-']);
    lemma_squeezed_same(a, hyphen, seq!['-']);
}

} // verus!
