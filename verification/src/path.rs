//! Paths as text, split at slashes.

use vstd::prelude::*;

use crate::name::{safe_name, safe_names_stay_in_their_directory};
use crate::text::{after_last, from_chars, lemma_after_last, to_chars};

verus! {

/// The path starts at the root.
pub open spec fn rooted(s: Seq<char>) -> bool {
    s.len() > 0 && s[0] == '/'
}

/// The path starts with the current directory.
pub open spec fn dotted(s: Seq<char>) -> bool {
    s.len() > 0 && s[0] == '.' && (s.len() == 1 || s[1] == '/')
}

/// A component, unless it is empty or names the current directory.
pub open spec fn single(s: Seq<char>) -> Seq<Seq<char>> {
    if s.len() == 0 || s == seq!['.'] {
        Seq::empty()
    } else {
        seq![s]
    }
}

/// The components of a path. Neither repeated slashes nor `.` make one.
pub open spec fn parts(s: Seq<char>) -> Seq<Seq<char>>
    decreases s.len(),
    via parts_end
{
    let last = after_last(s, '/');
    if last.len() >= s.len() {
        single(s)
    } else {
        parts(s.take(s.len() - last.len() - 1)) + single(last)
    }
}

#[via_fn]
proof fn parts_end(s: Seq<char>) {
    lemma_after_last_len(s);
}

proof fn lemma_after_last_len(s: Seq<char>)
    ensures
        after_last(s, '/').len() <= s.len(),
    decreases s.len(),
{
    if s.len() > 0 && s.last() != '/' {
        lemma_after_last_len(s.drop_last());
    }
}

/// No slash is in `s`.
pub open spec fn no_slash(s: Seq<char>) -> bool {
    forall|i: int| 0 <= i < s.len() ==> #[trigger] s[i] != '/'
}

proof fn lemma_parts_single(s: Seq<char>)
    requires
        no_slash(s),
    ensures
        parts(s) == single(s),
{
    lemma_after_last(s, '/', 0);
    assert(s.subrange(0, s.len() as int) =~= s);
}

proof fn lemma_parts_append(a: Seq<char>, b: Seq<char>)
    requires
        no_slash(b),
    ensures
        parts(a + seq!['/'] + b) == parts(a) + single(b),
{
    let s = a + seq!['/'] + b;
    let n = a.len() as int;
    assert forall|k: int| n + 1 <= k < s.len() implies #[trigger] s[k] != '/' by {
        assert(s[k] == b[k - n - 1]);
    }
    lemma_after_last(s, '/', n + 1);
    assert(s.subrange(n + 1, s.len() as int) =~= b);
    assert(s.take(s.len() - b.len() - 1) =~= a);
}

/// The components of a path that continues another are those of both.
pub proof fn lemma_parts_joined(a: Seq<char>, b: Seq<char>)
    ensures
        parts(a + seq!['/'] + b) == parts(a) + parts(b),
    decreases b.len(),
{
    let last = after_last(b, '/');
    lemma_after_last_len(b);
    lemma_last_no_slash(b);
    if last.len() == b.len() {
        assert(last =~= b) by {
            lemma_last_is_end(b);
        }
        lemma_parts_append(a, b);
        lemma_parts_single(b);
    } else {
        let front = b.take(b.len() - last.len() - 1);
        lemma_last_is_end(b);
        lemma_parts_joined(a, front);
        assert(b =~= front + seq!['/'] + last);
        let whole = a + seq!['/'] + front;
        assert(a + seq!['/'] + b =~= whole + seq!['/'] + last);
        lemma_parts_append(whole, last);
        assert(parts(whole) + single(last) =~= parts(a) + (parts(front) + single(last)));
    }
}

proof fn lemma_last_no_slash(s: Seq<char>)
    ensures
        no_slash(after_last(s, '/')),
    decreases s.len(),
{
    if s.len() > 0 && s.last() != '/' {
        lemma_last_no_slash(s.drop_last());
    }
}

proof fn lemma_last_is_end(s: Seq<char>)
    ensures
        after_last(s, '/').len() <= s.len(),
        after_last(s, '/') == s.subrange(s.len() - after_last(s, '/').len(), s.len() as int),
        after_last(s, '/').len() < s.len() ==> s[s.len() - after_last(s, '/').len() - 1] == '/',
    decreases s.len(),
{
    let l = after_last(s, '/');
    if s.len() == 0 {
        assert(l =~= s.subrange(0, 0));
    } else if s.last() == '/' {
        assert(l =~= s.subrange(s.len() as int, s.len() as int));
    } else {
        let t = s.drop_last();
        let m = after_last(t, '/');
        lemma_last_is_end(t);
        assert(l =~= s.subrange(s.len() - l.len(), s.len() as int)) by {
            assert(m =~= t.subrange(t.len() - m.len(), t.len() as int));
        }
    }
}

/// What strings stand for.
pub open spec fn texts(v: Seq<String>) -> Seq<Seq<char>> {
    v.map(|_i: int, s: String| s@)
}

/// Adds a component, unless it is empty or names the current directory.
fn push_single(out: &mut Vec<String>, s: &Vec<char>, from: usize, to: usize)
    requires
        from <= to <= s@.len(),
    ensures
        texts(final(out)@) == texts(old(out)@) + single(s@.subrange(from as int, to as int)),
{
    let ghost before = texts(out@);
    let ghost part = s@.subrange(from as int, to as int);
    if from == to {
        assert(texts(out@) =~= before + single(part));
        return;
    }
    if to - from == 1 && s[from] == '.' {
        assert(part =~= seq!['.']);
        assert(texts(out@) =~= before + single(part));
        return;
    }
    assert(part != seq!['.']) by {
        if part == seq!['.'] {
            assert(part.len() == 1 && part[0] == '.');
        }
    }
    out.push(from_chars(s, from, to));
    assert(texts(out@) =~= before + single(part));
}

/// The components of a path.
pub fn components(path: &str) -> (r: Vec<String>)
    ensures
        texts(r@) == parts(path@),
{
    let s = to_chars(path);
    let n: usize = s.len();
    let mut out: Vec<String> = Vec::new();
    let mut start: usize = 0;
    let mut i: usize = 0;
    while i < n
        invariant
            n == s@.len(),
            start <= i <= n,
            forall|k: int| start <= k < i ==> #[trigger] s@[k] != '/',
            start > 0 ==> s@[start - 1] == '/',
            start == 0 ==> texts(out@) == Seq::<Seq<char>>::empty(),
            start > 0 ==> texts(out@) == parts(s@.take(start - 1)),
        decreases n - i,
    {
        if s[i] == '/' {
            proof {
                lemma_prefix(s@, start as int, i as int);
            }
            push_single(&mut out, &s, start, i);
            start = i + 1;
            assert(s@.take(start - 1) =~= s@.take(i as int));
        }
        i = i + 1;
    }
    proof {
        lemma_prefix(s@, start as int, n as int);
        assert(s@.take(n as int) =~= s@);
    }
    push_single(&mut out, &s, start, n);
    out
}

/// The components up to `end` are those up to the last slash, and what follows it.
proof fn lemma_prefix(s: Seq<char>, start: int, end: int)
    requires
        0 <= start <= end <= s.len(),
        forall|k: int| start <= k < end ==> #[trigger] s[k] != '/',
        start > 0 ==> s[start - 1] == '/',
    ensures
        start == 0 ==> parts(s.take(end)) == Seq::<Seq<char>>::empty() + single(
            s.subrange(start, end),
        ),
        start > 0 ==> parts(s.take(end)) == parts(s.take(start - 1)) + single(
            s.subrange(start, end),
        ),
{
    let b = s.subrange(start, end);
    assert(no_slash(b)) by {
        assert forall|i: int| 0 <= i < b.len() implies #[trigger] b[i] != '/' by {
            assert(b[i] == s[start + i]);
        }
    }
    if start == 0 {
        assert(s.take(end) =~= b);
        lemma_parts_single(b);
        assert(Seq::<Seq<char>>::empty() + single(b) =~= single(b));
    } else {
        let a = s.take(start - 1);
        assert(s.take(end) =~= a + seq!['/'] + b);
        lemma_parts_append(a, b);
    }
}

/// Whether a path starts at the root.
pub fn is_rooted(path: &str) -> (r: bool)
    ensures
        r == rooted(path@),
{
    path.unicode_len() > 0 && path.get_char(0) == '/'
}

/// Whether a path starts with the current directory.
fn is_dotted(path: &str) -> (r: bool)
    ensures
        r == dotted(path@),
{
    let n: usize = path.unicode_len();
    n > 0 && path.get_char(0) == '.' && (n == 1 || path.get_char(1) == '/')
}

/// Two paths have the same components.
pub open spec fn same_path_spec(a: Seq<char>, b: Seq<char>) -> bool {
    &&& rooted(a) == rooted(b)
    &&& dotted(a) == dotted(b)
    &&& parts(a) == parts(b)
}

/// `a` is `base` or lies below it.
pub open spec fn below(a: Seq<char>, base: Seq<char>) -> bool {
    &&& parts(base).is_prefix_of(parts(a))
    &&& rooted(base) == rooted(a) && dotted(base) == dotted(a) || (!rooted(base) && !dotted(base)
        && parts(base).len() == 0)
}

/// Whether the first strings of `a` are those of `b`.
fn begins_with(a: &Vec<String>, b: &Vec<String>) -> (r: bool)
    ensures
        r == texts(b@).is_prefix_of(texts(a@)),
{
    let n: usize = b.len();
    if n > a.len() {
        return false;
    }
    let mut i: usize = 0;
    while i < n
        invariant
            n == b@.len(),
            n <= a@.len(),
            i <= n,
            forall|k: int| 0 <= k < i ==> (#[trigger] a@[k])@ == b@[k]@,
        decreases n - i,
    {
        if a[i] != b[i] {
            assert(texts(a@)[i as int] != texts(b@)[i as int]);
            assert(texts(a@).subrange(0, n as int)[i as int] == texts(a@)[i as int]);
            return false;
        }
        i = i + 1;
    }
    assert(texts(a@).subrange(0, n as int) =~= texts(b@)) by {
        assert forall|k: int| 0 <= k < n implies texts(a@)[k] == texts(b@)[k] by {
            assert(a@[k]@ == b@[k]@);
        }
    }
    true
}

/// Whether two paths have the same components.
pub fn same_path(a: &str, b: &str) -> (r: bool)
    ensures
        r == same_path_spec(a@, b@),
{
    let x = components(a);
    let y = components(b);
    let r = x.len() == y.len() && begins_with(&x, &y);
    proof {
        if x@.len() == y@.len() {
            assert(texts(x@).subrange(0, texts(y@).len() as int) =~= texts(x@));
        } else {
            assert(texts(x@).len() != texts(y@).len());
        }
    }
    r && is_rooted(a) == is_rooted(b) && is_dotted(a) == is_dotted(b)
}

/// Whether `a` is `base` or lies below it.
pub fn starts_with(a: &str, base: &str) -> (r: bool)
    ensures
        r == below(a@, base@),
{
    let x = components(a);
    let y = components(base);
    assert(texts(y@).len() == y@.len());
    begins_with(&x, &y) && ((is_rooted(base) == is_rooted(a) && is_dotted(base) == is_dotted(a))
        || (!is_rooted(base) && !is_dotted(base) && y.len() == 0))
}

/// What [`join`] gives.
pub open spec fn joined(base: Seq<char>, rel: Seq<char>) -> Seq<char> {
    if rooted(rel) {
        rel
    } else if base.len() > 0 && base.last() != '/' {
        base + seq!['/'] + rel
    } else {
        base + rel
    }
}

/// `rel` as seen from `base`.
pub fn join(base: &str, rel: &str) -> (r: String)
    ensures
        r@ == joined(base@, rel@),
{
    if is_rooted(rel) {
        return rel.to_owned();
    }
    let mut out = base.to_owned();
    let n: usize = base.unicode_len();
    if n > 0 && base.get_char(n - 1) != '/' {
        out.push('/');
    }
    let ghost start = out@;
    for c in iter: rel.chars()
        invariant
            iter.seq() == rel@,
            out@ == start + rel@.take(iter.index() as int),
    {
        let ghost k = iter.index() as int;
        out.push(c);
        assert(out@ =~= start + rel@.take(k + 1));
    }
    assert(rel@.take(rel@.len() as int) =~= rel@);
    assert(out@ =~= joined(base@, rel@));
    out
}

/// The components of a joined path.
pub proof fn lemma_joined_parts(base: Seq<char>, rel: Seq<char>)
    requires
        !rooted(rel),
    ensures
        parts(joined(base, rel)) == parts(base) + parts(rel),
        base.len() > 0 ==> rooted(joined(base, rel)) == rooted(base),
{
    if base.len() == 0 {
        assert(base + rel =~= rel);
        lemma_parts_single(base);
        assert(parts(base) =~= Seq::<Seq<char>>::empty());
        assert(parts(base) + parts(rel) =~= parts(rel));
    } else if base.last() != '/' {
        lemma_parts_joined(base, rel);
    } else {
        let a = base.drop_last();
        assert(base + rel =~= a + seq!['/'] + rel);
        assert(base =~= a + seq!['/'] + Seq::<char>::empty());
        lemma_parts_joined(a, rel);
        lemma_parts_joined(a, Seq::empty());
        lemma_parts_single(Seq::empty());
        assert(parts(a) + Seq::<Seq<char>>::empty() =~= parts(a));
    }
}

/// The last component, unless there is none or it names the parent directory.
pub open spec fn file_name_spec(s: Seq<char>) -> Option<Seq<char>> {
    let p = parts(s);
    if p.len() == 0 || p.last() == seq!['.', '.'] {
        None
    } else {
        Some(p.last())
    }
}

/// The last component, unless there is none or it names the parent directory.
pub fn file_name(path: &str) -> (r: Option<String>)
    ensures
        match r {
            Some(n) => file_name_spec(path@) == Some(n@),
            None => file_name_spec(path@) is None,
        },
{
    let mut c = components(path);
    assert(texts(c@).len() == c@.len());
    match c.pop() {
        None => None,
        Some(last) => {
            assert(last@ == parts(path@).last());
            proof {
                reveal_strlit("..");
                assert(".."@ =~= seq!['.', '.']);
            }
            if crate::text::same(last.as_str(), "..") {
                None
            } else {
                Some(last)
            }
        },
    }
}

/// The components that are left when every `..` takes away the one before it. At the root it
/// takes away nothing; at the start of a path that is not rooted it stays.
pub open spec fn resolved(root: bool, p: Seq<Seq<char>>) -> Seq<Seq<char>>
    decreases p.len(),
{
    if p.len() == 0 {
        p
    } else {
        let rest = resolved(root, p.drop_last());
        if p.last() != seq!['.', '.'] {
            rest.push(p.last())
        } else if rest.len() > 0 && rest.last() != seq!['.', '.'] {
            rest.drop_last()
        } else if root {
            rest
        } else {
            rest.push(p.last())
        }
    }
}

/// Components with slashes between them.
pub open spec fn slashed(p: Seq<Seq<char>>) -> Seq<char>
    decreases p.len(),
{
    if p.len() == 0 {
        Seq::empty()
    } else if p.len() == 1 {
        p[0]
    } else {
        slashed(p.drop_last()) + seq!['/'] + p.last()
    }
}

/// The shortest path that means the same, going by its text alone.
pub open spec fn cleaned(s: Seq<char>) -> Seq<char> {
    let p = resolved(rooted(s), parts(s));
    if rooted(s) {
        seq!['/'] + slashed(p)
    } else if p.len() == 0 {
        seq!['.']
    } else {
        slashed(p)
    }
}

/// `path_clean::clean`: repeated slashes, `.` and `..` are taken out of the text of a path, as
/// [`cleaned`] says.
#[verifier::external_body]
pub(crate) fn clean(path: &str) -> (r: String)
    ensures
        r@ == cleaned(path@),
{
    path_clean::clean(path).to_string_lossy().into_owned()
}

/// No component names the parent directory.
pub open spec fn never_up(p: Seq<Seq<char>>) -> bool {
    forall|i: int| 0 <= i < p.len() ==> #[trigger] p[i] != seq!['.', '.']
}

proof fn lemma_resolved_same(root: bool, p: Seq<Seq<char>>)
    requires
        never_up(p),
    ensures
        resolved(root, p) == p,
    decreases p.len(),
{
    if p.len() > 0 {
        let q = p.drop_last();
        assert forall|i: int| 0 <= i < q.len() implies #[trigger] q[i] != seq!['.', '.'] by {
            assert(q[i] == p[i]);
        }
        lemma_resolved_same(root, q);
        assert(q.push(p.last()) =~= p);
    }
}

/// `p` are components that a path can have.
pub open spec fn plain_parts(p: Seq<Seq<char>>) -> bool {
    forall|i: int| 0 <= i < p.len() ==> no_slash(#[trigger] p[i]) && single(p[i]) == seq![p[i]]
}

proof fn lemma_slashed_parts(p: Seq<Seq<char>>)
    requires
        plain_parts(p),
    ensures
        parts(slashed(p)) == p,
    decreases p.len(),
{
    if p.len() == 0 {
        lemma_parts_single(Seq::empty());
        assert(single(Seq::<char>::empty()) =~= p);
    } else {
        let q = p.drop_last();
        assert(plain_parts(q)) by {
            assert forall|i: int| 0 <= i < q.len() implies no_slash(#[trigger] q[i]) && single(q[i])
                == seq![q[i]] by {
                assert(q[i] == p[i]);
            }
        }
        assert(no_slash(p.last()) && single(p.last()) == seq![p.last()]) by {
            assert(p[p.len() - 1] == p.last());
        }
        if p.len() == 1 {
            lemma_parts_single(p[0]);
            assert(seq![p[0]] =~= p);
        } else {
            lemma_slashed_parts(q);
            lemma_parts_append(slashed(q), p.last());
            assert(q + seq![p.last()] =~= p);
        }
    }
}

/// The components of any path are plain.
pub proof fn lemma_parts_plain(s: Seq<char>)
    ensures
        plain_parts(parts(s)),
    decreases s.len(),
{
    let last = after_last(s, '/');
    lemma_after_last_len(s);
    lemma_last_no_slash(s);
    lemma_last_is_end(s);
    if last.len() >= s.len() {
        assert(last =~= s);
    } else {
        lemma_parts_plain(s.take(s.len() - last.len() - 1));
    }
}

/// A path below the root, or at it, has the components that its text shows.
proof fn lemma_rooted_parts(p: Seq<Seq<char>>)
    requires
        plain_parts(p),
    ensures
        parts(seq!['/'] + slashed(p)) == p,
{
    let s = seq!['/'] + slashed(p);
    assert(s =~= Seq::<char>::empty() + seq!['/'] + slashed(p));
    lemma_parts_joined(Seq::empty(), slashed(p));
    lemma_parts_single(Seq::empty());
    lemma_slashed_parts(p);
    assert(Seq::<Seq<char>>::empty() + p =~= p);
}

/// A relative path that never goes up stays below the rooted directory that it is seen from, if
/// that never goes up either.
pub proof fn relative_paths_stay_below(dir: Seq<char>, rel: Seq<char>)
    requires
        rooted(dir),
        !rooted(rel),
        never_up(parts(dir)),
        never_up(parts(rel)),
    ensures
        below(cleaned(joined(dir, rel)), dir),
{
    let s = joined(dir, rel);
    lemma_joined_parts(dir, rel);
    let p = parts(s);
    assert(never_up(p)) by {
        assert forall|i: int| 0 <= i < p.len() implies #[trigger] p[i] != seq!['.', '.'] by {
            if i < parts(dir).len() {
                assert(p[i] == parts(dir)[i]);
            } else {
                assert(p[i] == parts(rel)[i - parts(dir).len()]);
            }
        }
    }
    lemma_resolved_same(true, p);
    lemma_parts_plain(s);
    lemma_rooted_parts(p);
    let c = cleaned(s);
    assert(parts(c) == parts(dir) + parts(rel));
    assert(parts(c).subrange(0, parts(dir).len() as int) =~= parts(dir));
    assert(rooted(c));
}

/// A safe name is not rooted and never goes up.
pub proof fn lemma_safe_component(s: Seq<char>)
    requires
        safe_name(s),
    ensures
        !rooted(s),
        no_slash(s),
        parts(s) == if s.len() == 0 {
            Seq::<Seq<char>>::empty()
        } else {
            seq![s]
        },
        never_up(parts(s)),
{
    safe_names_stay_in_their_directory(s);
    assert(no_slash(s));
    lemma_parts_single(s);
    if s == seq!['.'] {
        assert(s[0] == '.');
    }
    if s == seq!['.', '.'] {
        assert(s[0] == '.');
    }
}

/// The path is seen from another directory and never leads out of it.
pub open spec fn stays_below(rel: Seq<char>) -> bool {
    !rooted(rel) && never_up(parts(rel))
}

/// A path that never leads out of its directory still does not with a safe name joined to it.
pub proof fn lemma_joined_stays_below(base: Seq<char>, name: Seq<char>)
    requires
        stays_below(base),
        safe_name(name),
    ensures
        stays_below(joined(base, name)),
{
    lemma_safe_component(name);
    lemma_joined_parts(base, name);
    let p = parts(joined(base, name));
    assert forall|i: int| 0 <= i < p.len() implies #[trigger] p[i] != seq!['.', '.'] by {
        if i < parts(base).len() {
            assert(p[i] == parts(base)[i]);
        } else {
            assert(p[i] == parts(name)[i - parts(base).len()]);
        }
    }
    if base.len() == 0 {
        assert(joined(base, name) =~= name);
    }
}

/// The text can be the name of a file: it holds no separator and no dot.
pub open spec fn plain_name(s: Seq<char>) -> bool {
    forall|i: int| 0 <= i < s.len() ==> #[trigger] s[i] != '/' && s[i] != '.'
}

proof fn lemma_resolved_plain(root: bool, p: Seq<Seq<char>>)
    requires
        plain_parts(p),
    ensures
        plain_parts(resolved(root, p)),
    decreases p.len(),
{
    if p.len() > 0 {
        let q = p.drop_last();
        assert forall|i: int| 0 <= i < q.len() implies no_slash(#[trigger] q[i]) && single(q[i])
            == seq![q[i]] by {
            assert(q[i] == p[i]);
        }
        lemma_resolved_plain(root, q);
        let rest = resolved(root, q);
        let r = resolved(root, p);
        assert forall|i: int| 0 <= i < r.len() implies no_slash(#[trigger] r[i]) && single(r[i])
            == seq![r[i]] by {
            if i < rest.len() {
                assert(r[i] == rest[i]);
            } else {
                assert(r[i] == p[p.len() - 1]);
            }
        }
    }
}

/// What has a plain name in a directory below another one is below that one too.
pub proof fn lemma_files_stay_below(base: Seq<char>, dir: Seq<char>, name: Seq<char>)
    requires
        rooted(base),
        rooted(dir),
        below(cleaned(dir), base),
        plain_name(name),
        name.len() > 0,
    ensures
        rooted(joined(dir, name)),
        below(cleaned(joined(dir, name)), base),
{
    let s = joined(dir, name);
    assert(no_slash(name));
    lemma_parts_single(name);
    if name == seq!['.'] {
        assert(name[0] == '.');
    }
    if name == seq!['.', '.'] {
        assert(name[0] == '.');
    }
    assert(!rooted(name)) by {
        assert(name[0] != '/');
    }
    lemma_joined_parts(dir, name);
    let p = parts(dir);
    let q = parts(s);
    assert(q =~= p.push(name));
    assert(q.drop_last() =~= p);
    assert(resolved(true, q) == resolved(true, p).push(name));
    lemma_parts_plain(dir);
    lemma_parts_plain(s);
    lemma_resolved_plain(true, p);
    lemma_resolved_plain(true, q);
    lemma_rooted_parts(resolved(true, p));
    lemma_rooted_parts(resolved(true, q));
    let c = parts(cleaned(s));
    assert(c == parts(cleaned(dir)).push(name));
    let n = parts(base).len() as int;
    assert(c.subrange(0, n) =~= parts(cleaned(dir)).subrange(0, n));
}

/// The components of a path are what lies between its slashes, without what is empty and without
/// what is a single dot.
pub proof fn components_lie_between_slashes(a: Seq<char>, name: Seq<char>)
    requires
        forall|i: int| 0 <= i < name.len() ==> #[trigger] name[i] != '/',
    ensures
        name.len() == 0 || (name.len() == 1 && name[0] == '.') ==> parts(name).len() == 0 && parts(
            a + seq!['/'] + name,
        ) == parts(a),
        !(name.len() == 0 || (name.len() == 1 && name[0] == '.')) ==> parts(name) == seq![name]
            && parts(a + seq!['/'] + name) == parts(a).push(name),
{
    lemma_parts_single(name);
    lemma_parts_append(a, name);
    if name.len() == 1 && name[0] == '.' {
        assert(name =~= seq!['.']);
    }
    if name == seq!['.'] {
        assert(name.len() == 1 && name[0] == '.');
    }
    if name.len() == 0 || (name.len() == 1 && name[0] == '.') {
        assert(parts(a) + single(name) =~= parts(a));
    } else {
        assert(parts(a) + single(name) =~= parts(a).push(name));
    }
}

/// A path that starts at the root replaces the one that it is joined to; any other continues it,
/// with a slash between the two unless there is one or nothing to continue.
pub proof fn joining_continues_a_path(base: Seq<char>, rel: Seq<char>)
    ensures
        rel.len() > 0 && rel[0] == '/' ==> joined(base, rel) == rel,
        !(rel.len() > 0 && rel[0] == '/') && base.len() == 0 ==> joined(base, rel) == rel,
        !(rel.len() > 0 && rel[0] == '/') && base.len() > 0 && base[base.len() - 1] == '/'
            ==> joined(base, rel) == base + rel,
        !(rel.len() > 0 && rel[0] == '/') && base.len() > 0 && base[base.len() - 1] != '/'
            ==> joined(base, rel) == base + seq!['/'] + rel,
{
    if base.len() == 0 {
        assert(base + rel =~= rel);
    }
}

/// A path lies below a directory that starts at the root exactly if it starts there too and its
/// components start with those of the directory.
pub proof fn paths_below_start_with_the_directory(a: Seq<char>, base: Seq<char>)
    requires
        base.len() > 0,
        base[0] == '/',
    ensures
        below(a, base) <==> a.len() > 0 && a[0] == '/' && parts(a).len() >= parts(base).len()
            && forall|i: int| 0 <= i < parts(base).len() ==> #[trigger] parts(a)[i] == parts(base)[i],
{
    let p = parts(a);
    let q = parts(base);
    if p.len() >= q.len() && forall|i: int| 0 <= i < q.len() ==> #[trigger] p[i] == q[i] {
        assert(p.subrange(0, q.len() as int) =~= q);
    }
    if q.is_prefix_of(p) {
        assert forall|i: int| 0 <= i < q.len() implies #[trigger] p[i] == q[i] by {
            assert(p.subrange(0, q.len() as int)[i] == p[i]);
        }
    }
}

/// Two relative paths that do not start with a dot are the same exactly if they have the same
/// components.
pub proof fn same_paths_have_the_same_components(a: Seq<char>, b: Seq<char>)
    requires
        !(a.len() > 0 && (a[0] == '/' || a[0] == '.')),
        !(b.len() > 0 && (b[0] == '/' || b[0] == '.')),
    ensures
        same_path_spec(a, b) <==> parts(a).len() == parts(b).len() && forall|i: int|
            0 <= i < parts(a).len() ==> #[trigger] parts(a)[i] == parts(b)[i],
{
    if parts(a).len() == parts(b).len() && forall|i: int|
        0 <= i < parts(a).len() ==> #[trigger] parts(a)[i] == parts(b)[i] {
        assert(parts(a) =~= parts(b));
    }
}

/// The file name is what follows the last slash, if that can name a file.
pub proof fn file_names_follow_the_last_slash(dir: Seq<char>, name: Seq<char>)
    requires
        name.len() > 0,
        forall|i: int| 0 <= i < name.len() ==> #[trigger] name[i] != '/',
        !(name.len() == 1 && name[0] == '.'),
        !(name.len() == 2 && name[0] == '.' && name[1] == '.'),
    ensures
        file_name_spec(name) == Some(name),
        file_name_spec(dir + seq!['/'] + name) == Some(name),
        file_name_spec(dir + seq!['/'] + seq!['.', '.']) is None,
{
    components_lie_between_slashes(dir, name);
    components_lie_between_slashes(dir, seq!['.', '.']);
    if name == seq!['.', '.'] {
        assert(name.len() == 2 && name[0] == '.' && name[1] == '.');
    }
}

/// A path that starts at the root is never the same as one that does not, and one that starts with
/// `./` or is a single dot never the same as one that does not. Otherwise the components decide.
pub proof fn where_a_path_starts_counts(a: Seq<char>, b: Seq<char>)
    ensures
        ({
            let root = |s: Seq<char>| s.len() > 0 && s[0] == '/';
            let dot = |s: Seq<char>| s.len() > 0 && s[0] == '.' && (s.len() == 1 || s[1] == '/');
            let same = parts(a).len() == parts(b).len() && forall|i: int|
                0 <= i < parts(a).len() ==> #[trigger] parts(a)[i] == parts(b)[i];
            same_path_spec(a, b) <==> root(a) == root(b) && dot(a) == dot(b) && same
        }),
{
    if parts(a).len() == parts(b).len() && forall|i: int|
        0 <= i < parts(a).len() ==> #[trigger] parts(a)[i] == parts(b)[i] {
        assert(parts(a) =~= parts(b));
    }
}

/// Every path lies below itself and below the directories that it leads through, and nothing that
/// lies elsewhere does.
pub proof fn paths_lie_below_what_they_continue(base: Seq<char>, name: Seq<char>, other: Seq<char>)
    requires
        base.len() > 0,
        base[0] == '/',
        base[base.len() - 1] != '/',
        forall|i: int| 0 <= i < name.len() ==> #[trigger] name[i] != '/',
        forall|i: int| 0 <= i < other.len() ==> #[trigger] other[i] != '/',
        name.len() > 1,
        other.len() > 1,
        name != other,
    ensures
        below(base, base),
        below(base + seq!['/'] + name, base),
        !below(base, base + seq!['/'] + name),
        !below(base + seq!['/'] + other, base + seq!['/'] + name),
{
    let p = base + seq!['/'] + name;
    let q = base + seq!['/'] + other;
    components_lie_between_slashes(base, name);
    components_lie_between_slashes(base, other);
    assert(p[0] == base[0] && q[0] == base[0]);
    paths_below_start_with_the_directory(base, base);
    paths_below_start_with_the_directory(p, base);
    paths_below_start_with_the_directory(base, p);
    paths_below_start_with_the_directory(q, p);
    let n = parts(base).len() as int;
    assert(parts(p)[n] == name && parts(q)[n] == other);
}

} // verus!
