//! Naming applications differently.

use vstd::prelude::*;
use vstd::utf8::{decode_utf8, valid_utf8};

use crate::config::Override;
use crate::name::{convert_application_name, converted, safe_name};
use crate::path::{
    join, joined, lemma_joined_stays_below, same_path, same_path_spec, stays_below,
};
use crate::text::{
    from_chars, integer_within, is_white, parse_integer, split, split_once, to_chars,
    trim, trimmed,
};

verus! {

/// Why an override cannot be used.
#[derive(Debug, Clone, Copy, PartialEq, Eq, Structural)]
pub enum OverrideError {
    /// The regular expression is not one.
    InvalidRegex,
    /// The format is not one.
    InvalidFormat,
}

/// What an override makes of an application.
#[derive(Debug)]
pub enum Check {
    /// It is not for this application.
    NoMatch,
    /// It is, and gives it another directory or none.
    Matched(Option<String>),
    /// It is, if this program says so.
    Delegate(String),
}

/// What the regular expression of an override makes of a command line.
#[derive(Debug)]
pub enum Regexed {
    /// There is none.
    Unused,
    /// It is not one.
    Invalid,
    /// It does not match, or there is no command line.
    NoMatch,
    /// It matches, with these groups.
    Groups(Vec<Option<String>>),
}

/// Whether `regex::bytes::Regex::new` accepts a pattern.
pub uninterp spec fn compiles(pattern: Seq<char>) -> bool;

/// What `regex::bytes::Regex::captures` gives: the text of the whole match and of each group that
/// took part in it, if there is a match.
pub uninterp spec fn captured(pattern: Seq<char>, text: Seq<u8>) -> Option<Seq<Option<Seq<u8>>>>;

/// What `String::from_utf8_lossy` gives.
pub uninterp spec fn lossy(bytes: Seq<u8>) -> Seq<char>;

/// What `strfmt::strfmt_map` makes of a template, if it accepts it, when each number in braces
/// stands for the group of that number, and everything else in braces is left as it is.
pub uninterp spec fn formatted(template: Seq<char>, groups: Seq<Option<Seq<char>>>) -> Option<
    Seq<char>,
>;

/// What captured groups stand for.
pub open spec fn group_bytes(v: Seq<Option<Vec<u8>>>) -> Seq<Option<Seq<u8>>> {
    v.map(
        |_i: int, g: Option<Vec<u8>>|
            match g {
                Some(b) => Some(b@),
                None => None,
            },
    )
}

/// What groups of text stand for.
pub open spec fn group_texts(v: Seq<Option<String>>) -> Seq<Option<Seq<char>>> {
    v.map(
        |_i: int, g: Option<String>|
            match g {
                Some(t) => Some(t@),
                None => None,
            },
    )
}

/// Captured groups as text.
pub open spec fn lossy_groups(v: Seq<Option<Seq<u8>>>) -> Seq<Option<Seq<char>>> {
    v.map(
        |_i: int, g: Option<Seq<u8>>|
            match g {
                Some(b) => Some(lossy(b)),
                None => None,
            },
    )
}

/// `regex::bytes::Regex::new`: whether the pattern is a regular expression.
#[verifier::external_body]
fn regex_compiles(pattern: &str) -> (r: bool)
    ensures
        r == compiles(pattern@),
{
    regex::bytes::Regex::new(pattern).is_ok()
}

/// `regex::bytes::Regex::captures`: the groups of the first match in the text. The first group is
/// the whole match.
#[verifier::external_body]
fn regex_captures(pattern: &str, text: &Vec<u8>) -> (r: Option<Vec<Option<Vec<u8>>>>)
    requires
        compiles(pattern@),
    ensures
        match r {
            Some(g) => captured(pattern@, text@) == Some(group_bytes(g@)),
            None => captured(pattern@, text@) is None,
        },
        r matches Some(g) ==> g@.len() > 0 && g@[0] is Some,
{
    let regex = regex::bytes::Regex::new(pattern).unwrap();
    let found = regex.captures(text.as_slice());
    found.map(|c| c.iter().map(|g| g.map(|m| m.as_bytes().to_vec())).collect())
}

/// `String::from_utf8_lossy`: the text that bytes encode, with a replacement character for what
/// encodes nothing.
#[verifier::external_body]
pub(crate) fn from_utf8_lossy(bytes: &Vec<u8>) -> (r: String)
    ensures
        r@ == lossy(bytes@),
        valid_utf8(bytes@) ==> r@ == decode_utf8(bytes@),
{
    String::from_utf8_lossy(bytes.as_slice()).into_owned()
}

/// `String::from_utf8`: the text that bytes encode, if they encode some.
#[verifier::external_body]
pub(crate) fn from_utf8(bytes: &Vec<u8>) -> (r: Option<String>)
    ensures
        r is Some == valid_utf8(bytes@),
        r matches Some(t) ==> t@ == decode_utf8(bytes@),
{
    String::from_utf8(bytes.clone()).ok()
}

/// The group that a key in a template stands for.
pub open spec fn group_spec(groups: Seq<Option<Seq<char>>>, key: Seq<char>) -> Option<Seq<char>> {
    match integer_within(key, 0, i64::MAX as int) {
        Some(g) => if g < groups.len() {
            groups[g]
        } else {
            None
        },
        None => None,
    }
}

/// The group that a key in a template stands for.
pub fn group_for<'a>(groups: &'a Vec<Option<String>>, key: &str) -> (r: Option<&'a str>)
    ensures
        match r {
            Some(t) => group_spec(group_texts(groups@), key@) == Some(t@),
            None => group_spec(group_texts(groups@), key@) is None,
        },
{
    let chars = to_chars(key);
    assert(chars@.subrange(0, chars@.len() as int) =~= chars@);
    match parse_integer(&chars, 0, chars.len(), 0, i64::MAX) {
        None => None,
        Some(g) => {
            if (g as u64) < groups.len() as u64 {
                match &groups[g as usize] {
                    Some(t) => Some(t.as_str()),
                    None => None,
                }
            } else {
                None
            }
        },
    }
}

/// No braces are in `s`.
pub open spec fn no_braces(s: Seq<char>) -> bool {
    forall|i: int| 0 <= i < s.len() ==> #[trigger] s[i] != '{' && s[i] != '}'
}

/// `key` names what a pair of braces stands for, and nothing else.
pub open spec fn bare_key(key: Seq<char>) -> bool {
    key.len() > 0 && no_braces(key) && forall|i: int| 0 <= i < key.len() ==> #[trigger] key[i] != ':'
}

/// `before{key}after`.
pub open spec fn braced(before: Seq<char>, key: Seq<char>, after: Seq<char>) -> Seq<char> {
    before + seq!['{'] + key + seq!['}'] + after
}

/// What text, if there is some, stands for.
pub open spec fn text_view(t: Option<String>) -> Option<Seq<char>> {
    match t {
        Some(t) => Some(t@),
        None => None,
    }
}

/// `result` is the template with the group in the place of its braces, if it has a single pair of
/// braces that hold a key and no format. Where there is no such group, the braces stay.
pub open spec fn fills_braces(
    template: Seq<char>,
    groups: Seq<Option<Seq<char>>>,
    result: Option<Seq<char>>,
) -> bool {
    forall|before: Seq<char>, key: Seq<char>, after: Seq<char>|
        no_braces(before) && bare_key(key) && no_braces(after) && template == #[trigger] braced(
            before,
            key,
            after,
        ) ==> result == Some(
            match group_spec(groups, key) {
                Some(g) => before + g + after,
                None => template,
            },
        )
}

/// `strfmt::strfmt_map` with the groups for the numbers in braces: what the template makes of
/// them, unless it is malformed. A template without braces stays as it is. In one with a single
/// pair of braces that hold a key and no format, the group that the key stands for takes their
/// place, and where there is none they stay. A width in braces asks for that many characters:
/// running out of memory is left aside here, as it is wherever text grows.
#[verifier::external_body]
fn strfmt_map(template: &str, groups: &Vec<Option<String>>) -> (r: Option<String>)
    ensures
        text_view(r) == formatted(template@, group_texts(groups@)),
        no_braces(template@) ==> text_view(r) == Some(template@),
        fills_braces(template@, group_texts(groups@), text_view(r)),
{
    strfmt::strfmt_map(template, |mut f: strfmt::Formatter| match group_for(groups, f.key) {
        Some(text) => f.str(text),
        None => f.skip(),
    }).ok()
}

/// The override is for applications of every name, or for this one.
pub open spec fn name_fits(over: &Override, relative_dir: Seq<char>) -> bool {
    over.name matches Some(n) ==> same_path_spec(n@, relative_dir)
}

/// Whether the override is for applications of every name, or for this one.
pub fn name_matches(over: &Override, relative_dir: &str) -> (r: bool)
    ensures
        r == name_fits(over, relative_dir@),
{
    match &over.name {
        Some(n) => same_path(n.as_str(), relative_dir),
        None => true,
    }
}

/// What the regular expression of an override makes of a command line.
pub open spec fn regexed(over: &Override, cli: Option<Seq<u8>>, r: Regexed) -> bool {
    match over.regex {
        None => r is Unused,
        Some(re) => if !compiles(re@) {
            r is Invalid
        } else {
            match cli {
                None => r is NoMatch,
                Some(line) => match captured(re@, line) {
                    None => r is NoMatch,
                    Some(g) => r matches Regexed::Groups(v) && group_texts(v@) == lossy_groups(g),
                },
            }
        },
    }
}

/// What the command line stands for.
pub open spec fn cli_view(cli: Option<Vec<u8>>) -> Option<Seq<u8>> {
    match cli {
        Some(line) => Some(line@),
        None => None,
    }
}

/// What the regular expression of an override makes of a command line.
pub fn match_regex(over: &Override, cli: &Option<Vec<u8>>) -> (r: Regexed)
    ensures
        regexed(over, cli_view(*cli), r),
{
    let pattern = match &over.regex {
        None => {
            return Regexed::Unused;
        },
        Some(p) => p.as_str(),
    };
    if !regex_compiles(pattern) {
        return Regexed::Invalid;
    }
    let line = match cli {
        None => {
            return Regexed::NoMatch;
        },
        Some(l) => l,
    };
    let groups = match regex_captures(pattern, line) {
        None => {
            return Regexed::NoMatch;
        },
        Some(g) => g,
    };
    let mut out: Vec<Option<String>> = Vec::new();
    let mut i: usize = 0;
    while i < groups.len()
        invariant
            i <= groups@.len(),
            out@.len() == i,
            forall|k: int|
                0 <= k < i ==> #[trigger] group_texts(out@)[k] == lossy_groups(
                    group_bytes(groups@),
                )[k],
        decreases groups@.len() - i,
    {
        let ghost before = out@;
        let text: Option<String> = match &groups[i] {
            Some(b) => Some(from_utf8_lossy(b)),
            None => None,
        };
        out.push(text);
        proof {
            assert forall|k: int| 0 <= k < i + 1 implies #[trigger] group_texts(out@)[k]
                == lossy_groups(group_bytes(groups@))[k] by {
                if k < i {
                    assert(group_texts(before)[k] == lossy_groups(group_bytes(groups@))[k]);
                }
            }
        }
        i = i + 1;
    }
    assert(group_texts(out@) =~= lossy_groups(group_bytes(groups@)));
    Regexed::Groups(out)
}

/// What a finished format makes of an application: its directory, or an error if the format was
/// malformed.
pub fn finish_format(text: Option<String>) -> (r: Result<Check, OverrideError>)
    ensures
        match text {
            None => r == Err::<Check, OverrideError>(OverrideError::InvalidFormat),
            Some(t) => r matches Ok(Check::Matched(Some(dir))) && dir@ == converted(t@)
                && safe_name(dir@),
        },
{
    match text {
        None => Err(OverrideError::InvalidFormat),
        Some(t) => Ok(Check::Matched(Some(convert_application_name(t.as_str())))),
    }
}

/// The override does not have both a format and a delegate.
pub open spec fn usable(over: &Override) -> bool {
    !(over.format is Some && over.delegate is Some)
}

/// What [`check_regexed`] gives.
pub open spec fn checked(
    over: &Override,
    relative_dir: Seq<char>,
    regexed: Regexed,
    r: Result<Check, OverrideError>,
) -> bool {
    if !name_fits(over, relative_dir) {
        r matches Ok(Check::NoMatch)
    } else {
        match regexed {
            Regexed::Invalid => r == Err::<Check, OverrideError>(OverrideError::InvalidRegex),
            Regexed::NoMatch => r matches Ok(Check::NoMatch),
            _ => match (over.format, over.delegate) {
                (Some(template), _) => {
                    let groups = match regexed {
                        Regexed::Groups(g) => group_texts(g@),
                        _ => Seq::empty(),
                    };
                    match formatted(template@, groups) {
                        None => r == Err::<Check, OverrideError>(OverrideError::InvalidFormat),
                        Some(t) => r matches Ok(Check::Matched(Some(dir))) && dir@ == converted(t),
                    }
                },
                (None, Some(d)) => r matches Ok(Check::Delegate(p)) && p@ == d@,
                (None, None) => r matches Ok(Check::Matched(None)),
            },
        }
    }
}

/// A format with a single group in braces names the application after what that group captured.
pub open spec fn names_after_group(
    template: Seq<char>,
    groups: Seq<Option<Seq<char>>>,
    r: Result<Check, OverrideError>,
) -> bool {
    forall|before: Seq<char>, key: Seq<char>, after: Seq<char>|
        no_braces(before) && bare_key(key) && no_braces(after) && template == #[trigger] braced(
            before,
            key,
            after,
        ) ==> {
            &&& r matches Ok(Check::Matched(Some(dir)))
            &&& dir@ == converted(
                match group_spec(groups, key) {
                    Some(g) => before + g + after,
                    None => template,
                },
            )
        }
}

/// What an override makes of an application, given what its regular expression made of the
/// command line.
pub fn check_regexed(over: &Override, relative_dir: &str, regexed: &Regexed) -> (r: Result<
    Check,
    OverrideError,
>)
    requires
        usable(over),
    ensures
        checked(over, relative_dir@, *regexed, r),
        r matches Ok(Check::Matched(Some(dir))) ==> safe_name(dir@),
        name_fits(over, relative_dir@) && regexed is Groups && over.format is Some
            ==> names_after_group(over.format->0@, group_texts(regexed->Groups_0@), r),
{
    if !name_matches(over, relative_dir) {
        return Ok(Check::NoMatch);
    }
    let none: Vec<Option<String>> = Vec::new();
    let groups: &Vec<Option<String>> = match regexed {
        Regexed::Invalid => {
            return Err(OverrideError::InvalidRegex);
        },
        Regexed::NoMatch => {
            return Ok(Check::NoMatch);
        },
        Regexed::Unused => &none,
        Regexed::Groups(g) => g,
    };
    assert(group_texts(none@) =~= Seq::empty());
    match (&over.format, &over.delegate) {
        (Some(template), _) => finish_format(strfmt_map(template.as_str(), groups)),
        (None, Some(d)) => Ok(Check::Delegate(d.clone())),
        (None, None) => Ok(Check::Matched(None)),
    }
}

/// What an override makes of the application in `relative_dir` that was started with the command
/// line `cli`.
pub fn check_override(over: &Override, relative_dir: &str, cli: &Option<Vec<u8>>) -> (r: Result<
    Check,
    OverrideError,
>)
    requires
        usable(over),
    ensures
        exists|m: Regexed| #[trigger]
            regexed(over, cli_view(*cli), m) && checked(over, relative_dir@, m, r),
        r matches Ok(Check::Matched(Some(dir))) ==> safe_name(dir@),
{
    let m = match_regex(over, cli);
    check_regexed(over, relative_dir, &m)
}

/// A path with one more line of a delegate's output added to it. Empty lines add nothing.
pub open spec fn with_line(path: Seq<char>, line: Seq<char>) -> Seq<char> {
    let t = trimmed(line, |c: char| is_white(c));
    if t.len() == 0 {
        path
    } else {
        joined(path, converted(t))
    }
}

/// A path with the lines of a delegate's output added to it, each as a directory.
pub open spec fn with_lines(path: Seq<char>, s: Seq<char>) -> Seq<char>
    decreases s.len(),
    via with_lines_ends
{
    match split_once(s, '\n') {
        Some((line, rest)) => with_lines(with_line(path, line), rest),
        None => with_line(path, s),
    }
}

#[via_fn]
proof fn with_lines_ends(path: Seq<char>, s: Seq<char>) {
    lemma_split_shorter(s);
}

proof fn lemma_split_shorter(s: Seq<char>)
    ensures
        split_once(s, '\n') matches Some((a, b)) ==> b.len() < s.len(),
    decreases s.len(),
{
    if s.len() > 0 && s[0] != '\n' {
        lemma_split_shorter(s.drop_first());
    }
}

/// The directory that a delegate's output names: one level for each line.
pub fn delegate_path(out: &str) -> (r: String)
    ensures
        r@ == with_lines(Seq::empty(), out@),
        stays_below(r@),
{
    let s = to_chars(out);
    let n: usize = s.len();
    let ghost whole = with_lines(Seq::empty(), out@);
    let mut path = String::new();
    let mut from: usize = 0;
    assert(s@.subrange(0, n as int) =~= s@);
    loop
        invariant_except_break
            n == s@.len(),
            from <= n,
            whole == with_lines(path@, s@.subrange(from as int, n as int)),
            stays_below(path@),
        ensures
            path@ == whole,
            stays_below(path@),
        decreases n - from,
    {
        let (end, last): (usize, bool) = match split(&s, from, '\n') {
            Some(at) => (at, false),
            None => (n, true),
        };
        let line = trim(from_chars(&s, from, end).as_str());
        let ghost before = path@;
        if line.as_str().unicode_len() > 0 {
            let dir = convert_application_name(line.as_str());
            path = join(path.as_str(), dir.as_str());
            proof {
                lemma_joined_stays_below(before, dir@);
            }
        }
        assert(path@ == with_line(before, s@.subrange(from as int, end as int)));
        if last {
            break;
        }
        from = end + 1;
    }
    path
}

/// What a delegate says: nothing if it fails, else the directory that its output names, if any.
/// Output that is not text counts as a failure.
pub open spec fn delegated(success: bool, stdout: Seq<u8>) -> Option<Option<Seq<char>>> {
    if !success || !valid_utf8(stdout) {
        None
    } else {
        let path = with_lines(Seq::empty(), decode_utf8(stdout));
        if path.len() == 0 {
            Some(None)
        } else {
            Some(Some(path))
        }
    }
}

/// What a delegate says that ended with or without success and wrote `stdout`.
pub fn run_delegate(success: bool, stdout: &Vec<u8>) -> (r: Option<Option<String>>)
    ensures
        match r {
            None => delegated(success, stdout@) is None,
            Some(None) => delegated(success, stdout@) == Some(None::<Seq<char>>),
            Some(Some(path)) => delegated(success, stdout@) == Some(Some(path@)) && stays_below(
                path@,
            ),
        },
{
    if !success {
        return None;
    }
    let out = match from_utf8(stdout) {
        None => {
            return None;
        },
        Some(t) => t,
    };
    let path = delegate_path(out.as_str());
    if path.as_str().unicode_len() == 0 {
        Some(None)
    } else {
        Some(Some(path))
    }
}

/// `groups` are what a regular expression captured, as text: none if there is no expression.
pub open spec fn groups_of(
    over: &Override,
    cli: Option<Seq<u8>>,
    groups: Seq<Option<Seq<char>>>,
) -> bool {
    match over.regex {
        None => groups.len() == 0,
        Some(p) => {
            let found = captured(p@, cli->0)->0;
            groups.len() == found.len() && forall|i: int|
                0 <= i < found.len() ==> #[trigger] groups[i] == match found[i] {
                    Some(b) => Some(lossy(b)),
                    None => None::<Seq<char>>,
                }
        },
    }
}

/// An override is for an application exactly if its name, where it has one, is the application's,
/// and its regular expression, where it has one, matches the command line. A malformed regular
/// expression is reported only for an application of its name. The format is given what the
/// expression captured, and what it makes of that names the application.
pub proof fn overrides_go_by_name_and_command_line(
    over: &Override,
    relative_dir: Seq<char>,
    cli: Option<Seq<u8>>,
    m: Regexed,
    r: Result<Check, OverrideError>,
)
    requires
        usable(over),
        regexed(over, cli, m),
        checked(over, relative_dir, m, r),
    ensures
        ({
            let named = over.name matches Some(n) ==> same_path_spec(n@, relative_dir);
            let broken = over.regex matches Some(p) && !compiles(p@);
            let found = over.regex matches Some(p) ==> (cli matches Some(line) && captured(p@, line)
                is Some);
            &&& !named ==> (r matches Ok(Check::NoMatch))
            &&& named && broken ==> r == Err::<Check, OverrideError>(OverrideError::InvalidRegex)
            &&& named && !broken && !found ==> (r matches Ok(Check::NoMatch))
            &&& named && !broken && found ==> {
                &&& over.delegate matches Some(d) ==> (r matches Ok(Check::Delegate(p)) && p@ == d@)
                &&& over.format is None && over.delegate is None ==> (
                r matches Ok(Check::Matched(dir)) && dir is None)
                &&& over.format matches Some(t) ==> exists|groups: Seq<Option<Seq<char>>>| #[trigger]
                    groups_of(over, cli, groups) && match formatted(t@, groups) {
                        None => r == Err::<Check, OverrideError>(OverrideError::InvalidFormat),
                        Some(x) => r matches Ok(Check::Matched(Some(dir))) && dir@ == converted(x),
                    }
            }
        }),
{
    let groups = match m {
        Regexed::Groups(g) => group_texts(g@),
        _ => Seq::empty(),
    };
    let matched = (over.name matches Some(n) ==> same_path_spec(n@, relative_dir)) && !(m is Invalid)
        && !(m is NoMatch);
    if matched {
        assert(groups_of(over, cli, groups));
    }
}

/// A number in braces stands for the group of that number, and for nothing if there is no such
/// group.
pub proof fn numbers_stand_for_groups(groups: Seq<Option<Seq<char>>>, n: int)
    requires
        0 <= n <= i64::MAX,
    ensures
        group_spec(groups, crate::text::decimal(n)) == if n < groups.len() {
            groups[n]
        } else {
            None
        },
{
    crate::text::decimal_reads_back(n);
    crate::text::lemma_digits_read_back(n as nat);
}

/// What a delegate that succeeds writes names one directory within the other, one for each line
/// that is not blank, without the blanks around it. Writing nothing names none, and so does failing.
pub proof fn every_line_names_a_directory(
    path: Seq<char>,
    line: Seq<char>,
    rest: Seq<char>,
    stdout: Seq<u8>,
)
    requires
        forall|i: int| 0 <= i < line.len() ==> #[trigger] line[i] != '\n',
    ensures
        ({
            let t = trimmed(line, |c: char| is_white(c));
            let next = if t.len() == 0 {
                path
            } else {
                joined(path, converted(t))
            };
            &&& with_lines(path, line) == next
            &&& with_lines(path, line + seq!['\n'] + rest) == with_lines(next, rest)
        }),
        delegated(false, stdout) is None,
        !valid_utf8(stdout) ==> delegated(true, stdout) is None,
        valid_utf8(stdout) ==> delegated(true, stdout) == Some(
            if with_lines(Seq::empty(), decode_utf8(stdout)).len() == 0 {
                None
            } else {
                Some(with_lines(Seq::empty(), decode_utf8(stdout)))
            },
        ),
{
    let whole = line + seq!['\n'] + rest;
    crate::text::lemma_no_split(line, '\n');
    assert forall|k: int| 0 <= k < line.len() implies #[trigger] whole[k] != '\n' by {
        assert(whole[k] == line[k]);
    }
    crate::text::lemma_split_at(whole, '\n', line.len() as int);
    assert(whole.subrange(0, line.len() as int) =~= line);
    assert(whole.take(line.len() as int) =~= line);
    assert(whole.subrange(line.len() as int + 1, whole.len() as int) =~= rest);
    assert(whole.skip(line.len() as int + 1) =~= rest);
}

} // verus!
