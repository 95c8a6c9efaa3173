use screenshotter::config::Override;
use screenshotter::overrides::{
    check_override, check_regexed, delegate_path, finish_format, group_for, match_regex,
    name_matches, run_delegate, Check, OverrideError, Regexed,
};

fn over(
    name: Option<&str>,
    regex: Option<&str>,
    format: Option<&str>,
    delegate: Option<&str>,
) -> Override {
    Override {
        name: name.map(str::to_string),
        regex: regex.map(str::to_string),
        format: format.map(str::to_string),
        delegate: delegate.map(str::to_string),
        yearly: false,
        monthly: false,
        callback: None,
    }
}

fn cli(s: &str) -> Option<Vec<u8>> {
    Some(s.as_bytes().to_vec())
}

fn matched(r: Result<Check, OverrideError>) -> Option<String> {
    match r {
        Ok(Check::Matched(Some(dir))) => Some(dir),
        _ => None,
    }
}

#[test]
fn names_have_to_match() {
    assert!(name_matches(&over(None, None, None, None), "vim"));
    assert!(name_matches(&over(Some("vim"), None, None, None), "vim"));
    assert!(name_matches(&over(Some("vim/"), None, None, None), "vim"));
    assert!(!name_matches(&over(Some("vim"), None, None, None), "vimx"));
    assert!(matches!(
        check_override(&over(Some("vimx"), None, Some("vim"), None), "vim", &None),
        Ok(Check::NoMatch)
    ));
}

#[test]
fn formats_rename_applications() {
    let o = over(Some("vimx"), None, Some("Vim"), None);
    assert_eq!(matched(check_override(&o, "vimx", &None)), Some("vim".to_string()));
}

#[test]
fn groups_of_the_command_line_are_filled_in() {
    let o = over(Some("python"), Some(r"python (\S+)\.py"), Some("{1}"), None);
    assert_eq!(
        matched(check_override(&o, "python", &cli("python My-Application.py"))),
        Some("my-application".to_string())
    );
    let o = over(None, Some(r"(a+)(b+)?"), Some("x{1} {0}"), None);
    assert_eq!(
        matched(check_override(&o, "python", &cli("aab"))),
        Some("xaa-aab".to_string())
    );
    assert!(matches!(
        check_override(&over(None, Some("zzz"), None, None), "a", &cli("abc")),
        Ok(Check::NoMatch)
    ));
}

#[test]
fn a_regex_needs_a_command_line() {
    let o = over(None, Some("."), None, None);
    assert!(matches!(check_override(&o, "a", &None), Ok(Check::NoMatch)));
    assert!(matches!(match_regex(&o, &None), Regexed::NoMatch));
    assert!(matches!(match_regex(&over(None, None, None, None), &None), Regexed::Unused));
}

#[test]
fn unknown_groups_are_left_as_they_are() {
    let o = over(None, Some("(a)|(b)"), Some("x{1}{2}{9}{name}"), None);
    assert_eq!(
        matched(check_override(&o, "a", &cli("a"))),
        Some("xa-2-9-name".to_string())
    );
    let none = over(None, None, Some("x{1}"), None);
    assert_eq!(matched(check_override(&none, "a", &cli("a"))), Some("x-1".to_string()));
}

#[test]
fn groups_by_number() {
    let groups = vec![Some("ab".to_string()), None, Some("b".to_string())];
    assert_eq!(group_for(&groups, "0"), Some("ab"));
    assert_eq!(group_for(&groups, "1"), None);
    assert_eq!(group_for(&groups, "2"), Some("b"));
    assert_eq!(group_for(&groups, "+2"), Some("b"));
    assert_eq!(group_for(&groups, "3"), None);
    assert_eq!(group_for(&groups, "-1"), None);
    assert_eq!(group_for(&groups, "x"), None);
}

#[test]
fn bytes_that_are_not_text_are_replaced() {
    let o = over(None, Some("(?-u)x(.)y"), Some("z{1}"), None);
    let line = Some(vec![b'x', 0xff, b'y']);
    assert_eq!(matched(check_override(&o, "a", &line)), Some("z".to_string()));
    let o = over(None, Some("(?-u)x(.+)y"), Some("z{1}"), None);
    let line = Some("xéy".as_bytes().to_vec());
    assert_eq!(matched(check_override(&o, "a", &line)), Some("zé".to_string()));
}

#[test]
fn malformed_overrides_are_errors() {
    assert!(matches!(
        check_override(&over(None, Some("("), None, None), "a", &None),
        Err(OverrideError::InvalidRegex)
    ));
    assert!(matches!(
        check_override(&over(None, None, Some("{"), None), "a", &None),
        Err(OverrideError::InvalidFormat)
    ));
    assert!(matches!(finish_format(None), Err(OverrideError::InvalidFormat)));
    assert_eq!(matched(finish_format(Some("A b".to_string()))), Some("a-b".to_string()));
}

#[test]
fn numbers_of_any_length_are_formatted() {
    let o = over(None, None, Some("scan-2024010112-raw"), None);
    assert_eq!(matched(check_override(&o, "a", &None)), Some("scan-2024010112-raw".to_string()));
    let o = over(None, Some("(b)"), Some("{12345678901}-{1:.12345678901}"), None);
    assert_eq!(matched(check_override(&o, "a", &cli("b"))), Some("12345678901-b".to_string()));
    let o = over(None, Some("(b)"), Some("{1:x<3}"), None);
    assert_eq!(matched(check_override(&o, "a", &cli("b"))), Some("bxx".to_string()));
    let o = over(None, Some("(b)"), Some("{1:99999999999999999999}"), None);
    assert!(matches!(
        check_override(&o, "a", &cli("b")),
        Err(OverrideError::InvalidFormat)
    ));
}

#[test]
fn delegates_come_after_name_and_regex() {
    let o = over(Some("a"), Some("b"), None, Some("/bin/d"));
    assert!(matches!(
        check_override(&o, "a", &cli("b")),
        Ok(Check::Delegate(d)) if d == "/bin/d"
    ));
    assert!(matches!(check_override(&o, "a", &cli("c")), Ok(Check::NoMatch)));
    assert!(matches!(
        check_regexed(&o, "a", &Regexed::Groups(vec![Some("b".to_string())])),
        Ok(Check::Delegate(_))
    ));
    assert!(matches!(
        check_override(&over(Some("a"), None, None, None), "a", &None),
        Ok(Check::Matched(None))
    ));
}

#[test]
fn delegates_name_one_directory_per_line() {
    assert_eq!(delegate_path("Games\n  Some Game \r\n\n"), "games/some-game");
    assert_eq!(delegate_path("../up\n/abs"), "up/abs");
    assert_eq!(delegate_path(""), "");
    assert_eq!(delegate_path(" \n\t\n"), "");
}

#[test]
fn failing_delegates_say_nothing() {
    assert_eq!(run_delegate(false, &b"x".to_vec()), None);
    assert_eq!(run_delegate(true, &vec![0xff]), None);
    assert_eq!(run_delegate(true, &b"\n".to_vec()), Some(None));
    assert_eq!(run_delegate(true, &b"X\nY".to_vec()), Some(Some("x/y".to_string())));
}
