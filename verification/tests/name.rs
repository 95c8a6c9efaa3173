use screenshotter::name::convert_application_name;

#[test]
fn names_are_put_in_lower_case() {
    assert_eq!(convert_application_name("Firefox"), "firefox");
    assert_eq!(convert_application_name("ÀÉ"), "àé");
    assert_eq!(convert_application_name("vim_2+x=y"), "vim_2+x=y");
}

#[test]
fn unsafe_characters_become_hyphens() {
    assert_eq!(convert_application_name("My Application.py"), "my-application-py");
    assert_eq!(convert_application_name("../../etc/passwd"), "etc-passwd");
    assert_eq!(convert_application_name("a / b"), "a-b");
    assert_eq!(convert_application_name("日本語 ½"), "日本語-½");
}

#[test]
fn hyphens_are_not_doubled_and_not_at_the_ends() {
    assert_eq!(convert_application_name("--a---b--"), "a-b");
    assert_eq!(convert_application_name("a -- b"), "a-b");
    assert_eq!(convert_application_name("(x)"), "x");
}

#[test]
fn names_can_vanish() {
    assert_eq!(convert_application_name(""), "");
    assert_eq!(convert_application_name("..."), "");
    assert_eq!(convert_application_name("--"), "");
}

#[test]
fn converted_names_hold_no_separators() {
    for s in ["a/b", "..", ".", "/", "x..y//z", "\u{0}\n\t"] {
        let name = convert_application_name(s);
        assert!(!name.contains('/') && !name.contains('.'), "{name:?}");
    }
}

#[test]
fn converting_twice_changes_nothing() {
    for s in ["Firefox", "--a---B / c--", "ΟΔΟΣ!", "İ x", ""] {
        let once = convert_application_name(s);
        assert_eq!(convert_application_name(&once), once);
    }
}
