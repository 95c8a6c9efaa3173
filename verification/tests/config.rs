use screenshotter::config::{
    empty_path_is_none, Config, ConfigError, FileFormat, Override, Reformatter,
};

fn over(format: Option<&str>, delegate: Option<&str>) -> Override {
    Override {
        name: None,
        regex: None,
        format: format.map(str::to_string),
        delegate: delegate.map(str::to_string),
        yearly: false,
        monthly: false,
        callback: None,
    }
}

fn config(dir: &str, timeout: u64, overrides: Vec<Override>) -> Config {
    Config {
        screenshot_dir: dir.to_string(),
        fallback: "Desktop".to_string(),
        ignored_parents: vec![],
        format: FileFormat::Png,
        compression: 6,
        callback: None,
        timeout,
        monitor_positions: vec![],
        overrides,
    }
}

#[test]
fn formats_have_extensions() {
    assert_eq!(FileFormat::Png.extension(), "png");
    assert_eq!(FileFormat::Webp.extension(), "webp");
    assert_eq!(FileFormat::default(), FileFormat::Png);
}

#[test]
fn transforms() {
    assert!(matches!(over(None, None).transform(), Ok(None)));
    assert!(matches!(
        over(Some("{1}"), None).transform(),
        Ok(Some(Reformatter::Format(f))) if f == "{1}"
    ));
    assert!(matches!(
        over(None, Some("/bin/x")).transform(),
        Ok(Some(Reformatter::Delegate(d))) if d == "/bin/x"
    ));
    assert!(matches!(
        over(Some("{1}"), Some("/bin/x")).transform(),
        Err(ConfigError::FormatAndDelegate)
    ));
}

#[test]
fn empty_paths_are_none() {
    assert_eq!(empty_path_is_none(String::new()), None);
    assert_eq!(empty_path_is_none("/a".to_string()), Some("/a".to_string()));
}

#[test]
fn configurations_are_validated() {
    assert_eq!(config("/shots", 0, vec![]).validate(true), Ok(()));
    assert_eq!(
        config("/shots", 0, vec![]).validate(false),
        Err(ConfigError::NotADirectory)
    );
    assert_eq!(
        config("shots", 0, vec![]).validate(true),
        Err(ConfigError::RelativeDirectory)
    );
    assert_eq!(
        config("", 0, vec![]).validate(true),
        Err(ConfigError::RelativeDirectory)
    );
    assert_eq!(
        config("/shots", 0, vec![over(None, None), over(Some("a"), Some("b"))]).validate(true),
        Err(ConfigError::FormatAndDelegate)
    );
}

#[test]
fn zero_is_no_deadline() {
    assert_eq!(config("/shots", 0, vec![]).deadline(), None);
    assert_eq!(config("/shots", 30, vec![]).deadline(), Some(30));
}
