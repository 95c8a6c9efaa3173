use screenshotter::app::{
    Application, Environment, Finder, Located, OverrideStep, SaveError,
};
use screenshotter::config::{Config, FileFormat, Override};
use screenshotter::ipc::{SwayWindow, Window};
use screenshotter::overrides::OverrideError;
use screenshotter::process::Process;
use screenshotter::stamp::Stamp;
use screenshotter::util::{LFRegion, LRegion};
use screenshotter::wayland::Selected;

fn over(name: Option<&str>, format: Option<&str>, delegate: Option<&str>) -> Override {
    Override {
        name: name.map(str::to_string),
        regex: None,
        format: format.map(str::to_string),
        delegate: delegate.map(str::to_string),
        yearly: true,
        monthly: false,
        callback: Some("/bin/own".to_string()),
    }
}

fn config(overrides: Vec<Override>) -> Config {
    Config {
        screenshot_dir: "/shots".to_string(),
        fallback: "My Desktop".to_string(),
        ignored_parents: vec!["zsh".to_string()],
        format: FileFormat::Webp,
        compression: 6,
        callback: Some("/bin/all".to_string()),
        timeout: 0,
        monitor_positions: vec![],
        overrides,
    }
}

fn window(app_id: Option<&str>, class: Option<&str>) -> Window {
    Window::Sway(SwayWindow {
        handle: 0,
        id: 42,
        name: Some("A title".to_string()),
        pid: Some(7),
        visible: Some(true),
        focused: true,
        app_id: app_id.map(str::to_string),
        class: class.map(str::to_string),
        rect: LRegion { x: 10, y: 20, width: 300, height: 200 },
        window_rect: LRegion { x: 1, y: 2, width: 298, height: 197 },
    })
}

fn processes() -> Vec<Process> {
    vec![
        Process {
            pid: 7,
            parent: Some(1),
            start_time: 1,
            is_thread: false,
            exe: Some("/bin/zsh".to_string()),
            name: "zsh".to_string(),
            cmd: vec![b"zsh".to_vec()],
        },
        Process {
            pid: 9,
            parent: Some(7),
            start_time: 2,
            is_thread: false,
            exe: Some("/usr/bin/vim".to_string()),
            name: "vim".to_string(),
            cmd: vec![b"vim".to_vec(), b"my file".to_vec()],
        },
    ]
}

const STAMP: Stamp = Stamp { year: 2024, month: 1, day: 5, hour: 14, minute: 3, second: 59 };

fn application(dir: &str, yearly: bool, monthly: bool) -> Application {
    Application { relative_dir: dir.to_string(), yearly, monthly, callback: None }
}

fn path(app: Application) -> String {
    app.save_file(&config(vec![]), &STAMP, true).unwrap().path
}

#[test]
fn screenshots_are_filed_by_date() {
    assert_eq!(path(application("vim", false, false)), "/shots/vim/2024-01-05_14-03-59");
    assert_eq!(path(application("vim", true, false)), "/shots/vim/2024/01-05_14-03-59");
    assert_eq!(path(application("vim", false, true)), "/shots/vim/2024-01/05_14-03-59");
    assert_eq!(path(application("vim", true, true)), "/shots/vim/2024/01/05_14-03-59");
    assert_eq!(path(application("a/b", false, false)), "/shots/a/b/2024-01-05_14-03-59");
    assert_eq!(path(application("", false, false)), "/shots/2024-01-05_14-03-59");
}

#[test]
fn early_years_are_padded() {
    let stamp = Stamp { year: 7, month: 12, day: 31, hour: 0, minute: 0, second: 0 };
    let plan = application("x", true, true).save_file(&config(vec![]), &stamp, true).unwrap();
    assert_eq!(plan.path, "/shots/x/0007/12/31_00-00-00");
}

#[test]
fn dry_runs_write_nothing() {
    let app = Application {
        relative_dir: "vim".to_string(),
        yearly: false,
        monthly: false,
        callback: Some("/bin/own".to_string()),
    };
    let plan = app.save_file(&config(vec![]), &STAMP, true).unwrap();
    assert_eq!(plan.format, None);
    assert!(plan.callbacks.is_empty());
    assert_eq!(plan.path, "/shots/vim/2024-01-05_14-03-59");
}

#[test]
fn files_have_an_extension_and_callbacks_follow() {
    let app = Application {
        relative_dir: "vim".to_string(),
        yearly: false,
        monthly: false,
        callback: Some("/bin/own".to_string()),
    };
    let plan = app.save_file(&config(vec![]), &STAMP, false).unwrap();
    assert_eq!(plan.path, "/shots/vim/2024-01-05_14-03-59.webp");
    assert_eq!(plan.format, Some(FileFormat::Webp));
    assert_eq!(plan.callbacks, vec!["/bin/own", "/bin/all"]);

    let mut png = config(vec![]);
    png.format = FileFormat::Png;
    png.callback = None;
    let plan = application("vim", false, false).save_file(&png, &STAMP, false).unwrap();
    assert_eq!(plan.path, "/shots/vim/2024-01-05_14-03-59.png");
    assert!(plan.callbacks.is_empty());
}

#[test]
fn nothing_is_saved_outside_the_directory() {
    for dir in ["../etc", "/etc", "a/../../b", ".."] {
        let r = application(dir, false, false).save_file(&config(vec![]), &STAMP, false);
        assert_eq!(r.err(), Some(SaveError::Outside), "{dir:?}");
    }
    for dir in ["a/../b", "./a", "a//b/", "/shots/x"] {
        let r = application(dir, false, false).save_file(&config(vec![]), &STAMP, false);
        assert!(r.is_ok(), "{dir:?}");
    }
}

#[test]
fn stamps_are_checked() {
    assert!(STAMP.valid());
    assert!(!Stamp { month: 13, ..STAMP }.valid());
    assert!(!Stamp { month: 2, day: 30, ..STAMP }.valid());
    assert!(Stamp { month: 2, day: 29, ..STAMP }.valid());
    assert!(!Stamp { year: 2023, month: 2, day: 29, ..STAMP }.valid());
    assert!(!Stamp { hour: 24, ..STAMP }.valid());
    assert!(!Stamp { year: 10000, ..STAMP }.valid());
}

#[test]
fn windows_name_the_application() {
    let selected = Selected::Window(window(Some("org.place.Terminal"), None));
    let l = Finder::init(processes()).application_for(&config(vec![]), &selected, "window");
    assert_eq!(l.application.relative_dir, "vim");
    assert_eq!(l.cli, Some(b"vim 'my file'".to_vec()));
    let expected = [
        ("SCREENSHOTTER_MODE", "window"),
        ("SCREENSHOTTER_NAME", "vim"),
        ("SCREENSHOTTER_CLASS", "org.place.Terminal"),
        ("SCREENSHOTTER_DIR", "/shots/vim"),
        ("SCREENSHOTTER_WM_NAME", "A title"),
        ("SCREENSHOTTER_WINDOW_ID", "42"),
        ("SCREENSHOTTER_PID", "9"),
        ("SCREENSHOTTER_GEOMETRY", "11,22 298x197"),
        ("SCREENSHOTTER_WINDOW_PID", "7"),
    ];
    let vars = l.env.vars();
    assert_eq!(vars.len(), expected.len());
    for ((name, value), (n, v)) in vars.iter().zip(expected) {
        assert_eq!((name.as_str(), value.as_str()), (n, v));
    }
}

#[test]
fn without_a_process_the_class_names_the_application() {
    let name = |w: Window| {
        let selected = Selected::Window(w);
        let l = Finder::init(vec![]).application_for(&config(vec![]), &selected, "window");
        l.application.relative_dir
    };
    assert_eq!(name(window(Some("org.place.Application"), None)), "application");
    assert_eq!(name(window(None, Some("XTerm"))), "xterm");
    assert_eq!(name(window(None, None)), "my-desktop");
}

#[test]
fn without_a_window_the_fallback_is_used() {
    let l = Finder::empty().application_for(&config(vec![]), &Selected::Nothing, "desktop");
    assert_eq!(l.application.relative_dir, "my-desktop");
    assert_eq!(l.cli, None);
    assert_eq!(l.env.dir, Some("/shots/my-desktop".to_string()));
    assert_eq!(l.env.geometry, None);
    assert_eq!(l.env.window_id, None);

    let area = LFRegion::from_region(LRegion { x: 1, y: 2, width: 3, height: 4 });
    let selected = Selected::Region(area);
    let l = Finder::empty().application_for(&config(vec![]), &selected, "region");
    assert_eq!(l.env.geometry, Some("1,2 3x4".to_string()));
    assert_eq!(l.env.pid, None);
}

#[test]
fn unset_variables_are_left_out() {
    let env = Environment {
        mode: None,
        name: None,
        class: None,
        dir: None,
        wm_name: None,
        window_id: None,
        pid: Some("1".to_string()),
        geometry: None,
        window_pid: None,
    };
    assert_eq!(env.vars(), vec![("SCREENSHOTTER_PID".to_string(), "1".to_string())]);
}

fn located(c: &Config) -> Located {
    let selected = Selected::Window(window(None, None));
    Finder::init(processes()).application_for(c, &selected, "window")
}

#[test]
fn the_first_matching_override_is_used() {
    let c = config(vec![
        over(Some("emacs"), Some("Editor"), None),
        over(Some("vim"), Some("Other Editor"), None),
        over(None, Some("never"), None),
    ]);
    let mut l = located(&c);
    let step = l.next_override(&c, 0).unwrap();
    let OverrideStep::Matched { index, dir } = step else {
        panic!("{step:?}");
    };
    assert_eq!(index, 1);
    assert_eq!(dir, Some("other-editor".to_string()));
    l.run_override(&c, index, dir);
    assert_eq!(l.application.relative_dir, "other-editor");
    assert!(l.application.yearly);
    assert!(!l.application.monthly);
    assert_eq!(l.application.callback, Some("/bin/own".to_string()));
    assert_eq!(l.env.name, Some("other-editor".to_string()));
    assert_eq!(l.env.dir, Some("/shots/other-editor".to_string()));
    assert_eq!(l.env.pid, Some("9".to_string()));
}

#[test]
fn failing_delegates_let_the_next_override_try() {
    let c = config(vec![
        over(None, None, Some("/bin/delegate")),
        over(Some("vim"), None, None),
    ]);
    let mut l = located(&c);
    let step = l.next_override(&c, 0).unwrap();
    assert!(matches!(step, OverrideStep::Run { index: 0, delegate } if delegate == "/bin/delegate"));
    let from = l.delegate_done(&c, 0, None);
    assert_eq!(from, Some(1));
    assert!(!l.application.yearly);
    let step = l.next_override(&c, 1).unwrap();
    assert!(matches!(step, OverrideStep::Matched { index: 1, dir: None }));
    assert!(matches!(l.next_override(&c, 2).unwrap(), OverrideStep::Exhausted));

    assert_eq!(l.delegate_done(&c, 0, Some(Some("a/b".to_string()))), None);
    assert_eq!(l.application.relative_dir, "a/b");
    assert_eq!(l.env.dir, Some("/shots/a/b".to_string()));
    assert_eq!(l.delegate_done(&c, 1, Some(None)), None);
    assert_eq!(l.application.relative_dir, "a/b");
}

#[test]
fn malformed_overrides_stop_the_search() {
    let mut bad = over(None, None, None);
    bad.regex = Some("(".to_string());
    let c = config(vec![over(Some("emacs"), None, None), bad]);
    assert_eq!(located(&c).next_override(&c, 0).err(), Some(OverrideError::InvalidRegex));
    let c = config(vec![over(None, Some("{"), None)]);
    assert_eq!(located(&c).next_override(&c, 0).err(), Some(OverrideError::InvalidFormat));
}
