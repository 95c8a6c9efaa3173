use screenshotter::process::{get_process, Process};

fn process(pid: u32, parent: u32, start: u64, exe: Option<&str>, name: &str) -> Process {
    Process {
        pid,
        parent: Some(parent),
        start_time: start,
        is_thread: false,
        exe: exe.map(str::to_string),
        name: name.to_string(),
        cmd: vec![name.as_bytes().to_vec(), b"a b".to_vec()],
    }
}

fn ignored(names: &[&str]) -> Vec<String> {
    names.iter().map(|s| s.to_string()).collect()
}

#[test]
fn unknown_processes_keep_the_window_name() {
    let info = get_process(&vec![], &ignored(&[]), "vim".to_string(), 7);
    assert_eq!(info.name, "vim");
    assert_eq!(info.cli, None);
    assert_eq!(info.pid, 7);
}

#[test]
fn processes_are_named_after_their_program() {
    let ps = vec![process(7, 1, 0, Some("/usr/bin/Firefox.Bin"), "ff")];
    let info = get_process(&ps, &ignored(&[]), "x".to_string(), 7);
    assert_eq!(info.name, "firefox-bin");
    assert_eq!(info.cli, Some(b"ff 'a b'".to_vec()));
    assert_eq!(info.pid, 7);

    let ps = vec![process(7, 1, 0, None, "Python 3")];
    assert_eq!(get_process(&ps, &ignored(&[]), "x".to_string(), 7).name, "python-3");

    let ps = vec![process(7, 1, 0, Some("/"), "fallback")];
    assert_eq!(get_process(&ps, &ignored(&[]), "x".to_string(), 7).name, "fallback");
}

#[test]
fn processes_without_name_are_not_used() {
    let ps = vec![process(7, 1, 0, None, "")];
    let info = get_process(&ps, &ignored(&[]), "window".to_string(), 7);
    assert_eq!(info.name, "window");
    assert_eq!(info.cli, None);
}

#[test]
fn ignored_parents_give_way_to_their_newest_child() {
    let ps = vec![
        process(1, 0, 0, Some("/usr/bin/xfce4-terminal"), "t"),
        process(2, 1, 5, Some("/bin/zsh"), "z"),
        process(3, 2, 6, Some("/bin/older"), "o"),
        process(4, 2, 7, Some("/usr/bin/vim"), "v"),
        process(5, 4, 9, Some("/bin/child"), "c"),
    ];
    let list = ignored(&["xfce4-terminal", "zsh"]);
    let info = get_process(&ps, &list, "w".to_string(), 1);
    assert_eq!(info.name, "vim");
    assert_eq!(info.pid, 4);
    assert_eq!(get_process(&ps, &ignored(&[]), "w".to_string(), 1).name, "xfce4-terminal");
    assert_eq!(get_process(&ps, &ignored(&["vim"]), "w".to_string(), 4).pid, 5);
}

#[test]
fn threads_are_not_children() {
    let mut thread = process(3, 1, 9, Some("/bin/thread"), "t");
    thread.is_thread = true;
    let ps = vec![
        process(1, 0, 0, Some("/bin/zsh"), "z"),
        thread,
        process(2, 1, 5, Some("/bin/real"), "r"),
    ];
    assert_eq!(get_process(&ps, &ignored(&["zsh"]), "w".to_string(), 1).name, "real");
}

#[test]
fn the_higher_process_number_breaks_ties() {
    let ps = vec![
        process(1, 0, 0, Some("/bin/zsh"), "z"),
        process(5, 1, 3, Some("/bin/five"), "f"),
        process(9, 1, 3, Some("/bin/nine"), "n"),
        process(6, 1, 3, Some("/bin/six"), "s"),
    ];
    assert_eq!(get_process(&ps, &ignored(&["zsh"]), "w".to_string(), 1).name, "nine");
}

#[test]
fn ignored_parents_without_children_stay() {
    let ps = vec![process(1, 0, 0, Some("/bin/zsh"), "z")];
    assert_eq!(get_process(&ps, &ignored(&["zsh"]), "w".to_string(), 1).name, "zsh");
}

#[test]
fn loops_of_processes_end() {
    let ps = vec![
        process(1, 2, 0, Some("/bin/zsh"), "a"),
        process(2, 1, 0, Some("/bin/zsh"), "b"),
    ];
    let info = get_process(&ps, &ignored(&["zsh"]), "w".to_string(), 1);
    assert_eq!(info.name, "zsh");
    assert_eq!(info.pid, 2);
}

#[test]
fn unquotable_command_lines_are_left_out() {
    let mut p = process(7, 1, 0, Some("/bin/x"), "x");
    p.cmd = vec![b"nul\0".to_vec()];
    let info = get_process(&vec![p], &ignored(&[]), "w".to_string(), 7);
    assert_eq!(info.name, "x");
    assert_eq!(info.cli, None);
}
