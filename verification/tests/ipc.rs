use screenshotter::ipc::{
    hyprland, sway, HyprClient, HyprMonitor, HyprWorkspace, Search, SearchStep, Source, SwayNode,
    SwayWindow, Window,
};
use screenshotter::util::LRegion;

fn node(id: i64, nodes: Vec<SwayNode>, floating_nodes: Vec<SwayNode>) -> SwayNode {
    let window = SwayWindow {
        handle: id as usize,
        id,
        name: Some(format!("window {id}")),
        pid: Some(100),
        visible: Some(true),
        focused: id == 3,
        app_id: None,
        class: Some("class".to_string()),
        rect: LRegion { x: 100, y: 200, width: 50, height: 60 },
        window_rect: LRegion { x: 2, y: 3, width: 46, height: 55 },
    };
    SwayNode { window, nodes, floating_nodes }
}

fn container(id: i64, nodes: Vec<SwayNode>, floating_nodes: Vec<SwayNode>) -> SwayNode {
    let mut n = node(id, nodes, floating_nodes);
    n.window.pid = None;
    n
}

fn ids(windows: &[Window]) -> Vec<String> {
    windows.iter().map(|w| w.id()).collect()
}

#[test]
fn floating_windows_are_swept_first() {
    let workspace = container(
        1,
        vec![node(2, vec![], vec![]), node(3, vec![], vec![])],
        vec![node(4, vec![], vec![]), node(5, vec![], vec![])],
    );
    let root = container(0, vec![container(9, vec![workspace], vec![])], vec![]);
    let windows = sway(root, false);
    assert_eq!(ids(&windows), vec!["5", "4", "2", "3"]);
}

#[test]
fn only_visible_windows_are_swept() {
    let mut hidden = node(2, vec![], vec![]);
    hidden.window.visible = Some(false);
    let mut unknown = node(4, vec![], vec![]);
    unknown.window.visible = None;
    let root = container(0, vec![hidden, unknown, node(3, vec![], vec![])], vec![]);
    assert_eq!(ids(&sway(root, false)), vec!["3"]);
}

#[test]
fn only_the_focused_window_is_active() {
    let root = container(0, vec![node(2, vec![], vec![]), node(3, vec![], vec![])], vec![]);
    assert_eq!(ids(&sway(root, true)), vec!["3"]);
}

#[test]
fn sway_windows_are_described() {
    let w = &sway(node(3, vec![], vec![]), false)[0];
    assert_eq!(w.pid(), 100);
    assert_eq!(w.id(), "3");
    assert_eq!(w.name(), Some("window 3"));
    assert_eq!(w.class(), Some("class"));
    assert_eq!(w.region(), LRegion { x: 102, y: 203, width: 46, height: 55 });
    assert!(w.valid());
    let mut far = node(3, vec![], vec![]);
    far.window.rect.x = i32::MAX;
    assert!(!sway(far, false)[0].valid());
}

fn client(id: &str, workspace: i32, floating: bool) -> HyprClient {
    HyprClient {
        handle: 0,
        stable_id: id.to_string(),
        title: format!("title {id}"),
        class: "Class".to_string(),
        pid: 5,
        x: 10,
        y: 20,
        width: 100,
        height: 200,
        workspace,
        floating,
        visible: true,
        mapped: true,
        hidden: false,
        accepts_input: true,
        focus_history: if id == "b" { 0 } else { 1 },
    }
}

fn desktop(layout: &str) -> (Vec<HyprWorkspace>, Vec<HyprMonitor>) {
    let workspaces = vec![
        HyprWorkspace { id: 1, tiled_layout: layout.to_string() },
        HyprWorkspace { id: 2, tiled_layout: "dwindle".to_string() },
    ];
    let region = LRegion { x: 0, y: 0, width: 60, height: 500 };
    (workspaces, vec![HyprMonitor { region, active_workspace: 1 }])
}

#[test]
fn hyprland_windows_come_floating_first_and_last_first() {
    let (w, m) = desktop("dwindle");
    let clients = vec![
        client("a", 1, false),
        client("b", 1, true),
        client("c", 1, false),
        client("d", 1, true),
        client("e", 2, true),
    ];
    assert_eq!(ids(&hyprland(clients, &w, &m, false)), vec!["d", "b", "c", "a"]);
}

#[test]
fn hyprland_windows_that_cannot_be_chosen_are_left_out() {
    let (w, m) = desktop("dwindle");
    let mut clients = vec![];
    for i in 0..4 {
        let mut c = client("x", 1, false);
        match i {
            0 => c.visible = false,
            1 => c.mapped = false,
            2 => c.hidden = true,
            _ => c.accepts_input = false,
        }
        clients.push(c);
    }
    clients.push(client("b", 1, false));
    clients.push(client("y", 1, false));
    assert_eq!(ids(&hyprland(clients, &w, &m, true)), vec!["b"]);
}

#[test]
fn scrolling_workspaces_cut_windows_off() {
    let (w, m) = desktop("scrolling");
    let mut off = client("off", 1, false);
    off.x = 60;
    let clients = vec![client("a", 1, false), client("f", 1, true), off];
    let windows = hyprland(clients, &w, &m, false);
    assert_eq!(ids(&windows), vec!["f", "a"]);
    assert_eq!(windows[0].region(), LRegion { x: 10, y: 20, width: 100, height: 200 });
    assert_eq!(windows[1].region(), LRegion { x: 10, y: 20, width: 50, height: 200 });
    assert_eq!(windows[1].name(), Some("title a"));
    assert_eq!(windows[1].class(), Some("Class"));
    assert_eq!(windows[1].pid(), 5);
}

#[test]
fn the_first_answer_wins() {
    let mut search = Search::new();
    assert!(matches!(search.visible_windows(Source::Sway, None), SearchStep::Wait));
    assert!(search.try_hyprland && !search.try_sway && search.sway_failed);
    assert!(matches!(
        search.visible_windows(Source::Hyprland, Some(vec![])),
        SearchStep::Found(w) if w.is_empty()
    ));

    let mut search = Search::new();
    assert!(matches!(search.visible_windows(Source::Hyprland, None), SearchStep::Wait));
    assert!(matches!(search.visible_windows(Source::Sway, None), SearchStep::GiveUp));
}
