use screenshotter::command::{active_window, Command, CommandError};
use screenshotter::geometry::RegionError;
use screenshotter::ipc::{HyprClient, Window};
use screenshotter::selection::{choices, region, SelectionError};
use screenshotter::util::{LFRegion, LRegion};
use screenshotter::wayland::{Mode, Selected};

fn window(region: LRegion) -> Window {
    let client = HyprClient {
        handle: 0,
        stable_id: "1".to_string(),
        title: "t".to_string(),
        class: "c".to_string(),
        pid: 1,
        x: 0,
        y: 0,
        width: 1,
        height: 1,
        workspace: 1,
        floating: false,
        visible: true,
        mapped: true,
        hidden: false,
        accepts_input: true,
        focus_history: 0,
    };
    Window::Hypr(client, region)
}

const AREA: LRegion = LRegion { x: 1, y: -2, width: 30, height: 40 };

#[test]
fn commands_have_names() {
    assert_eq!(Command::Window.name(), "window");
    assert_eq!(Command::Desktop { unscaled: true }.name(), "desktop");
    assert_eq!(Command::Region.name(), "region");
    assert_eq!(Command::Name.name(), "name");
    assert_eq!(Command::Prop.name(), "prop");
    assert_eq!(Command::VisibleWindows.name(), "visible_windows");
}

#[test]
fn commands_have_modes() {
    assert_eq!(Command::Window.mode(), Some(Mode::ScreenshotOnly));
    assert_eq!(Command::Desktop { unscaled: false }.mode(), Some(Mode::ScreenshotOnly));
    assert_eq!(Command::Region.mode(), Some(Mode::Region));
    assert_eq!(Command::Name.mode(), Some(Mode::PickWindow));
    assert_eq!(Command::Prop.mode(), Some(Mode::PickWindow));
    assert_eq!(Command::VisibleWindows.mode(), None);
}

#[test]
fn commands_check_the_selection() {
    let some = Selected::Region(LFRegion::from_region(AREA));
    let picked = Selected::Window(window(AREA));
    let nothing = Selected::Nothing;
    let desktop = Command::Desktop { unscaled: false };
    assert_eq!(desktop.check(&nothing), Ok(()));
    assert_eq!(desktop.check(&some), Err(CommandError::ExpectedNothing));
    assert_eq!(Command::Window.check(&picked), Err(CommandError::ExpectedNothing));
    assert_eq!(Command::Region.check(&nothing), Err(CommandError::ExpectedSomething));
    assert_eq!(Command::Region.check(&some), Ok(()));
    assert_eq!(Command::Name.check(&some), Err(CommandError::NoWindow));
    assert_eq!(Command::Name.check(&picked), Ok(()));
    assert_eq!(Command::Prop.check(&some), Ok(()));
}

#[test]
fn exactly_one_window_is_active() {
    assert!(matches!(active_window(vec![]), Err(CommandError::NoActiveWindow)));
    assert!(matches!(
        active_window(vec![window(AREA), window(AREA)]),
        Err(CommandError::NoActiveWindow)
    ));
    assert_eq!(active_window(vec![window(AREA)]).unwrap().region(), AREA);
}

#[test]
fn windows_are_listed_one_per_line() {
    let other = LRegion { x: 5, y: 6, width: 7, height: 8 };
    assert_eq!(choices(&vec![window(AREA), window(other)]), "1,-2 30x40\n5,6 7x8\n");
    assert_eq!(choices(&vec![]), "");
}

#[test]
fn regions_come_from_the_program() {
    let none = vec![];
    assert_eq!(region(true, &b"1,-2 30x40\n".to_vec(), &none), Ok(AREA));
    assert_eq!(
        region(true, &b"nonsense".to_vec(), &none),
        Err(SelectionError::NotRegion(RegionError::Shape))
    );
    assert_eq!(
        region(true, &b"a,-2 30x40".to_vec(), &none),
        Err(SelectionError::NotRegion(RegionError::Number))
    );
    assert_eq!(region(true, &vec![0xff], &none), Err(SelectionError::NotText));
    assert_eq!(
        region(false, &none, &b" selection cancelled\n".to_vec()),
        Err(SelectionError::Cancelled)
    );
    assert_eq!(region(false, &none, &b"broken".to_vec()), Err(SelectionError::Failed));
    assert_eq!(region(false, &none, &vec![0xff]), Err(SelectionError::Failed));
}
