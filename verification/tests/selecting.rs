use screenshotter::coord::Coord;
use screenshotter::ipc::{HyprClient, Window};
use screenshotter::util::{LRegion, MLPoint, MRegion};
use screenshotter::wayland::conn::{
    ignore_dispatch, ignore_error, ignore_wayland, DispatchFailure, IoKind, RunStep,
    WaylandFailure,
};
use screenshotter::wayland::input::{ButtonState, KeyAction, KeyStep, BTN_LEFT, BTN_RIGHT};
use screenshotter::wayland::output::{DoneStep, Output, OutputError};
use screenshotter::wayland::overlay::{BoxStep, ConfigureStep, Overlay, OverlayError};
use screenshotter::wayland::setup::FinishStep;
use screenshotter::wayland::state::{State, StateError};
use screenshotter::wayland::{
    Format, Mode, OutputKey, SelectState, Selected, Status, Transform,
};

fn window(id: &str, x: i32, y: i32, width: i32, height: i32) -> Window {
    let client = HyprClient {
        handle: 0,
        stable_id: id.to_string(),
        title: String::new(),
        class: String::new(),
        pid: 1,
        x: 0,
        y: 0,
        width: 0,
        height: 0,
        workspace: 0,
        floating: false,
        visible: true,
        mapped: true,
        hidden: false,
        accepts_input: true,
        focus_history: 1,
    };
    Window::Hypr(client, LRegion { x, y, width, height })
}

/// Announces a monitor of 100 by 100 logical and 200 by 200 physical pixels.
fn announce(state: &mut State, key: u32, x: i32) {
    assert!(state.add_output(OutputKey(key)));
    let i = state.find(OutputKey(key)).unwrap();
    let mode = state.mode;
    let out = &mut state.outputs[i];
    out.mode(200, 200).unwrap();
    out.logical_position(x, 0);
    out.logical_size(100, 100);
    out.description(format!("Monitor {key}"));
    assert_eq!(out.done(mode, Format::Argb8888), Ok(DoneStep::Waiting));
    assert_eq!(
        out.done(mode, Format::Argb8888),
        Ok(DoneStep::SetUp { capture: mode.shot(), overlay: mode.sel() })
    );
}

/// Finishes a monitor's capture.
fn capture(state: &mut State, key: u32) {
    let i = state.find(OutputKey(key)).unwrap();
    let formats = state.formats;
    let capture = &mut state.outputs[i].capture;
    capture.buffer_size(200, 200).unwrap();
    capture.shm_format(Some(Format::Argb8888));
    capture.session_done(&formats).unwrap().unwrap();
    assert!(capture.ready());
}

/// Finishes a monitor's layer.
fn layer(state: &mut State, key: u32) {
    let i = state.find(OutputKey(key)).unwrap();
    let overlay = state.outputs[i].overlay.as_mut().unwrap();
    assert_eq!(overlay.configure(100, 100), Ok(ConfigureStep::Accepted { dummy: true }));
    overlay.set_scale(240).unwrap();
}

fn selecting(mode: Mode, windows: Vec<Window>) -> State {
    let mut state = State::new(mode, false);
    announce(&mut state, 7, 100);
    announce(&mut state, 3, 0);
    state.begin(windows).unwrap();
    state.synced();
    for key in [3, 7] {
        if mode.shot() {
            capture(&mut state, key);
        }
        layer(&mut state, key);
        state.try_finish_overlay(OutputKey(key)).unwrap();
    }
    state.update_status();
    assert!(matches!(state.status, Status::Selecting));
    assert!(state.ready());
    state
}

fn at(x: i32, y: i32) -> MLPoint {
    MLPoint::from_fixed(x * 256, y * 256)
}

fn enter(state: &mut State, key: u32, x: i32, y: i32) {
    state.pointer_enter(OutputKey(key), at(x, y));
    state.pointer_frame();
}

fn press(state: &mut State, time: u32) {
    state.pointer_button(time, BTN_LEFT, ButtonState::Pressed, false);
}

fn release(state: &mut State, time: u32) {
    state.pointer_button(time, BTN_LEFT, ButtonState::Released, false);
}

#[test]
fn monitors_are_ordered_by_key() {
    let state = selecting(Mode::Region, vec![]);
    let keys: Vec<u32> = state.outputs.iter().map(|o| o.key.0).collect();
    assert_eq!(keys, vec![3, 7]);
    assert_eq!(state.find(OutputKey(7)), Some(1));
    assert_eq!(state.find(OutputKey(8)), None);
}

#[test]
fn a_run_waits_for_everything() {
    let mut state = State::new(Mode::Region, false);
    assert_eq!(state.run(false), Ok(RunStep::Poll));
    announce(&mut state, 1, 0);
    state.update_status();
    assert!(matches!(state.status, Status::Initializing));
    state.synced();
    state.update_status();
    assert!(matches!(state.status, Status::Waiting));
    capture(&mut state, 1);
    state.update_status();
    assert!(matches!(state.status, Status::Waiting));
    assert!(matches!(state.try_finish_overlay(OutputKey(1)), Ok(FinishStep::Pending)));
    layer(&mut state, 1);
    let step = state.try_finish_overlay(OutputKey(1));
    assert!(
        matches!(
            step,
            Ok(FinishStep::Freeze {
                destination: (100, 100),
                transform: Transform(0),
                magnifier: true
            })
        ),
        "{step:?}"
    );
    assert!(state.outputs[0].overlay.as_ref().unwrap().magnifier.is_some());
    state.update_status();
    assert!(matches!(state.status, Status::Selecting));
    assert_eq!(state.run(false), Ok(RunStep::Highlight));
    assert_eq!(state.run(true), Ok(RunStep::Poll));
}

#[test]
fn screenshots_alone_select_nothing() {
    let mut state = State::new(Mode::ScreenshotOnly, false);
    announce(&mut state, 1, 0);
    state.synced();
    assert!(matches!(state.try_finish_overlay(OutputKey(1)), Ok(FinishStep::Unneeded)));
    capture(&mut state, 1);
    state.update_status();
    assert!(matches!(state.status, Status::Done(Selected::Nothing)));
    assert_eq!(state.run(false), Ok(RunStep::Finished));
    assert!(matches!(state.selected(), Some(Selected::Nothing)));
    let w = window("a", 10, 20, 30, 40);
    assert_eq!(state.screenshot_window(w), Ok(()));
    assert_eq!(
        state.screenshot_window(window("b", 0, 0, 1, 1)),
        Err(StateError::NotNothing)
    );
    let frame = vec![9u8; 200 * 200 * 4];
    let frames: Vec<&[u8]> = vec![&frame];
    assert!(state.can_take_screenshot(&frames));
    let shots = state.take_screenshot(&frames).unwrap();
    assert_eq!(shots.len(), 1);
    assert_eq!(shots[0].monitor_region, MRegion { x: 20, y: 40, width: 60, height: 80 });
    assert_eq!((shots[0].image.width, shots[0].image.height), (60, 80));
}

#[test]
fn the_whole_desktop_is_captured() {
    let mut state = State::new(Mode::ScreenshotOnly, false);
    announce(&mut state, 1, 0);
    announce(&mut state, 2, 100);
    state.synced();
    capture(&mut state, 1);
    capture(&mut state, 2);
    state.update_status();
    let (a, b) = (vec![1u8; 160000], vec![2u8; 160000]);
    let frames: Vec<&[u8]> = vec![&a, &b];
    assert!(!state.can_take_screenshot(&vec![&a[..]]));
    assert!(!state.can_take_screenshot(&vec![&a[..], &b[1..]]));
    assert!(state.can_take_screenshot(&frames));
    let shots = state.take_screenshot(&frames).unwrap();
    assert_eq!(shots.len(), 2);
    assert!(shots[0].image.data.iter().all(|v| *v == 1));
    assert!(shots[1].image.data.iter().all(|v| *v == 2));
    assert_eq!(shots[1].monitor_region, MRegion { x: 0, y: 0, width: 200, height: 200 });
}

#[test]
fn selections_off_every_monitor_cannot_be_captured() {
    let mut state = State::new(Mode::ScreenshotOnly, false);
    announce(&mut state, 1, 0);
    state.synced();
    capture(&mut state, 1);
    state.update_status();
    state.screenshot_window(window("a", 5000, 0, 5, 5)).unwrap();
    let frame = vec![0u8; 160000];
    let r = state.take_screenshot(&vec![&frame[..]]);
    assert_eq!(r.err(), Some(StateError::NothingToCapture));
}

#[test]
fn picking_needs_windows() {
    let mut state = State::new(Mode::PickWindow, false);
    assert_eq!(state.begin(vec![]), Err(StateError::NoWindows));
    let mut state = State::new(Mode::Region, false);
    assert_eq!(state.begin(vec![]), Ok(()));
    state.synced();
    state.update_status();
    assert_eq!(state.run(false), Err(StateError::NoMonitors));
}

#[test]
fn late_and_lost_monitors_are_errors() {
    let mut state = selecting(Mode::Region, vec![]);
    assert!(!state.add_output(OutputKey(9)));
    assert_eq!(state.error, Some(StateError::NewOutput));
    state.error = None;
    state.remove_output(OutputKey(9));
    assert_eq!(state.error, None);
    state.remove_output(OutputKey(3));
    assert_eq!(state.error, Some(StateError::RemovedOutput(OutputKey(3))));
    assert_eq!(state.outputs.len(), 1);
}

#[test]
fn sizes_have_to_agree() {
    let mut state = State::new(Mode::Region, false);
    announce(&mut state, 1, 0);
    capture(&mut state, 1);
    let overlay = state.outputs[0].overlay.as_mut().unwrap();
    overlay.configure(100, 100).unwrap();
    overlay.set_scale(120).unwrap();
    let r = state.try_finish_overlay(OutputKey(1));
    assert!(matches!(r, Err(StateError::Resolution(OutputKey(1)))), "{r:?}");
}

#[test]
fn picking_attaches_a_dummy() {
    let mut state = State::new(Mode::PickWindow, true);
    assert!(state.add_output(OutputKey(1)));
    let out = &mut state.outputs[0];
    out.geometry(Transform(1));
    out.mode(200, 100).unwrap();
    assert_eq!((out.monitor.physical.width, out.monitor.physical.height), (100, 200));
    out.logical_size(50, 100);
    out.done(Mode::PickWindow, Format::Argb8888).unwrap();
    out.done(Mode::PickWindow, Format::Argb8888).unwrap();
    let overlay = out.overlay.as_mut().unwrap();
    overlay.configure(50, 100).unwrap();
    overlay.set_scale(240).unwrap();
    let step = state.try_finish_overlay(OutputKey(1));
    assert!(
        matches!(
            step,
            Ok(FinishStep::Dummy { destination: (50, 100), transform: Transform(3) })
        ),
        "{step:?}"
    );
}

#[test]
fn monitors_are_described_once() {
    let mut out = Output::new(OutputKey(1));
    out.mode(200, 100).unwrap();
    assert_eq!(out.mode(200, 100), Err(OutputError::SecondMode));
    out.geometry(Transform(3));
    assert_eq!((out.monitor.physical.width, out.monitor.physical.height), (100, 200));
    out.done(Mode::Region, Format::Argb8888).unwrap();
    assert_eq!(out.done(Mode::Region, Format::Argb8888), Err(OutputError::EmptyRegion));
    assert_eq!(out.done(Mode::Region, Format::Argb8888), Err(OutputError::TooManyDone));

    let mut out = Output::new(OutputKey(1));
    out.mode(10, 10).unwrap();
    out.logical_size(1000, 10);
    out.done(Mode::Region, Format::Argb8888).unwrap();
    assert_eq!(out.done(Mode::Region, Format::Argb8888), Err(OutputError::InvalidScale));
}

#[test]
fn hovering_highlights_the_frontmost_window() {
    let windows = vec![window("a", 10, 10, 20, 20), window("b", 0, 0, 50, 50)];
    let mut state = selecting(Mode::Region, windows);
    state.pointer_enter(OutputKey(3), at(15, 15));
    let frame = state.pointer_frame();
    assert!(matches!(state.select_state, SelectState::OverWindow(0)));
    assert_eq!(frame.hidden, None);
    let moved = frame.moved.unwrap();
    assert_eq!(moved.output, OutputKey(3));
    assert!(moved.result.unwrap().is_some());
    assert_eq!(frame.boxes.len(), 2);
    assert!(matches!(
        frame.boxes[0],
        (OutputKey(3), Ok(BoxStep::Paint { index: 0, create: true }))
    ));
    assert!(matches!(frame.boxes[1], (OutputKey(7), Ok(BoxStep::Nothing))));
    let overlay = state.outputs[0].overlay.as_ref().unwrap();
    assert_eq!(
        overlay.pending_region,
        Some(MRegion { x: 20, y: 20, width: 40, height: 40 })
    );

    state.pointer_motion(at(40, 40));
    let frame = state.pointer_frame();
    assert!(matches!(state.select_state, SelectState::OverWindow(1)));
    assert_eq!(frame.boxes.len(), 2);
    let again = state.pointer_frame();
    assert!(again.boxes.is_empty());
    state.pointer_motion(at(90, 90));
    state.pointer_frame();
    assert!(matches!(state.select_state, SelectState::Hovering));
}

#[test]
fn clicks_pick_windows() {
    let windows = vec![window("a", 10, 10, 20, 20), window("b", 0, 0, 50, 50)];
    let mut state = selecting(Mode::PickWindow, windows);
    enter(&mut state, 3, 90, 90);
    press(&mut state, 0);
    assert!(state.selected().is_none());
    enter(&mut state, 3, 40, 40);
    press(&mut state, 0);
    assert!(matches!(state.selected(), Some(Selected::Window(w)) if w.id() == "b"));
}

#[test]
fn short_presses_select_the_window() {
    let mut state = selecting(Mode::Region, vec![window("a", 10, 10, 20, 20)]);
    enter(&mut state, 3, 15, 15);
    press(&mut state, u32::MAX - 10);
    assert!(matches!(state.select_state, SelectState::Dragging { .. }));
    release(&mut state, 50);
    assert!(matches!(state.selected(), Some(Selected::Window(w)) if w.id() == "a"));
}

#[test]
fn short_presses_elsewhere_do_nothing() {
    let mut state = selecting(Mode::Region, vec![window("a", 10, 10, 20, 20)]);
    enter(&mut state, 3, 80, 80);
    press(&mut state, 0);
    release(&mut state, 100);
    assert!(state.selected().is_none());
    assert!(matches!(state.select_state, SelectState::Hovering));
}

#[test]
fn drags_select_pixels() {
    let mut state = selecting(Mode::Region, vec![window("a", 10, 10, 20, 20)]);
    enter(&mut state, 3, 50, 50);
    press(&mut state, 0);
    state.pointer_motion(at(60, 70));
    state.pointer_frame();
    release(&mut state, 101);
    let Some(Selected::Region(region)) = state.selected() else {
        panic!("{:?}", state.status);
    };
    assert_eq!(region.int_region(), LRegion { x: 50, y: 50, width: 11, height: 21 });
    assert_eq!(region.right, Coord { num: 12100, den: 200 });
    let frame = vec![5u8; 160000];
    let frames: Vec<&[u8]> = vec![&frame, &frame];
    assert!(state.can_take_screenshot(&frames));
    let shots = state.take_screenshot(&frames).unwrap();
    assert_eq!(shots.len(), 1);
    assert_eq!(shots[0].monitor_region, MRegion { x: 100, y: 100, width: 21, height: 41 });
}

#[test]
fn drags_name_the_window_under_their_centre() {
    let windows = vec![window("a", 0, 0, 5, 5), window("b", 10, 10, 40, 40)];
    let mut state = selecting(Mode::Region, windows);
    enter(&mut state, 3, 15, 15);
    press(&mut state, 0);
    state.pointer_motion(at(35, 35));
    state.pointer_frame();
    release(&mut state, 1000);
    assert!(
        matches!(state.selected(), Some(Selected::RegionWindow(_, w)) if w.id() == "b"),
        "{:?}",
        state.status
    );
}

#[test]
fn drags_cross_monitors() {
    let mut state = selecting(Mode::Region, vec![]);
    enter(&mut state, 3, 50, 50);
    press(&mut state, 0);
    state.pointer_motion(at(120, 60));
    let frame = state.pointer_frame();
    assert_eq!(frame.hidden, Some(OutputKey(3)));
    assert_eq!(frame.moved.unwrap().output, OutputKey(7));
    let hover = state.mouse.hover.unwrap();
    assert_eq!((hover.outkey, hover.corrected), (OutputKey(3), OutputKey(7)));
    release(&mut state, 1000);
    let frame = vec![5u8; 160000];
    let shots = state.take_screenshot(&vec![&frame[..], &frame[..]]).unwrap();
    assert_eq!(shots.len(), 2);
    assert_eq!(shots[0].monitor_region, MRegion { x: 100, y: 100, width: 100, height: 21 });
    assert_eq!(shots[1].monitor_region, MRegion { x: 0, y: 100, width: 41, height: 21 });
}

#[test]
fn barely_off_screen_pointers_are_followed() {
    let mut state = selecting(Mode::Region, vec![]);
    enter(&mut state, 3, 50, 50);
    press(&mut state, 0);
    state.pointer_motion(MLPoint::from_fixed(50 * 256, -100));
    state.pointer_frame();
    assert_eq!(state.mouse.hover.unwrap().corrected, OutputKey(3));
    state.pointer_motion(at(50, -20));
    let frame = state.pointer_frame();
    assert!(frame.moved.is_none() && frame.boxes.is_empty());
}

#[test]
fn the_right_button_cancels_drags() {
    let mut state = selecting(Mode::Region, vec![]);
    enter(&mut state, 3, 50, 50);
    press(&mut state, 0);
    state.pointer_button(500, BTN_RIGHT, ButtonState::Pressed, false);
    assert!(matches!(state.select_state, SelectState::Hovering));
    release(&mut state, 600);
    assert!(state.selected().is_none());
    state.pointer_button(700, 0x112, ButtonState::Pressed, false);
    assert!(matches!(state.select_state, SelectState::Hovering));
}

#[test]
fn shift_keeps_drags_going() {
    let mut state = selecting(Mode::Region, vec![]);
    enter(&mut state, 3, 50, 50);
    state.pointer_button(0, BTN_LEFT, ButtonState::Pressed, true);
    state.pointer_button(10, BTN_LEFT, ButtonState::Released, true);
    assert!(matches!(state.select_state, SelectState::Dragging { .. }));
    state.pointer_button(500, BTN_LEFT, ButtonState::Pressed, false);
    assert!(matches!(state.select_state, SelectState::Dragging { start_time: 0, .. }));
    release(&mut state, 600);
    assert!(matches!(state.selected(), Some(Selected::Region(_))));
}

#[test]
fn leaving_hides_the_magnifier() {
    let mut state = selecting(Mode::Region, vec![window("a", 10, 10, 20, 20)]);
    enter(&mut state, 3, 15, 15);
    assert_eq!(state.pointer_leave(), Some(OutputKey(3)));
    assert_eq!(state.pointer_leave(), None);
    assert_eq!(state.mouse.hover, None);
    assert!(state.pointer_frame().moved.is_none());
    let boxes = state.update_overlay();
    assert_eq!(boxes.len(), 2);
    assert!(matches!(state.select_state, SelectState::Hovering));

    let mut state = selecting(Mode::PickWindow, vec![window("a", 10, 10, 20, 20)]);
    enter(&mut state, 3, 15, 15);
    assert_eq!(state.pointer_leave(), None);
}

#[test]
fn keys_do_what_is_documented() {
    let mut state = selecting(Mode::Region, vec![window("a", 10, 10, 20, 20)]);
    enter(&mut state, 3, 15, 15);
    for key in [Some(0xff1b), Some(0x71), Some(0x51), None] {
        assert_eq!(state.key_down(0, key), Err(StateError::Cancelled));
    }
    assert_eq!(state.key_down(0, Some(0x61)), Ok(KeyStep::Nothing));
    assert_eq!(state.key_down(0, Some(0x20)), Ok(KeyStep::Nothing));
    assert!(matches!(state.select_state, SelectState::Dragging { .. }));
    assert_eq!(state.key_down(0, Some(0xff08)), Ok(KeyStep::Nothing));
    assert!(matches!(state.select_state, SelectState::Hovering));
    state.pointer_frame();
    state.key_down(0, Some(0xff0d)).unwrap();
    state.pointer_motion(at(40, 40));
    state.pointer_frame();
    state.key_down(1, Some(0xffb5)).unwrap();
    assert!(matches!(state.selected(), Some(Selected::RegionWindow(..))));

    let mut state = selecting(Mode::Region, vec![window("a", 10, 10, 20, 20)]);
    enter(&mut state, 3, 15, 15);
    state.key_down(0, Some(0x70)).unwrap();
    assert!(matches!(state.selected(), Some(Selected::Window(_))));

    let mut state = selecting(Mode::PickWindow, vec![window("a", 10, 10, 20, 20)]);
    enter(&mut state, 3, 15, 15);
    state.key_down(0, Some(0x20)).unwrap();
    assert!(state.selected().is_none());
}

#[test]
fn arrows_move_by_one_pixel() {
    let mut state = selecting(Mode::Region, vec![]);
    assert_eq!(state.key_down(0, Some(0xff53)), Ok(KeyStep::Nothing));
    enter(&mut state, 3, 15, 15);
    // Two pixels make up a logical one, so the next pixel's middle is three quarters further.
    assert_eq!(
        state.key_down(0, Some(0xff53)),
        Ok(KeyStep::Warp { x: 15 * 256 + 192, y: 15 * 256 + 64 })
    );
    assert_eq!(
        state.key_down(0, Some(0xff51)),
        Ok(KeyStep::Warp { x: 15 * 256 - 64, y: 15 * 256 + 64 })
    );
    assert_eq!(
        state.key_down(0, Some(0xffb3)),
        Ok(KeyStep::Warp { x: 15 * 256 + 192, y: 15 * 256 + 192 })
    );
    enter(&mut state, 3, 0, 0);
    assert_eq!(state.key_down(0, Some(0xff52)), Ok(KeyStep::Nothing));
    assert_eq!(KeyAction::of(0xff95), KeyAction::Move(-1, -1));
    assert_eq!(KeyAction::of(0xff9a), KeyAction::Move(1, -1));
    assert_eq!(KeyAction::of(0xff9c), KeyAction::Move(-1, 1));
    assert_eq!(KeyAction::of(0xff54), KeyAction::Move(0, 1));
}

fn sized() -> Overlay {
    let mut o = Overlay::new(OutputKey(1), Format::Argb8888, Transform(0));
    o.configure(6, 5).unwrap();
    o.set_scale(120).unwrap();
    o
}

#[test]
fn boxes_are_painted_in_turn() {
    let a = Some(MRegion { x: 0, y: 0, width: 1, height: 1 });
    let b = Some(MRegion { x: 2, y: 2, width: 1, height: 1 });
    let mut o = sized();
    assert_eq!(o.initialized_res(), Some((6, 5)));
    assert_eq!(o.draw_box(None), Ok(BoxStep::Nothing));
    assert_eq!(o.draw_box(a), Ok(BoxStep::Paint { index: 0, create: true }));
    let mut pixels = vec![0; 30];
    assert!(o.can_paint(0));
    assert!(!o.can_paint(1));
    assert!(o.paint(0, &mut pixels));
    assert!(!o.can_paint(0));
    assert_eq!(o.draw_box(a), Ok(BoxStep::Nothing));
    assert_eq!(o.draw_box(b), Ok(BoxStep::Deferred));
    assert_eq!(o.frame_done(), Ok(BoxStep::Paint { index: 1, create: true }));
    let mut other = vec![0; 30];
    assert!(o.paint(1, &mut other));
    o.release(0);
    assert_eq!(o.draw_box(a), Ok(BoxStep::Deferred));
    assert_eq!(o.frame_done(), Ok(BoxStep::Paint { index: 0, create: false }));
    assert!(o.paint(0, &mut pixels));
    assert_eq!(o.last_highlight.0, 0);
}

#[test]
fn at_most_four_highlights_are_made() {
    let mut o = sized();
    for i in 0..4 {
        let r = Some(MRegion { x: i, y: 0, width: 1, height: 1 });
        assert_eq!(
            o.draw_box(r),
            Ok(BoxStep::Paint { index: i as usize, create: true })
        );
        assert!(o.paint(i as usize, &mut vec![0; 30]));
        o.overlay_frame = false;
    }
    let r = Some(MRegion { x: 5, y: 0, width: 1, height: 1 });
    assert_eq!(o.draw_box(r), Err(OverlayError::TooManyHighlights));
    let mut large = Overlay::new(OutputKey(1), Format::Argb8888, Transform(0));
    large.configure(100000, 100000).unwrap();
    large.set_scale(120).unwrap();
    assert_eq!(large.draw_box(r), Err(OverlayError::BufferTooLarge));
}

#[test]
fn layers_are_configured_once() {
    let mut o = Overlay::new(OutputKey(1), Format::Argb8888, Transform(1));
    assert!(!o.ready());
    o.set_scale(150).unwrap();
    assert_eq!(o.set_scale(150), Err(OverlayError::ScaleReconfigured));
    assert_eq!(o.configure(101, 51), Ok(ConfigureStep::Accepted { dummy: false }));
    assert_eq!(o.configure(101, 51), Ok(ConfigureStep::Ignored));
    assert_eq!(o.configure(101, 52), Err(OverlayError::SecondConfigure));
    assert!(o.ready());
    assert_eq!(o.initialized_res(), Some((126, 64)));
    assert_eq!(o.closed(), OverlayError::Closed);
    assert_eq!(o.preferred_transform(Transform(1)), Ok(()));
    assert_eq!(o.preferred_transform(Transform(0)), Err(OverlayError::TransformChanged));
}

#[test]
fn the_magnifier_runs_out_of_views() {
    let mut state = selecting(Mode::Region, vec![]);
    for i in 0..4 {
        enter(&mut state, 3, 10 + i, 10);
        assert_eq!(state.error, None);
        let overlay = state.outputs[0].overlay.as_mut().unwrap();
        assert_eq!(overlay.magnifier_frame().unwrap().is_some(), false);
    }
    enter(&mut state, 3, 50, 10);
    assert_eq!(
        state.error,
        Some(StateError::Overlay(OutputKey(3), OverlayError::TooManyViews))
    );
}

#[test]
fn passing_errors_are_ignored() {
    assert!(ignore_error(IoKind::WouldBlock) && ignore_error(IoKind::Interrupted));
    assert!(!ignore_error(IoKind::Other));
    assert!(ignore_wayland(WaylandFailure::Io(IoKind::Interrupted)));
    assert!(!ignore_wayland(WaylandFailure::Protocol));
    assert!(ignore_dispatch(DispatchFailure::Backend(WaylandFailure::Io(IoKind::WouldBlock))));
    assert!(!ignore_dispatch(DispatchFailure::Backend(WaylandFailure::Io(IoKind::Other))));
    assert!(!ignore_dispatch(DispatchFailure::BadMessage));
}

#[test]
fn modes_say_what_is_needed() {
    assert!(!Mode::ScreenshotOnly.sel() && Mode::Region.sel() && Mode::PickWindow.sel());
    assert!(Mode::ScreenshotOnly.shot() && Mode::Region.shot() && !Mode::PickWindow.shot());
    assert!(Mode::Region.magnifier() && !Mode::PickWindow.magnifier());
    assert!(!Mode::ScreenshotOnly.magnifier());
}

#[test]
fn buttons_and_keys_need_no_layers() {
    let mut state = State::new(Mode::Region, false);
    announce(&mut state, 3, 0);
    state.begin(vec![window("a", 60, 60, 20, 20)]).unwrap();
    assert_eq!(state.mouse.point, at(0, 0));
    state.pointer_enter(OutputKey(3), at(10, 10));
    assert!(!state.ready());

    assert!(state.can_click(0, BTN_LEFT, ButtonState::Pressed, false));
    press(&mut state, 0);
    assert!(matches!(state.select_state, SelectState::Dragging { .. }));
    assert!(state.can_click(1, BTN_RIGHT, ButtonState::Pressed, false));
    state.pointer_button(1, BTN_RIGHT, ButtonState::Pressed, false);
    assert!(matches!(state.select_state, SelectState::Hovering));

    press(&mut state, 10);
    assert!(state.can_click(20, BTN_LEFT, ButtonState::Released, false));
    release(&mut state, 20);
    assert!(matches!(state.select_state, SelectState::Hovering));

    press(&mut state, 30);
    state.pointer_motion(at(70, 70));
    // Highlighting the window takes layers.
    assert!(!state.can_click(40, BTN_LEFT, ButtonState::Released, false));
    assert!(state.can_click(400, BTN_LEFT, ButtonState::Released, false));
    for key in [None, Some(0x70), Some(0xff08), Some(0x20), Some(0xff53)] {
        assert!(state.can_type(key));
    }
    assert_eq!(state.key_down(0, None), Err(StateError::Cancelled));
    state.key_down(0, Some(0xff08)).unwrap();
    assert!(matches!(state.select_state, SelectState::Hovering));
    assert!(state.can_leave());
    assert_eq!(state.pointer_leave(), None);

    state.pointer_enter(OutputKey(9), at(10, 10));
    assert!(!state.can_leave());
    assert!(!state.can_type(Some(0xff53)));
    assert!(!state.can_click(0, BTN_LEFT, ButtonState::Pressed, false));
    state.mouse.hover = None;
    state.select_state = SelectState::OverWindow(1);
    assert!(!state.can_type(Some(0x70)));
}

#[test]
fn arrows_reach_fine_pixels() {
    let mut state = State::new(Mode::Region, false);
    assert!(state.add_output(OutputKey(3)));
    let out = &mut state.outputs[0];
    out.mode(2000, 2000).unwrap();
    out.logical_size(10, 10);
    out.done(Mode::Region, Format::Argb8888).unwrap();
    out.done(Mode::Region, Format::Argb8888).unwrap();
    state.pointer_enter(OutputKey(3), at(0, 0));
    // The middle of pixel one lies between 1/256 and 2/256, of which only the latter is on it.
    assert_eq!(state.key_down(0, Some(0xff53)), Ok(KeyStep::Warp { x: 2, y: 0 }));
}

#[test]
fn layers_without_magnifier_can_be_finished_again() {
    let mut state = selecting(Mode::PickWindow, vec![window("a", 10, 10, 20, 20)]);
    let step = state.try_finish_overlay(OutputKey(3));
    assert!(matches!(step, Ok(FinishStep::Dummy { destination: (100, 100), .. })));
}
