use screenshotter::config::MonitorPosition;
use screenshotter::img::check::can_combine;
use screenshotter::img::compose::{compose, Image};
use screenshotter::img::overlaps::fix_overlaps;
use screenshotter::img::{arrange, combine, Screenshot};
use screenshotter::util::{LFRegion, LRegion, MRegion, Monitor, ORegion, Scale};
use screenshotter::wayland::Transform;

fn picture(width: u32, height: u32, value: u8) -> Image {
    Image { width, height, data: vec![value; (width * height * 3) as usize] }
}

fn gradient(width: u32, height: u32) -> Image {
    let data = (0..width * height * 3).map(|i| (i % 251) as u8).collect();
    Image { width, height, data }
}

fn shot(image: Image, logical: LRegion, scale: (i64, i64), name: &str) -> Screenshot {
    Screenshot {
        monitor_region: MRegion {
            x: 3,
            y: 4,
            width: image.width as i32,
            height: image.height as i32,
        },
        monitor: Monitor {
            logical,
            physical: MRegion {
                x: 0,
                y: 0,
                width: image.width as i32,
                height: image.height as i32,
            },
            scale: Scale { num: scale.0, den: scale.1 },
            transform: Transform(0),
            description: name.to_string(),
        },
        logical: LFRegion::from_region(logical),
        image,
    }
}

fn region(x: i32, y: i32, width: i32, height: i32) -> LRegion {
    LRegion { x, y, width, height }
}

fn out(x: i32, y: i32, width: i32, height: i32) -> ORegion {
    ORegion { x, y, width, height }
}

fn pixel(i: &Image, x: u32, y: u32) -> [u8; 3] {
    let at = ((y * i.width + x) * 3) as usize;
    [i.data[at], i.data[at + 1], i.data[at + 2]]
}

#[test]
fn one_screenshot_is_kept_as_it_is() {
    let expected = gradient(4, 3).data;
    let shots = vec![shot(gradient(4, 3), region(-7, 9, 4, 3), (1, 1), "a")];
    assert!(can_combine(&shots, true, &vec![]));
    let r = combine(shots, true, &vec![]);
    assert_eq!((r.width, r.height), (4, 3));
    assert_eq!(r.data, expected);
}

#[test]
fn neighbours_lie_side_by_side() {
    let shots = vec![
        shot(picture(4, 3, 10), region(0, 0, 4, 3), (1, 1), "a"),
        shot(picture(2, 2, 20), region(4, 1, 2, 2), (1, 1), "b"),
    ];
    assert!(can_combine(&shots, true, &vec![]));
    let r = combine(shots, true, &vec![]);
    assert_eq!((r.width, r.height), (6, 3));
    assert_eq!(pixel(&r, 3, 0), [10; 3]);
    assert_eq!(pixel(&r, 4, 0), [0; 3]);
    assert_eq!(pixel(&r, 4, 1), [20; 3]);
    assert_eq!(pixel(&r, 5, 2), [20; 3]);
}

#[test]
fn smaller_scales_are_scaled_up() {
    let shots = vec![
        shot(picture(8, 8, 50), region(0, 0, 4, 4), (2, 1), "a"),
        shot(picture(4, 4, 90), region(4, 0, 4, 4), (1, 1), "b"),
    ];
    assert!(can_combine(&shots, true, &vec![]));
    let r = combine(shots, true, &vec![]);
    assert_eq!((r.width, r.height), (16, 8));
    assert_eq!(pixel(&r, 7, 7), [50; 3]);
    assert_eq!(pixel(&r, 8, 0), [90; 3]);
    assert_eq!(pixel(&r, 15, 7), [90; 3]);
}

#[test]
fn unscaled_pictures_are_moved_apart() {
    let shots = vec![
        shot(picture(8, 8, 50), region(0, 0, 4, 4), (2, 1), "a"),
        shot(picture(4, 4, 90), region(4, 0, 4, 4), (1, 1), "b"),
    ];
    assert!(can_combine(&shots, false, &vec![]));
    assert_eq!(
        arrange(&shots, false, &vec![]),
        vec![out(0, 0, 8, 8), out(8, 0, 4, 4)]
    );
    let r = combine(shots, false, &vec![]);
    assert_eq!((r.width, r.height), (12, 8));
    assert_eq!(pixel(&r, 8, 3), [90; 3]);
    assert_eq!(pixel(&r, 8, 4), [0; 3]);
}

#[test]
fn configured_positions_are_used() {
    let positions = vec![
        MonitorPosition { id: "DP-2".to_string(), x: 100, y: 10 },
        MonitorPosition { id: "DP".to_string(), x: 0, y: 0 },
    ];
    let a = shot(picture(8, 8, 50), region(0, 0, 4, 4), (2, 1), "Screen (DP-1)");
    let b = shot(picture(4, 4, 90), region(4, 0, 4, 4), (1, 1), "Screen (DP-2)");
    let c = shot(picture(4, 4, 90), region(4, 5, 4, 4), (1, 1), "Other");
    assert_eq!(a.output_region_unscaled(&positions), out(3, 4, 8, 8));
    assert_eq!(b.output_region_unscaled(&positions), out(103, 14, 4, 4));
    assert_eq!(c.output_region_unscaled(&positions), out(4, 5, 4, 4));
    let shots = vec![a, b];
    assert_eq!(
        arrange(&shots, false, &positions),
        vec![out(0, 0, 8, 8), out(100, 10, 4, 4)]
    );
}

#[test]
fn what_cannot_be_combined_is_found() {
    assert!(!can_combine(&vec![], true, &vec![]));
    let empty = shot(picture(0, 3, 0), region(0, 0, 4, 3), (1, 1), "a");
    assert!(!can_combine(&vec![empty], true, &vec![]));
    let mut broken = shot(picture(4, 3, 0), region(0, 0, 4, 3), (1, 1), "a");
    broken.image.data.pop();
    assert!(!can_combine(&vec![broken], true, &vec![]));
    let far = vec![
        shot(picture(4, 3, 0), region(i32::MIN, 0, 4, 3), (1, 1), "a"),
        shot(picture(4, 3, 0), region(i32::MAX - 4, 0, 4, 3), (1, 1), "b"),
    ];
    assert!(!can_combine(&far, true, &vec![]));
}

#[test]
fn overlapping_regions_are_moved_apart() {
    let mut r = vec![out(0, 0, 10, 10), out(8, 0, 10, 10), out(16, 0, 10, 10)];
    fix_overlaps(&mut r);
    assert_eq!(r, vec![out(0, 0, 10, 10), out(10, 0, 10, 10), out(20, 0, 10, 10)]);

    let mut r = vec![out(5, 0, 10, 10), out(0, 3, 7, 5)];
    fix_overlaps(&mut r);
    assert_eq!(r, vec![out(7, 0, 10, 10), out(0, 3, 7, 5)]);

    let mut r = vec![out(0, 0, 10, 10), out(1, 8, 10, 10)];
    fix_overlaps(&mut r);
    assert_eq!(r, vec![out(0, 0, 10, 10), out(1, 10, 10, 10)]);

    let mut r = vec![out(0, 0, 10, 10), out(10, 0, 10, 10)];
    fix_overlaps(&mut r);
    assert_eq!(r, vec![out(0, 0, 10, 10), out(10, 0, 10, 10)]);
}

#[test]
fn pictures_are_laid_on_black() {
    let regions = vec![out(1, 1, 2, 2)];
    let r = compose(&regions, &vec![gradient(2, 2)], 4, 4);
    assert_eq!((r.width, r.height), (4, 4));
    assert_eq!(pixel(&r, 0, 0), [0; 3]);
    assert_eq!(pixel(&r, 1, 1), [0, 1, 2]);
    assert_eq!(pixel(&r, 2, 2), [9, 10, 11]);
    assert_eq!(pixel(&r, 3, 3), [0; 3]);
}

#[test]
fn resampling_mixes_neighbours() {
    let mut image = picture(2, 1, 0);
    image.data = vec![0, 0, 0, 255, 255, 255];
    let shots = vec![
        shot(picture(8, 4, 50), region(0, 4, 2, 1), (4, 1), "a"),
        shot(image, region(0, 0, 2, 1), (1, 1), "b"),
    ];
    assert!(can_combine(&shots, true, &vec![]));
    let r = combine(shots, true, &vec![]);
    assert_eq!((r.width, r.height), (8, 20));
    assert_eq!(pixel(&r, 0, 0), [0; 3]);
    assert_eq!(pixel(&r, 7, 3), [255; 3]);
    let middle = pixel(&r, 3, 1);
    assert!(middle[0] > 0 && middle[0] < 255, "{middle:?}");
    assert_eq!(pixel(&r, 0, 16), [50; 3]);
    assert_eq!(pixel(&r, 0, 10), [0; 3]);
}

#[test]
fn clear_regions_need_no_room() {
    let far = i32::MAX - 10;
    let mut r = [out(far, 0, 10, 10), out(far - 10, 0, 10, 10), out(0, far, 10, 10)];
    let before = r;
    fix_overlaps(&mut r);
    assert_eq!(r, before);
    let mut r = [out(0, 0, 4, 9), out(1, 0, 4, 9), out(2, 0, 4, 9)];
    fix_overlaps(&mut r);
    let once = r;
    fix_overlaps(&mut r);
    assert_eq!(r, once);
}

#[test]
fn no_margin_is_kept() {
    let shots = vec![
        shot(picture(4, 3, 0), region(-20, 5, 4, 3), (1, 1), "a"),
        shot(picture(4, 3, 0), region(-18, 4, 4, 3), (1, 1), "b"),
    ];
    for scale_up in [false, true] {
        let placed = arrange(&shots, scale_up, &vec![]);
        assert_eq!(placed.iter().map(|r| r.x).min(), Some(0));
        assert_eq!(placed.iter().map(|r| r.y).min(), Some(0));
    }
    let mut r = [out(7, 3, 10, 10), out(9, 1, 10, 10), out(8, 2, 10, 10)];
    fix_overlaps(&mut r);
    assert_eq!(r.iter().map(|r| r.x).min(), Some(7));
    assert_eq!(r.iter().map(|r| r.y).min(), Some(1));
}
