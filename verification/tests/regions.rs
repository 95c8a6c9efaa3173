use screenshotter::coord::{ceiling_div, floor_div, saturate, Coord};
use screenshotter::util::{
    LFRegion, LPoint, LRegion, MLPoint, MRegion, Monitor, ORegion, Overlap, Scale,
};
use screenshotter::wayland::Transform;

fn monitor(x: i32, y: i32, logical: (i32, i32), physical: (i32, i32)) -> Monitor {
    Monitor {
        logical: LRegion { x, y, width: logical.0, height: logical.1 },
        physical: MRegion { x: 0, y: 0, width: physical.0, height: physical.1 },
        scale: Scale { num: physical.0 as i64, den: logical.0 as i64 },
        transform: Transform(0),
        description: "monitor".to_string(),
    }
}

fn coord(num: i128, den: i128) -> Coord {
    Coord { num, den }
}

fn same(a: Coord, num: i128, den: i128) -> bool {
    a.num * den == num * a.den
}

#[test]
fn division_rounds_as_asked() {
    assert_eq!(floor_div(7, 2), 3);
    assert_eq!(floor_div(-7, 2), -4);
    assert_eq!(ceiling_div(7, 2), 4);
    assert_eq!(ceiling_div(-7, 2), -3);
    assert_eq!(saturate(1 << 40), i32::MAX);
    assert_eq!(saturate(-(1 << 40)), i32::MIN);
    assert_eq!(coord(5, 2).round(), 3);
    assert_eq!(coord(-5, 2).round(), -3);
    assert_eq!(coord(-5, 2).floor(), -3);
    assert_eq!(coord(-5, 2).ceil(), -2);
    assert!(coord(1, 3).less(&coord(1, 2)));
    assert!(coord(1, 0x8000_0000).is_edge());
    assert!(!coord(1, 0).is_edge());
}

#[test]
fn scales_are_kept_in_120ths() {
    assert_eq!(monitor(0, 0, (1920, 1080), (1920, 1080)).fixed_scale(), 120);
    assert_eq!(monitor(0, 0, (1280, 720), (1920, 1080)).fixed_scale(), 180);
    assert_eq!(monitor(0, 0, (1707, 960), (2560, 1440)).fixed_scale(), 180);
    let mut large = monitor(0, 0, (1, 1), (1, 1));
    large.scale = Scale { num: 0x4000_0000, den: 1 };
    assert!(large.scale.valid());
    assert_eq!(large.fixed_scale(), u32::MAX);
    assert!(Scale { num: 1, den: 99 }.valid());
    assert!(!Scale { num: 1, den: 100 }.valid());
    assert!(!Scale { num: 0, den: 1 }.valid());
}

#[test]
fn points_lie_on_pixels() {
    let m = monitor(100, 50, (1280, 720), (1920, 1080));
    let p = MLPoint::from_fixed(10 * 256 + 200, 3 * 256);
    assert_eq!(m.local_pixel(p), (16, 4));
    assert_eq!(m.pixel_at(p), (16, 4));
    let b = m.global_pixel_bounds(p);
    assert!(same(b.left, 100 * 3 + 32, 3));
    assert!(same(b.right, 100 * 3 + 34, 3));
    assert!(same(b.top, 50 * 3 + 8, 3));
    assert!(same(b.bottom, 50 * 3 + 10, 3));
    let g = m.local_to_global(p);
    assert!(same(g.x, 100 * 256 + 2760, 256));
    assert_eq!(m.global_to_local(g), p);
}

#[test]
fn drags_capture_whole_pixels() {
    let m = monitor(100, 50, (1280, 720), (1920, 1080));
    let start = m.global_pixel_bounds(MLPoint::from_fixed(10 * 256 + 200, 3 * 256));
    let end = m.global_pixel_bounds(MLPoint::from_fixed(2 * 256, 1 * 256));
    let region = end.bounding_region(&start);
    let (_, pixels) = m.intersect_rounded(&region).unwrap();
    assert_eq!(pixels, MRegion { x: 3, y: 1, width: 14, height: 4 });
}

#[test]
fn regions_off_the_monitor_do_not_intersect() {
    let m = monitor(0, 0, (100, 100), (100, 100));
    let r = |x, y, width, height| LFRegion::from_region(LRegion { x, y, width, height });
    assert_eq!(m.intersect_rounded(&r(100, 0, 5, 5)), None);
    let (l, p) = m.intersect_rounded(&r(90, -5, 50, 10)).unwrap();
    assert_eq!(p, MRegion { x: 90, y: 0, width: 10, height: 5 });
    assert_eq!(l.int_region(), LRegion { x: 90, y: 0, width: 10, height: 5 });
    let mut wrong = monitor(0, 0, (100, 100), (100, 50));
    wrong.scale = Scale { num: 1, den: 1 };
    assert_eq!(wrong.intersect_rounded(&r(0, 0, 100, 100)), None);
}

#[test]
fn edges_are_rounded_at_the_output_scale() {
    let r = LFRegion {
        left: coord(1, 3),
        top: coord(-1, 3),
        right: coord(10, 3),
        bottom: coord(5, 1),
    };
    assert_eq!(r.output_region(120), ORegion { x: 0, y: 0, width: 3, height: 5 });
    assert_eq!(r.output_region(180), ORegion { x: 1, y: 0, width: 4, height: 8 });
    assert!(r.output_in_range(180));
    assert_eq!(r.int_region(), LRegion { x: 0, y: -1, width: 4, height: 6 });
    assert!(r.int_in_range());
}

#[test]
fn shared_and_bounding_regions() {
    let a = LFRegion::from_region(LRegion { x: 0, y: 0, width: 10, height: 10 });
    let b: LFRegion = LRegion { x: 5, y: -5, width: 10, height: 10 }.into();
    let meet = a.intersect(&b).unwrap();
    assert_eq!(meet.int_region(), LRegion { x: 5, y: 0, width: 5, height: 5 });
    let hull = a.bounding_region(&b);
    assert_eq!(hull.int_region(), LRegion { x: 0, y: -5, width: 15, height: 15 });
    let touching = LFRegion::from_region(LRegion { x: 10, y: 0, width: 1, height: 1 });
    assert_eq!(a.intersect(&touching), None);
    let c = LRegion { x: 0, y: 0, width: 10, height: 10 };
    let d = LRegion { x: 5, y: -5, width: 10, height: 10 };
    assert_eq!(c.intersect(&d), Some(LRegion { x: 5, y: 0, width: 5, height: 5 }));
    assert_eq!(c.intersect(&LRegion { x: 0, y: 10, width: 1, height: 1 }), None);
}

#[test]
fn containment_of_points() {
    let r = LRegion { x: 0, y: 0, width: 10, height: 10 };
    let p = |x: i128, y: i128| LPoint { x: coord(x, 4), y: coord(y, 4) };
    assert!(r.contains(p(0, 0)));
    assert!(r.contains(p(39, 39)));
    assert!(!r.contains(p(40, 0)));
    assert!(!r.contains(p(-1, 0)));
    assert!(r.contains_lenient(p(-2, 0)));
    assert!(!r.contains_lenient(p(-3, 0)));
    assert!(r.contains_lenient(p(41, 0)));
    assert!(!r.contains_lenient(p(42, 0)));
    assert!(r.valid_mouse(MLPoint { x: coord(39, 4), y: coord(0, 4) }));
    assert!(!r.valid_mouse(MLPoint { x: coord(40, 4), y: coord(0, 4) }));
    assert!(!r.valid_mouse(MLPoint { x: coord(-1, 4), y: coord(0, 4) }));
}

#[test]
fn empty_regions() {
    assert!(LRegion { x: 0, y: 0, width: 0, height: 5 }.is_empty());
    assert!(!LRegion { x: 0, y: 0, width: 1, height: 5 }.is_empty());
    assert!(MRegion { x: 0, y: 0, width: 1, height: 0 }.is_empty());
    assert!(LRegion { x: 1, y: 1, width: i32::MAX - 1, height: 1 }.in_range());
    assert!(!LRegion { x: 1, y: 1, width: i32::MAX, height: 1 }.in_range());
    let big = MRegion { x: 0, y: 0, width: 10, height: 10 };
    assert!(big.fully_contains(&MRegion { x: 1, y: 1, width: 9, height: 9 }));
    assert!(!big.fully_contains(&MRegion { x: 1, y: 1, width: 10, height: 9 }));
    assert!(big.lies_inside(10, 10));
    assert!(!big.lies_inside(9, 10));
}

#[test]
fn overlaps_say_how_far_to_move() {
    let r = |x, y, width, height| ORegion { x, y, width, height };
    assert_eq!(r(0, 0, 10, 10).overlap(&r(10, 0, 5, 5)), Overlap::Nothing);
    assert_eq!(r(0, 0, 10, 10).overlap(&r(8, 1, 5, 5)), Overlap::X(2));
    assert_eq!(r(0, 0, 10, 10).overlap(&r(1, 8, 5, 5)), Overlap::Y(2));
    assert_eq!(r(5, 0, 10, 10).overlap(&r(0, 2, 7, 5)), Overlap::X(2));
    assert_eq!(r(0, 0, 4, 4).overlap(&r(2, 2, 4, 4)), Overlap::X(2));
}
