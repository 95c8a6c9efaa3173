use screenshotter::util::{LRegion, MLPoint, MRegion, Monitor, Scale};
use screenshotter::wayland::buffer::{Buffer, BufferError};
use screenshotter::wayland::capture::{Capture, CaptureError};
use screenshotter::wayland::magnifier::{draw_crosshair, Magnifier, Zoom};
use screenshotter::wayland::overlay::drawing::Drawing;
use screenshotter::wayland::overlay::highlight::{Highlight, BORDER, FILL};
use screenshotter::wayland::overlay::paint::rect;
use screenshotter::wayland::{Format, FormatSet, OutputKey, Transform};

fn both() -> FormatSet {
    let mut f = FormatSet::new();
    f.insert(Format::Argb8888);
    f.insert(Format::Bgr888);
    f
}

#[test]
fn buffers_have_to_fit() {
    let b = Buffer::new(Format::Argb8888, 10, 20).unwrap();
    assert_eq!((b.width, b.height, b.buf_size), (10, 20, 800));
    assert_eq!(b.stride(), 40);
    assert!(b.valid());
    assert_eq!(Buffer::new(Format::Bgr888, 10, 20).unwrap().buf_size, 600);
    assert_eq!(
        Buffer::new(Format::Argb8888, 0x2000_0000, 1),
        Err(BufferError::TooLarge)
    );
    assert_eq!(
        Buffer::new(Format::Argb8888, 0x1000_0000, 2),
        Err(BufferError::TooLarge)
    );
    assert_eq!(Buffer::new(Format::Argb8888, -1, 2), Err(BufferError::Negative));
    assert_eq!(Buffer::new(Format::Bgr888, 2, -1), Err(BufferError::Negative));
    assert!(!Buffer { buf_size: 799, ..b }.valid());
}

#[test]
fn pixels_are_read_as_rgb() {
    let b = Buffer::new(Format::Argb8888, 2, 2).unwrap();
    let data: Vec<u8> = (0..16).collect();
    assert_eq!(b.read_rgb(&data, 1, 1), (14, 13, 12));
    let mut row = vec![0; 6];
    b.read_normal_row(&data, 0, 1, &mut row);
    assert_eq!(row, vec![10, 9, 8, 14, 13, 12]);

    let b = Buffer::new(Format::Bgr888, 2, 2).unwrap();
    let data: Vec<u8> = (0..12).collect();
    assert_eq!(b.read_rgb(&data, 1, 0), (3, 4, 5));
}

#[test]
fn formats_have_numbers() {
    assert_eq!(Format::Argb8888.wl_format(), 0);
    assert_eq!(Format::Bgr888.wl_format(), 0x34324742);
    assert_eq!(Format::from_wl(0), Some(Format::Argb8888));
    assert_eq!(Format::from_wl(0x34324742), Some(Format::Bgr888));
    assert_eq!(Format::from_wl(1), None);
    assert_eq!(Format::Argb8888.size(), 4);
    assert_eq!(Format::Bgr888.size(), 3);
    assert!(Format::Argb8888.transparent() && !Format::Bgr888.transparent());
}

#[test]
fn the_preferred_common_format_is_taken() {
    let mut bgr = FormatSet::new();
    bgr.insert(Format::Bgr888);
    assert_eq!(both().first_common(&both()), Some(Format::Argb8888));
    assert_eq!(both().first_common(&bgr), Some(Format::Bgr888));
    assert_eq!(bgr.first_common(&FormatSet::new()), None);
    assert_eq!(bgr.transparent_format(), Format::Argb8888);
}

fn captured(width: u32, height: u32, transform: u32) -> Capture {
    let mut c = Capture::new();
    c.transform = Transform(transform);
    c.buffer_size(width, height).unwrap();
    c.shm_format(Some(Format::Argb8888));
    c.shm_format(None);
    c.session_done(&both()).unwrap().unwrap();
    assert!(c.ready());
    c
}

#[test]
fn captures_go_through_their_steps() {
    let mut c = Capture::new();
    assert_eq!(c.session_done(&both()).err(), Some(CaptureError::NoResolution));
    let mut c = Capture::new();
    assert_eq!(c.buffer_size(1 << 31, 1), Err(CaptureError::SizeTooLarge));
    assert_eq!(c.buffer_size(4, 6), Ok(()));
    assert_eq!(c.buffer_size(4, 6), Err(CaptureError::Reconfigured));
    assert_eq!(c.transformed_res(), Some((4, 6)));
    assert_eq!(c.stopped(), Err(CaptureError::Stopped));
    assert_eq!(c.failed(), Err(CaptureError::Failed));
    c.shm_format(Some(Format::Bgr888));
    let b = c.session_done(&both()).unwrap().unwrap();
    assert_eq!(b.format, Format::Bgr888);
    assert_eq!((b.width, b.height), (4, 6));
    assert!(c.ready());
    assert!(!c.ready());
    assert_eq!(c.stopped(), Ok(()));
    assert_eq!(c.failed(), Ok(()));
    assert_eq!(c.buffer_size(9, 9), Ok(()));
    assert_eq!(c.session_done(&both()), Ok(None));

    let mut c = Capture::new();
    c.buffer_size(0x4000_0000, 1).unwrap();
    assert_eq!(c.session_done(&both()).err(), Some(CaptureError::BufferTooLarge));
}

#[test]
fn unknown_formats_fall_back() {
    let mut c = Capture::new();
    c.buffer_size(1, 1).unwrap();
    let b = c.session_done(&FormatSet::new()).unwrap().unwrap();
    assert_eq!(b.format, Format::Argb8888);
}

fn monitor(width: i32, height: i32, transform: u32) -> Monitor {
    Monitor {
        logical: LRegion { x: 0, y: 0, width, height },
        physical: MRegion { x: 0, y: 0, width, height },
        scale: Scale { num: 1, den: 1 },
        transform: Transform(transform),
        description: String::new(),
    }
}

#[test]
fn screenshots_are_turned_as_shown() {
    // A panel of 3 by 2 pixels whose pixel at (x, y) has the blue value 10 * y + x.
    let mut data = vec![0; 24];
    for y in 0..2 {
        for x in 0..3 {
            data[(y * 3 + x) * 4] = (10 * y + x) as u8;
        }
    }
    let blue = |c: &Capture, m: &Monitor, region: MRegion| -> Vec<u8> {
        let i = c.take_screenshot(&data, m, region);
        assert_eq!((i.width, i.height), (region.width as u32, region.height as u32));
        i.data.chunks(3).map(|p| p[2]).collect()
    };
    let flat = captured(3, 2, 0);
    let whole = MRegion { x: 0, y: 0, width: 3, height: 2 };
    assert_eq!(blue(&flat, &monitor(3, 2, 0), whole), vec![0, 1, 2, 10, 11, 12]);
    let part = MRegion { x: 1, y: 1, width: 2, height: 1 };
    assert_eq!(blue(&flat, &monitor(3, 2, 0), part), vec![11, 12]);
    assert_eq!(blue(&flat, &monitor(3, 2, 2), whole), vec![12, 11, 10, 2, 1, 0]);
    assert_eq!(blue(&flat, &monitor(3, 2, 4), whole), vec![2, 1, 0, 12, 11, 10]);
    assert_eq!(blue(&flat, &monitor(3, 2, 6), whole), vec![10, 11, 12, 0, 1, 2]);
    let tall = MRegion { x: 0, y: 0, width: 2, height: 3 };
    assert_eq!(blue(&flat, &monitor(2, 3, 1), tall), vec![10, 0, 11, 1, 12, 2]);
    assert_eq!(blue(&flat, &monitor(2, 3, 3), tall), vec![2, 12, 1, 11, 0, 10]);
    assert_eq!(blue(&flat, &monitor(2, 3, 5), tall), vec![0, 10, 1, 11, 2, 12]);
    assert_eq!(blue(&flat, &monitor(2, 3, 7), tall), vec![12, 2, 11, 1, 10, 0]);
    let empty = MRegion { x: 0, y: 0, width: 0, height: 2 };
    assert_eq!(blue(&flat, &monitor(3, 2, 0), empty), Vec::<u8>::new());
}

#[test]
fn transforms_turn() {
    assert!(Transform(1).rotate() && Transform(7).rotate() && !Transform(2).rotate());
    assert_eq!(captured(3, 2, 1).transformed_res(), Some((2, 3)));
    assert_eq!(Transform(1).freeze_transform(true), Transform(3));
    assert_eq!(Transform(3).freeze_transform(true), Transform(1));
    assert_eq!(Transform(5).freeze_transform(true), Transform(5));
    assert_eq!(Transform(1).freeze_transform(false), Transform(1));
    assert!(Transform::default().normal());
    for t in 0..8 {
        let mut seen = vec![];
        let (w, h) = if t % 2 == 1 { (3, 2) } else { (2, 3) };
        for x in 0..w {
            for y in 0..h {
                let (cx, cy) = Transform(t).correct((x, y), (w, h));
                assert!(0 <= cx && cx < 2 && 0 <= cy && cy < 3, "{t}");
                assert!(!seen.contains(&(cx, cy)));
                seen.push((cx, cy));
            }
        }
    }
}

fn show(pixels: &[u32], width: usize) -> Vec<String> {
    pixels
        .chunks(width)
        .map(|row| {
            row.iter()
                .map(|p| match *p {
                    0 => '.',
                    FILL => 'f',
                    BORDER => 'b',
                    _ => '?',
                })
                .collect()
        })
        .collect()
}

#[test]
fn rectangles_get_a_border() {
    let mut pixels = vec![0; 30];
    let region = MRegion { x: 2, y: 2, width: 2, height: 1 };
    rect(&mut pixels, 6, 5, &region, FILL, BORDER);
    assert_eq!(show(&pixels, 6), vec!["......", ".bbbb.", ".bffb.", ".bbbb.", "......"]);
    let mut pixels = vec![0; 9];
    let region = MRegion { x: 0, y: 0, width: 2, height: 3 };
    rect(&mut pixels, 3, 3, &region, FILL, BORDER);
    assert_eq!(show(&pixels, 3), vec!["ffb", "ffb", "ffb"]);
}

#[test]
fn highlights_show_one_region_at_a_time() {
    let buffer = Buffer::new(Format::Argb8888, 6, 5).unwrap();
    let mut pixels = vec![0; 30];
    let mut h = Highlight::new(buffer);
    let small = MRegion { x: 2, y: 2, width: 2, height: 1 };
    let other = MRegion { x: 0, y: 0, width: 1, height: 1 };
    assert!(h.draw(&mut pixels, Some(small), false));
    assert!(h.locked);
    h.release();
    assert!(!h.draw(&mut pixels, Some(small), false));
    assert!(!h.locked);
    assert!(h.draw(&mut pixels, Some(small), true));
    h.release();
    assert!(h.draw(&mut pixels, Some(other), false));
    assert_eq!(show(&pixels, 6), vec!["fb....", "bb....", "......", "......", "......"]);
    h.release();
    let large = MRegion { x: 0, y: 0, width: 4, height: 3 };
    assert!(h.draw(&mut pixels, Some(large), false));
    assert_eq!(show(&pixels, 6), vec!["ffffb.", "ffffb.", "ffffb.", "bbbbb.", "......"]);
    h.release();
    assert!(h.draw(&mut pixels, None, false));
    assert!(pixels.iter().all(|p| *p == 0));
}

#[test]
fn locked_drawings_are_left_alone() {
    let buffer = Buffer::new(Format::Argb8888, 4, 3).unwrap();
    let mut pixels = vec![0; 12];
    let mut d = Drawing { buffer, drawn: None, locked: false };
    let region = MRegion { x: 1, y: 1, width: 1, height: 1 };
    assert!(!d.draw(&mut pixels, None));
    assert!(d.draw(&mut pixels, Some(region)));
    assert_eq!(show(&pixels, 4), vec!["bbb.", "bfb.", "bbb."]);
    assert!(!d.draw(&mut pixels, None));
    assert_eq!(d.drawn, Some(region));
    d.release();
    assert!(d.draw(&mut pixels, None));
    assert_eq!(show(&pixels, 4), vec!["....", "....", "...."]);
}

#[test]
fn colours_are_cyan() {
    assert_eq!(FILL, u32::from_le_bytes([178, 178, 0, 178]));
    assert_eq!(BORDER, u32::from_le_bytes([255, 255, 0, 255]));
}

#[test]
fn views_enlarge_the_pixels_around_the_pointer() {
    let frozen = Buffer::new(Format::Argb8888, 4, 4).unwrap();
    let mut data = vec![0; 64];
    for i in 0..16 {
        data[i * 4] = i as u8;
    }
    let m = monitor(4, 4, 0);
    let buffer = Buffer::new(Format::Argb8888, 220, 220).unwrap();
    let zoom = Zoom { locked: false, buffer, origin: (1, 2) };
    let mut out = vec![7; buffer.buf_size];
    assert!(zoom.can_draw(out.len(), data.len(), &frozen, &m));
    assert!(!zoom.can_draw(out.len() - 1, data.len(), &frozen, &m));
    zoom.draw(&mut out, &data, &frozen, &m);
    let at = |x: usize, y: usize| -> [u8; 4] {
        let i = (y * 220 + x) * 4;
        [out[i], out[i + 1], out[i + 2], out[i + 3]]
    };
    // The origin lies in the middle, and covers 20 by 20 pixels.
    assert_eq!(at(100, 100), [9, 0, 0, 0]);
    assert_eq!(at(119, 119), [9, 0, 0, 0]);
    assert_eq!(at(120, 100), [10, 0, 0, 0]);
    assert_eq!(at(100, 99), [5, 0, 0, 0]);
    assert_eq!(at(0, 0), [0, 0, 0, 255]);
    assert_eq!(at(219, 219), [0, 0, 0, 255]);
}

#[test]
fn the_crosshair_leaves_its_centre_free() {
    let data = draw_crosshair(Format::Argb8888);
    assert_eq!(data.len(), 220 * 220 * 4);
    let set = |x: usize, y: usize| -> bool {
        let i = (y * 220 + x) * 4;
        let p = [data[i], data[i + 1], data[i + 2], data[i + 3]];
        assert!(p == [178, 178, 0, 178] || p == [0; 4]);
        p[0] == 178
    };
    assert!(set(0, 50) && set(219, 50) && set(50, 0) && set(50, 219));
    assert!(set(100, 50) && set(119, 50) && !set(120, 50) && !set(99, 50));
    assert!(set(50, 100) && !set(110, 110) && !set(50, 50));
}

#[test]
fn the_magnifier_uses_few_views() {
    let frozen = Buffer::new(Format::Argb8888, 1000, 1000).unwrap();
    let m = monitor(1000, 1000, 0);
    let mut mag = Magnifier::new(OutputKey(1), &m, frozen);
    let at = |x: i32, y: i32| MLPoint::from_fixed(x * 256, y * 256);
    let step = mag.draw(at(500, 500)).unwrap().unwrap();
    assert_eq!((step.index, step.create, step.redraw, step.crosshair), (0, true, true, true));
    assert_eq!(step.position, (530, 250));
    assert!(mag.draw(at(501, 500)).unwrap().is_none());
    assert_eq!(mag.frame_done(), Some(at(501, 500)));
    assert_eq!(mag.frame_done(), None);
    let step = mag.draw(at(900, 100)).unwrap().unwrap();
    assert_eq!((step.index, step.create, step.crosshair), (1, true, false));
    assert_eq!(step.position, (650, 130));
    mag.frame_done();
    mag.release(0);
    let step = mag.draw(at(500, 500)).unwrap().unwrap();
    assert_eq!((step.index, step.create, step.redraw), (0, false, false));
    mag.frame_done();
    mag.draw(at(1, 1)).unwrap();
    mag.frame_done();
    mag.draw(at(2, 1)).unwrap();
    mag.frame_done();
    assert!(mag.draw(at(3, 1)).is_err());
    mag.conceal();
    assert_eq!(mag.last_view, None);
}
