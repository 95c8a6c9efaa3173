//! Laying pictures out on one larger picture.

use vstd::prelude::*;

use crate::util::ORegion;

verus! {

/// A picture of three bytes per pixel: red, green, blue.
#[derive(Debug)]
pub struct Image {
    pub width: u32,
    pub height: u32,
    pub data: Vec<u8>,
}

/// Where channel `c` of the pixel at `(x, y)` is stored in a picture `width` pixels wide.
pub open spec fn slot(width: int, x: int, y: int, c: int) -> int {
    (y * width + x) * 3 + c
}

impl Image {
    /// The data has the size that the dimensions call for.
    pub open spec fn wf(&self) -> bool {
        self.data@.len() == self.width * self.height * 3
    }

    /// Whether the data has the size that the dimensions call for.
    pub fn valid(&self) -> (r: bool)
        ensures
            r == self.wf(),
    {
        proof {
            let w = self.width as int;
            let h = self.height as int;
            assert(0 <= w * h <= 0xffff_fffe_0000_0001) by (nonlinear_arith)
                requires
                    0 <= w <= 0xffff_ffff,
                    0 <= h <= 0xffff_ffff,
            ;
        }
        self.data.len() as u128 == self.width as u128 * self.height as u128 * 3
    }

    /// Channel `c` of the pixel at `(x, y)`.
    pub open spec fn channel(&self, x: int, y: int, c: int) -> u8 {
        self.data@[slot(self.width as int, x, y, c)]
    }
}

/// The pixel at `(x, y)` belongs to a picture that is `width` by `height` large and drawn in `r`.
pub open spec fn shows(r: ORegion, width: int, height: int, x: int, y: int) -> bool {
    &&& r.x <= x < r.x + width
    &&& r.y <= y < r.y + height
    &&& y < r.y + r.height
}

/// Channel `c` at `(x, y)` when the first `n` pictures are drawn in their regions, one after the
/// other, on black.
pub open spec fn drawn(
    regions: Seq<ORegion>,
    pictures: Seq<Image>,
    n: int,
    x: int,
    y: int,
    c: int,
) -> u8
    decreases n,
{
    if n <= 0 {
        0
    } else {
        let r = regions[n - 1];
        let p = pictures[n - 1];
        if shows(r, p.width as int, p.height as int, x, y) {
            p.channel(x - r.x, y - r.y, c)
        } else {
            drawn(regions, pictures, n - 1, x, y, c)
        }
    }
}

/// A picture can be drawn in region `r` of a picture that is `width` by `height` large.
pub open spec fn placeable(r: ORegion, p: Image, width: int, height: int) -> bool {
    &&& p.wf()
    &&& 0 <= r.x
    &&& 0 <= r.y
    &&& 0 <= r.width
    &&& 0 <= r.height
    &&& r.x + r.width <= width
    &&& r.y + r.height <= height
    &&& p.width <= r.width
}

/// A slot in range lies within the picture.
pub proof fn lemma_slot_range(width: int, height: int, x: int, y: int, c: int)
    requires
        0 <= x < width,
        0 <= y < height,
        0 <= c < 3,
    ensures
        0 <= slot(width, x, y, c) < width * height * 3,
{
    assert(0 <= y * width) by (nonlinear_arith)
        requires
            0 <= y,
            0 < width,
    ;
    assert(y * width + width <= height * width) by (nonlinear_arith)
        requires
            y + 1 <= height,
            0 < width,
    ;
    assert(height * width == width * height) by (nonlinear_arith);
}

/// A run of `len` pixels from column `rx` of row `ry` holds exactly the slots of its pixels.
proof fn lemma_run(width: int, rx: int, ry: int, len: int, x: int, y: int, c: int)
    requires
        0 <= rx,
        0 <= len,
        rx + len <= width,
        0 <= x < width,
        0 <= c < 3,
    ensures
        ({
            let start = (ry * width + rx) * 3;
            let i = slot(width, x, y, c);
            &&& (start <= i < start + len * 3) <==> (y == ry && rx <= x < rx + len)
            &&& y == ry ==> i - start == (x - rx) * 3 + c
        }),
{
    let i = slot(width, x, y, c);
    let start = (ry * width + rx) * 3;
    if y < ry {
        assert(y * width + width <= ry * width) by (nonlinear_arith)
            requires
                y + 1 <= ry,
                0 < width,
        ;
    } else if y > ry {
        assert(ry * width + width <= y * width) by (nonlinear_arith)
            requires
                ry + 1 <= y,
                0 < width,
        ;
    }
}

/// Copies `len` bytes of `src` from `from` on to `out` from `at` on.
fn copy_run(out: &mut Vec<u8>, at: usize, src: &Vec<u8>, from: usize, len: usize)
    requires
        at + len <= old(out)@.len(),
        from + len <= src@.len(),
    ensures
        final(out)@.len() == old(out)@.len(),
        forall|i: int|
            0 <= i < final(out)@.len() ==> #[trigger] final(out)@[i] == if at <= i < at + len {
                src@[from + (i - at)]
            } else {
                old(out)@[i]
            },
{
    let ghost start = out@;
    let total: usize = out.len();
    let available: usize = src.len();
    let mut k: usize = 0;
    while k < len
        invariant
            k <= len,
            total == out@.len(),
            available == src@.len(),
            at + len <= total,
            from + len <= available,
            out@.len() == start.len(),
            forall|i: int|
                0 <= i < out@.len() ==> #[trigger] out@[i] == if at <= i < at + k {
                    src@[from + (i - at)]
                } else {
                    start[i]
                },
        decreases len - k,
    {
        out[at + k] = src[from + k];
        k = k + 1;
    }
}

/// Draws one picture in its region.
fn draw_picture(
    out: &mut Vec<u8>,
    width: usize,
    height: usize,
    region: ORegion,
    picture: &Image,
)
    requires
        old(out)@.len() == width * height * 3,
        width * height * 3 <= isize::MAX,
        placeable(region, *picture, width as int, height as int),
    ensures
        final(out)@.len() == old(out)@.len(),
        forall|x: int, y: int, c: int|
            0 <= x < width && 0 <= y < height && 0 <= c < 3 ==> final(out)@[#[trigger] slot(
                width as int,
                x,
                y,
                c,
            )] == if shows(region, picture.width as int, picture.height as int, x, y) {
                picture.channel(x - region.x, y - region.y, c)
            } else {
                old(out)@[slot(width as int, x, y, c)]
            },
{
    let ghost start = out@;
    let rx: usize = region.x as usize;
    let ry: usize = region.y as usize;
    let pw: usize = picture.width as usize;
    let rows: usize = if picture.height as usize <= region.height as usize {
        picture.height as usize
    } else {
        region.height as usize
    };
    let mut y: usize = 0;
    while y < rows
        invariant
            y <= rows,
            rows <= picture.height,
            rows <= region.height,
            rows == picture.height || rows == region.height,
            rx == region.x,
            ry == region.y,
            pw == picture.width,
            out@.len() == start.len(),
            out@.len() == width * height * 3,
            width * height * 3 <= isize::MAX,
            placeable(region, *picture, width as int, height as int),
            forall|px: int, py: int, c: int|
                0 <= px < width && 0 <= py < height && 0 <= c < 3 ==> out@[#[trigger] slot(
                    width as int,
                    px,
                    py,
                    c,
                )] == if shows(region, pw as int, y as int, px, py) {
                    picture.channel(px - region.x, py - region.y, c)
                } else {
                    start[slot(width as int, px, py, c)]
                },
        decreases rows - y,
    {
        if pw == 0 {
            assert forall|px: int, py: int, c: int|
                0 <= px < width && 0 <= py < height && 0 <= c < 3 implies out@[#[trigger] slot(
                width as int,
                px,
                py,
                c,
            )] == if shows(region, pw as int, y + 1, px, py) {
                picture.channel(px - region.x, py - region.y, c)
            } else {
                start[slot(width as int, px, py, c)]
            } by {}
            y = y + 1;
            continue ;
        }
        let ghost w = width as int;
        let ghost h = height as int;
        let ghost row = (ry + y) as int;
        proof {
            lemma_slot_range(w, h, rx as int, row, 0);
            lemma_slot_range(w, h, rx + pw - 1, row, 2);
            assert(0 <= row * w) by (nonlinear_arith)
                requires
                    0 <= row,
                    0 <= w,
            ;
            lemma_slot_range(picture.width as int, picture.height as int, 0, y as int, 0);
            lemma_slot_range(picture.width as int, picture.height as int, pw - 1, y as int, 2);
            assert(0 <= y * pw) by (nonlinear_arith)
                requires
                    0 <= y,
                    0 <= pw,
            ;
            assert(picture.data@.len() == picture.width * picture.height * 3);
        }
        let available: usize = picture.data.len();
        let at: usize = ((ry + y) * width + rx) * 3;
        let from: usize = (y * pw) * 3;
        let len: usize = pw * 3;
        let ghost prev = out@;
        copy_run(out, at, &picture.data, from, len);
        proof {
            assert forall|px: int, py: int, c: int|
                0 <= px < width && 0 <= py < height && 0 <= c < 3 implies out@[#[trigger] slot(
                w,
                px,
                py,
                c,
            )] == if shows(region, pw as int, y + 1, px, py) {
                picture.channel(px - region.x, py - region.y, c)
            } else {
                start[slot(w, px, py, c)]
            } by {
                lemma_slot_range(w, h, px, py, c);
                lemma_run(w, rx as int, row, pw as int, px, py, c);
                let i = slot(w, px, py, c);
                if at <= i < at + len {
                    assert(out@[i] == picture.data@[from + (i - at)]);
                    assert(from + (i - at) == slot(pw as int, px - rx, y as int, c));
                } else {
                    assert(out@[i] == prev[i]);
                }
            }
        }
        y = y + 1;
    }
    proof {
        assert forall|px: int, py: int, c: int|
            0 <= px < width && 0 <= py < height && 0 <= c < 3 implies out@[#[trigger] slot(
            width as int,
            px,
            py,
            c,
        )] == if shows(region, picture.width as int, picture.height as int, px, py) {
            picture.channel(px - region.x, py - region.y, c)
        } else {
            start[slot(width as int, px, py, c)]
        } by {
            assert(shows(region, pw as int, rows as int, px, py) == shows(
                region,
                picture.width as int,
                picture.height as int,
                px,
                py,
            ));
        }
    }
}

/// A black picture's bytes.
fn black(len: usize) -> (r: Vec<u8>)
    ensures
        r@.len() == len,
        forall|i: int| 0 <= i < len ==> #[trigger] r@[i] == 0,
{
    let mut out: Vec<u8> = Vec::new();
    while out.len() < len
        invariant
            out@.len() <= len,
            forall|i: int| 0 <= i < out@.len() ==> #[trigger] out@[i] == 0,
        decreases len - out@.len(),
    {
        out.push(0);
    }
    out
}

/// Draws every picture in its region of a black picture, one after the other.
pub fn compose(
    regions: &Vec<ORegion>,
    pictures: &Vec<Image>,
    width: u32,
    height: u32,
) -> (r: Image)
    requires
        regions@.len() == pictures@.len(),
        width * height * 3 <= isize::MAX,
        forall|k: int|
            0 <= k < regions@.len() ==> placeable(
                #[trigger] regions@[k],
                pictures@[k],
                width as int,
                height as int,
            ),
    ensures
        r.wf(),
        r.width == width,
        r.height == height,
        forall|x: int, y: int, c: int|
            0 <= x < width && 0 <= y < height && 0 <= c < 3 ==> #[trigger] r.channel(x, y, c)
                == drawn(regions@, pictures@, regions@.len() as int, x, y, c),
{
    let w: usize = width as usize;
    let h: usize = height as usize;
    proof {
        assert(0 <= w * h) by (nonlinear_arith)
            requires
                0 <= w,
                0 <= h,
        ;
    }
    let mut out: Vec<u8> = black(w * h * 3);
    proof {
        assert forall|x: int, y: int, c: int|
            0 <= x < w && 0 <= y < h && 0 <= c < 3 implies out@[#[trigger] slot(
            w as int,
            x,
            y,
            c,
        )] == drawn(regions@, pictures@, 0, x, y, c) by {
            lemma_slot_range(w as int, h as int, x, y, c);
        }
    }
    let mut k: usize = 0;
    while k < regions.len()
        invariant
            k <= regions@.len(),
            regions@.len() == pictures@.len(),
            w == width,
            h == height,
            w * h * 3 <= isize::MAX,
            out@.len() == w * h * 3,
            forall|i: int|
                0 <= i < regions@.len() ==> placeable(
                    #[trigger] regions@[i],
                    pictures@[i],
                    width as int,
                    height as int,
                ),
            forall|x: int, y: int, c: int|
                0 <= x < w && 0 <= y < h && 0 <= c < 3 ==> out@[#[trigger] slot(
                    w as int,
                    x,
                    y,
                    c,
                )] == drawn(regions@, pictures@, k as int, x, y, c),
        decreases regions@.len() - k,
    {
        assert(placeable(regions@[k as int], pictures@[k as int], width as int, height as int));
        draw_picture(&mut out, w, h, regions[k], &pictures[k]);
        k = k + 1;
    }
    Image { width, height, data: out }
}

/// Pictures of one size that show the same hold the same data.
pub(crate) proof fn lemma_same_picture(a: Image, b: Image)
    requires
        a.wf(),
        b.wf(),
        a.width == b.width,
        a.height == b.height,
        forall|x: int, y: int, c: int|
            0 <= x < a.width && 0 <= y < a.height && 0 <= c < 3 ==> #[trigger] a.channel(x, y, c)
                == b.channel(x, y, c),
    ensures
        a.data@ == b.data@,
{
    let w = a.width as int;
    let h = a.height as int;
    assert forall|i: int| 0 <= i < a.data@.len() implies a.data@[i] == b.data@[i] by {
        let p = i / 3;
        let c = i % 3;
        assert(0 <= p < w * h);
        assert(w > 0) by (nonlinear_arith)
            requires
                0 <= w,
                0 < w * h,
        ;
        let x = p % w;
        let y = p / w;
        vstd::arithmetic::div_mod::lemma_fundamental_div_mod(p, w);
        vstd::arithmetic::div_mod::lemma_mod_bound(p, w);
        assert(0 <= y < h) by (nonlinear_arith)
            requires
                0 <= p < w * h,
                w > 0,
                y == p / w,
        ;
        assert(y * w == w * y) by (nonlinear_arith);
        assert(slot(w, x, y, c) == i);
        assert(a.channel(x, y, c) == b.channel(x, y, c));
    }
}

/// Where no two regions overlap, every picture shows in full: each of its pixels that its region
/// has room for is a pixel of the result.
pub proof fn pictures_show_in_full(
    regions: Seq<ORegion>,
    pictures: Seq<Image>,
    k: int,
    n: int,
    x: int,
    y: int,
    c: int,
)
    requires
        regions.len() == pictures.len(),
        0 <= k < n <= regions.len(),
        crate::img::overlaps::clear(regions),
        forall|i: int|
            0 <= i < regions.len() ==> (#[trigger] pictures[i]).width <= regions[i].width,
        shows(regions[k], pictures[k].width as int, pictures[k].height as int, x, y),
    ensures
        drawn(regions, pictures, n, x, y, c) == pictures[k].channel(
            x - regions[k].x,
            y - regions[k].y,
            c,
        ),
    decreases n,
{
    if k < n - 1 {
        let r = regions[n - 1];
        let p = pictures[n - 1];
        assert(!crate::img::overlaps::clash(regions, k, n - 1));
        assert(p.width <= r.width && pictures[k].width <= regions[k].width);
        pictures_show_in_full(regions, pictures, k, n - 1, x, y, c);
    }
}

/// Where no picture is drawn, the result is black.
pub proof fn gaps_are_black(
    regions: Seq<ORegion>,
    pictures: Seq<Image>,
    n: int,
    x: int,
    y: int,
    c: int,
)
    requires
        n <= regions.len(),
        forall|i: int|
            0 <= i < n ==> !({
                &&& (#[trigger] regions[i]).x <= x < regions[i].x + pictures[i].width
                &&& regions[i].y <= y < regions[i].y + pictures[i].height
            }),
    ensures
        drawn(regions, pictures, n, x, y, c) == 0,
    decreases n,
{
    if n > 0 {
        assert(!({
            &&& regions[n - 1].x <= x < regions[n - 1].x + pictures[n - 1].width
            &&& regions[n - 1].y <= y < regions[n - 1].y + pictures[n - 1].height
        }));
        gaps_are_black(regions, pictures, n - 1, x, y, c);
    }
}

/// A picture is stored row by row, and every pixel as red, green and blue.
pub proof fn pixels_are_stored_by_row(p: &Image, x: int, y: int, c: int)
    requires
        p.wf(),
        0 <= x < p.width,
        0 <= y < p.height,
        0 <= c < 3,
    ensures
        p.data@.len() == p.width * p.height * 3,
        0 <= 3 * (y * p.width + x) + c < p.data@.len(),
        p.channel(x, y, c) == p.data@[3 * (y * p.width + x) + c],
{
    lemma_slot_range(p.width as int, p.height as int, x, y, c);
}

} // verus!
