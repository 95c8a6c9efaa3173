//! The selection overlay and what is known of the compositor.

use vstd::prelude::*;

use crate::ipc::Window;
use crate::util::{LFRegion, LRegion, MLPoint};

pub mod buffer;
pub mod capture;
pub mod conn;
pub mod input;
pub mod magnifier;
pub mod output;
pub mod overlay;
pub mod pointer;
pub mod setup;
pub mod shots;
pub mod state;

verus! {

/// Which monitor something belongs to: the name that the compositor's registry gives it.
#[derive(Debug, Clone, Copy, PartialEq, Eq, PartialOrd, Ord, Structural)]
pub struct OutputKey(pub u32);

/// The pixel formats that are understood, the preferred one first.
#[derive(Debug, Clone, Copy, PartialEq, Eq, PartialOrd, Ord, Structural)]
pub enum Format {
    Argb8888,
    Bgr888,
}

/// How a monitor's picture is turned: the number that Wayland gives each transform.
#[derive(Debug, Clone, Copy, PartialEq, Eq, Structural)]
pub struct Transform(pub u32);

/// What a run is for.
#[derive(Debug, Clone, Copy, PartialEq, Eq, Structural)]
pub enum Mode {
    ScreenshotOnly,
    Region,
    PickWindow,
}

/// What was selected.
#[derive(Debug)]
pub enum Selected {
    Nothing,
    Region(LFRegion),
    RegionWindow(LFRegion, Window),
    Window(Window),
}

/// What the pointer is doing.
#[derive(Debug, Clone, Copy)]
pub enum SelectState {
    Hovering,
    /// The window with this index is highlighted.
    OverWindow(usize),
    Dragging {
        start_pixel: LFRegion,
        region: LFRegion,
        start_time: u32,
        /// For if this is determined to be a normal click.
        initial_window: Option<usize>,
    },
}

/// How far a run has come.
#[derive(Debug)]
pub enum Status {
    Initializing,
    Waiting,
    Selecting,
    Done(Selected),
}

/// Where the pointer is.
#[derive(Debug, Clone, Copy, PartialEq, Eq, Structural)]
pub struct Hover {
    /// The monitor whose surface it entered.
    pub outkey: OutputKey,
    /// During a drag we get mouse events relative to the starting monitor.
    pub corrected: OutputKey,
}

/// The pointer's position, local within the surface that it entered.
#[derive(Debug, Clone, Copy, PartialEq, Eq, Structural)]
pub struct MouseState {
    pub point: MLPoint,
    pub hover: Option<Hover>,
}

impl Clone for Selected {
    fn clone(&self) -> (r: Self)
        ensures
            r == *self,
    {
        match self {
            Selected::Nothing => Selected::Nothing,
            Selected::Region(region) => Selected::Region(*region),
            Selected::RegionWindow(region, window) => {
                Selected::RegionWindow(*region, window.clone())
            },
            Selected::Window(window) => Selected::Window(window.clone()),
        }
    }
}

impl Selected {
    /// The region and the window are in range.
    pub open spec fn bounded(&self) -> bool {
        match self {
            Selected::Nothing => true,
            Selected::Region(region) => region.wf(),
            Selected::RegionWindow(region, window) => region.wf() && window.wf(),
            Selected::Window(window) => window.wf(),
        }
    }

    /// The region and the window are in range, and so are the sides of the region in whole pixels.
    pub open spec fn wf(&self) -> bool {
        &&& self.bounded()
        &&& match self {
            Selected::Region(region) => region.int_fits(),
            Selected::RegionWindow(region, _) => region.int_fits(),
            _ => true,
        }
    }

    /// Whether the sides of the region in whole pixels are in range.
    pub fn valid(&self) -> (r: bool)
        requires
            self.bounded(),
        ensures
            r == self.wf(),
    {
        match self {
            Selected::Region(region) => region.int_in_range(),
            Selected::RegionWindow(region, _) => region.int_in_range(),
            _ => true,
        }
    }

    /// The selected window, if there is one.
    pub open spec fn window_spec(&self) -> Option<Window> {
        match self {
            Selected::Nothing | Selected::Region(_) => None,
            Selected::RegionWindow(_, window) => Some(*window),
            Selected::Window(window) => Some(*window),
        }
    }

    /// The selected region, if there is one: that of the window where a window was selected.
    pub open spec fn region_spec(&self) -> Option<LFRegion> {
        match self {
            Selected::Nothing => None,
            Selected::Region(region) => Some(*region),
            Selected::RegionWindow(region, _) => Some(*region),
            Selected::Window(window) => Some(LFRegion::of(window.region_spec())),
        }
    }

    /// The selected window, if there is one.
    pub fn window(&self) -> (r: Option<&Window>)
        ensures
            match r {
                Some(w) => self.window_spec() == Some(*w),
                None => self.window_spec() is None,
            },
    {
        match self {
            Selected::Nothing | Selected::Region(_) => None,
            Selected::RegionWindow(_, window) => Some(window),
            Selected::Window(window) => Some(window),
        }
    }

    /// The selected region, if there is one.
    pub fn region(&self) -> (r: Option<LFRegion>)
        requires
            self.bounded(),
        ensures
            r == self.region_spec(),
            r matches Some(g) ==> g.wf(),
    {
        match self {
            Selected::Nothing => None,
            Selected::Region(region) => Some(*region),
            Selected::RegionWindow(region, _) => Some(*region),
            Selected::Window(window) => Some(LFRegion::from_region(window.region())),
        }
    }

    /// The whole pixels that the selected region touches, if there is one.
    pub fn int_region(&self) -> (r: Option<LRegion>)
        requires
            self.wf(),
        ensures
            r == match self {
                Selected::Nothing => None,
                Selected::Region(region) => Some(region.int_spec()),
                Selected::RegionWindow(region, _) => Some(region.int_spec()),
                Selected::Window(window) => Some(window.region_spec()),
            },
    {
        match self {
            Selected::Nothing => None,
            Selected::Region(region) => Some(region.int_region()),
            Selected::RegionWindow(region, _) => Some(region.int_region()),
            Selected::Window(window) => Some(window.region()),
        }
    }
}

impl Mode {
    /// Whether something is selected.
    pub open spec fn sel_spec(self) -> bool {
        self != Mode::ScreenshotOnly
    }

    /// Whether a screenshot is taken.
    pub open spec fn shot_spec(self) -> bool {
        self != Mode::PickWindow
    }

    /// Whether something is selected.
    pub fn sel(self) -> (r: bool)
        ensures
            r == self.sel_spec(),
    {
        match self {
            Mode::ScreenshotOnly => false,
            Mode::Region | Mode::PickWindow => true,
        }
    }

    /// Whether a screenshot is taken.
    pub fn shot(self) -> (r: bool)
        ensures
            r == self.shot_spec(),
    {
        match self {
            Mode::ScreenshotOnly | Mode::Region => true,
            Mode::PickWindow => false,
        }
    }

    /// Whether a magnifier follows the pointer.
    pub fn magnifier(self) -> (r: bool)
        ensures
            r == (self == Mode::Region),
    {
        match self {
            Mode::Region => true,
            Mode::ScreenshotOnly | Mode::PickWindow => false,
        }
    }
}

impl Format {
    /// How many bytes a pixel takes.
    pub open spec fn bytes(self) -> int {
        match self {
            Format::Argb8888 => 4,
            Format::Bgr888 => 3,
        }
    }

    /// The number that the shared memory protocol gives the format.
    pub open spec fn code(self) -> u32 {
        match self {
            Format::Argb8888 => 0,
            Format::Bgr888 => 0x34324742,
        }
    }

    /// How many bytes a pixel takes.
    pub fn size(self) -> (r: usize)
        ensures
            r == self.bytes(),
    {
        match self {
            Format::Argb8888 => 4,
            Format::Bgr888 => 3,
        }
    }

    /// Whether pixels can be transparent.
    pub fn transparent(self) -> (r: bool)
        ensures
            r == (self == Format::Argb8888),
    {
        match self {
            Format::Argb8888 => true,
            Format::Bgr888 => false,
        }
    }

    /// The number that the shared memory protocol gives the format.
    pub fn wl_format(self) -> (r: u32)
        ensures
            r == self.code(),
    {
        match self {
            Format::Argb8888 => 0,
            Format::Bgr888 => 0x34324742,
        }
    }

    /// The format that the shared memory protocol gives this number, if it is understood.
    pub fn from_wl(code: u32) -> (r: Option<Self>)
        ensures
            r matches Some(f) ==> f.code() == code,
            r is None ==> forall|f: Format| #[trigger] f.code() != code,
    {
        if code == 0 {
            Some(Format::Argb8888)
        } else if code == 0x34324742 {
            Some(Format::Bgr888)
        } else {
            None
        }
    }
}

/// Different formats have different numbers, so a format is known by its number.
pub proof fn format_codes_are_distinct(a: Format, b: Format)
    requires
        a.code() == b.code(),
    ensures
        a == b,
{
}

/// A set of formats.
#[derive(Debug, Clone, Copy, PartialEq, Eq, Structural)]
pub struct FormatSet {
    pub argb8888: bool,
    pub bgr888: bool,
}

impl FormatSet {
    /// `format` is in the set.
    pub open spec fn has(self, format: Format) -> bool {
        match format {
            Format::Argb8888 => self.argb8888,
            Format::Bgr888 => self.bgr888,
        }
    }

    /// The empty set.
    pub fn new() -> (r: Self)
        ensures
            forall|f: Format| !#[trigger] r.has(f),
    {
        FormatSet { argb8888: false, bgr888: false }
    }

    /// Adds `format` to the set.
    pub fn insert(&mut self, format: Format)
        ensures
            forall|f: Format| #[trigger] final(self).has(f) == (f == format || old(self).has(f)),
    {
        match format {
            Format::Argb8888 => {
                self.argb8888 = true;
            },
            Format::Bgr888 => {
                self.bgr888 = true;
            },
        }
    }

    /// The preferred one of the formats that both sets hold.
    pub fn first_common(&self, other: &Self) -> (r: Option<Format>)
        ensures
            r matches Some(f) ==> self.has(f) && other.has(f),
            r == Some(Format::Bgr888) ==> !(self.has(Format::Argb8888) && other.has(
                Format::Argb8888,
            )),
            r is None ==> forall|f: Format| !(#[trigger] self.has(f) && other.has(f)),
    {
        if self.argb8888 && other.argb8888 {
            Some(Format::Argb8888)
        } else if self.bgr888 && other.bgr888 {
            Some(Format::Bgr888)
        } else {
            None
        }
    }

    /// The preferred one of the transparent formats in the set. `Argb8888` has to be supported by
    /// every compositor, so it is the answer if none is in the set.
    pub fn transparent_format(&self) -> (r: Format)
        ensures
            r == Format::Argb8888,
    {
        if self.argb8888 && Format::Argb8888.transparent() {
            Format::Argb8888
        } else if self.bgr888 && Format::Bgr888.transparent() {
            Format::Bgr888
        } else {
            Format::Argb8888
        }
    }
}

impl Default for Transform {
    fn default() -> (r: Self)
        ensures
            r == Transform(0),
    {
        Transform(0)
    }
}

impl Transform {
    /// The transform swaps width and height: a quarter turn, flipped or not.
    pub open spec fn rotates(self) -> bool {
        self.0 % 2 == 1
    }

    /// Where the pixel that is shown at `(x, y)` lies in the picture that the monitor was given,
    /// when it shows `width` by `height` pixels.
    pub open spec fn corrected(self, x: int, y: int, width: int, height: int) -> (int, int) {
        if self.0 == 1 {
            (y, width - x - 1)
        } else if self.0 == 2 {
            (width - x - 1, height - y - 1)
        } else if self.0 == 3 {
            (height - y - 1, x)
        } else if self.0 == 4 {
            (width - x - 1, y)
        } else if self.0 == 5 {
            (y, x)
        } else if self.0 == 6 {
            (x, height - y - 1)
        } else if self.0 == 7 {
            (height - y - 1, width - x - 1)
        } else {
            (x, y)
        }
    }

    /// The size of the picture that the monitor is given when it shows `width` by `height` pixels.
    pub open spec fn source_size(self, width: int, height: int) -> (int, int) {
        if self.rotates() {
            (height, width)
        } else {
            (width, height)
        }
    }

    /// Whether the transform swaps width and height.
    pub fn rotate(self) -> (r: bool)
        ensures
            r == self.rotates(),
    {
        self.0 % 2 == 1
    }

    /// The transform to put on a frozen picture. With `weird` set, the two quarter turns are
    /// taken in the other direction.
    pub fn freeze_transform(self, weird: bool) -> (r: Transform)
        ensures
            r == if weird && self.0 == 1 {
                Transform(3)
            } else if weird && self.0 == 3 {
                Transform(1)
            } else {
                self
            },
    {
        if weird {
            match self.0 {
                1 => Transform(3),
                3 => Transform(1),
                _ => self,
            }
        } else {
            self
        }
    }

    /// Where the pixel that is shown at `at` lies in the picture that the monitor was given.
    /// `size` is the size in pixels as displayed to the user: a 1440p monitor with a rotation
    /// applied would be (1440, 2560).
    pub fn correct(self, at: (i32, i32), size: (i32, i32)) -> (r: (i32, i32))
        requires
            i32::MIN < size.0 - at.0 <= i32::MAX,
            i32::MIN < size.1 - at.1 <= i32::MAX,
        ensures
            (r.0 as int, r.1 as int) == self.corrected(
                at.0 as int,
                at.1 as int,
                size.0 as int,
                size.1 as int,
            ),
    {
        let (x, y) = at;
        let (width, height) = size;
        match self.0 {
            1 => (y, width - x - 1),
            2 => (width - x - 1, height - y - 1),
            3 => (height - y - 1, x),
            4 => (width - x - 1, y),
            5 => (y, x),
            6 => (x, height - y - 1),
            7 => (height - y - 1, width - x - 1),
            _ => (x, y),
        }
    }

    /// Whether the picture is shown as it is.
    pub fn normal(self) -> (r: bool)
        ensures
            r == (self == Transform(0)),
    {
        self.0 == 0
    }
}

/// Undoing a transform keeps the pixels on a monitor inside the picture that it was given, and
/// the pixels off it outside.
pub proof fn corrected_pixels_stay_inside(
    transform: Transform,
    x: int,
    y: int,
    width: int,
    height: int,
)
    requires
        transform.0 <= 7,
    ensures
        ({
            let (cx, cy) = transform.corrected(x, y, width, height);
            let (w, h) = transform.source_size(width, height);
            (0 <= x < width && 0 <= y < height) <==> (0 <= cx < w && 0 <= cy < h)
        }),
{
}

/// Undoing a transform never maps two pixels to the same one.
pub proof fn corrected_pixels_are_distinct(
    transform: Transform,
    a: (int, int),
    b: (int, int),
    width: int,
    height: int,
)
    requires
        transform.corrected(a.0, a.1, width, height) == transform.corrected(
            b.0,
            b.1,
            width,
            height,
        ),
    ensures
        a == b,
{
}

/// Undoing a transform reaches every pixel of the picture that the monitor was given.
pub proof fn corrected_pixels_are_all(
    transform: Transform,
    cx: int,
    cy: int,
    width: int,
    height: int,
) -> (at: (int, int))
    ensures
        transform.corrected(at.0, at.1, width, height) == (cx, cy),
{
    let t = transform.0;
    if t == 1 {
        (width - cy - 1, cx)
    } else if t == 2 {
        (width - cx - 1, height - cy - 1)
    } else if t == 3 {
        (cy, height - cx - 1)
    } else if t == 4 {
        (width - cx - 1, cy)
    } else if t == 5 {
        (cy, cx)
    } else if t == 6 {
        (cx, height - cy - 1)
    } else if t == 7 {
        (width - cy - 1, height - cx - 1)
    } else {
        (cx, cy)
    }
}

/// What was selected is told apart: a window that was picked stands for its contents, a region for
/// itself whether or not a window is known with it, and nothing for no region at all.
pub proof fn selections_stand_for_their_region(r: LFRegion, w: Window)
    ensures
        Selected::Nothing.region_spec() is None && Selected::Nothing.window_spec() is None,
        Selected::Region(r).region_spec() == Some(r) && Selected::Region(r).window_spec() is None,
        Selected::RegionWindow(r, w).region_spec() == Some(r),
        Selected::RegionWindow(r, w).window_spec() == Some(w),
        Selected::Window(w).window_spec() == Some(w),
        Selected::Window(w).region_spec() matches Some(g) && {
            let c = w.region_spec();
            &&& g.left.num == c.x && g.left.den == 1
            &&& g.top.num == c.y && g.top.den == 1
            &&& g.right.num == c.x + c.width && g.right.den == 1
            &&& g.bottom.num == c.y + c.height && g.bottom.den == 1
        },
{
}

/// Every mode but the one that only takes a screenshot lets something be selected, and every mode
/// but the one that only picks a window takes a screenshot.
pub proof fn modes_select_and_capture(mode: Mode)
    ensures
        mode.sel_spec() || mode.shot_spec(),
        mode == Mode::Region <==> mode.sel_spec() && mode.shot_spec(),
        mode == Mode::PickWindow <==> !mode.shot_spec(),
        mode == Mode::ScreenshotOnly <==> !mode.sel_spec(),
{
}

/// A transform is a turn by none to three quarters, and the second four are the same turns with a
/// flip from left to right. What lies further to the right on the monitor lies, in the picture that
/// it was given, further to the right, up, to the left or down; flipped, further to the left, down,
/// to the right or up. What lies further down follows. Width and height are swapped by the turns by
/// one and three quarters.
pub proof fn transforms_turn_and_flip(transform: Transform, x: int, y: int, width: int, height: int)
    requires
        transform.0 <= 7,
    ensures
        ({
            let at = transform.corrected(x, y, width, height);
            let right = transform.corrected(x + 1, y, width, height);
            let below = transform.corrected(x, y + 1, width, height);
            let (dx, dy) = (right.0 - at.0, right.1 - at.1);
            let (ex, ey) = (below.0 - at.0, below.1 - at.1);
            let quarters = transform.0 % 4;
            let flipped = transform.0 >= 4;
            let side = if flipped {
                -1int
            } else {
                1int
            };
            &&& dx == if quarters == 0 {
                side
            } else if quarters == 2 {
                -side
            } else {
                0
            }
            &&& dy == if quarters == 1 {
                -side
            } else if quarters == 3 {
                side
            } else {
                0
            }
            &&& ex == -side * dy
            &&& ey == side * dx
        }),
        transform.rotates() <==> transform.corrected(x + 1, y, width, height).0
            == transform.corrected(x, y, width, height).0,
        transform.source_size(width, height) == if transform.0 == 1 || transform.0 == 3
            || transform.0 == 5 || transform.0 == 7 {
            (height, width)
        } else {
            (width, height)
        },
{
}

/// A turn undone quarter by quarter gives the same pixel as undone at once, and four quarters
/// change nothing. A transform that flips is undone by flipping first and then turning.
pub proof fn quarter_turns_add_up(x: int, y: int, width: int, height: int)
    ensures
        ({
            let one = Transform(1).corrected(x, y, width, height);
            let two = Transform(1).corrected(one.0, one.1, height, width);
            let three = Transform(1).corrected(two.0, two.1, width, height);
            let four = Transform(1).corrected(three.0, three.1, height, width);
            &&& two == Transform(2).corrected(x, y, width, height)
            &&& three == Transform(3).corrected(x, y, width, height)
            &&& four == (x, y)
            &&& Transform(0).corrected(x, y, width, height) == (x, y)
            &&& Transform(4).corrected(x, y, width, height) == (width - 1 - x, y)
            &&& forall|t: u32|
                1 <= t <= 3 ==> #[trigger] Transform((t + 4) as u32).corrected(x, y, width, height)
                    == Transform(t).corrected(width - 1 - x, y, width, height)
        }),
{
}

/// A pixel of the preferred format takes one byte more than its three colours, for how opaque it
/// is, and one of the other format takes just three.
pub proof fn pixels_take_three_or_four_bytes(f: Format)
    ensures
        f.bytes() == if f == Format::Argb8888 {
            4int
        } else {
            3
        },
        f.code() == 0 <==> f == Format::Argb8888,
{
}

} // verus!
