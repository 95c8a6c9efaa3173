//! Cutting the selected region out of the captures.

use vstd::prelude::*;

use crate::coord::{clamp_i32, round_div, Coord};
use crate::img::Screenshot;
use crate::util::{LFRegion, MRegion, Monitor};
use crate::wayland::capture::{captures, shown_channel};
use crate::wayland::output::{part_on, scale_of, Output};
use crate::wayland::state::{State, StateError};
use crate::wayland::{Selected, Status};

verus! {

/// A region that contains every monitor.
pub open spec fn everything() -> LFRegion {
    LFRegion {
        left: Coord { num: -0x100_0000_0000i128, den: 1 },
        top: Coord { num: -0x100_0000_0000i128, den: 1 },
        right: Coord { num: 0x100_0000_0000, den: 1 },
        bottom: Coord { num: 0x100_0000_0000, den: 1 },
    }
}

/// The region that a selection stands for: everything, if nothing was selected.
pub open spec fn wanted(selected: Selected) -> LFRegion {
    match selected.region_spec() {
        Some(region) => region,
        None => everything(),
    }
}

/// A part of the selection: on which monitor it lies, and where.
pub struct Part {
    pub index: int,
    pub logical: LFRegion,
    pub region: MRegion,
}

/// The parts of `region` on the first `n` monitors.
pub open spec fn parts(outputs: Seq<Output>, region: LFRegion, n: int) -> Seq<Part>
    decreases n,
{
    if n <= 0 {
        Seq::empty()
    } else {
        let rest = parts(outputs, region, n - 1);
        match outputs[n - 1].monitor.rounded(region) {
            Some((logical, part)) => rest.push(Part { index: n - 1, logical, region: part }),
            None => rest,
        }
    }
}

/// `shot` shows what `part` covers.
pub open spec fn shot_of(shot: Screenshot, part: Part, output: Output, data: Seq<u8>) -> bool {
    &&& shot.monitor == output.monitor
    &&& shot.logical == part.logical
    &&& shot.monitor_region == part.region
    &&& shot.image.wf()
    &&& shot.image.width == part.region.width
    &&& shot.image.height == part.region.height
    &&& forall|i: int, j: int, c: int|
        0 <= i < part.region.width && 0 <= j < part.region.height && 0 <= c < 3
            ==> #[trigger] shot.image.channel(i, j, c) == shown_channel(
            data,
            output.capture.buffer->0,
            &output.monitor,
            part.region.x + i,
            part.region.y + j,
            c,
        )
}

/// The monitor's capture can be read wherever the selection touches it.
pub open spec fn readable(output: Output, region: LFRegion, data: Seq<u8>) -> bool {
    &&& output.monitor.wf()
    &&& output.monitor.rounded(region) is Some ==> {
        &&& output.capture.buffer is Some
        &&& captures(output.capture.buffer->0, &output.monitor)
        &&& data.len() == output.capture.buffer->0.buf_size
    }
}

/// Whether the monitor's capture can be read wherever the selection touches it.
fn can_read(output: &Output, region: &LFRegion, data: &[u8]) -> (r: bool)
    requires
        region.wf(),
    ensures
        r == readable(*output, *region, data@),
{
    if !output.monitor.valid() {
        return false;
    }
    if output.monitor.intersect_rounded(region).is_none() {
        return true;
    }
    match &output.capture.buffer {
        None => false,
        Some(b) => {
            let w: i32 = output.monitor.physical.width;
            let h: i32 = output.monitor.physical.height;
            let (sw, sh): (i32, i32) = if output.monitor.transform.rotate() {
                (h, w)
            } else {
                (w, h)
            };
            b.valid() && output.monitor.transform.0 <= 7 && sw >= 0 && sh >= 0 && b.width
                == sw as usize && b.height == sh as usize && data.len() == b.buf_size
        },
    }
}

/// The region that a selection stands for.
fn wanted_region(selected: &Selected) -> (r: LFRegion)
    requires
        selected.bounded(),
    ensures
        r == wanted(*selected),
        r.wf(),
{
    match selected.region() {
        Some(r) => r,
        None => LFRegion {
            left: Coord { num: -0x100_0000_0000i128, den: 1 },
            top: Coord { num: -0x100_0000_0000i128, den: 1 },
            right: Coord { num: 0x100_0000_0000, den: 1 },
            bottom: Coord { num: 0x100_0000_0000, den: 1 },
        },
    }
}

impl State {
    /// Something was selected, and `frames` holds the captures that it touches.
    pub open spec fn capturable(&self, frames: Seq<&[u8]>) -> bool {
        &&& self.status is Done
        &&& frames.len() == self.outputs@.len()
        &&& forall|k: int|
            0 <= k < self.outputs@.len() ==> readable(
                #[trigger] self.outputs@[k],
                wanted(self.status->Done_0),
                frames[k]@,
            )
    }

    /// Whether something was selected, and `frames` holds the captures that it touches.
    pub fn can_take_screenshot(&self, frames: &Vec<&[u8]>) -> (r: bool)
        requires
            self.inv(),
        ensures
            r == self.capturable(frames@),
    {
        let region = match &self.status {
            Status::Done(s) => wanted_region(s),
            _ => {
                return false;
            },
        };
        if frames.len() != self.outputs.len() {
            return false;
        }
        let mut k: usize = 0;
        while k < self.outputs.len()
            invariant
                k <= self.outputs@.len(),
                frames@.len() == self.outputs@.len(),
                region.wf(),
                self.status is Done,
                region == wanted(self.status->Done_0),
                forall|i: int|
                    0 <= i < k ==> readable(#[trigger] self.outputs@[i], region, frames@[i]@),
            decreases self.outputs@.len() - k,
        {
            let data: &[u8] = frames[k];
            if !can_read(&self.outputs[k], &region, data) {
                assert(!readable(self.outputs@[k as int], region, frames@[k as int]@));
                return false;
            }
            k = k + 1;
        }
        true
    }

    /// Cuts the selection out of the captures of all monitors, whose bytes are `frames`.
    pub fn take_screenshot(self, frames: &Vec<&[u8]>) -> (r: Result<Vec<Screenshot>, StateError>)
        requires
            self.inv(),
            self.capturable(frames@),
        ensures
            ({
                let found = parts(
                    self.outputs@,
                    wanted(self.status->Done_0),
                    self.outputs@.len() as int,
                );
                match r {
                    Ok(shots) => {
                        &&& shots@.len() == found.len()
                        &&& found.len() > 0
                        &&& forall|i: int|
                            0 <= i < found.len() ==> shot_of(
                                #[trigger] shots@[i],
                                found[i],
                                self.outputs@[found[i].index],
                                frames@[found[i].index]@,
                            )
                    },
                    Err(e) => e == StateError::NothingToCapture && found.len() == 0,
                }
            }),
    {
        let ghost all = self.outputs@;
        let ghost region_spec = wanted(self.status->Done_0);
        let region = match &self.status {
            Status::Done(s) => wanted_region(s),
            _ => {
                return Err(StateError::NothingToCapture);
            },
        };
        let mut shots: Vec<Screenshot> = Vec::new();
        let total: usize = self.outputs.len();
        let mut k: usize = 0;
        for output in iter: self.outputs
            invariant
                iter.seq() == all,
                k == iter.index(),
                total == all.len(),
                frames@.len() == all.len(),
                region.wf(),
                region == region_spec,
                forall|i: int|
                    0 <= i < all.len() ==> readable(#[trigger] all[i], region_spec, frames@[i]@),
                shots@.len() == parts(all, region, k as int).len(),
                forall|i: int|
                    0 <= i < shots@.len() ==> shot_of(
                        #[trigger] shots@[i],
                        parts(all, region, k as int)[i],
                        all[parts(all, region, k as int)[i].index],
                        frames@[parts(all, region, k as int)[i].index]@,
                    ),
        {
            let ghost before = shots@;
            let ghost done = parts(all, region, k as int);
            assert(readable(all[k as int], region_spec, frames@[k as int]@));
            match output.monitor.intersect_rounded(&region) {
                None => {},
                Some((logical, part)) => {
                    let data: &[u8] = frames[k];
                    let image = output.capture.take_screenshot(data, &output.monitor, part);
                    shots.push(
                        Screenshot { image, logical, monitor_region: part, monitor: output.monitor },
                    );
                },
            }
            k = k + 1;
            proof {
                let now = parts(all, region, k as int);
                assert forall|i: int| 0 <= i < shots@.len() implies shot_of(
                    #[trigger] shots@[i],
                    now[i],
                    all[now[i].index],
                    frames@[now[i].index]@,
                ) by {
                    if i < before.len() {
                        assert(now[i] == done[i]);
                        assert(shots@[i] == before[i]);
                    }
                }
            }
        }
        if shots.len() == 0 {
            return Err(StateError::NothingToCapture);
        }
        Ok(shots)
    }
}

/// Where nothing was selected, all of each monitor is captured: its whole logical region, every
/// column of pixels, and as many rows as the logical height stands for. The monitor is left out
/// only if it does not have that many.
pub proof fn nothing_selected_captures_everything(m: Monitor)
    requires
        m.wf(),
        m.logical.width > 0,
        m.logical.height > 0,
        m.physical.width > 0,
        m.scale == scale_of(m.physical.width as int, m.logical.width as int),
    ensures
        ({
            let rows = clamp_i32(
                round_div(m.logical.height * m.scale.num, m.scale.den as int),
            );
            m.rounded(everything()) == if rows > m.physical.height {
                None
            } else {
                Some(
                    (
                        LFRegion::of(m.logical),
                        MRegion { x: 0, y: 0, width: m.physical.width, height: rows as i32 },
                    ),
                )
            }
        }),
{
    let l = LFRegion::of(m.logical);
    assert(everything().meet(l) == Some(l));
    let n = m.scale.num as int;
    let d = m.scale.den as int;
    let w = m.logical.width as int;
    let h = m.logical.height as int;
    let x = m.logical.x as int;
    let y = m.logical.y as int;
    assert(l.right.num == x + w && l.right.den == 1);
    assert(l.bottom.num == y + h && l.bottom.den == 1);
    assert((x - x * 1) * n == 0) by (nonlinear_arith);
    assert((x + w - x * 1) * n == n * d) by (nonlinear_arith)
        requires
            w == d,
    ;
    assert((y - y * 1) * n == 0) by (nonlinear_arith);
    assert((y + h - y * 1) * n == h * n) by (nonlinear_arith);
    assert(1 * d == d);
    crate::pixels::lemma_round_whole(n, d);
    crate::pixels::lemma_round_whole(0, d);
    assert(0 * d == 0);
}

/// What is captured from each monitor is exactly what was shown as selected on it.
pub proof fn captured_is_what_was_shown(outputs: Seq<Output>, region: LFRegion, n: int)
    requires
        0 <= n <= outputs.len(),
    ensures
        ({
            let found = parts(outputs, region, n);
            &&& forall|i: int|
                0 <= i < found.len() ==> {
                    &&& 0 <= (#[trigger] found[i]).index < n
                    &&& part_on(&outputs[found[i].index].monitor, Some(region)) == Some(
                        found[i].region,
                    )
                }
            &&& forall|k: int|
                0 <= k < n && part_on(&(#[trigger] outputs[k]).monitor, Some(region)) is Some
                    ==> exists|i: int| 0 <= i < found.len() && (#[trigger] found[i]).index == k
        }),
    decreases n,
{
    if n > 0 {
        captured_is_what_was_shown(outputs, region, n - 1);
        let rest = parts(outputs, region, n - 1);
        let found = parts(outputs, region, n);
        assert forall|i: int| 0 <= i < found.len() implies {
            &&& 0 <= (#[trigger] found[i]).index < n
            &&& part_on(&outputs[found[i].index].monitor, Some(region)) == Some(found[i].region)
        } by {
            if i < rest.len() {
                assert(found[i] == rest[i]);
            }
        }
        assert forall|k: int|
            0 <= k < n && part_on(
                &(#[trigger] outputs[k]).monitor,
                Some(region),
            ) is Some implies exists|i: int|
            0 <= i < found.len() && (#[trigger] found[i]).index == k by {
            if k == n - 1 {
                assert(found[rest.len() as int].index == k);
            } else {
                let i = choose|i: int| 0 <= i < rest.len() && (#[trigger] rest[i]).index == k;
                assert(found[i] == rest[i]);
            }
        }
    }
}

/// What is captured is what was selected: the region itself or the contents of the window, and if
/// nothing was selected a region that reaches beyond every edge that a monitor can have.
pub proof fn selections_are_captured(selected: Selected)
    ensures
        ({
            let r = wanted(selected);
            match selected {
                Selected::Region(g) => r == g,
                Selected::RegionWindow(g, _) => r == g,
                Selected::Window(w) => {
                    let c = w.region_spec();
                    &&& r.left.num == c.x && r.left.den == 1
                    &&& r.top.num == c.y && r.top.den == 1
                    &&& r.right.num == c.x + c.width && r.right.den == 1
                    &&& r.bottom.num == c.y + c.height && r.bottom.den == 1
                },
                Selected::Nothing => {
                    &&& r.left.den == 1 && r.left.num < 2 * i32::MIN
                    &&& r.top.den == 1 && r.top.num < 2 * i32::MIN
                    &&& r.right.den == 1 && r.right.num > 2 * i32::MAX
                    &&& r.bottom.den == 1 && r.bottom.num > 2 * i32::MAX
                },
            }
        }),
{
}

/// Each monitor gives at most one part, and the parts come in the order of the monitors. Each is cut
/// to its monitor, in logical space and in the monitor's own pixels.
pub proof fn parts_come_in_the_order_of_the_monitors(outputs: Seq<Output>, region: LFRegion, n: int)
    requires
        0 <= n <= outputs.len(),
    ensures
        ({
            let found = parts(outputs, region, n);
            &&& forall|i: int, j: int|
                0 <= i < j < found.len() ==> (#[trigger] found[i]).index < (#[trigger] found[j]).index
            &&& forall|i: int|
                0 <= i < found.len() ==> 0 <= (#[trigger] found[i]).index < n
                    && outputs[found[i].index].monitor.rounded(region) == Some(
                    (found[i].logical, found[i].region),
                )
        }),
    decreases n,
{
    if n > 0 {
        parts_come_in_the_order_of_the_monitors(outputs, region, n - 1);
        let rest = parts(outputs, region, n - 1);
        let found = parts(outputs, region, n);
        assert forall|i: int| 0 <= i < found.len() implies 0 <= (#[trigger] found[i]).index < n
            && outputs[found[i].index].monitor.rounded(region) == Some(
            (found[i].logical, found[i].region),
        ) by {
            if i < rest.len() {
                assert(found[i] == rest[i]);
            }
        }
        assert forall|i: int, j: int| 0 <= i < j < found.len() implies (#[trigger] found[i]).index
            < (#[trigger] found[j]).index by {
            assert(found[i] == rest[i]);
            if j < rest.len() {
                assert(found[j] == rest[j]);
            }
        }
    }
}

} // verus!
