//! Asking another program, slurp, for a region.

use vstd::prelude::*;
use vstd::utf8::{decode_utf8, valid_utf8};

use crate::geometry::{region_of, text_of, RegionError};
use crate::ipc::Window;
use crate::overrides::{from_utf8, from_utf8_lossy, lossy};
use crate::text::{is_white, same, trim, trimmed};
use crate::util::LRegion;

verus! {

/// What the program says when the user gave up.
pub const CANCELLED: &'static str = "selection cancelled";

/// Why there is no region.
#[derive(Debug, Clone, Copy, PartialEq, Eq, Structural)]
pub enum SelectionError {
    /// The user gave up.
    Cancelled,
    /// The program failed.
    Failed,
    /// The program wrote something that is not text.
    NotText,
    /// The program wrote something that is not a region.
    NotRegion(RegionError),
}

/// One line for each window, which holds its region.
pub open spec fn lines(windows: Seq<Window>) -> Seq<char>
    decreases windows.len(),
{
    if windows.len() == 0 {
        Seq::empty()
    } else {
        lines(windows.drop_last()) + text_of(windows.last().region_spec()) + seq!['\n']
    }
}

/// What the program is given to choose from.
pub fn choices(windows: &Vec<Window>) -> (r: String)
    requires
        forall|k: int| 0 <= k < windows@.len() ==> (#[trigger] windows@[k]).wf(),
    ensures
        r@ == lines(windows@),
{
    let mut out = String::new();
    let mut i: usize = 0;
    assert(windows@.take(0) =~= Seq::empty());
    while i < windows.len()
        invariant
            i <= windows@.len(),
            out@ == lines(windows@.take(i as int)),
            forall|k: int| 0 <= k < windows@.len() ==> (#[trigger] windows@[k]).wf(),
        decreases windows@.len() - i,
    {
        let ghost before = out@;
        let region = windows[i].region();
        region.push_to(&mut out);
        out.push('\n');
        proof {
            let t = windows@.take(i + 1);
            assert(t.drop_last() =~= windows@.take(i as int));
            assert(t.last() == windows@[i as int]);
            assert(out@ =~= before + text_of(region) + seq!['\n']);
        }
        i = i + 1;
    }
    assert(windows@.take(i as int) =~= windows@);
    out
}

/// The region that was selected, given how the program ended and what it wrote.
pub fn region(success: bool, stdout: &Vec<u8>, stderr: &Vec<u8>) -> (r: Result<
    LRegion,
    SelectionError,
>)
    ensures
        r == if !success {
            if trimmed(lossy(stderr@), |c: char| is_white(c)) == CANCELLED@ {
                Err::<LRegion, SelectionError>(SelectionError::Cancelled)
            } else {
                Err(SelectionError::Failed)
            }
        } else if !valid_utf8(stdout@) {
            Err(SelectionError::NotText)
        } else {
            match region_of(decode_utf8(stdout@)) {
                Ok(region) => Ok(region),
                Err(e) => Err(SelectionError::NotRegion(e)),
            }
        },
{
    if !success {
        let err = trim(from_utf8_lossy(stderr).as_str());
        if same(err.as_str(), CANCELLED) {
            return Err(SelectionError::Cancelled);
        }
        return Err(SelectionError::Failed);
    }
    match from_utf8(stdout) {
        None => Err(SelectionError::NotText),
        Some(out) => match LRegion::parse(out.as_str()) {
            Ok(region) => Ok(region),
            Err(e) => Err(SelectionError::NotRegion(e)),
        },
    }
}

/// Every window gives a line of its own, in the order of the windows: its region, and then the end
/// of the line.
pub proof fn every_window_gives_a_line(before: Seq<Window>, w: Window)
    ensures
        lines(Seq::empty()).len() == 0,
        lines(before.push(w)) == lines(before) + text_of(w.region_spec()) + seq!['\n'],
{
    assert(before.push(w).drop_last() =~= before);
}

} // verus!
