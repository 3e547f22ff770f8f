//! Monocle layout: every window takes the full viewport. Only the topmost is
//! visible; the rest stay mapped so focus cycling and layout switching stay
//! instant.

use vstd::prelude::*;

use super::LayoutAlgorithm;
use crate::geometry::{Rect, WindowId};

verus! {

/// Fullscreen-everything stacking.
#[derive(Debug, Clone, Copy, Default)]
pub struct MonocleLayout;

/// Every window, in order, paired with the whole viewport.
pub open spec fn monocle_spec(windows: Seq<WindowId>, viewport: Rect) -> Seq<(WindowId, Rect)> {
    Seq::new(windows.len(), |i: int| (windows[i], viewport))
}

/// Monocle placement keeps every window, in order, and gives each the
/// viewport exactly as handed in: its origin and its size.
pub proof fn lemma_monocle_fills_viewport(windows: Seq<WindowId>, viewport: Rect)
    ensures
        monocle_spec(windows, viewport).len() == windows.len(),
        forall|i: int| 0 <= i < windows.len() ==> {
            let placement = #[trigger] monocle_spec(windows, viewport)[i];
            &&& placement.0 == windows[i]
            &&& placement.1.x == viewport.x && placement.1.y == viewport.y
            &&& placement.1.width == viewport.width && placement.1.height == viewport.height
        },
{
}

impl LayoutAlgorithm for MonocleLayout {
    fn compute(&self, windows: &[WindowId], viewport: Rect) -> (placed: Vec<(WindowId, Rect)>)
        ensures
            placed@ == monocle_spec(windows@, viewport),
            placed@.len() == windows@.len(),
            forall|i: int| 0 <= i < windows@.len() ==> (#[trigger] placed@[i]) == (windows@[i], viewport),
    {
        proof {
            lemma_monocle_fills_viewport(windows@, viewport);
        }
        let mut placed: Vec<(WindowId, Rect)> = Vec::new();
        let mut i: usize = 0;
        while i < windows.len()
            invariant
                i <= windows.len(),
                placed@ == monocle_spec(windows@.take(i as int), viewport),
            decreases windows.len() - i,
        {
            placed.push((windows[i], viewport));
            i = i + 1;
            proof {
                assert(placed@ =~= monocle_spec(windows@.take(i as int), viewport));
            }
        }
        proof {
            assert(windows@.take(windows.len() as int) =~= windows@);
        }
        placed
    }

    fn name(&self) -> (name: &'static str)
        ensures
            name@ == "monocle"@,
    {
        "monocle"
    }
}

} // verus!
