//! Layout algorithms: pure functions from the ordered set of tiled windows
//! and the output's usable viewport to the geometry of each window.
//! Floating windows never go through a layout algorithm.

pub mod monocle;
pub mod tiling_tree;

use vstd::prelude::*;

use crate::geometry::{Rect, WindowId};

pub use monocle::MonocleLayout;
pub use tiling_tree::{master_stack_in_range, master_stack_tiles, trunc_div_rem};

verus! {

/// A layout algorithm. `compute` must not mutate external state and must be
/// deterministic for a given input: this makes runtime layout switching safe.
pub trait LayoutAlgorithm: std::fmt::Debug {
    /// Given the current window set and the output's usable viewport, return
    /// the geometry each window should occupy.
    fn compute(&self, windows: &[WindowId], viewport: Rect) -> Vec<(WindowId, Rect)>;

    /// Human-readable name for logging and state reporting.
    fn name(&self) -> &'static str;
}

/// Which algorithm a layout engine instantiates.
#[derive(Debug, Clone, Copy, PartialEq, Eq, Structural)]
pub enum LayoutKind {
    MasterStack,
    Monocle,
}

/// A placement whose geometry covers pixels.
pub open spec fn is_placeable(placement: (WindowId, Rect)) -> bool {
    !placement.1.spec_is_empty()
}

/// Predicate keeping placeable placements.
pub open spec fn placeable_filter() -> spec_fn((WindowId, Rect)) -> bool {
    |p: (WindowId, Rect)| is_placeable(p)
}

/// The placements a layout engine applies: those with non-empty geometry,
/// in the algorithm's order (a window given empty geometry is skipped).
pub fn placeable(placed: &Vec<(WindowId, Rect)>) -> (kept: Vec<(WindowId, Rect)>)
    ensures
        kept@ == placed@.filter(placeable_filter()),
{
    let mut kept: Vec<(WindowId, Rect)> = Vec::new();
    let mut i: usize = 0;
    while i < placed.len()
        invariant
            i <= placed@.len(),
            kept@ == placed@.take(i as int).filter(placeable_filter()),
        decreases placed@.len() - i,
    {
        let placement = placed[i];
        proof {
            assert(placed@.take(i + 1) =~= placed@.take(i as int).push(placement));
            placed@.take(i as int).lemma_filter_push(placement, placeable_filter());
        }
        if !placement.1.is_empty() {
            kept.push(placement);
        }
        i = i + 1;
    }
    proof {
        assert(placed@.take(0) =~= Seq::<(WindowId, Rect)>::empty());
        assert(placed@.take(placed@.len() as int) =~= placed@);
    }
    kept
}

} // verus!
