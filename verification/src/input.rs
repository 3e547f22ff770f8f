//! Normalization helpers for raw input events.

use vstd::prelude::*;

verus! {

/// libinput timestamps are microseconds; seat APIs take milliseconds in a
/// `u32` that wraps around.
pub open spec fn spec_millis(microseconds: u64) -> u32 {
    (microseconds / 1000) as u32
}

pub fn millis(microseconds: u64) -> (ms: u32)
    ensures
        ms == spec_millis(microseconds),
{
    #[verifier::truncate]
    ((microseconds / 1000) as u32)
}

/// Distance between two cursor sizes.
pub open spec fn size_distance(a: u32, b: u32) -> int {
    if a >= b { a - b } else { b - a }
}

/// Index of the cursor image whose nominal size is nearest to `target`; of
/// equally near images the first one wins. `None` when there are none.
pub fn nearest_size_index(sizes: &[u32], target: u32) -> (best: Option<usize>)
    ensures
        best is None <==> sizes@.len() == 0,
        best matches Some(i) ==> {
            &&& i < sizes@.len()
            &&& forall|j: int| 0 <= j < sizes@.len() ==> size_distance(target, sizes@[i as int])
                <= #[trigger] size_distance(target, sizes@[j])
            &&& forall|j: int| 0 <= j < i ==> size_distance(target, sizes@[i as int])
                < #[trigger] size_distance(target, sizes@[j])
        },
{
    if sizes.len() == 0 {
        return None;
    }
    let mut best: usize = 0;
    let mut best_distance: u32 = if target >= sizes[0] { target - sizes[0] } else { sizes[0] - target };
    let mut i: usize = 1;
    while i < sizes.len()
        invariant
            1 <= i <= sizes@.len(),
            best < i,
            best_distance == size_distance(target, sizes@[best as int]),
            forall|j: int| 0 <= j < i ==> best_distance <= #[trigger] size_distance(target, sizes@[j]),
            forall|j: int| 0 <= j < best ==> best_distance < #[trigger] size_distance(target, sizes@[j]),
        decreases sizes@.len() - i,
    {
        let distance: u32 = if target >= sizes[i] { target - sizes[i] } else { sizes[i] - target };
        if distance < best_distance {
            best = i;
            best_distance = distance;
        }
        i = i + 1;
    }
    Some(best)
}

} // verus!
