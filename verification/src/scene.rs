//! Frame-driver outcomes. The frame driver itself flattens the live scene
//! into the render backend's frame queue; what it reports back is decided
//! here from the backend's present result.

use vstd::prelude::*;

use crate::render::PresentResult;

verus! {

/// Outcome of driving one frame, for logging and testing.
#[derive(Debug, Clone, Copy, PartialEq, Eq, Structural)]
pub enum FrameOutcome {
    Presented,
    Skipped,
}

/// Frame outcome for a present result: only a presented frame counts as
/// presented; a skipped or failed frame is reported as skipped (a renderer
/// failure never stops the compositor).
pub open spec fn spec_frame_outcome(result: PresentResult) -> FrameOutcome {
    match result {
        PresentResult::Presented => FrameOutcome::Presented,
        PresentResult::SkippedNoDamage => FrameOutcome::Skipped,
        PresentResult::Failed => FrameOutcome::Skipped,
    }
}

pub fn frame_outcome(result: PresentResult) -> (outcome: FrameOutcome)
    ensures
        outcome == spec_frame_outcome(result),
{
    match result {
        PresentResult::Presented => FrameOutcome::Presented,
        PresentResult::SkippedNoDamage => FrameOutcome::Skipped,
        PresentResult::Failed => FrameOutcome::Skipped,
    }
}

} // verus!
