//! Renderer-facing identifiers and the backend interface.

use vstd::prelude::*;

use crate::geometry::{OutputId, Rect};

verus! {

/// Identifies one frame between `begin_frame` and `present`.
#[derive(Debug, Clone, Copy, PartialEq, Eq, Structural)]
pub struct FrameToken(pub u64);

/// How a frame submission ended.
#[derive(Debug, Clone, Copy, PartialEq, Eq, Structural)]
pub enum PresentResult {
    Presented,
    SkippedNoDamage,
    Failed,
}

/// Opaque handle to a client's committed buffer contents, as tracked by the
/// scene graph.
#[derive(Debug, Clone, Copy, PartialEq, Eq, Hash, Structural)]
pub struct SurfaceHandle(pub u64);

/// A render backend: frames are opened, filled with damage and surfaces,
/// and presented.
pub trait RenderBackend {
    /// Begin composing a frame for the given output.
    fn begin_frame(&mut self, output: OutputId) -> FrameToken;

    /// Mark a region as needing redraw.
    fn mark_damage(&mut self, frame: FrameToken, region: Rect);

    /// Queue a surface for compositing at the given geometry and z-order.
    fn composite_surface(&mut self, frame: FrameToken, surface: SurfaceHandle, geometry: Rect, z: u32);

    /// Submit the frame. Returns `SkippedNoDamage` if no damage was marked
    /// for this frame token.
    fn present(&mut self, frame: FrameToken) -> PresentResult;
}

} // verus!
