//! Verified core of the RyoWM compositor: geometry, layout algorithms,
//! window lifecycle bookkeeping, and the per-frame damage/present decision.

pub mod geometry;
pub mod render;
pub mod damage;
pub mod layout;
pub mod window;
pub mod input;
pub mod scene;
pub mod protocol;
pub mod state;
pub mod cursor;
