//! Window lifecycle helpers: placement, pointer-drag geometry, and the
//! temporary pointer/keyboard triggers for move, resize, and close.

use vstd::prelude::*;

use crate::geometry::Rect;

verus! {

/// Lifecycle mode of a managed window.
#[derive(Debug, Clone, Copy, PartialEq, Eq, Structural)]
pub enum WindowMode {
    /// Explicit geometry, rendered above tiled content, never routed
    /// through a layout algorithm.
    Floating { geometry: Rect },
    /// Placed by the active layout algorithm.
    Tiled,
}

/// Pointer-drag interaction in progress.
#[derive(Debug, Clone, Copy, PartialEq, Eq, Structural)]
pub enum DragMode {
    Move,
    Resize,
}

/// Cascade step in pixels between consecutively mapped windows.
pub const CASCADE_STEP: i32 = 32;

/// Cascade pattern repeats after this many windows.
pub const CASCADE_SLOTS: u64 = 12;

/// Smallest width an interactive resize produces.
pub const MIN_DRAG_WIDTH: i32 = 80;

/// Smallest height an interactive resize produces.
pub const MIN_DRAG_HEIGHT: i32 = 60;

/// Linux input-event-codes button numbers.
pub const BTN_LEFT: u32 = 0x110;

pub const BTN_RIGHT: u32 = 0x111;

pub const BTN_MIDDLE: u32 = 0x112;

/// Raw keysym of the `q` key.
pub const KEY_Q: u32 = 0x71;

/// Cascade offset for a placement seed: slot `seed mod 12`, stepped
/// diagonally.
pub open spec fn spec_cascade_offset(seed: u64) -> (i32, i32) {
    let slot = (seed % 12) as int;
    ((slot * 32) as i32, (slot * 32) as i32)
}

/// Pure cascade offset for a placement seed; wrapping is intentional
/// (placement cycles forever without growing state).
pub fn cascade_offset(seed: u64) -> (offset: (i32, i32))
    ensures
        offset == spec_cascade_offset(seed),
{
    let slot: i32 = (seed % CASCADE_SLOTS) as i32;
    (slot * CASCADE_STEP, slot * CASCADE_STEP)
}

/// Cascade offsets repeat every `CASCADE_SLOTS` seeds.
pub proof fn lemma_cascade_wraps(seed: u64)
    requires
        seed + 12 <= u64::MAX,
    ensures
        spec_cascade_offset((seed + 12) as u64) == spec_cascade_offset(seed),
{
}

/// Within any `CASCADE_SLOTS` consecutive seeds no offset repeats.
pub proof fn lemma_cascade_distinct(seed: u64, i: u64, j: u64)
    requires
        i < j < 12,
        seed + j <= u64::MAX,
    ensures
        spec_cascade_offset((seed + i) as u64) != spec_cascade_offset((seed + j) as u64),
{
}

/// Cascade offsets step diagonally: both coordinates are equal, start at the
/// origin, and advance by one step until the pattern wraps.
pub proof fn lemma_cascade_diagonal(seed: u64)
    ensures
        spec_cascade_offset(seed).0 == spec_cascade_offset(seed).1,
        seed % 12 == 0 ==> spec_cascade_offset(seed) == (0i32, 0i32),
        seed % 12 != 11 && seed < u64::MAX ==> spec_cascade_offset((seed + 1) as u64).0
            == spec_cascade_offset(seed).0 + 32,
{
}

/// Output-space rectangle of a window placed at `location` (if mapped) with
/// committed client geometry `geometry`.
pub open spec fn spec_output_rect(location: Option<(i32, i32)>, geometry: Rect) -> Rect {
    match location {
        Some(loc) => Rect {
            x: (loc.0 + geometry.x) as i32,
            y: (loc.1 + geometry.y) as i32,
            width: geometry.width,
            height: geometry.height,
        },
        None => geometry,
    }
}

/// Output-space rectangle of a window: its space location plus its
/// committed client geometry, or the geometry alone when it is unmapped.
pub fn output_rect(location: Option<(i32, i32)>, geometry: Rect) -> (rect: Rect)
    requires
        location matches Some(loc) ==> i32::MIN <= loc.0 + geometry.x <= i32::MAX && i32::MIN
            <= loc.1 + geometry.y <= i32::MAX,
    ensures
        rect == spec_output_rect(location, geometry),
{
    match location {
        Some(loc) => Rect::new(loc.0 + geometry.x, loc.1 + geometry.y, geometry.width, geometry.height),
        None => geometry,
    }
}

/// Drag triggered by a button press: with Alt held, the left button moves
/// and the right or middle button resizes; anything else starts no drag.
pub open spec fn spec_drag_mode_for_button(button: u32, alt_held: bool) -> Option<DragMode> {
    if alt_held && (button == BTN_LEFT || button == BTN_RIGHT || button == BTN_MIDDLE) {
        if button == BTN_LEFT {
            Some(DragMode::Move)
        } else {
            Some(DragMode::Resize)
        }
    } else {
        None
    }
}

/// Without Alt no button starts a drag. With Alt held the left button
/// starts a move, the right and middle buttons a resize, and every other
/// button nothing.
pub proof fn lemma_drag_needs_alt(button: u32, alt_held: bool)
    ensures
        !alt_held ==> spec_drag_mode_for_button(button, alt_held) is None,
        alt_held && button == 0x110 ==> spec_drag_mode_for_button(button, alt_held) == Some(DragMode::Move),
        alt_held && (button == 0x111 || button == 0x112) ==> spec_drag_mode_for_button(button, alt_held)
            == Some(DragMode::Resize),
        button != 0x110 && button != 0x111 && button != 0x112 ==> spec_drag_mode_for_button(
            button,
            alt_held,
        ) is None,
        !alt_held ==> spec_drag_transition(true, button, alt_held, false) == DragTransition::Keep,
{
}

pub fn drag_mode_for_button(button: u32, alt_held: bool) -> (mode: Option<DragMode>)
    ensures
        mode == spec_drag_mode_for_button(button, alt_held),
        !alt_held ==> mode is None,
        alt_held && button == BTN_LEFT ==> mode == Some(DragMode::Move),
        alt_held && (button == BTN_RIGHT || button == BTN_MIDDLE) ==> mode == Some(DragMode::Resize),
        button != BTN_LEFT && button != BTN_RIGHT && button != BTN_MIDDLE ==> mode is None,
{
    if alt_held && (button == BTN_LEFT || button == BTN_RIGHT || button == BTN_MIDDLE) {
        if button == BTN_LEFT {
            Some(DragMode::Move)
        } else {
            Some(DragMode::Resize)
        }
    } else {
        None
    }
}

/// What a pointer button event does to the interactive drag.
#[derive(Debug, Clone, Copy, PartialEq, Eq, Structural)]
pub enum DragTransition {
    /// Start a drag of this kind on the window under the pointer, if any.
    Start(DragMode),
    /// End the drag in progress.
    End,
    /// Leave the drag state as it is.
    Keep,
}

/// A press that names a drag starts one; any release ends a drag in
/// progress; everything else leaves the drag state alone.
pub open spec fn spec_drag_transition(pressed: bool, button: u32, alt_held: bool, dragging: bool) -> DragTransition {
    if pressed {
        match spec_drag_mode_for_button(button, alt_held) {
            Some(mode) => DragTransition::Start(mode),
            None => DragTransition::Keep,
        }
    } else if dragging {
        DragTransition::End
    } else {
        DragTransition::Keep
    }
}

pub fn drag_transition(pressed: bool, button: u32, alt_held: bool, dragging: bool) -> (transition: DragTransition)
    ensures
        transition == spec_drag_transition(pressed, button, alt_held, dragging),
        transition matches DragTransition::Start(_) ==> pressed && alt_held,
        pressed && alt_held && button == BTN_LEFT ==> transition == DragTransition::Start(DragMode::Move),
        pressed && alt_held && (button == BTN_RIGHT || button == BTN_MIDDLE) ==> transition
            == DragTransition::Start(DragMode::Resize),
        !pressed ==> transition == (if dragging { DragTransition::End } else { DragTransition::Keep }),
{
    if pressed {
        match drag_mode_for_button(button, alt_held) {
            Some(mode) => DragTransition::Start(mode),
            None => DragTransition::Keep,
        }
    } else if dragging {
        DragTransition::End
    } else {
        DragTransition::Keep
    }
}

/// Geometry of a window being moved: the drag's start position shifted by
/// the pointer travel, keeping the window's current size.
pub fn drag_move_rect(start_geometry: Rect, dx: i32, dy: i32, current: Rect) -> (moved: Rect)
    requires
        i32::MIN <= start_geometry.x + dx <= i32::MAX,
        i32::MIN <= start_geometry.y + dy <= i32::MAX,
    ensures
        moved == (Rect {
            x: (start_geometry.x + dx) as i32,
            y: (start_geometry.y + dy) as i32,
            width: current.width,
            height: current.height,
        }),
{
    Rect::new(start_geometry.x + dx, start_geometry.y + dy, current.width, current.height)
}

/// Size requested from a window being resized: the drag's start size grown
/// by the pointer travel, but never below the minimum drag size.
pub open spec fn spec_drag_resize_size(start_geometry: Rect, dx: i32, dy: i32) -> (i32, i32) {
    let w = start_geometry.width + dx;
    let h = start_geometry.height + dy;
    (
        (if w >= MIN_DRAG_WIDTH { w } else { MIN_DRAG_WIDTH as int }) as i32,
        (if h >= MIN_DRAG_HEIGHT { h } else { MIN_DRAG_HEIGHT as int }) as i32,
    )
}

/// Each dimension of a resize follows the pointer on its own: the width is
/// the start width plus the horizontal travel, never below 80, whatever the
/// height does, and the height is the start height plus the vertical travel,
/// never below 60, whatever the width does. So the width does not depend on
/// the vertical travel nor the height on the horizontal travel, and each
/// grows with its own travel.
pub proof fn lemma_resize_dimensions_independent(start_geometry: Rect, dx: i32, dy: i32, dx2: i32, dy2: i32)
    requires
        i32::MIN <= start_geometry.width + dx <= i32::MAX,
        i32::MIN <= start_geometry.height + dy <= i32::MAX,
        i32::MIN <= start_geometry.width + dx2 <= i32::MAX,
        i32::MIN <= start_geometry.height + dy2 <= i32::MAX,
    ensures
        ({
            let size = spec_drag_resize_size(start_geometry, dx, dy);
            &&& size.0 >= 80 && size.1 >= 60
            &&& start_geometry.width + dx >= 80 ==> size.0 == start_geometry.width + dx
            &&& start_geometry.width + dx < 80 ==> size.0 == 80
            &&& start_geometry.height + dy >= 60 ==> size.1 == start_geometry.height + dy
            &&& start_geometry.height + dy < 60 ==> size.1 == 60
            &&& spec_drag_resize_size(start_geometry, dx, dy2).0 == size.0
            &&& spec_drag_resize_size(start_geometry, dx2, dy).1 == size.1
            &&& dx <= dx2 ==> size.0 <= spec_drag_resize_size(start_geometry, dx2, dy).0
            &&& dy <= dy2 ==> size.1 <= spec_drag_resize_size(start_geometry, dx, dy2).1
        }),
{
}

pub fn drag_resize_size(start_geometry: Rect, dx: i32, dy: i32) -> (size: (i32, i32))
    requires
        i32::MIN <= start_geometry.width + dx <= i32::MAX,
        i32::MIN <= start_geometry.height + dy <= i32::MAX,
    ensures
        size == spec_drag_resize_size(start_geometry, dx, dy),
        size.0 >= MIN_DRAG_WIDTH,
        size.1 >= MIN_DRAG_HEIGHT,
        start_geometry.width + dx >= 80 ==> size.0 == start_geometry.width + dx,
        start_geometry.width + dx < 80 ==> size.0 == 80,
        start_geometry.height + dy >= 60 ==> size.1 == start_geometry.height + dy,
        start_geometry.height + dy < 60 ==> size.1 == 60,
{
    let w: i32 = start_geometry.width + dx;
    let h: i32 = start_geometry.height + dy;
    let width: i32 = if w >= MIN_DRAG_WIDTH { w } else { MIN_DRAG_WIDTH };
    let height: i32 = if h >= MIN_DRAG_HEIGHT { h } else { MIN_DRAG_HEIGHT };
    (width, height)
}

/// Size a resize drag asks the client for, or `None` when the size was
/// already sent (a guard against configure storms).
pub fn resize_request(
    start_geometry: Rect,
    dx: i32,
    dy: i32,
    last_sent: Option<(i32, i32)>,
) -> (request: Option<(i32, i32)>)
    requires
        i32::MIN <= start_geometry.width + dx <= i32::MAX,
        i32::MIN <= start_geometry.height + dy <= i32::MAX,
    ensures
        request == (if last_sent == Some(spec_drag_resize_size(start_geometry, dx, dy)) {
            None
        } else {
            Some(spec_drag_resize_size(start_geometry, dx, dy))
        }),
        last_sent is None ==> request is Some,
        request matches Some(r) ==> {
            &&& r.0 == (if start_geometry.width + dx >= 80 { start_geometry.width + dx } else { 80 })
            &&& r.1 == (if start_geometry.height + dy >= 60 { start_geometry.height + dy } else { 60 })
            &&& last_sent != Some(r)
        },
        request is None ==> (last_sent matches Some(sent) && sent.0 == (if start_geometry.width + dx >= 80 {
            start_geometry.width + dx
        } else {
            80
        }) && sent.1 == (if start_geometry.height + dy >= 60 { start_geometry.height + dy } else { 60 })),
{
    let size = drag_resize_size(start_geometry, dx, dy);
    match last_sent {
        Some(sent) => {
            if sent.0 == size.0 && sent.1 == size.1 {
                None
            } else {
                Some(size)
            }
        },
        None => Some(size),
    }
}

/// Alt together with a `q` keysym asks to close the focused window.
pub open spec fn spec_is_close_chord(alt_held: bool, raw_syms: Seq<u32>) -> bool {
    alt_held && raw_syms.contains(KEY_Q)
}

/// The close chord is Alt together with the `q` keysym (0x71) at any
/// position among the raw keysyms, the first included: without Alt nothing
/// closes, a `q` anywhere closes, and keysyms other than `q` never matter.
pub proof fn lemma_close_chord_any_position(alt_held: bool, raw_syms: Seq<u32>, extra: u32)
    ensures
        spec_is_close_chord(alt_held, raw_syms) == (alt_held && exists|k: int|
            0 <= k < raw_syms.len() && raw_syms[k] == 0x71),
        !alt_held ==> !spec_is_close_chord(alt_held, raw_syms),
        spec_is_close_chord(true, seq![0x71u32] + raw_syms),
        spec_is_close_chord(true, raw_syms.push(0x71)),
        extra != 0x71 ==> spec_is_close_chord(alt_held, seq![extra] + raw_syms) == spec_is_close_chord(
            alt_held,
            raw_syms,
        ),
{
    assert((seq![0x71u32] + raw_syms)[0] == 0x71);
    assert(raw_syms.push(0x71)[raw_syms.len() as int] == 0x71);
    let front = seq![extra] + raw_syms;
    if raw_syms.contains(0x71) {
        let k = choose|k: int| 0 <= k < raw_syms.len() && raw_syms[k] == 0x71;
        assert(front[k + 1] == 0x71);
    }
    if extra != 0x71 && front.contains(0x71) {
        let k = choose|k: int| 0 <= k < front.len() && front[k] == 0x71;
        assert(raw_syms[k - 1] == 0x71);
    }
}

pub fn is_close_chord(alt_held: bool, raw_syms: &[u32]) -> (close: bool)
    ensures
        close == spec_is_close_chord(alt_held, raw_syms@),
        close == (alt_held && exists|k: int| 0 <= k < raw_syms@.len() && raw_syms@[k] == 0x71),
{
    if !alt_held {
        return false;
    }
    let mut i: usize = 0;
    while i < raw_syms.len()
        invariant
            alt_held,
            i <= raw_syms.len(),
            forall|k: int| 0 <= k < i ==> raw_syms@[k] != KEY_Q,
        decreases raw_syms.len() - i,
    {
        if raw_syms[i] == KEY_Q {
            proof {
                assert(raw_syms@[i as int] == KEY_Q);
                assert(raw_syms@.contains(KEY_Q));
            }
            return true;
        }
        i = i + 1;
    }
    false
}

} // verus!
