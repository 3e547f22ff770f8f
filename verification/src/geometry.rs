//! Shared identifiers and integer geometry used across the compositor.

use vstd::prelude::*;

verus! {

/// Identifier of a managed toplevel window.
#[derive(Debug, Clone, Copy, PartialEq, Eq, Hash, Structural)]
pub struct WindowId(pub u64);

/// Identifier of an output (monitor).
#[derive(Debug, Clone, Copy, PartialEq, Eq, Hash, Structural)]
pub struct OutputId(pub u64);

/// Identifier of a workspace.
#[derive(Debug, Clone, Copy, PartialEq, Eq, Hash, Structural)]
pub struct WorkspaceId(pub u64);

/// Axis-aligned rectangle in output-space pixels.
#[derive(Debug, Clone, Copy, PartialEq, Eq, Structural)]
pub struct Rect {
    pub x: i32,
    pub y: i32,
    pub width: i32,
    pub height: i32,
}

/// Cardinal direction for focus and move commands.
#[derive(Debug, Clone, Copy, PartialEq, Eq, Structural)]
pub enum Direction {
    Up,
    Down,
    Left,
    Right,
}

pub open spec fn min_int(a: int, b: int) -> int {
    if a <= b { a } else { b }
}

pub open spec fn max_int(a: int, b: int) -> int {
    if a >= b { a } else { b }
}

impl Rect {
    /// A rectangle covers no pixels when either extent is non-positive.
    pub open spec fn spec_is_empty(self) -> bool {
        self.width <= 0 || self.height <= 0
    }

    /// Right edge (exclusive), as a mathematical integer.
    pub open spec fn right(self) -> int {
        self.x + self.width
    }

    /// Bottom edge (exclusive), as a mathematical integer.
    pub open spec fn bottom(self) -> int {
        self.y + self.height
    }

    /// The bounding box of two non-empty rectangles can be represented with
    /// `i32` edges and extents.
    pub open spec fn union_fits(self, other: Rect) -> bool {
        let x0 = min_int(self.x as int, other.x as int);
        let y0 = min_int(self.y as int, other.y as int);
        let x1 = max_int(self.right(), other.right());
        let y1 = max_int(self.bottom(), other.bottom());
        &&& i32::MIN <= self.right() <= i32::MAX
        &&& i32::MIN <= other.right() <= i32::MAX
        &&& i32::MIN <= self.bottom() <= i32::MAX
        &&& i32::MIN <= other.bottom() <= i32::MAX
        &&& x1 - x0 <= i32::MAX
        &&& y1 - y0 <= i32::MAX
    }

    /// Union as `Rect::union` computes it: an empty operand yields the other
    /// operand, otherwise the bounding box of both.
    pub open spec fn spec_union(self, other: Rect) -> Rect {
        if self.spec_is_empty() {
            other
        } else if other.spec_is_empty() {
            self
        } else {
            let x0 = min_int(self.x as int, other.x as int);
            let y0 = min_int(self.y as int, other.y as int);
            let x1 = max_int(self.right(), other.right());
            let y1 = max_int(self.bottom(), other.bottom());
            Rect { x: x0 as i32, y: y0 as i32, width: (x1 - x0) as i32, height: (y1 - y0) as i32 }
        }
    }

    /// `self` covers every pixel of `inner`.
    pub open spec fn contains_rect(self, inner: Rect) -> bool {
        &&& self.x <= inner.x
        &&& self.y <= inner.y
        &&& inner.right() <= self.right()
        &&& inner.bottom() <= self.bottom()
    }

    /// Whether `union` can be called on these operands: an empty operand is
    /// always fine, two non-empty ones need an `i32` bounding box.
    pub fn union_in_range(&self, other: &Rect) -> (ok: bool)
        ensures
            ok == (!self.spec_is_empty() && !other.spec_is_empty() ==> self.union_fits(*other)),
    {
        if self.is_empty() || other.is_empty() {
            return true;
        }
        let r0: i64 = self.x as i64 + self.width as i64;
        let r1: i64 = other.x as i64 + other.width as i64;
        let b0: i64 = self.y as i64 + self.height as i64;
        let b1: i64 = other.y as i64 + other.height as i64;
        let x0: i64 = if self.x <= other.x { self.x as i64 } else { other.x as i64 };
        let y0: i64 = if self.y <= other.y { self.y as i64 } else { other.y as i64 };
        let x1: i64 = if r0 >= r1 { r0 } else { r1 };
        let y1: i64 = if b0 >= b1 { b0 } else { b1 };
        let min: i64 = i32::MIN as i64;
        let max: i64 = i32::MAX as i64;
        min <= r0 && r0 <= max && min <= r1 && r1 <= max && min <= b0 && b0 <= max && min <= b1
            && b1 <= max && x1 - x0 <= max && y1 - y0 <= max
    }

    pub fn new(x: i32, y: i32, width: i32, height: i32) -> (r: Rect)
        ensures
            r == (Rect { x, y, width, height }),
    {
        Rect { x, y, width, height }
    }

    pub fn is_empty(&self) -> (r: bool)
        ensures
            r == self.spec_is_empty(),
    {
        self.width <= 0 || self.height <= 0
    }

    pub fn union(&self, other: &Rect) -> (r: Rect)
        requires
            !self.spec_is_empty() && !other.spec_is_empty() ==> self.union_fits(*other),
        ensures
            r == self.spec_union(*other),
    {
        if self.is_empty() {
            return *other;
        }
        if other.is_empty() {
            return *self;
        }
        let x0: i32 = if self.x <= other.x { self.x } else { other.x };
        let y0: i32 = if self.y <= other.y { self.y } else { other.y };
        let r0: i32 = self.x + self.width;
        let r1: i32 = other.x + other.width;
        let b0: i32 = self.y + self.height;
        let b1: i32 = other.y + other.height;
        let x1: i32 = if r0 >= r1 { r0 } else { r1 };
        let y1: i32 = if b0 >= b1 { b0 } else { b1 };
        Rect::new(x0, y0, x1 - x0, y1 - y0)
    }
}

impl Default for Rect {
    fn default() -> (r: Rect)
        ensures
            r == (Rect { x: 0, y: 0, width: 0, height: 0 }),
    {
        Rect { x: 0, y: 0, width: 0, height: 0 }
    }
}

/// Unioning with an empty rectangle yields the other rectangle.
pub proof fn lemma_union_with_empty(a: Rect, b: Rect)
    ensures
        a.spec_is_empty() ==> a.spec_union(b) == b,
        b.spec_is_empty() && !a.spec_is_empty() ==> a.spec_union(b) == a,
{
}

/// The union of two non-empty rectangles covers both of them and is itself
/// non-empty.
pub proof fn lemma_union_covers_both(a: Rect, b: Rect)
    requires
        !a.spec_is_empty(),
        !b.spec_is_empty(),
        a.union_fits(b),
    ensures
        a.spec_union(b).contains_rect(a),
        a.spec_union(b).contains_rect(b),
        !a.spec_union(b).spec_is_empty(),
{
}

/// The union of two non-empty rectangles is the smallest rectangle covering
/// both: any rectangle that covers both covers their union.
pub proof fn lemma_union_is_least(a: Rect, b: Rect, c: Rect)
    requires
        !a.spec_is_empty(),
        !b.spec_is_empty(),
        a.union_fits(b),
        c.contains_rect(a),
        c.contains_rect(b),
    ensures
        c.contains_rect(a.spec_union(b)),
{
}

/// Union of non-empty rectangles does not depend on operand order.
pub proof fn lemma_union_commutative(a: Rect, b: Rect)
    requires
        !a.spec_is_empty(),
        !b.spec_is_empty(),
        a.union_fits(b),
    ensures
        b.union_fits(a),
        a.spec_union(b) == b.spec_union(a),
{
}

/// A rectangle unioned with itself is unchanged.
pub proof fn lemma_union_idempotent(a: Rect)
    requires
        i32::MIN <= a.right() <= i32::MAX,
        i32::MIN <= a.bottom() <= i32::MAX,
    ensures
        a.spec_union(a) == a,
{
}

/// Union of non-empty rectangles is associative, so damage accumulated over
/// several marks does not depend on how the marks are grouped.
pub proof fn lemma_union_associative(a: Rect, b: Rect, c: Rect)
    requires
        !a.spec_is_empty(),
        !b.spec_is_empty(),
        !c.spec_is_empty(),
        a.union_fits(b),
        b.union_fits(c),
        a.spec_union(b).union_fits(c),
        a.union_fits(b.spec_union(c)),
    ensures
        a.spec_union(b).spec_union(c) == a.spec_union(b.spec_union(c)),
{
}

} // verus!
