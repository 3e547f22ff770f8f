//! Per-frame damage and surface-queue state: damage unioning and the
//! present/skip decision. No GPU work happens here; a backend only touches
//! the GPU once `PendingFrame::take_submission` hands it a submission.

use vstd::prelude::*;

use crate::geometry::Rect;
use crate::render::{FrameToken, SurfaceHandle};

verus! {

/// A surface queued for compositing within one frame.
#[derive(Debug, Clone, Copy, PartialEq, Eq, Structural)]
pub struct QueuedSurface {
    pub handle: SurfaceHandle,
    pub geometry: Rect,
    pub z: u32,
}

/// Damage accumulated by a frame, together with the regions marked so far;
/// the damage is always the left fold of the marked regions by union.
struct DamageLog {
    damage: Option<Rect>,
    marked: Ghost<Seq<Rect>>,
}

impl DamageLog {
    #[verifier::type_invariant]
    spec fn damage_is_fold(self) -> bool {
        self.damage == fold_damage(self.marked@)
    }
}

/// The frame a backend is currently assembling.
pub struct PendingFrame {
    token: FrameToken,
    log: DamageLog,
    queue: Vec<QueuedSurface>,
}

/// A frame approved for GPU submission, front-to-back (highest `z` first).
#[derive(Debug)]
pub struct FrameSubmission {
    pub damage: Rect,
    pub queue: Vec<QueuedSurface>,
}

/// Abstract state of a pending frame: its token, its accumulated damage,
/// the regions marked so far (in order), and the queued surfaces.
pub struct PendingFrameView {
    pub token: FrameToken,
    pub damage: Option<Rect>,
    pub marked: Seq<Rect>,
    pub queue: Seq<QueuedSurface>,
}

impl View for PendingFrame {
    type V = PendingFrameView;

    closed spec fn view(&self) -> PendingFrameView {
        PendingFrameView {
            token: self.token,
            damage: self.log.damage,
            marked: self.log.marked@,
            queue: self.queue@,
        }
    }
}

/// Damage after unioning `region` into the accumulated `pending` damage.
pub open spec fn spec_union_damage(pending: Option<Rect>, region: Rect) -> Rect {
    match pending {
        Some(current) => current.spec_union(region),
        None => region,
    }
}

/// Damage accumulated by marking `regions` in order: nothing for no region,
/// otherwise the first region unioned with each later one in turn.
pub open spec fn fold_damage(regions: Seq<Rect>) -> Option<Rect>
    decreases regions.len(),
{
    if regions.len() == 0 {
        None
    } else {
        Some(spec_union_damage(fold_damage(regions.drop_last()), regions.last()))
    }
}

/// Marking one more region unions it into the fold of the earlier ones; no
/// region marked is exactly no damage.
pub proof fn lemma_fold_damage_push(regions: Seq<Rect>, region: Rect)
    ensures
        fold_damage(regions.push(region)) == Some(spec_union_damage(fold_damage(regions), region)),
        fold_damage(regions) is None <==> regions.len() == 0,
{
    assert(regions.push(region).drop_last() =~= regions);
}

/// Unioning `region` into `pending` stays within `i32` coordinates.
pub open spec fn damage_fits(pending: Option<Rect>, region: Rect) -> bool {
    match pending {
        Some(current) => !current.spec_is_empty() && !region.spec_is_empty()
            ==> current.union_fits(region),
        None => true,
    }
}

/// Whether `union_damage` can be called on these operands.
pub fn damage_in_range(pending: Option<Rect>, region: Rect) -> (ok: bool)
    ensures
        ok == damage_fits(pending, region),
{
    match pending {
        Some(current) => current.union_in_range(&region),
        None => true,
    }
}

/// Union a dirty region into accumulated damage (the first region is taken
/// as is).
pub fn union_damage(pending: Option<Rect>, region: Rect) -> (r: Rect)
    requires
        damage_fits(pending, region),
    ensures
        r == spec_union_damage(pending, region),
{
    match pending {
        Some(current) => current.union(&region),
        None => region,
    }
}

/// Predicate selecting the queue entries at depth `z`.
pub open spec fn at_depth(z: u32) -> spec_fn(QueuedSurface) -> bool {
    |entry: QueuedSurface| entry.z == z
}

/// Entries are ordered front-to-back: `z` never increases along the queue.
pub open spec fn is_front_to_back(queue: Seq<QueuedSurface>) -> bool {
    forall|i: int, j: int| 0 <= i < j < queue.len() ==> #[trigger] queue[i].z >= #[trigger] queue[j].z
}

/// `out` is `queue` ordered front-to-back, with entries of equal depth kept
/// in their queueing order (a stable sort by descending `z`).
pub open spec fn front_to_back_of(out: Seq<QueuedSurface>, queue: Seq<QueuedSurface>) -> bool {
    &&& is_front_to_back(out)
    &&& forall|z: u32| #[trigger] out.filter(at_depth(z)) == queue.filter(at_depth(z))
}

/// Inserting `entry` right after the entries of depth >= `entry.z` keeps the
/// queue front-to-back.
proof fn lemma_insert_sorted(out: Seq<QueuedSurface>, entry: QueuedSurface, pos: int)
    requires
        is_front_to_back(out),
        0 <= pos <= out.len(),
        forall|k: int| 0 <= k < pos ==> #[trigger] out[k].z >= entry.z,
        pos < out.len() ==> out[pos].z < entry.z,
    ensures
        is_front_to_back(out.insert(pos, entry)),
{
    let next = out.insert(pos, entry);
    assert forall|i: int, j: int| 0 <= i < j < next.len() implies #[trigger] next[i].z >= #[trigger] next[j].z by {
        if j < pos {
            assert(next[i] == out[i] && next[j] == out[j]);
        } else if j == pos {
            assert(next[i] == out[i]);
        } else if i < pos {
            assert(next[i] == out[i] && next[j] == out[j - 1]);
        } else if i == pos {
            assert(next[j] == out[j - 1]);
            assert(out[pos].z >= out[j - 1].z);
        } else {
            assert(next[i] == out[i - 1] && next[j] == out[j - 1]);
        }
    }
}

/// Inserting `entry` after every entry of its own depth keeps each depth
/// class equal to that of the queue extended by `entry`.
proof fn lemma_insert_filters(
    out: Seq<QueuedSurface>,
    queue: Seq<QueuedSurface>,
    entry: QueuedSurface,
    pos: int,
)
    requires
        is_front_to_back(out),
        forall|z: u32| #[trigger] out.filter(at_depth(z)) == queue.filter(at_depth(z)),
        0 <= pos <= out.len(),
        pos < out.len() ==> out[pos].z < entry.z,
    ensures
        forall|z: u32| #[trigger] out.insert(pos, entry).filter(at_depth(z)) == queue.push(entry).filter(at_depth(z)),
{
    let next = out.insert(pos, entry);
    let front = out.subrange(0, pos);
    let back = out.subrange(pos, out.len() as int);
    assert(out =~= front + back);
    assert(next =~= front.push(entry) + back);
    assert forall|z: u32| #[trigger] next.filter(at_depth(z)) == queue.push(entry).filter(at_depth(z)) by {
        let p = at_depth(z);
        Seq::filter_distributes_over_add(front, back, p);
        Seq::filter_distributes_over_add(front.push(entry), back, p);
        front.lemma_filter_push(entry, p);
        queue.lemma_filter_push(entry, p);
        if z == entry.z {
            assert forall|k: int| 0 <= k < back.len() implies !p(#[trigger] back[k]) by {
                assert(back[k] == out[pos + k]);
                assert(out[pos].z >= out[pos + k].z);
            }
            if back.filter(p).len() > 0 {
                back.lemma_filter_pred(p, 0);
                let e = back.filter(p)[0];
                assert(back.filter(p).contains(e));
                back.lemma_filter_contains_rev(p, e);
                let k = choose|k: int| 0 <= k < back.len() && back[k] == e;
                assert(!p(back[k]));
            }
            assert(back.filter(p) =~= Seq::<QueuedSurface>::empty());
        }
    }
}

/// An entry of depth `z` in `s` makes the depth-`z` class of `s` non-empty,
/// and a non-empty depth class has an entry of that depth in `s`.
proof fn lemma_depth_class_nonempty(s: Seq<QueuedSurface>, z: u32)
    ensures
        (exists|k: int| 0 <= k < s.len() && #[trigger] s[k].z == z) <==> s.filter(at_depth(z)).len() > 0,
{
    let p = at_depth(z);
    if exists|k: int| 0 <= k < s.len() && #[trigger] s[k].z == z {
        let k = choose|k: int| 0 <= k < s.len() && #[trigger] s[k].z == z;
        s.lemma_filter_contains(p, k);
    }
    if s.filter(p).len() > 0 {
        s.lemma_filter_pred(p, 0);
        let e = s.filter(p)[0];
        assert(s.filter(p).contains(e));
        s.lemma_filter_contains_rev(p, e);
        let k = choose|k: int| 0 <= k < s.len() && s[k] == e;
        assert(s[k].z == z);
    }
}

/// The front-to-back order of a queue is unique: two orders that are both
/// front-to-back and keep every depth class of the same queue are equal.
pub proof fn lemma_front_to_back_unique(a: Seq<QueuedSurface>, b: Seq<QueuedSurface>, queue: Seq<QueuedSurface>)
    requires
        front_to_back_of(a, queue),
        front_to_back_of(b, queue),
    ensures
        a == b,
    decreases a.len() + b.len(),
{
    if a.len() == 0 && b.len() == 0 {
        assert(a =~= b);
    } else if a.len() == 0 {
        lemma_depth_class_nonempty(b, b[0].z);
        lemma_depth_class_nonempty(a, b[0].z);
        assert(b.filter(at_depth(b[0].z)) == queue.filter(at_depth(b[0].z)));
    } else if b.len() == 0 {
        lemma_depth_class_nonempty(a, a[0].z);
        lemma_depth_class_nonempty(b, a[0].z);
        assert(a.filter(at_depth(a[0].z)) == queue.filter(at_depth(a[0].z)));
    } else {
        let za = a[0].z;
        let zb = b[0].z;
        assert(a.filter(at_depth(za)) == queue.filter(at_depth(za)));
        assert(b.filter(at_depth(za)) == queue.filter(at_depth(za)));
        assert(a.filter(at_depth(zb)) == queue.filter(at_depth(zb)));
        assert(b.filter(at_depth(zb)) == queue.filter(at_depth(zb)));
        lemma_depth_class_nonempty(a, za);
        lemma_depth_class_nonempty(b, za);
        lemma_depth_class_nonempty(a, zb);
        lemma_depth_class_nonempty(b, zb);
        let kb = choose|k: int| 0 <= k < b.len() && #[trigger] b[k].z == za;
        assert(b[0].z >= b[kb].z);
        let ka = choose|k: int| 0 <= k < a.len() && #[trigger] a[k].z == zb;
        assert(a[0].z >= a[ka].z);
        assert(za == zb);
        let ta = a.drop_first();
        let tb = b.drop_first();
        assert(a =~= seq![a[0]] + ta);
        assert(b =~= seq![b[0]] + tb);
        ta.lemma_filter_prepend(a[0], at_depth(za));
        tb.lemma_filter_prepend(b[0], at_depth(za));
        assert(a.filter(at_depth(za))[0] == a[0]);
        assert(b.filter(at_depth(za))[0] == b[0]);
        assert(a[0] == b[0]);
        assert forall|z: u32| #[trigger] ta.filter(at_depth(z)) == tb.filter(at_depth(z)) by {
            ta.lemma_filter_prepend(a[0], at_depth(z));
            tb.lemma_filter_prepend(b[0], at_depth(z));
            assert(a.filter(at_depth(z)) == queue.filter(at_depth(z)));
            assert(b.filter(at_depth(z)) == queue.filter(at_depth(z)));
            if z == za {
                assert(ta.filter(at_depth(z)) =~= a.filter(at_depth(z)).drop_first());
                assert(tb.filter(at_depth(z)) =~= b.filter(at_depth(z)).drop_first());
            } else {
                assert(ta.filter(at_depth(z)) =~= a.filter(at_depth(z)));
                assert(tb.filter(at_depth(z)) =~= b.filter(at_depth(z)));
            }
        }
        assert(is_front_to_back(ta)) by {
            assert forall|i: int, j: int| 0 <= i < j < ta.len() implies #[trigger] ta[i].z >= #[trigger] ta[j].z by {
                assert(ta[i] == a[i + 1] && ta[j] == a[j + 1]);
            }
        }
        assert(is_front_to_back(tb)) by {
            assert forall|i: int, j: int| 0 <= i < j < tb.len() implies #[trigger] tb[i].z >= #[trigger] tb[j].z by {
                assert(tb[i] == b[i + 1] && tb[j] == b[j + 1]);
            }
        }
        lemma_front_to_back_unique(ta, tb, tb);
        assert(a =~= b);
    }
}

/// Stable sort of the queue by descending `z`.
pub fn sort_front_to_back(queue: &Vec<QueuedSurface>) -> (out: Vec<QueuedSurface>)
    ensures
        front_to_back_of(out@, queue@),
{
    let mut out: Vec<QueuedSurface> = Vec::new();
    let mut i: usize = 0;
    proof {
        assert(out@ =~= queue@.take(0));
    }
    while i < queue.len()
        invariant
            i <= queue.len(),
            front_to_back_of(out@, queue@.take(i as int)),
        decreases queue.len() - i,
    {
        let entry = queue[i];
        let mut pos: usize = 0;
        while pos < out.len() && out[pos].z >= entry.z
            invariant
                pos <= out.len(),
                forall|k: int| 0 <= k < pos ==> #[trigger] out@[k].z >= entry.z,
            decreases out.len() - pos,
        {
            pos = pos + 1;
        }
        proof {
            lemma_insert_sorted(out@, entry, pos as int);
            lemma_insert_filters(out@, queue@.take(i as int), entry, pos as int);
            assert(queue@.take(i as int).push(entry) == queue@.take(i + 1));
        }
        out.insert(pos, entry);
        i = i + 1;
    }
    proof {
        assert(queue@.take(queue.len() as int) == queue@);
    }
    out
}

impl PendingFrame {
    pub fn new(token: FrameToken) -> (frame: PendingFrame)
        ensures
            frame@.token == token,
            frame@.damage is None,
            frame@.marked == Seq::<Rect>::empty(),
            frame@.queue == Seq::<QueuedSurface>::empty(),
    {
        PendingFrame {
            token,
            log: DamageLog { damage: None, marked: Ghost(Seq::empty()) },
            queue: Vec::new(),
        }
    }

    pub fn token(&self) -> (token: FrameToken)
        ensures
            token == self@.token,
    {
        self.token
    }

    /// Union a dirty region into this frame's damage.
    pub fn mark_damage(&mut self, region: Rect)
        requires
            damage_fits(old(self)@.damage, region),
        ensures
            final(self)@.token == old(self)@.token,
            final(self)@.damage == Some(spec_union_damage(old(self)@.damage, region)),
            final(self)@.marked == old(self)@.marked.push(region),
            final(self)@.damage == fold_damage(final(self)@.marked),
            final(self)@.queue == old(self)@.queue,
    {
        proof {
            use_type_invariant(&self.log);
            lemma_fold_damage_push(self.log.marked@, region);
        }
        let damage = union_damage(self.log.damage, region);
        self.log = DamageLog { damage: Some(damage), marked: Ghost(self.log.marked@.push(region)) };
    }

    /// Queue a surface for compositing. No GPU work happens here.
    pub fn push(&mut self, handle: SurfaceHandle, geometry: Rect, z: u32)
        ensures
            final(self)@.token == old(self)@.token,
            final(self)@.damage == old(self)@.damage,
            final(self)@.marked == old(self)@.marked,
            final(self)@.queue == old(self)@.queue.push((QueuedSurface { handle, geometry, z })),
    {
        self.queue.push(QueuedSurface { handle, geometry, z });
    }

    /// Consume the frame. Returns `None` when no damage was ever marked: the
    /// caller must then skip all GPU work (idle-frame suppression). Otherwise
    /// the damage is the union of every marked region, folded left. The queue
    /// comes out front-to-back (highest `z` first), entries of equal `z` in
    /// queueing order.
    pub fn take_submission(self) -> (submission: Option<FrameSubmission>)
        ensures
            submission is None <==> self@.damage is None,
            submission is None <==> self@.marked.len() == 0,
            submission matches Some(sub) ==> {
                &&& self@.damage == Some(sub.damage)
                &&& fold_damage(self@.marked) == Some(sub.damage)
                &&& front_to_back_of(sub.queue@, self@.queue)
            },
    {
        proof {
            use_type_invariant(&self.log);
            if self.log.marked@.len() > 0 {
                assert(self.log.marked@ =~= self.log.marked@.drop_last().push(self.log.marked@.last()));
                lemma_fold_damage_push(self.log.marked@.drop_last(), self.log.marked@.last());
            }
        }
        match self.log.damage {
            None => None,
            Some(damage) => {
                let queue = sort_front_to_back(&self.queue);
                Some(FrameSubmission { damage, queue })
            },
        }
    }
}

/// What a backend must do with a frame it was asked to present.
#[derive(Debug)]
pub enum FrameDecision {
    /// Composite and submit this frame on the GPU.
    Submit(FrameSubmission),
    /// No damage was marked: skip all GPU work.
    SkipNoDamage,
    /// The token does not name the open frame: present fails.
    UnknownToken,
}

/// Frame bookkeeping of a render backend: at most one open frame at a time,
/// identified by a token drawn from an increasing counter.
pub struct FrameDriver {
    frame: Option<PendingFrame>,
    next_token: u64,
}

impl FrameDriver {
    /// The frame currently open, if any.
    pub closed spec fn open_frame(&self) -> Option<PendingFrameView> {
        match self.frame {
            Some(frame) => Some(frame@),
            None => None,
        }
    }

    /// The token the next `begin_frame` hands out.
    pub closed spec fn spec_next_token(&self) -> u64 {
        self.next_token
    }

    /// Whether `token` names the open frame.
    pub open spec fn is_open(&self, token: FrameToken) -> bool {
        self.open_frame() matches Some(f) && f.token == token
    }

    pub fn new() -> (driver: FrameDriver)
        ensures
            driver.open_frame() is None,
            driver.spec_next_token() == 0,
    {
        FrameDriver { frame: None, next_token: 0 }
    }

    /// Whether the token counter is used up, so that `begin_frame` cannot
    /// hand out a fresh token.
    pub fn tokens_exhausted(&self) -> (exhausted: bool)
        ensures
            exhausted == (self.spec_next_token() == u64::MAX),
    {
        self.next_token == u64::MAX
    }

    /// Whether `mark_damage(frame, region)` can be called: the frame named by
    /// `frame`, if it is the open one, can absorb `region`.
    pub fn damage_in_range(&self, frame: FrameToken, region: Rect) -> (ok: bool)
        ensures
            ok == (self.is_open(frame) ==> damage_fits(self.open_frame()->Some_0.damage, region)),
    {
        match &self.frame {
            Some(open) => open.token().0 != frame.0 || damage_in_range(open.log.damage, region),
            None => true,
        }
    }

    /// Whether a frame is open (beginning another one drops it).
    pub fn has_open_frame(&self) -> (open: bool)
        ensures
            open == self.open_frame() is Some,
    {
        self.frame.is_some()
    }

    /// Open a new, empty frame under a fresh token, dropping any open one.
    pub fn begin_frame(&mut self) -> (token: FrameToken)
        requires
            old(self).spec_next_token() < u64::MAX,
        ensures
            token == FrameToken(old(self).spec_next_token()),
            final(self).spec_next_token() == old(self).spec_next_token() + 1,
            final(self).open_frame() matches Some(f) && f.token == token && f.damage is None
                && f.marked == Seq::<Rect>::empty() && f.queue == Seq::<QueuedSurface>::empty(),
    {
        let token = FrameToken(self.next_token);
        self.next_token = self.next_token + 1;
        self.frame = Some(PendingFrame::new(token));
        token
    }

    /// Mark damage on the open frame if `frame` names it; returns whether it
    /// did (an unknown token changes nothing).
    pub fn mark_damage(&mut self, frame: FrameToken, region: Rect) -> (marked: bool)
        requires
            old(self).is_open(frame) ==> damage_fits(old(self).open_frame()->Some_0.damage, region),
        ensures
            marked == old(self).is_open(frame),
            final(self).spec_next_token() == old(self).spec_next_token(),
            marked ==> (final(self).open_frame() matches Some(f) && f.token == frame
                && f.damage == Some(spec_union_damage(old(self).open_frame()->Some_0.damage, region))
                && f.marked == old(self).open_frame()->Some_0.marked.push(region)
                && f.queue == old(self).open_frame()->Some_0.queue),
            !marked ==> final(self).open_frame() == old(self).open_frame(),
    {
        match self.frame.take() {
            Some(mut open) => {
                if open.token().0 == frame.0 {
                    open.mark_damage(region);
                    self.frame = Some(open);
                    true
                } else {
                    self.frame = Some(open);
                    false
                }
            },
            None => false,
        }
    }

    /// Queue a surface on the open frame if `frame` names it; returns whether
    /// it did (an unknown token changes nothing).
    pub fn composite_surface(
        &mut self,
        frame: FrameToken,
        surface: SurfaceHandle,
        geometry: Rect,
        z: u32,
    ) -> (queued: bool)
        ensures
            queued == old(self).is_open(frame),
            final(self).spec_next_token() == old(self).spec_next_token(),
            queued ==> (final(self).open_frame() matches Some(f) && f.token == frame
                && f.damage == old(self).open_frame()->Some_0.damage
                && f.marked == old(self).open_frame()->Some_0.marked
                && f.queue == old(self).open_frame()->Some_0.queue.push(
                    (QueuedSurface { handle: surface, geometry, z }),
                )),
            !queued ==> final(self).open_frame() == old(self).open_frame(),
    {
        match self.frame.take() {
            Some(mut open) => {
                if open.token().0 == frame.0 {
                    open.push(surface, geometry, z);
                    self.frame = Some(open);
                    true
                } else {
                    self.frame = Some(open);
                    false
                }
            },
            None => false,
        }
    }

    /// Close the open frame and decide what presenting it takes: the open
    /// frame is consumed whatever the token.
    pub fn finish(&mut self, frame: FrameToken) -> (decision: FrameDecision)
        ensures
            final(self).open_frame() is None,
            final(self).spec_next_token() == old(self).spec_next_token(),
            !old(self).is_open(frame) <==> decision is UnknownToken,
            old(self).is_open(frame) ==> {
                let f = old(self).open_frame()->Some_0;
                &&& (decision is SkipNoDamage <==> f.damage is None)
                &&& (decision is SkipNoDamage <==> f.marked.len() == 0)
                &&& decision matches FrameDecision::Submit(sub) ==> f.damage == Some(sub.damage)
                    && fold_damage(f.marked) == Some(sub.damage)
                    && front_to_back_of(sub.queue@, f.queue)
            },
    {
        match self.frame.take() {
            Some(open) => {
                if open.token().0 == frame.0 {
                    match open.take_submission() {
                        Some(sub) => FrameDecision::Submit(sub),
                        None => FrameDecision::SkipNoDamage,
                    }
                } else {
                    FrameDecision::UnknownToken
                }
            },
            None => FrameDecision::UnknownToken,
        }
    }
}

} // verus!
