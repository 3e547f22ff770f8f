//! The owning root for window lifecycle records, focus order, and placement
//! state. The compositor keeps one lifecycle record per mapped window, stored
//! under the window's id; the live scene mirrors the same windows.
//!
//! A record carries the client surface of its window as an opaque value of
//! type `S`; the bookkeeping here never looks inside it, except to compare
//! surfaces when a record is looked up by surface.

use std::collections::HashMap;

use vstd::prelude::*;
use vstd::std_specs::cmp::PartialEqSpec;
use vstd::std_specs::iter::IteratorSpec;

use crate::geometry::{OutputId, Rect, WindowId, WorkspaceId};
use crate::window::{WindowMode, cascade_offset, spec_cascade_offset};

verus! {

broadcast use vstd::std_specs::hash::group_hash_axioms;

/// Lifecycle record for one managed window.
#[derive(Debug, Clone)]
pub struct WindowState<S> {
    pub id: WindowId,
    pub surface: S,
    pub mode: WindowMode,
}

pub struct WorkspaceState;

pub struct OutputState;

/// Every record is stored under the raw value of its own id.
pub open spec fn keyed_by_id<S>(records: Map<u64, WindowState<S>>) -> bool {
    forall|k: u64| #[trigger] records.contains_key(k) ==> records[k].id.0 == k
}

/// Some record has id `id`.
pub open spec fn has_id<S>(records: Map<u64, WindowState<S>>, id: WindowId) -> bool {
    records.contains_key(id.0)
}

/// The record with id `id`, if any.
pub open spec fn lookup<S>(records: Map<u64, WindowState<S>>, id: WindowId) -> Option<WindowState<S>> {
    if records.contains_key(id.0) {
        Some(records[id.0])
    } else {
        None
    }
}

/// Lifecycle records keyed by window id.
#[derive(Debug)]
pub struct WindowTable<S> {
    records: HashMap<u64, WindowState<S>>,
}

impl<S> View for WindowTable<S> {
    type V = Map<u64, WindowState<S>>;

    closed spec fn view(&self) -> Map<u64, WindowState<S>> {
        self.records@
    }
}

impl<S> WindowTable<S> {
    pub open spec fn wf(&self) -> bool {
        keyed_by_id(self@)
    }

    pub fn new() -> (table: WindowTable<S>)
        ensures
            table.wf(),
            table@ == Map::<u64, WindowState<S>>::empty(),
    {
        WindowTable { records: HashMap::new() }
    }

    /// Number of records.
    pub fn len(&self) -> (n: usize)
        ensures
            n == self@.len(),
    {
        self.records.len()
    }

    /// Whether a record with id `id` exists.
    pub fn contains(&self, id: WindowId) -> (present: bool)
        ensures
            present == has_id(self@, id),
    {
        self.records.contains_key(&id.0)
    }

    /// The record with id `id`, if any.
    pub fn get(&self, id: WindowId) -> (record: Option<&WindowState<S>>)
        ensures
            match record {
                Some(r) => lookup(self@, id) == Some(*r),
                None => lookup(self@, id) is None,
            },
    {
        self.records.get(&id.0)
    }

    /// Insert a record under its id, replacing the record with the same id
    /// if there is one (which is returned).
    pub fn insert(&mut self, record: WindowState<S>) -> (replaced: Option<WindowState<S>>)
        requires
            old(self).wf(),
        ensures
            final(self).wf(),
            final(self)@ == old(self)@.insert(record.id.0, record),
            replaced == lookup(old(self)@, record.id),
    {
        let key: u64 = record.id.0;
        self.records.insert(key, record)
    }

    /// Remove the record with id `id`, returning it.
    pub fn remove(&mut self, id: WindowId) -> (removed: Option<WindowState<S>>)
        requires
            old(self).wf(),
        ensures
            final(self).wf(),
            final(self)@ == old(self)@.remove(id.0),
            removed == lookup(old(self)@, id),
    {
        self.records.remove(&id.0)
    }

    /// Set the mode of the record with id `id`; returns whether it exists.
    pub fn set_mode(&mut self, id: WindowId, mode: WindowMode) -> (updated: bool)
        requires
            old(self).wf(),
        ensures
            final(self).wf(),
            updated == has_id(old(self)@, id),
            updated ==> final(self)@ == old(self)@.insert(id.0, (WindowState { mode, ..old(self)@[id.0] })),
            !updated ==> final(self)@ == old(self)@,
    {
        match self.records.remove(&id.0) {
            Some(record) => {
                let updated = WindowState { id: record.id, surface: record.surface, mode };
                self.records.insert(id.0, updated);
                proof {
                    assert(self@ =~= old(self)@.insert(id.0, WindowState { mode, ..old(self)@[id.0] }));
                }
                true
            },
            None => false,
        }
    }
}

/// Predicate keeping every window but `id`.
pub open spec fn other_than(id: WindowId) -> spec_fn(WindowId) -> bool {
    |k: WindowId| k != id
}

/// Focus order after focusing `id`: `id` moves to the front, the others keep
/// their order, and `id` appears once.
pub open spec fn focus_order_after_focus(stack: Seq<WindowId>, id: WindowId) -> Seq<WindowId> {
    seq![id] + stack.filter(other_than(id))
}

/// Focus order after forgetting `id`: every other window keeps its place.
pub open spec fn focus_order_after_forget(stack: Seq<WindowId>, id: WindowId) -> Seq<WindowId> {
    stack.filter(other_than(id))
}

/// Most recently focused window of a focus order.
pub open spec fn front_of(stack: Seq<WindowId>) -> Option<WindowId> {
    if stack.len() == 0 {
        None
    } else {
        Some(stack[0])
    }
}

/// Focus bookkeeping is consistent: the focus order has no duplicates and
/// the focused window is its front (nothing focused iff the order is empty).
pub open spec fn focus_consistent(stack: Seq<WindowId>, focused: Option<WindowId>) -> bool {
    &&& stack.no_duplicates()
    &&& focused == front_of(stack)
}

/// Focus after forgetting `id`: if `id` had focus, focus falls back to the
/// front of the remaining order; otherwise it stays.
pub open spec fn focus_after_forget(
    stack: Seq<WindowId>,
    focused: Option<WindowId>,
    id: WindowId,
) -> Option<WindowId> {
    if focused == Some(id) {
        front_of(focus_order_after_forget(stack, id))
    } else {
        focused
    }
}

/// A sequence whose elements all pass `p` is its own filter.
proof fn lemma_filter_keeps_all<A>(s: Seq<A>, p: spec_fn(A) -> bool)
    requires
        forall|i: int| 0 <= i < s.len() ==> p(#[trigger] s[i]),
    ensures
        s.filter(p) == s,
    decreases s.len(),
{
    if s.len() == 0 {
        assert(s.filter(p) =~= s) by {
            reveal(Seq::filter);
        }
    } else {
        let init = s.drop_last();
        lemma_filter_keeps_all(init, p);
        init.lemma_filter_push(s.last(), p);
        assert(init.push(s.last()) =~= s);
    }
}

/// Filtering a sequence without duplicates leaves none.
proof fn lemma_filter_no_duplicates<A>(s: Seq<A>, p: spec_fn(A) -> bool)
    requires
        s.no_duplicates(),
    ensures
        s.filter(p).no_duplicates(),
    decreases s.len(),
{
    if s.len() == 0 {
        assert(s.filter(p) =~= s) by {
            reveal(Seq::filter);
        }
    } else {
        let init = s.drop_last();
        let x = s.last();
        assert(init.no_duplicates()) by {
            assert forall|i: int, j: int| 0 <= i < init.len() && 0 <= j < init.len() && i != j
                implies init[i] != init[j] by {
                assert(init[i] == s[i] && init[j] == s[j]);
            }
        }
        lemma_filter_no_duplicates(init, p);
        init.lemma_filter_push(x, p);
        assert(init.push(x) =~= s);
        if p(x) {
            let f = init.filter(p);
            assert(!f.contains(x)) by {
                if f.contains(x) {
                    init.lemma_filter_contains_rev(p, x);
                    let k = choose|k: int| 0 <= k < init.len() && init[k] == x;
                    assert(s[k] == s[s.len() - 1]);
                }
            }
            assert forall|i: int, j: int|
                0 <= i < f.push(x).len() && 0 <= j < f.push(x).len() && i != j implies f.push(x)[i]
                != f.push(x)[j] by {
                if i < f.len() && j < f.len() {
                } else if i < f.len() {
                    assert(f.contains(f[i]));
                } else {
                    assert(f.contains(f[j]));
                }
            }
        }
    }
}

/// Focus bookkeeping stays consistent when a window is focused.
pub proof fn lemma_focus_keeps_consistent(stack: Seq<WindowId>, focused: Option<WindowId>, id: WindowId)
    requires
        focus_consistent(stack, focused),
    ensures
        focus_consistent(focus_order_after_focus(stack, id), Some(id)),
{
    let rest = stack.filter(other_than(id));
    lemma_filter_no_duplicates(stack, other_than(id));
    let out = focus_order_after_focus(stack, id);
    assert forall|i: int, j: int| 0 <= i < out.len() && 0 <= j < out.len() && i != j implies out[i]
        != out[j] by {
        if i == 0 || j == 0 {
            let k = if i == 0 { j } else { i };
            assert(out[k] == rest[k - 1]);
            stack.lemma_filter_pred(other_than(id), k - 1);
        } else {
            assert(out[i] == rest[i - 1] && out[j] == rest[j - 1]);
        }
    }
}

/// Focus bookkeeping stays consistent when a window is forgotten.
pub proof fn lemma_forget_keeps_consistent(stack: Seq<WindowId>, focused: Option<WindowId>, id: WindowId)
    requires
        focus_consistent(stack, focused),
    ensures
        focus_consistent(focus_order_after_forget(stack, id), focus_after_forget(stack, focused, id)),
{
    lemma_filter_no_duplicates(stack, other_than(id));
    let rest = focus_order_after_forget(stack, id);
    if focused != Some(id) && stack.len() > 0 {
        let tail = stack.drop_first();
        assert(stack =~= seq![stack[0]] + tail);
        tail.lemma_filter_prepend(stack[0], other_than(id));
        assert(rest[0] == stack[0]);
    } else if stack.len() == 0 {
        assert(rest =~= stack) by {
            reveal(Seq::filter);
        }
    }
}

/// Focusing a window and then forgetting it leaves every other window's
/// focus order exactly as forgetting it directly would.
pub proof fn lemma_focus_then_forget(stack: Seq<WindowId>, id: WindowId)
    ensures
        focus_order_after_forget(focus_order_after_focus(stack, id), id) == focus_order_after_forget(
            stack,
            id,
        ),
{
    let rest = stack.filter(other_than(id));
    rest.lemma_filter_prepend(id, other_than(id));
    assert forall|i: int| 0 <= i < rest.len() implies (other_than(id))(#[trigger] rest[i]) by {
        stack.lemma_filter_pred(other_than(id), i);
    }
    lemma_filter_keeps_all(rest, other_than(id));
    assert(Seq::<WindowId>::empty() + rest =~= rest);
}

/// Focusing the same window twice is the same as focusing it once.
pub proof fn lemma_focus_idempotent(stack: Seq<WindowId>, id: WindowId)
    ensures
        focus_order_after_focus(focus_order_after_focus(stack, id), id) == focus_order_after_focus(
            stack,
            id,
        ),
{
    lemma_focus_then_forget(stack, id);
}

/// Forgetting a window that is not in the focus order changes nothing.
pub proof fn lemma_forget_unknown(stack: Seq<WindowId>, focused: Option<WindowId>, id: WindowId)
    requires
        !stack.contains(id),
        focus_consistent(stack, focused),
    ensures
        focus_order_after_forget(stack, id) == stack,
        focus_after_forget(stack, focused, id) == focused,
{
    assert forall|i: int| 0 <= i < stack.len() implies (other_than(id))(#[trigger] stack[i]) by {
        assert(stack.contains(stack[i]));
    }
    lemma_filter_keeps_all(stack, other_than(id));
}

/// Forgetting the focused window hands focus to the window focused just
/// before it, or to nothing when it was the only one.
pub proof fn lemma_forget_falls_back_to_previous(stack: Seq<WindowId>, id: WindowId)
    requires
        focus_consistent(stack, Some(id)),
    ensures
        focus_after_forget(stack, Some(id), id) == (if stack.len() >= 2 {
            Some(stack[1])
        } else {
            None::<WindowId>
        }),
{
    let tail = stack.drop_first();
    assert(stack =~= seq![id] + tail);
    tail.lemma_filter_prepend(id, other_than(id));
    assert forall|i: int| 0 <= i < tail.len() implies (other_than(id))(#[trigger] tail[i]) by {
        assert(tail[i] == stack[i + 1]);
    }
    lemma_filter_keeps_all(tail, other_than(id));
    assert(Seq::<WindowId>::empty() + tail =~= tail);
}

/// Ids of the tiled records, strictly ascending by id (mapping order).
pub open spec fn is_tiled_order<S>(ids: Seq<WindowId>, records: Map<u64, WindowState<S>>) -> bool {
    &&& forall|i: int, j: int| 0 <= i < j < ids.len() ==> (#[trigger] ids[i]).0 < (#[trigger] ids[j]).0
    &&& forall|id: WindowId| #[trigger] ids.contains(id) <==> records.contains_key(id.0) && records[id.0].id == id
        && records[id.0].mode == WindowMode::Tiled
}


/// The ownership root for windows, workspaces, and outputs.
pub struct CompositorState<S> {
    pub windows: WindowTable<S>,
    pub workspaces: HashMap<WorkspaceId, WorkspaceState>,
    pub outputs: HashMap<OutputId, OutputState>,
    /// Most-recent-first focus order; the front is keyboard-focus fallback.
    pub focus_stack: Vec<WindowId>,
    /// Currently focused window, if any.
    pub focused: Option<WindowId>,
    next_window_id: u64,
    next_workspace_id: u64,
    next_output_id: u64,
    placement_seed: u64,
}

impl<S> CompositorState<S> {
    /// Lifecycle records, keyed by raw window id.
    pub closed spec fn spec_windows(&self) -> Map<u64, WindowState<S>> {
        self.windows@
    }

    /// Focus order, most recent first.
    pub closed spec fn spec_focus_stack(&self) -> Seq<WindowId> {
        self.focus_stack@
    }

    /// Focused window.
    pub closed spec fn spec_focused(&self) -> Option<WindowId> {
        self.focused
    }

    /// The id the next `alloc_window_id` hands out.
    pub closed spec fn spec_next_window_id(&self) -> u64 {
        self.next_window_id
    }

    /// Seed of the next cascade placement.
    pub closed spec fn spec_placement_seed(&self) -> u64 {
        self.placement_seed
    }

    /// Workspace records.
    pub closed spec fn spec_workspaces(&self) -> HashMap<WorkspaceId, WorkspaceState> {
        self.workspaces
    }

    /// Output records.
    pub closed spec fn spec_outputs(&self) -> HashMap<OutputId, OutputState> {
        self.outputs
    }

    /// The id the next workspace gets.
    pub closed spec fn spec_next_workspace_id(&self) -> u64 {
        self.next_workspace_id
    }

    /// The id the next output gets.
    pub closed spec fn spec_next_output_id(&self) -> u64 {
        self.next_output_id
    }

    /// The workspace and output records and their id counters are those of
    /// `other`.
    pub open spec fn same_workspaces_and_outputs(&self, other: CompositorState<S>) -> bool {
        &&& self.spec_workspaces() == other.spec_workspaces()
        &&& self.spec_outputs() == other.spec_outputs()
        &&& self.spec_next_workspace_id() == other.spec_next_workspace_id()
        &&& self.spec_next_output_id() == other.spec_next_output_id()
    }

    /// Every record is stored under its own id.
    pub open spec fn wf(&self) -> bool {
        keyed_by_id(self.spec_windows())
    }

    /// The state `new` and `default` start from.
    pub open spec fn is_initial(&self) -> bool {
        &&& self.spec_windows() == Map::<u64, WindowState<S>>::empty()
        &&& self.spec_workspaces()@ == Map::<WorkspaceId, WorkspaceState>::empty()
        &&& self.spec_outputs()@ == Map::<OutputId, OutputState>::empty()
        &&& self.spec_focus_stack() == Seq::<WindowId>::empty()
        &&& self.spec_focused() is None
        &&& self.spec_next_window_id() == 0
        &&& self.spec_next_workspace_id() == 0
        &&& self.spec_next_output_id() == 0
        &&& self.spec_placement_seed() == 0
    }

    pub fn new() -> (state: CompositorState<S>)
        ensures
            state.wf(),
            state.is_initial(),
    {
        CompositorState {
            windows: WindowTable::new(),
            workspaces: HashMap::new(),
            outputs: HashMap::new(),
            focus_stack: Vec::new(),
            focused: None,
            next_window_id: 0,
            next_workspace_id: 0,
            next_output_id: 0,
            placement_seed: 0,
        }
    }

    /// Whether the id counter is used up, so that `alloc_window_id` cannot
    /// hand out a fresh id.
    pub fn window_ids_exhausted(&self) -> (exhausted: bool)
        ensures
            exhausted == (self.spec_next_window_id() == u64::MAX),
    {
        self.next_window_id == u64::MAX
    }

    /// A fresh window id: ids are handed out in increasing order.
    pub fn alloc_window_id(&mut self) -> (id: WindowId)
        requires
            old(self).spec_next_window_id() < u64::MAX,
        ensures
            final(self).wf() == old(self).wf(),
            id == WindowId(old(self).spec_next_window_id()),
            final(self).spec_next_window_id() == old(self).spec_next_window_id() + 1,
            final(self).spec_windows() == old(self).spec_windows(),
            final(self).spec_focus_stack() == old(self).spec_focus_stack(),
            final(self).spec_focused() == old(self).spec_focused(),
            final(self).spec_placement_seed() == old(self).spec_placement_seed(),
            final(self).same_workspaces_and_outputs(*old(self)),
    {
        let id = WindowId(self.next_window_id);
        self.next_window_id = self.next_window_id + 1;
        id
    }

    /// Record keyboard focus: `id` becomes focused and moves to the front
    /// of the focus order without duplicating.
    pub fn focus_window(&mut self, id: WindowId)
        ensures
            final(self).wf() == old(self).wf(),
            final(self).spec_focused() == Some(id),
            final(self).spec_focus_stack() == focus_order_after_focus(old(self).spec_focus_stack(), id),
            focus_consistent(old(self).spec_focus_stack(), old(self).spec_focused()) ==> focus_consistent(
                final(self).spec_focus_stack(),
                final(self).spec_focused(),
            ),
            final(self).spec_windows() == old(self).spec_windows(),
            final(self).spec_next_window_id() == old(self).spec_next_window_id(),
            final(self).spec_placement_seed() == old(self).spec_placement_seed(),
            final(self).same_workspaces_and_outputs(*old(self)),
    {
        let mut stack: Vec<WindowId> = Vec::new();
        stack.push(id);
        let mut i: usize = 0;
        while i < self.focus_stack.len()
            invariant
                i <= self.spec_focus_stack().len(),
                stack@ == seq![id] + self.spec_focus_stack().take(i as int).filter(other_than(id)),
            decreases self.spec_focus_stack().len() - i,
        {
            let known = self.focus_stack[i];
            proof {
                let old_stack = self.spec_focus_stack();
                assert(old_stack.take(i + 1) =~= old_stack.take(i as int).push(known));
                old_stack.take(i as int).lemma_filter_push(known, other_than(id));
            }
            if known.0 != id.0 {
                stack.push(known);
            }
            i = i + 1;
        }
        proof {
            assert(self.spec_focus_stack().take(self.spec_focus_stack().len() as int) =~= self.spec_focus_stack());
            if focus_consistent(self.spec_focus_stack(), self.focused) {
                lemma_focus_keeps_consistent(self.spec_focus_stack(), self.focused, id);
            }
        }
        self.focus_stack = stack;
        self.focused = Some(id);
    }

    /// Drop all lifecycle records for `id`. Returns the window keyboard
    /// focus falls back to (`None` = nothing left to focus).
    pub fn forget_window(&mut self, id: WindowId) -> (fallback: Option<WindowId>)
        requires
            old(self).wf(),
        ensures
            final(self).wf(),
            final(self).spec_windows() == old(self).spec_windows().remove(id.0),
            final(self).spec_focus_stack() == focus_order_after_forget(old(self).spec_focus_stack(), id),
            final(self).spec_focused() == focus_after_forget(old(self).spec_focus_stack(), old(self).spec_focused(), id),
            fallback == final(self).spec_focused(),
            focus_consistent(old(self).spec_focus_stack(), old(self).spec_focused()) ==> focus_consistent(
                final(self).spec_focus_stack(),
                final(self).spec_focused(),
            ),
            final(self).spec_next_window_id() == old(self).spec_next_window_id(),
            final(self).spec_placement_seed() == old(self).spec_placement_seed(),
            final(self).same_workspaces_and_outputs(*old(self)),
    {
        self.windows.remove(id);
        let mut stack: Vec<WindowId> = Vec::new();
        let mut i: usize = 0;
        while i < self.focus_stack.len()
            invariant
                i <= self.spec_focus_stack().len(),
                stack@ == self.spec_focus_stack().take(i as int).filter(other_than(id)),
            decreases self.spec_focus_stack().len() - i,
        {
            let known = self.focus_stack[i];
            proof {
                let old_stack = self.spec_focus_stack();
                assert(old_stack.take(i + 1) =~= old_stack.take(i as int).push(known));
                old_stack.take(i as int).lemma_filter_push(known, other_than(id));
            }
            if known.0 != id.0 {
                stack.push(known);
            }
            i = i + 1;
        }
        proof {
            assert(self.spec_focus_stack().take(0) =~= Seq::<WindowId>::empty());
            assert(self.spec_focus_stack().take(self.spec_focus_stack().len() as int) =~= self.spec_focus_stack());
            if focus_consistent(self.spec_focus_stack(), self.focused) {
                lemma_forget_keeps_consistent(self.spec_focus_stack(), self.focused, id);
            }
        }
        let was_focused = match self.focused {
            Some(current) => current.0 == id.0,
            None => false,
        };
        if was_focused {
            self.focused = if stack.len() > 0 { Some(stack[0]) } else { None };
        }
        self.focus_stack = stack;
        self.focused
    }

    /// Lifecycle record lookup by client surface: the id of a record whose
    /// surface compares equal to `surface`, if any.
    pub fn window_id_for_surface(&self, surface: &S) -> (found: Option<WindowId>) where S: PartialEq
        requires
            self.wf(),
        ensures
            found matches Some(id) ==> has_id(self.spec_windows(), id),
            S::obeys_eq_spec() ==> match found {
                Some(id) => self.spec_windows()[id.0].surface.eq_spec(surface),
                None => forall|k: u64|
                    #[trigger] self.spec_windows().contains_key(k) ==> !self.spec_windows()[k].surface.eq_spec(
                        surface,
                    ),
            },
    {
        let records = &self.windows.records;
        let ghost pairs = records.iter().remaining();
        for (key, record) in it: records.iter()
            invariant
                records@ == self.spec_windows(),
                self.wf(),
                it.seq() == pairs,
                pairs == records.iter().remaining(),
                S::obeys_eq_spec() ==> forall|i: int|
                    0 <= i < it.index() ==> !(#[trigger] pairs[i]).1.surface.eq_spec(surface),
        {
            proof {
                assert(pairs[it.index()] == (key, record));
                assert(records@.contains_key(*key) && records@[*key] == *record);
            }
            if record.surface == *surface {
                return Some(record.id);
            }
        }
        proof {
            assert forall|k: u64| #[trigger] self.spec_windows().contains_key(k) && S::obeys_eq_spec()
                implies !self.spec_windows()[k].surface.eq_spec(surface) by {
                let i = choose|i: int| 0 <= i < pairs.len() && pairs[i] == (&k, &records@[k]);
                assert(!pairs[i].1.surface.eq_spec(surface));
            }
        }
        None
    }

    /// Next cascade placement offset. Monotonic (never reuses an offset
    /// until wraparound) so closed windows don't disturb the pattern.
    pub fn next_cascade_location(&mut self) -> (offset: (i32, i32))
        ensures
            final(self).wf() == old(self).wf(),
            offset == spec_cascade_offset(old(self).spec_placement_seed()),
            final(self).spec_placement_seed() == (if old(self).spec_placement_seed() == u64::MAX {
                0
            } else {
                old(self).spec_placement_seed() + 1
            }),
            final(self).spec_windows() == old(self).spec_windows(),
            final(self).spec_focus_stack() == old(self).spec_focus_stack(),
            final(self).spec_focused() == old(self).spec_focused(),
            final(self).spec_next_window_id() == old(self).spec_next_window_id(),
            final(self).same_workspaces_and_outputs(*old(self)),
    {
        let seed: u64 = self.placement_seed;
        self.placement_seed = if seed == u64::MAX { 0 } else { seed + 1 };
        cascade_offset(seed)
    }

    /// Register a newly mapped toplevel: it takes the next cascade offset
    /// and a fresh id, and is recorded as floating with empty geometry until
    /// its first commit. Returns the id and the offset to map it at.
    pub fn register_toplevel(&mut self, surface: S) -> (placed: (WindowId, (i32, i32)))
        requires
            old(self).wf(),
            old(self).spec_next_window_id() < u64::MAX,
        ensures
            final(self).wf(),
            placed.0 == WindowId(old(self).spec_next_window_id()),
            placed.1 == spec_cascade_offset(old(self).spec_placement_seed()),
            final(self).spec_next_window_id() == old(self).spec_next_window_id() + 1,
            final(self).spec_placement_seed() == (if old(self).spec_placement_seed() == u64::MAX {
                0
            } else {
                old(self).spec_placement_seed() + 1
            }),
            final(self).spec_windows() == old(self).spec_windows().insert(
                placed.0.0,
                (WindowState {
                    id: placed.0,
                    surface,
                    mode: WindowMode::Floating { geometry: Rect { x: 0, y: 0, width: 0, height: 0 } },
                }),
            ),
            final(self).spec_focus_stack() == old(self).spec_focus_stack(),
            final(self).spec_focused() == old(self).spec_focused(),
            final(self).same_workspaces_and_outputs(*old(self)),
    {
        let offset = self.next_cascade_location();
        let id = self.alloc_window_id();
        self.windows.insert(
            WindowState { id, surface, mode: WindowMode::Floating { geometry: Rect::new(0, 0, 0, 0) } },
        );
        (id, offset)
    }

    /// Ids of the tiled windows in ascending id order (mapping order, stable
    /// across drags): the order a layout algorithm places them in.
    pub fn tiled_window_ids(&self) -> (ids: Vec<WindowId>)
        requires
            self.wf(),
        ensures
            is_tiled_order(ids@, self.spec_windows()),
    {
        let records = &self.windows.records;
        let ghost pairs = records.iter().remaining();
        let mut ids: Vec<WindowId> = Vec::new();
        for (key, record) in it: records.iter()
            invariant
                records@ == self.spec_windows(),
                keyed_by_id(records@),
                it.seq() == pairs,
                pairs == records.iter().remaining(),
                pairs.no_duplicates(),
                pairs.len() == records@.dom().len(),
                forall|i: int| 0 <= i < pairs.len() ==> records@.contains_key(*(#[trigger] pairs[i]).0)
                    && records@[*pairs[i].0] == *pairs[i].1,
                is_scanned_tiled_order(ids@, pairs, it.index()),
        {
            let ghost before = ids@;
            let ghost i = it.index();
            proof {
                assert(pairs[i] == (key, record));
            }
            if matches!(record.mode, WindowMode::Tiled) {
                let id = record.id;
                let mut pos: usize = 0;
                while pos < ids.len() && ids[pos].0 < id.0
                    invariant
                        pos <= ids@.len(),
                        ids@ == before,
                        forall|k: int| 0 <= k < pos ==> (#[trigger] ids@[k]).0 < id.0,
                    decreases ids@.len() - pos,
                {
                    pos = pos + 1;
                }
                proof {
                    lemma_tiled_insert(ids@, pairs, records@, i, pos as int);
                }
                ids.insert(pos, id);
            } else {
                proof {
                    lemma_tiled_skip(ids@, pairs, i);
                }
            }
        }
        proof {
            lemma_scanned_all(ids@, pairs, records@);
        }
        ids
    }
}

/// `ids` holds, strictly ascending, the ids of the tiled records among the
/// first `n` scanned entries.
spec fn is_scanned_tiled_order<S>(ids: Seq<WindowId>, pairs: Seq<(&u64, &WindowState<S>)>, n: int) -> bool {
    &&& forall|i: int, j: int| 0 <= i < j < ids.len() ==> (#[trigger] ids[i]).0 < (#[trigger] ids[j]).0
    &&& forall|id: WindowId| #[trigger] ids.contains(id) <==> exists|k: int|
        0 <= k < n && (#[trigger] pairs[k]).1.id == id && pairs[k].1.mode == WindowMode::Tiled
}

/// Scanning one more entry that is not tiled keeps the order.
proof fn lemma_tiled_skip<S>(ids: Seq<WindowId>, pairs: Seq<(&u64, &WindowState<S>)>, i: int)
    requires
        0 <= i < pairs.len(),
        pairs[i].1.mode != WindowMode::Tiled,
        is_scanned_tiled_order(ids, pairs, i),
    ensures
        is_scanned_tiled_order(ids, pairs, i + 1),
{
    assert forall|id: WindowId| #[trigger] ids.contains(id) <==> exists|k: int|
        0 <= k < i + 1 && (#[trigger] pairs[k]).1.id == id && pairs[k].1.mode == WindowMode::Tiled by {
        if exists|k: int| 0 <= k < i + 1 && (#[trigger] pairs[k]).1.id == id && pairs[k].1.mode
            == WindowMode::Tiled {
            let k = choose|k: int| 0 <= k < i + 1 && (#[trigger] pairs[k]).1.id == id
                && pairs[k].1.mode == WindowMode::Tiled;
            assert(k < i);
        }
    }
}

/// Two scanned entries whose records share an id are the same entry.
proof fn lemma_scanned_ids_distinct<S>(
    pairs: Seq<(&u64, &WindowState<S>)>,
    records: Map<u64, WindowState<S>>,
    a: int,
    b: int,
)
    requires
        keyed_by_id(records),
        pairs.no_duplicates(),
        forall|i: int| 0 <= i < pairs.len() ==> records.contains_key(*(#[trigger] pairs[i]).0)
            && records[*pairs[i].0] == *pairs[i].1,
        0 <= a < pairs.len(),
        0 <= b < pairs.len(),
        pairs[a].1.id == pairs[b].1.id,
    ensures
        a == b,
{
    let ka = *pairs[a].0;
    let kb = *pairs[b].0;
    assert(records[ka].id.0 == ka);
    assert(records[kb].id.0 == kb);
    assert(pairs[a] == pairs[b]);
}

/// Inserting a tiled record's id at its sorted position keeps the order.
proof fn lemma_tiled_insert<S>(
    ids: Seq<WindowId>,
    pairs: Seq<(&u64, &WindowState<S>)>,
    records: Map<u64, WindowState<S>>,
    i: int,
    pos: int,
)
    requires
        0 <= i < pairs.len(),
        keyed_by_id(records),
        pairs.no_duplicates(),
        forall|k: int| 0 <= k < pairs.len() ==> records.contains_key(*(#[trigger] pairs[k]).0)
            && records[*pairs[k].0] == *pairs[k].1,
        pairs[i].1.mode == WindowMode::Tiled,
        is_scanned_tiled_order(ids, pairs, i),
        0 <= pos <= ids.len(),
        forall|k: int| 0 <= k < pos ==> (#[trigger] ids[k]).0 < pairs[i].1.id.0,
        pos < ids.len() ==> ids[pos].0 >= pairs[i].1.id.0,
    ensures
        is_scanned_tiled_order(ids.insert(pos, pairs[i].1.id), pairs, i + 1),
{
    let id = pairs[i].1.id;
    let next = ids.insert(pos, id);
    if pos < ids.len() {
        assert(ids[pos].0 != id.0) by {
            assert(ids.contains(ids[pos]));
            let k = choose|k: int| 0 <= k < i && (#[trigger] pairs[k]).1.id == ids[pos]
                && pairs[k].1.mode == WindowMode::Tiled;
            if ids[pos].0 == id.0 {
                lemma_scanned_ids_distinct(pairs, records, k, i);
            }
        }
    }
    assert forall|a: int, b: int| 0 <= a < b < next.len() implies (#[trigger] next[a]).0 < (
    #[trigger] next[b]).0 by {
        if b < pos {
            assert(next[a] == ids[a] && next[b] == ids[b]);
        } else if b == pos {
            assert(next[a] == ids[a]);
        } else if a < pos {
            assert(next[a] == ids[a] && next[b] == ids[b - 1]);
            assert(ids[pos].0 <= ids[b - 1].0);
        } else if a == pos {
            assert(next[b] == ids[b - 1]);
            assert(ids[pos].0 <= ids[b - 1].0);
        } else {
            assert(next[a] == ids[a - 1] && next[b] == ids[b - 1]);
        }
    }
    assert forall|w: WindowId| #[trigger] next.contains(w) <==> exists|k: int|
        0 <= k < i + 1 && (#[trigger] pairs[k]).1.id == w && pairs[k].1.mode == WindowMode::Tiled by {
        if next.contains(w) {
            let n = choose|n: int| 0 <= n < next.len() && next[n] == w;
            if w != id {
                let m = if n < pos { n } else { n - 1 };
                assert(ids[m] == w);
                assert(ids.contains(w));
                let k = choose|k: int| 0 <= k < i && (#[trigger] pairs[k]).1.id == w
                    && pairs[k].1.mode == WindowMode::Tiled;
                assert(0 <= k < i + 1);
            }
        }
        if exists|k: int| 0 <= k < i + 1 && (#[trigger] pairs[k]).1.id == w && pairs[k].1.mode
            == WindowMode::Tiled {
            let k = choose|k: int| 0 <= k < i + 1 && (#[trigger] pairs[k]).1.id == w
                && pairs[k].1.mode == WindowMode::Tiled;
            if k == i {
                assert(next[pos] == id);
            } else {
                assert(ids.contains(w));
                let n = choose|n: int| 0 <= n < ids.len() && ids[n] == w;
                let m = if n < pos { n } else { n + 1 };
                assert(next[m] == w);
            }
        }
    }
}

/// Once every entry is scanned, the ids are those of the tiled records.
proof fn lemma_scanned_all<S>(
    ids: Seq<WindowId>,
    pairs: Seq<(&u64, &WindowState<S>)>,
    records: Map<u64, WindowState<S>>,
)
    requires
        keyed_by_id(records),
        is_scanned_tiled_order(ids, pairs, pairs.len() as int),
        forall|k: int| 0 <= k < pairs.len() ==> records.contains_key(*(#[trigger] pairs[k]).0)
            && records[*pairs[k].0] == *pairs[k].1,
        forall|key: u64| #[trigger] records.contains_key(key) ==> pairs.contains((&key, &records[key])),
    ensures
        is_tiled_order(ids, records),
{
    assert forall|id: WindowId| #[trigger] ids.contains(id) <==> records.contains_key(id.0)
        && records[id.0].id == id && records[id.0].mode == WindowMode::Tiled by {
        if ids.contains(id) {
            let k = choose|k: int| 0 <= k < pairs.len() && (#[trigger] pairs[k]).1.id == id
                && pairs[k].1.mode == WindowMode::Tiled;
            let key = *pairs[k].0;
            assert(records.contains_key(key));
            assert(records[key].id.0 == key);
        }
        if records.contains_key(id.0) && records[id.0].id == id && records[id.0].mode
            == WindowMode::Tiled {
            assert(pairs.contains((&id.0, &records[id.0])));
            let k = choose|k: int| 0 <= k < pairs.len() && pairs[k] == (&id.0, &records[id.0]);
            assert(pairs[k].1.id == id);
        }
    }
}

impl<S> Default for CompositorState<S> {
    fn default() -> (state: CompositorState<S>)
        ensures
            state.wf(),
            state.is_initial(),
    {
        Self::new()
    }
}


/// A lookup right after an insert gives back the inserted record, and every
/// record stays stored under its own id.
pub proof fn lemma_insert_then_lookup<S>(records: Map<u64, WindowState<S>>, record: WindowState<S>)
    requires
        keyed_by_id(records),
    ensures
        keyed_by_id(records.insert(record.id.0, record)),
        lookup(records.insert(record.id.0, record), record.id) == Some(record),
{
}

/// An insert leaves the records of every other id as they were.
pub proof fn lemma_insert_keeps_others<S>(records: Map<u64, WindowState<S>>, record: WindowState<S>, id: WindowId)
    requires
        id != record.id,
    ensures
        lookup(records.insert(record.id.0, record), id) == lookup(records, id),
{
}

/// A lookup right after a remove finds nothing, and every other id keeps
/// its record.
pub proof fn lemma_remove_then_lookup<S>(records: Map<u64, WindowState<S>>, id: WindowId, other: WindowId)
    requires
        keyed_by_id(records),
        other != id,
    ensures
        keyed_by_id(records.remove(id.0)),
        lookup(records.remove(id.0), id) is None,
        lookup(records.remove(id.0), other) == lookup(records, other),
{
}

} // verus!
