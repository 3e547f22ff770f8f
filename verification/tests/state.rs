use ryowm::geometry::{Rect, WindowId};
use ryowm::state::{CompositorState, WindowState, WindowTable};
use ryowm::window::WindowMode;

fn record(id: u64, surface: u32, mode: WindowMode) -> WindowState<u32> {
    WindowState { id: WindowId(id), surface, mode }
}

#[test]
fn focus_stack_is_most_recent_first() {
    let mut state = CompositorState::<u32>::new();
    let (a, b, c) = (WindowId(1), WindowId(2), WindowId(3));
    state.focus_window(a);
    state.focus_window(b);
    state.focus_window(c);
    assert_eq!(state.focus_stack, vec![c, b, a]);
    // Refocusing moves to front without duplicating.
    state.focus_window(a);
    assert_eq!(state.focus_stack, vec![a, c, b]);
    assert_eq!(state.focused, Some(a));
}

#[test]
fn forget_falls_back_to_most_recent() {
    let mut state = CompositorState::<u32>::new();
    let (a, b) = (WindowId(1), WindowId(2));
    state.focus_window(a);
    state.focus_window(b);
    assert_eq!(state.forget_window(b), Some(a));
    assert_eq!(state.forget_window(a), None);
    assert!(state.focus_stack.is_empty());
}

#[test]
fn forget_unknown_window_changes_nothing() {
    let mut state = CompositorState::<u32>::new();
    let a = WindowId(1);
    state.focus_window(a);
    assert_eq!(state.forget_window(WindowId(99)), Some(a));
    assert_eq!(state.focused, Some(a));
}

#[test]
fn cascade_cycles_without_reuse() {
    let mut state = CompositorState::<u32>::new();
    let first: Vec<(i32, i32)> = (0..13).map(|_| state.next_cascade_location()).collect();
    assert_eq!(first[0], (0, 0));
    assert_eq!(first[1], (32, 32));
    assert_eq!(first[12], (0, 0));
}

#[test]
fn forget_unfocused_window_keeps_focus_and_order() {
    let mut state = CompositorState::<u32>::new();
    let (a, b, c) = (WindowId(1), WindowId(2), WindowId(3));
    state.focus_window(a);
    state.focus_window(b);
    state.focus_window(c);
    assert_eq!(state.forget_window(b), Some(c));
    assert_eq!(state.focus_stack, vec![c, a]);
}

#[test]
fn alloc_window_id_counts_up() {
    let mut state = CompositorState::<u32>::new();
    assert_eq!(state.alloc_window_id(), WindowId(0));
    assert_eq!(state.alloc_window_id(), WindowId(1));
    assert_eq!(state.alloc_window_id(), WindowId(2));
}

#[test]
fn window_lookup_by_surface() {
    let mut state = CompositorState::<u32>::new();
    state.windows.insert(record(4, 40, WindowMode::Tiled));
    state.windows.insert(record(5, 50, WindowMode::Floating { geometry: Rect::default() }));
    assert_eq!(state.window_id_for_surface(&50), Some(WindowId(5)));
    assert_eq!(state.window_id_for_surface(&40), Some(WindowId(4)));
    assert_eq!(state.window_id_for_surface(&60), None);
}

#[test]
fn forget_window_drops_its_record() {
    let mut state = CompositorState::<u32>::new();
    state.windows.insert(record(1, 10, WindowMode::Tiled));
    state.windows.insert(record(2, 20, WindowMode::Tiled));
    state.focus_window(WindowId(1));
    assert_eq!(state.forget_window(WindowId(1)), None);
    assert!(!state.windows.contains(WindowId(1)));
    assert!(state.windows.contains(WindowId(2)));
    assert_eq!(state.window_id_for_surface(&10), None);
}

#[test]
fn tiled_windows_come_out_in_ascending_id_order() {
    let mut state = CompositorState::<u32>::new();
    state.windows.insert(record(7, 70, WindowMode::Tiled));
    state.windows.insert(record(3, 30, WindowMode::Tiled));
    state.windows.insert(record(5, 50, WindowMode::Floating { geometry: Rect::new(0, 0, 5, 5) }));
    state.windows.insert(record(1, 10, WindowMode::Tiled));
    assert_eq!(state.tiled_window_ids(), vec![WindowId(1), WindowId(3), WindowId(7)]);
}

#[test]
fn window_table_insert_replaces_same_id() {
    let mut table = WindowTable::<u32>::new();
    assert!(table.insert(record(1, 10, WindowMode::Tiled)).is_none());
    let replaced = table.insert(record(1, 11, WindowMode::Tiled)).expect("same id");
    assert_eq!(replaced.surface, 10);
    assert_eq!(table.len(), 1);
    assert_eq!(table.get(WindowId(1)).map(|r| r.surface), Some(11));
}

#[test]
fn window_table_set_mode_and_remove() {
    let mut table = WindowTable::<u32>::new();
    table.insert(record(1, 10, WindowMode::Tiled));
    let geometry = Rect::new(1, 2, 3, 4);
    assert!(table.set_mode(WindowId(1), WindowMode::Floating { geometry }));
    assert!(!table.set_mode(WindowId(2), WindowMode::Tiled));
    assert_eq!(
        table.get(WindowId(1)).map(|r| r.mode),
        Some(WindowMode::Floating { geometry })
    );
    assert_eq!(table.remove(WindowId(1)).map(|r| r.surface), Some(10));
    assert!(table.remove(WindowId(1)).is_none());
    assert_eq!(table.len(), 0);
}

#[test]
fn register_toplevel_places_records_and_cascades() {
    let mut state = CompositorState::<u32>::new();
    let (first, first_at) = state.register_toplevel(7);
    let (second, second_at) = state.register_toplevel(8);
    assert_eq!(first, WindowId(0));
    assert_eq!(second, WindowId(1));
    assert_eq!(first_at, (0, 0));
    assert_eq!(second_at, (32, 32));
    let record = state.windows.get(second).expect("registered");
    assert_eq!(record.surface, 8);
    assert_eq!(record.mode, WindowMode::Floating { geometry: Rect::new(0, 0, 0, 0) });
    assert_eq!(state.window_id_for_surface(&7), Some(first));
    assert_eq!(state.focused, None);
}

#[test]
fn new_and_default_start_empty() {
    let mut state = CompositorState::<u32>::new();
    assert!(state.workspaces.is_empty());
    assert!(state.outputs.is_empty());
    assert!(state.focus_stack.is_empty());
    assert_eq!(state.alloc_window_id(), WindowId(0));
    let mut other = CompositorState::<u32>::default();
    assert!(other.workspaces.is_empty());
    assert!(other.outputs.is_empty());
    assert_eq!(other.alloc_window_id(), WindowId(0));
    assert_eq!(other.next_cascade_location(), (0, 0));
}
