use ryowm::geometry::Rect;
use ryowm::window::{
    cascade_offset, drag_mode_for_button, drag_transition, resize_request, DragTransition, drag_move_rect, drag_resize_size, is_close_chord,
    output_rect, DragMode, BTN_LEFT, BTN_MIDDLE, BTN_RIGHT, CASCADE_SLOTS, KEY_Q,
};

#[test]
fn cascade_starts_at_origin() {
    assert_eq!(cascade_offset(0), (0, 0));
}

#[test]
fn cascade_steps_diagonally() {
    assert_eq!(cascade_offset(1), (32, 32));
    assert_eq!(cascade_offset(2), (64, 64));
}

#[test]
fn cascade_wraps_around() {
    assert_eq!(cascade_offset(CASCADE_SLOTS), (0, 0));
    assert_eq!(cascade_offset(CASCADE_SLOTS + 1), (32, 32));
}

#[test]
fn cascade_last_slot_and_max_seed() {
    assert_eq!(cascade_offset(11), (352, 352));
    assert_eq!(cascade_offset(u64::MAX), (3 * 32, 3 * 32));
}

#[test]
fn output_rect_adds_space_location() {
    let geometry = Rect::new(2, 3, 40, 50);
    assert_eq!(output_rect(Some((100, 200)), geometry), Rect::new(102, 203, 40, 50));
    assert_eq!(output_rect(None, geometry), geometry);
}

#[test]
fn alt_left_button_moves_and_other_buttons_resize() {
    assert_eq!(drag_mode_for_button(BTN_LEFT, true), Some(DragMode::Move));
    assert_eq!(drag_mode_for_button(BTN_RIGHT, true), Some(DragMode::Resize));
    assert_eq!(drag_mode_for_button(BTN_MIDDLE, true), Some(DragMode::Resize));
    assert_eq!(drag_mode_for_button(BTN_LEFT, false), None);
    assert_eq!(drag_mode_for_button(0x113, true), None);
}

#[test]
fn drag_move_shifts_start_keeping_current_size() {
    let start = Rect::new(10, 10, 100, 100);
    let current = Rect::new(50, 60, 120, 90);
    assert_eq!(drag_move_rect(start, 5, -15, current), Rect::new(15, -5, 120, 90));
}

#[test]
fn drag_resize_never_goes_below_minimum() {
    let start = Rect::new(0, 0, 200, 150);
    assert_eq!(drag_resize_size(start, 10, 20), (210, 170));
    assert_eq!(drag_resize_size(start, -500, -500), (80, 60));
    assert_eq!(drag_resize_size(start, -120, -90), (80, 60));
}

#[test]
fn close_chord_needs_alt_and_q() {
    assert!(is_close_chord(true, &[0x61, KEY_Q]));
    assert!(!is_close_chord(false, &[KEY_Q]));
    assert!(!is_close_chord(true, &[0x51]));
    assert!(!is_close_chord(true, &[]));
}

#[test]
fn drag_starts_on_alt_press_and_ends_on_any_release() {
    assert_eq!(drag_transition(true, BTN_LEFT, true, false), DragTransition::Start(DragMode::Move));
    assert_eq!(drag_transition(true, BTN_RIGHT, true, false), DragTransition::Start(DragMode::Resize));
    assert_eq!(drag_transition(true, BTN_LEFT, false, false), DragTransition::Keep);
    assert_eq!(drag_transition(false, BTN_MIDDLE, false, true), DragTransition::End);
    assert_eq!(drag_transition(false, BTN_LEFT, true, false), DragTransition::Keep);
}

#[test]
fn resize_request_skips_repeated_size() {
    let start = Rect::new(0, 0, 400, 300);
    assert_eq!(resize_request(start, 10, -20, None), Some((410, 280)));
    assert_eq!(resize_request(start, 10, -20, Some((410, 280))), None);
    assert_eq!(resize_request(start, 11, -20, Some((410, 280))), Some((411, 280)));
}
