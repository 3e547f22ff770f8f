use ryowm::input::{millis, nearest_size_index};
use ryowm::protocol::Message;
use ryowm::render::PresentResult;
use ryowm::scene::{frame_outcome, FrameOutcome};

#[test]
fn millis_truncates_microseconds() {
    assert_eq!(millis(0), 0);
    assert_eq!(millis(1_999), 1);
    assert_eq!(millis(2_000), 2);
    // Millisecond timestamps wrap around in a u32.
    assert_eq!(millis(4_294_967_296_000 + 5_000), 5);
}

#[test]
fn nearest_cursor_size_prefers_first_of_equals() {
    assert_eq!(nearest_size_index(&[], 24), None);
    assert_eq!(nearest_size_index(&[16, 32, 48], 24), Some(0));
    assert_eq!(nearest_size_index(&[16, 30, 48], 24), Some(1));
    assert_eq!(nearest_size_index(&[64, 48, 24, 24], 24), Some(2));
}

#[test]
fn only_presented_frames_count_as_presented() {
    assert_eq!(frame_outcome(PresentResult::Presented), FrameOutcome::Presented);
    assert_eq!(frame_outcome(PresentResult::SkippedNoDamage), FrameOutcome::Skipped);
    assert_eq!(frame_outcome(PresentResult::Failed), FrameOutcome::Skipped);
}

#[test]
fn messages_compare_by_variant() {
    assert_eq!(Message::Ping, Message::Ping);
    assert_ne!(Message::Ping, Message::Pong);
}
