use ryowm::damage::{union_damage, FrameDecision, FrameDriver, PendingFrame};
use ryowm::geometry::Rect;
use ryowm::render::{FrameToken, SurfaceHandle};

#[test]
fn empty_frame_submits_nothing() {
    let frame = PendingFrame::new(FrameToken(0));
    assert!(frame.take_submission().is_none());
}

#[test]
fn queued_surfaces_without_damage_still_skip() {
    let mut frame = PendingFrame::new(FrameToken(1));
    frame.push(SurfaceHandle(7), Rect::new(0, 0, 10, 10), 0);
    assert!(frame.take_submission().is_none());
}

#[test]
fn damage_unions_across_marks() {
    let mut frame = PendingFrame::new(FrameToken(2));
    frame.mark_damage(Rect::new(0, 0, 10, 10));
    frame.mark_damage(Rect::new(20, 20, 10, 10));
    let sub = frame.take_submission().expect("damage was marked");
    assert_eq!(sub.damage, Rect::new(0, 0, 30, 30));
}

#[test]
fn queue_is_sorted_front_to_back() {
    let mut frame = PendingFrame::new(FrameToken(3));
    frame.mark_damage(Rect::new(0, 0, 100, 100));
    frame.push(SurfaceHandle(1), Rect::new(0, 0, 10, 10), 5);
    frame.push(SurfaceHandle(2), Rect::new(0, 0, 10, 10), 1);
    let sub = frame.take_submission().expect("damage was marked");
    let zs: Vec<u32> = sub.queue.iter().map(|entry| entry.z).collect();
    assert_eq!(zs, vec![5, 1]);
}

#[test]
fn equal_depth_surfaces_keep_queueing_order() {
    let mut frame = PendingFrame::new(FrameToken(4));
    frame.mark_damage(Rect::new(0, 0, 1, 1));
    frame.push(SurfaceHandle(10), Rect::new(0, 0, 1, 1), 2);
    frame.push(SurfaceHandle(11), Rect::new(0, 0, 1, 1), 7);
    frame.push(SurfaceHandle(12), Rect::new(0, 0, 1, 1), 2);
    frame.push(SurfaceHandle(13), Rect::new(0, 0, 1, 1), 7);
    frame.push(SurfaceHandle(14), Rect::new(0, 0, 1, 1), 0);
    let sub = frame.take_submission().expect("damage was marked");
    let order: Vec<u64> = sub.queue.iter().map(|entry| entry.handle.0).collect();
    assert_eq!(order, vec![11, 13, 10, 12, 14]);
}

#[test]
fn empty_damage_region_still_counts_as_marked() {
    let mut frame = PendingFrame::new(FrameToken(5));
    frame.mark_damage(Rect::new(0, 0, 0, 0));
    let sub = frame.take_submission().expect("damage was marked");
    assert_eq!(sub.damage, Rect::new(0, 0, 0, 0));
}

#[test]
fn pending_frame_keeps_its_token() {
    let frame = PendingFrame::new(FrameToken(42));
    assert_eq!(frame.token(), FrameToken(42));
}

#[test]
fn union_damage_starts_from_first_region() {
    assert_eq!(union_damage(None, Rect::new(1, 2, 3, 4)), Rect::new(1, 2, 3, 4));
    assert_eq!(
        union_damage(Some(Rect::new(0, 0, 2, 2)), Rect::new(4, 4, 2, 2)),
        Rect::new(0, 0, 6, 6)
    );
}

#[test]
fn frame_driver_hands_out_increasing_tokens() {
    let mut driver = FrameDriver::new();
    assert!(!driver.has_open_frame());
    let first = driver.begin_frame();
    let second = driver.begin_frame();
    assert_eq!(first, FrameToken(0));
    assert_eq!(second, FrameToken(1));
    assert!(driver.has_open_frame());
}

#[test]
fn frame_driver_skips_frame_without_damage() {
    let mut driver = FrameDriver::new();
    let token = driver.begin_frame();
    assert!(driver.composite_surface(token, SurfaceHandle(1), Rect::new(0, 0, 5, 5), 0));
    assert!(matches!(driver.finish(token), FrameDecision::SkipNoDamage));
    assert!(!driver.has_open_frame());
}

#[test]
fn frame_driver_submits_damaged_frame_front_to_back() {
    let mut driver = FrameDriver::new();
    let token = driver.begin_frame();
    assert!(driver.mark_damage(token, Rect::new(0, 0, 10, 10)));
    assert!(driver.composite_surface(token, SurfaceHandle(1), Rect::new(0, 0, 5, 5), 0));
    assert!(driver.composite_surface(token, SurfaceHandle(2), Rect::new(0, 0, 5, 5), 3));
    match driver.finish(token) {
        FrameDecision::Submit(sub) => {
            assert_eq!(sub.damage, Rect::new(0, 0, 10, 10));
            let order: Vec<u64> = sub.queue.iter().map(|entry| entry.handle.0).collect();
            assert_eq!(order, vec![2, 1]);
        }
        other => panic!("expected a submission, got {other:?}"),
    }
}

#[test]
fn frame_driver_rejects_unknown_token() {
    let mut driver = FrameDriver::new();
    let stale = driver.begin_frame();
    let current = driver.begin_frame();
    assert!(!driver.mark_damage(stale, Rect::new(0, 0, 1, 1)));
    assert!(!driver.composite_surface(stale, SurfaceHandle(9), Rect::new(0, 0, 1, 1), 0));
    assert!(matches!(driver.finish(stale), FrameDecision::UnknownToken));
    // The open frame is consumed even by a failed present.
    assert!(matches!(driver.finish(current), FrameDecision::UnknownToken));
}

#[test]
fn frame_driver_without_open_frame_fails_present() {
    let mut driver = FrameDriver::new();
    assert!(matches!(driver.finish(FrameToken(0)), FrameDecision::UnknownToken));
}

#[test]
fn damage_is_left_fold_of_three_marks() {
    let mut frame = PendingFrame::new(FrameToken(4));
    frame.mark_damage(Rect::new(0, 0, 10, 10));
    frame.push(SurfaceHandle(1), Rect::new(0, 0, 5, 5), 1);
    frame.mark_damage(Rect::new(20, 20, 10, 10));
    frame.mark_damage(Rect::new(-5, -5, 1, 1));
    let sub = frame.take_submission().expect("damage was marked");
    assert_eq!(sub.damage, Rect::new(-5, -5, 35, 35));
}

#[test]
fn damage_range_check_ignores_unknown_token() {
    let mut driver = FrameDriver::new();
    let stale = driver.begin_frame();
    let current = driver.begin_frame();
    assert!(driver.mark_damage(current, Rect::new(i32::MAX - 10, 0, 10, 10)));
    let far = Rect::new(i32::MIN, 0, 10, 10);
    assert!(!driver.damage_in_range(current, far));
    assert!(driver.damage_in_range(stale, far));
    assert!(!driver.mark_damage(stale, far));
}
