use vyom::hitbox::{build_hitboxes, hit_test, resolve_click, ClickAction, Rect};
use vyom::lyrics::LyricTimeline;

#[test]
fn rect_contains_is_half_open() {
    let r = Rect::new(10, 5, 4, 2);
    assert!(r.contains(10, 5));
    assert!(r.contains(13, 6));
    assert!(!r.contains(14, 5));
    assert!(!r.contains(10, 7));
    assert!(!r.contains(9, 5));
    let z = Rect::zero();
    assert!(!z.contains(0, 0));
}

#[test]
fn hitboxes_cover_the_visible_window_row_by_row() {
    let t = LyricTimeline::parse("[00:01]a\n[00:02]b\n[00:03]c\n[00:04]d").unwrap();
    let area = Rect::new(2, 3, 20, 5);
    let boxes = build_hitboxes(area, &t, 1, 4);
    assert_eq!(boxes.len(), 3);
    assert_eq!(boxes[0], (Rect::new(2, 3, 20, 1), 2000));
    assert_eq!(boxes[1], (Rect::new(2, 4, 20, 1), 3000));
    assert_eq!(boxes[2], (Rect::new(2, 5, 20, 1), 4000));
}

#[test]
fn hit_test_finds_the_row_under_the_pointer() {
    let t = LyricTimeline::parse("[00:01]a\n[00:02]b\n[00:03]c").unwrap();
    let boxes = build_hitboxes(Rect::new(0, 10, 8, 3), &t, 0, 3);
    assert_eq!(hit_test(&boxes, 4, 11), Some(2000));
    assert_eq!(hit_test(&boxes, 0, 10), Some(1000));
    assert_eq!(hit_test(&boxes, 8, 11), None);
    assert_eq!(hit_test(&boxes, 4, 13), None);
}

#[test]
fn click_on_a_lyric_line_wins_over_buttons() {
    let t = LyricTimeline::parse("[00:07]line").unwrap();
    let boxes = build_hitboxes(Rect::new(0, 0, 50, 1), &t, 0, 1);
    let btn = Rect::new(0, 0, 50, 1);
    let action = resolve_click(5, 0, &boxes, btn, btn, btn, btn, 60000);
    assert_eq!(action, ClickAction::SeekToLine { timestamp_ms: 7000 });
}

#[test]
fn clicks_route_to_the_transport_buttons() {
    let boxes = Vec::new();
    let prev = Rect::new(0, 9, 3, 1);
    let play = Rect::new(5, 9, 3, 1);
    let next = Rect::new(10, 9, 3, 1);
    let bar = Rect::new(0, 20, 100, 1);
    assert_eq!(resolve_click(1, 9, &boxes, prev, play, next, bar, 1000), ClickAction::PreviousTrack);
    assert_eq!(resolve_click(6, 9, &boxes, prev, play, next, bar, 1000), ClickAction::PlayPause);
    assert_eq!(resolve_click(11, 9, &boxes, prev, play, next, bar, 1000), ClickAction::NextTrack);
    assert_eq!(resolve_click(50, 50, &boxes, prev, play, next, bar, 1000), ClickAction::Nothing);
}

#[test]
fn progress_click_seeks_proportionally() {
    let boxes = Vec::new();
    let off = Rect::zero();
    let bar = Rect::new(10, 20, 100, 1);
    // 25 cells into a 100-cell bar over 200 seconds: a quarter of the track
    let action = resolve_click(35, 20, &boxes, off, off, off, bar, 200_000);
    assert_eq!(action, ClickAction::Seek { target_ms: 50_000 });
    // the left edge seeks to the start
    let action = resolve_click(10, 20, &boxes, off, off, off, bar, 200_000);
    assert_eq!(action, ClickAction::Seek { target_ms: 0 });
}

#[test]
fn progress_click_without_duration_does_nothing() {
    let boxes = Vec::new();
    let off = Rect::zero();
    let bar = Rect::new(10, 20, 100, 1);
    assert_eq!(resolve_click(35, 20, &boxes, off, off, off, bar, 0), ClickAction::Nothing);
}
