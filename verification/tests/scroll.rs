use vyom::lyrics::LyricTimeline;
use vyom::scroll::{ScrollController, ScrollState, MANUAL_HOLD_MS};

fn five_lines() -> LyricTimeline {
    LyricTimeline::parse("[00:00]a\n[00:01]b\n[00:02]c\n[00:03]d\n[00:04]e").unwrap()
}

#[test]
fn controller_starts_in_auto() {
    let c = ScrollController::new();
    assert_eq!(c.state(), ScrollState::Auto);
}

#[test]
fn scroll_down_seeds_from_natural_index() {
    let t = five_lines();
    let mut c = ScrollController::new();
    // position 2500 ms: the natural index is line 2
    c.on_scroll_down(&t, 2500, 10);
    assert_eq!(c.state(), ScrollState::Manual { offset: 3, last_input_ms: 10 });
}

#[test]
fn repeated_scroll_down_saturates_at_last_line() {
    let t = five_lines();
    let mut c = ScrollController::new();
    for k in 0..20u64 {
        c.on_scroll_down(&t, 0, k);
    }
    assert_eq!(c.state(), ScrollState::Manual { offset: 4, last_input_ms: 19 });
}

#[test]
fn repeated_scroll_up_saturates_at_zero() {
    let t = five_lines();
    let mut c = ScrollController::new();
    for k in 0..20u64 {
        c.on_scroll_up(&t, 4500, k);
    }
    assert_eq!(c.state(), ScrollState::Manual { offset: 0, last_input_ms: 19 });
}

#[test]
fn ticks_converge_one_line_at_a_time_without_overshoot() {
    let t = five_lines();
    let mut c = ScrollController::new();
    // natural index at position 0 is line 0; hold three lines below it
    c.on_scroll_down(&t, 0, 0);
    c.on_scroll_down(&t, 0, 0);
    c.on_scroll_down(&t, 0, 0);
    assert_eq!(c.state(), ScrollState::Manual { offset: 3, last_input_ms: 0 });
    c.on_tick(&t, 0, 100);
    assert_eq!(c.state(), ScrollState::Manual { offset: 2, last_input_ms: 0 });
    c.on_tick(&t, 0, 150);
    assert_eq!(c.state(), ScrollState::Manual { offset: 1, last_input_ms: 0 });
    c.on_tick(&t, 0, 200);
    assert_eq!(c.state(), ScrollState::Manual { offset: 0, last_input_ms: 0 });
    // distance + 1 ticks in all: the fourth tick reaches auto-follow
    c.on_tick(&t, 0, 250);
    assert_eq!(c.state(), ScrollState::Auto);
}

#[test]
fn ticks_converge_upward_too() {
    let t = five_lines();
    let mut c = ScrollController::new();
    // natural index at 4500 ms is line 4; hold at line 3
    c.on_scroll_up(&t, 4500, 0);
    assert_eq!(c.state(), ScrollState::Manual { offset: 3, last_input_ms: 0 });
    c.on_tick(&t, 4500, 50);
    assert_eq!(c.state(), ScrollState::Manual { offset: 4, last_input_ms: 0 });
    c.on_tick(&t, 4500, 100);
    assert_eq!(c.state(), ScrollState::Auto);
}

#[test]
fn tick_in_auto_is_a_no_op() {
    let t = five_lines();
    let mut c = ScrollController::new();
    c.on_tick(&t, 2000, 50);
    assert_eq!(c.state(), ScrollState::Auto);
}

#[test]
fn timeout_returns_to_auto_regardless_of_distance() {
    let t = five_lines();
    let mut c = ScrollController::new();
    c.on_scroll_down(&t, 0, 0);
    c.on_scroll_down(&t, 0, 0);
    c.on_scroll_down(&t, 0, 0);
    // one tick after the hold expired clears the offset outright
    c.on_tick(&t, 0, MANUAL_HOLD_MS);
    assert_eq!(c.state(), ScrollState::Auto);
}

#[test]
fn tick_just_before_timeout_still_animates() {
    let t = five_lines();
    let mut c = ScrollController::new();
    c.on_scroll_down(&t, 0, 0);
    c.on_scroll_down(&t, 0, 0);
    c.on_tick(&t, 0, MANUAL_HOLD_MS - 1);
    assert_eq!(c.state(), ScrollState::Manual { offset: 1, last_input_ms: 0 });
}

#[test]
fn further_input_refreshes_the_hold() {
    let t = five_lines();
    let mut c = ScrollController::new();
    c.on_scroll_down(&t, 0, 0);
    c.on_scroll_down(&t, 0, 2999);
    // the second scroll renewed the hold, so this tick animates instead of clearing
    c.on_tick(&t, 0, 3000);
    assert_eq!(c.state(), ScrollState::Manual { offset: 1, last_input_ms: 2999 });
}

#[test]
fn click_resyncs_to_auto() {
    let t = five_lines();
    let mut c = ScrollController::new();
    c.on_scroll_down(&t, 0, 0);
    c.on_click();
    assert_eq!(c.state(), ScrollState::Auto);
}

#[test]
fn track_change_discards_manual_state() {
    let t = five_lines();
    let mut c = ScrollController::new();
    c.on_scroll_down(&t, 0, 0);
    c.on_track_change();
    assert_eq!(c.state(), ScrollState::Auto);
}

#[test]
fn visible_window_centers_in_auto() {
    let t = LyricTimeline::parse(
        "[00:00]a\n[00:01]b\n[00:02]c\n[00:03]d\n[00:04]e\n[00:05]f\n[00:06]g\n[00:07]h\n[00:08]i\n[00:09]j",
    )
    .unwrap();
    let c = ScrollController::new();
    // natural index at 5500 ms is line 5; a 4-line viewport starts 2 above
    assert_eq!(c.visible_window(&t, 5500, 4), (3, 7));
    // near the start the window clamps at line 0
    assert_eq!(c.visible_window(&t, 0, 4), (0, 4));
    // near the end it clamps at the line count
    assert_eq!(c.visible_window(&t, 9500, 4), (7, 10));
}

#[test]
fn visible_window_pins_to_manual_offset() {
    let t = five_lines();
    let mut c = ScrollController::new();
    c.on_scroll_down(&t, 0, 0);
    c.on_scroll_down(&t, 0, 0);
    assert_eq!(c.state(), ScrollState::Manual { offset: 2, last_input_ms: 0 });
    assert_eq!(c.visible_window(&t, 0, 2), (2, 4));
    assert_eq!(c.visible_window(&t, 0, 10), (2, 5));
}
