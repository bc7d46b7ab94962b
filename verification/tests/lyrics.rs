use vyom::lyrics::{clock_display, parse_timestamp, LrclibResponse, LyricTimeline};

#[test]
fn timestamp_two_digit_fraction_is_centiseconds() {
    assert_eq!(parse_timestamp("01:23.45"), Some(83450));
    assert_eq!(parse_timestamp("00:01.50"), Some(1500));
    assert_eq!(parse_timestamp("00:03.00"), Some(3000));
}

#[test]
fn timestamp_other_fractions_are_verbatim() {
    assert_eq!(parse_timestamp("0:07.5"), Some(7005));
    assert_eq!(parse_timestamp("0:01.500"), Some(1500));
    assert_eq!(parse_timestamp("2:05"), Some(125000));
}

#[test]
fn timestamp_malformed_is_rejected() {
    assert_eq!(parse_timestamp(""), None);
    assert_eq!(parse_timestamp("abc"), None);
    assert_eq!(parse_timestamp("1:2:3"), None);
    assert_eq!(parse_timestamp(":5"), None);
    assert_eq!(parse_timestamp("1:"), None);
    assert_eq!(parse_timestamp("1:2."), None);
    assert_eq!(parse_timestamp("1:2.3.4"), None);
    assert_eq!(parse_timestamp("-1:05"), None);
    assert_eq!(parse_timestamp("1:0 5"), None);
}

#[test]
fn timestamp_beyond_u64_milliseconds_is_rejected() {
    assert_eq!(parse_timestamp("99999999999999999999:00"), None);
}

#[test]
fn timestamp_round_trips_through_clock_display() {
    let ms = parse_timestamp("07:42.99").unwrap();
    assert_eq!(clock_display(ms), (7, 42));
    let ms = parse_timestamp("00:59").unwrap();
    assert_eq!(clock_display(ms), (0, 59));
    let ms = parse_timestamp("123:07.5").unwrap();
    assert_eq!(clock_display(ms), (123, 7));
}

#[test]
fn parse_empty_transcript_yields_none() {
    assert!(LyricTimeline::parse("").is_none());
}

#[test]
fn parse_untimed_lines_yields_none() {
    assert!(LyricTimeline::parse("hello\nworld\n\njust text").is_none());
}

#[test]
fn parse_keeps_transcript_order_and_drops_malformed_lines() {
    let t = LyricTimeline::parse("[bad]x\n[00:05]late\nplain\n[00:02]early").unwrap();
    assert_eq!(t.len(), 2);
    assert_eq!(t.line(0).timestamp_ms, 5000);
    assert_eq!(t.line(0).text, "late");
    assert_eq!(t.line(1).timestamp_ms, 2000);
    assert_eq!(t.line(1).text, "early");
}

#[test]
fn parse_trims_line_text() {
    let t = LyricTimeline::parse("[00:01]   spaced out  \r").unwrap();
    assert_eq!(t.line(0).text, "spaced out");
}

#[test]
fn parse_scenario_two_lines() {
    let t = LyricTimeline::parse("[00:01.50]Hello\n[00:03.00]World").unwrap();
    assert_eq!(t.len(), 2);
    assert_eq!(t.line(0).timestamp_ms, 1500);
    assert_eq!(t.line(0).text, "Hello");
    assert_eq!(t.line(1).timestamp_ms, 3000);
    assert_eq!(t.line(1).text, "World");
    assert_eq!(t.natural_index(2000), 0);
    assert_eq!(t.natural_index(3000), 1);
}

#[test]
fn natural_index_clamps_to_first_and_last_line() {
    let t = LyricTimeline::parse("[00:02]a\n[00:04]b\n[00:06]c").unwrap();
    assert_eq!(t.natural_index(0), 0);
    assert_eq!(t.natural_index(1999), 0);
    assert_eq!(t.natural_index(2000), 0);
    assert_eq!(t.natural_index(4000), 1);
    assert_eq!(t.natural_index(999999), 2);
}

#[test]
fn natural_index_is_monotone_in_position() {
    let t = LyricTimeline::parse("[00:05]a\n[00:02]b\n[00:08]c").unwrap();
    let mut last = 0;
    for pos in [0u64, 1000, 2000, 3000, 5000, 6000, 8000, 10000] {
        let idx = t.natural_index(pos);
        assert!(idx >= last);
        last = idx;
    }
}

#[test]
fn duplicate_timestamps_are_kept_in_order() {
    let t = LyricTimeline::parse("[00:02]first\n[00:02]second").unwrap();
    assert_eq!(t.len(), 2);
    assert_eq!(t.line(0).text, "first");
    assert_eq!(t.line(1).text, "second");
    // both lines started: the later of the equal pair is the natural one
    assert_eq!(t.natural_index(2000), 1);
    assert_eq!(t.natural_index(1999), 0);
}

#[test]
fn a_timestamp_with_empty_text_still_counts_as_a_line() {
    let t = LyricTimeline::parse("[00:01]").unwrap();
    assert_eq!(t.len(), 1);
    assert_eq!(t.line(0).timestamp_ms, 1000);
    assert_eq!(t.line(0).text, "");
}

#[test]
fn from_response_prefers_synced_lyrics() {
    let r = LrclibResponse {
        synced_lyrics: Some("[00:01]tagged".to_string()),
        plain_lyrics: Some("plain words".to_string()),
    };
    let t = LyricTimeline::from_response(&r).unwrap();
    assert_eq!(t.line(0).text, "tagged");
}

#[test]
fn from_response_plain_text_without_tags_yields_none() {
    let r = LrclibResponse {
        synced_lyrics: None,
        plain_lyrics: Some("no tags here".to_string()),
    };
    assert!(LyricTimeline::from_response(&r).is_none());
    let empty = LrclibResponse { synced_lyrics: None, plain_lyrics: None };
    assert!(LyricTimeline::from_response(&empty).is_none());
}
