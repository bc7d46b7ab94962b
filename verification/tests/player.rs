use vyom::player::{
    parse_decimal_trunc, parse_seconds_to_ms, DummyPlayer, MacOsPlayer, PlayerState, PlayerTrait,
};
use vyom::spotify::Spotify;

#[test]
fn seconds_parse_to_milliseconds() {
    assert_eq!(parse_seconds_to_ms("12.34"), 12340);
    assert_eq!(parse_seconds_to_ms("1.2345"), 1234);
    assert_eq!(parse_seconds_to_ms("3,5"), 3500);
    assert_eq!(parse_seconds_to_ms("7"), 7000);
    assert_eq!(parse_seconds_to_ms("5."), 5000);
    assert_eq!(parse_seconds_to_ms(".5"), 500);
}

#[test]
fn unreadable_seconds_count_as_the_start() {
    assert_eq!(parse_seconds_to_ms(""), 0);
    assert_eq!(parse_seconds_to_ms("."), 0);
    assert_eq!(parse_seconds_to_ms("abc"), 0);
    assert_eq!(parse_seconds_to_ms("1e3"), 0);
    assert_eq!(parse_seconds_to_ms("1.2.3"), 0);
    assert_eq!(parse_seconds_to_ms("-1.5"), 0);
}

#[test]
fn decimal_durations_truncate_to_whole_milliseconds() {
    assert_eq!(parse_decimal_trunc("1234.9"), 1234);
    assert_eq!(parse_decimal_trunc("200000"), 200000);
    assert_eq!(parse_decimal_trunc("oops"), 0);
    assert_eq!(parse_decimal_trunc("1,5"), 0);
}

#[test]
fn spotify_track_line_parses_field_by_field() {
    let out = "Song|||Artist|||Album|||200000|||12.34|||playing|||https://img.example/a";
    let t = Spotify::get_current_track(out).unwrap();
    assert_eq!(t.name, "Song");
    assert_eq!(t.artist, "Artist");
    assert_eq!(t.album, "Album");
    assert_eq!(t.duration_ms, 200000);
    assert_eq!(t.position_ms, 12340);
    assert_eq!(t.state, PlayerState::Playing);
    assert_eq!(t.artwork_url.as_deref(), Some("https://img.example/a"));
    assert_eq!(t.source, "Spotify");
}

#[test]
fn spotify_stopped_or_short_output_means_no_track() {
    assert!(Spotify::get_current_track("STOPPED").is_none());
    assert!(Spotify::get_current_track("only|||five|||fields|||here|||x").is_none());
    assert!(Spotify::get_current_track("").is_none());
}

#[test]
fn spotify_empty_artwork_means_none() {
    let out = "S|||A|||B|||1000|||0|||paused|||";
    let t = Spotify::get_current_track(out).unwrap();
    assert_eq!(t.state, PlayerState::Paused);
    assert!(t.artwork_url.is_none());
}

#[test]
fn spotify_unreadable_numbers_fall_back_to_zero() {
    let out = "S|||A|||B|||12.5|||bad|||stopped|||u";
    let t = Spotify::get_current_track(out).unwrap();
    // Spotify reports duration in whole milliseconds; a decimal is unreadable
    assert_eq!(t.duration_ms, 0);
    assert_eq!(t.position_ms, 0);
    assert_eq!(t.state, PlayerState::Stopped);
}

#[test]
fn spotify_commands_are_fixed_scripts() {
    assert_eq!(Spotify::play_pause(), "tell application \"Spotify\" to playpause");
    assert_eq!(Spotify::next(), "tell application \"Spotify\" to next track");
    assert_eq!(Spotify::prev(), "tell application \"Spotify\" to previous track");
}

#[test]
fn macos_track_line_truncates_decimal_durations() {
    let p = MacOsPlayer;
    let out = "Song|||Artist|||Album|||183000.75|||9,25|||paused|||NONE";
    let t = p.parse_track_output(out, "Music").unwrap();
    assert_eq!(t.duration_ms, 183000);
    assert_eq!(t.position_ms, 9250);
    assert_eq!(t.state, PlayerState::Paused);
    assert!(t.artwork_url.is_none());
    assert_eq!(t.source, "Music");
}

#[test]
fn macos_keeps_a_real_artwork_url() {
    let p = MacOsPlayer;
    let out = "S|||A|||B|||1000|||0|||playing|||https://img.example/b";
    let t = p.parse_track_output(out, "Spotify").unwrap();
    assert_eq!(t.artwork_url.as_deref(), Some("https://img.example/b"));
}

#[test]
fn macos_stopped_output_means_no_track() {
    let p = MacOsPlayer;
    assert!(p.parse_track_output("STOPPED", "Music").is_none());
    assert!(p.parse_track_output("short|||line", "Music").is_none());
}

#[test]
fn active_player_prefers_spotify() {
    let p = MacOsPlayer;
    assert_eq!(p.detect_active_player(true, true), Some("Spotify"));
    assert_eq!(p.detect_active_player(true, false), Some("Spotify"));
    assert_eq!(p.detect_active_player(false, true), Some("Music"));
    assert_eq!(p.detect_active_player(false, false), None);
}

#[test]
fn dummy_player_reports_nothing_and_accepts_everything() {
    let p = DummyPlayer;
    assert!(p.get_current_track().unwrap().is_none());
    assert!(p.play_pause().is_ok());
    assert!(p.next().is_ok());
    assert!(p.prev().is_ok());
    assert!(p.seek(1234).is_ok());
    assert!(p.volume_up().is_ok());
    assert!(p.volume_down().is_ok());
}
