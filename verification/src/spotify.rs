//! The Spotify front: the fixed AppleScript commands the widget sends, and
//! the reader for the one-line track description the query script prints.
//! Running the scripts is the caller's I/O; what they say is decided here.
use crate::player::{
    parse_seconds_to_ms, player_state_of, spec_player_state, spec_seconds_to_ms, TrackInfo,
};
use crate::text::{parse_u64_str, spec_parse_u64, spec_split_sub, split_by_str, str_eq};
use vstd::prelude::*;

verus! {

/// The Spotify application, addressed through fixed scripting commands.
pub struct Spotify;

impl Spotify {
    /// Reads the one-line track description the query script printed:
    /// seven `|||`-separated fields — name, artist, album, duration in
    /// whole milliseconds, position in decimal seconds, state word,
    /// artwork URL, where an empty URL means none. A stopped player or a
    /// short line means no track.
    pub fn get_current_track(output: &str) -> (r: Option<TrackInfo>)
        ensures
            ({
                let parts = spec_split_sub(output@, "|||"@);
                if output@ == "STOPPED"@ || parts.len() < 7 {
                    r is None
                } else {
                    match r {
                        Some(t) => {
                            &&& t.name@ == parts[0]
                            &&& t.artist@ == parts[1]
                            &&& t.album@ == parts[2]
                            &&& t.duration_ms == match spec_parse_u64(parts[3]) {
                                Some(v) => v,
                                None => 0u64,
                            }
                            &&& t.position_ms == spec_seconds_to_ms(parts[4])
                            &&& t.state == spec_player_state(parts[5])
                            &&& match t.artwork_url {
                                Some(u) => u@ == parts[6] && parts[6].len() > 0,
                                None => parts[6].len() == 0,
                            }
                            &&& t.source@ == "Spotify"@
                        },
                        None => false,
                    }
                }
            }),
    {
        if str_eq(output, "STOPPED") {
            return None;
        }
        proof {
            reveal_strlit("|||");
        }
        let parts = split_by_str(output, "|||");
        if parts.len() < 7 {
            return None;
        }
        let ghost pv = spec_split_sub(output@, "|||"@);
        proof {
            assert forall|k: int| 0 <= k < 7 implies parts@[k]@ == pv[k] by {
                assert(parts.deep_view()[k] == parts@[k].deep_view());
            }
        }
        let duration_ms = match parse_u64_str(parts[3].as_str()) {
            Some(v) => v,
            None => 0,
        };
        let position_ms = parse_seconds_to_ms(parts[4].as_str());
        let state = player_state_of(parts[5].as_str());
        let artwork_url = if parts[6].as_str().unicode_len() > 0 {
            Some(parts[6].clone())
        } else {
            None
        };
        Some(
            TrackInfo {
                name: parts[0].clone(),
                artist: parts[1].clone(),
                album: parts[2].clone(),
                artwork_url,
                duration_ms,
                position_ms,
                state,
                source: "Spotify".to_owned(),
            },
        )
    }

    /// The scripting command that toggles Spotify playback; running it is
    /// the caller's I/O.
    pub fn play_pause() -> (r: &'static str)
        ensures
            r@ == "tell application \"Spotify\" to playpause"@,
    {
        "tell application \"Spotify\" to playpause"
    }

    /// The scripting command that skips to the next track.
    pub fn next() -> (r: &'static str)
        ensures
            r@ == "tell application \"Spotify\" to next track"@,
    {
        "tell application \"Spotify\" to next track"
    }

    /// The scripting command that returns to the previous track.
    pub fn prev() -> (r: &'static str)
        ensures
            r@ == "tell application \"Spotify\" to previous track"@,
    {
        "tell application \"Spotify\" to previous track"
    }
}

} // verus!
