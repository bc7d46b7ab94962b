//! The player-side data model and the parsers for what the platform's
//! scripting interface reports: a one-line track description with
//! `|||`-separated fields, positions and durations written as decimal
//! seconds. Running the scripts is I/O and stays with the caller; every
//! decision about their output is made here.
use crate::text::{
    all_digits, digit_value, digits_value, find_char, is_digit_char, lemma_find_char,
    lemma_find_char_is, spec_split_sub, split_by_str, str_eq,
};
use vstd::arithmetic::overflow::CheckedU64;
use vstd::prelude::*;

verus! {

/// Whether the platform player is playing, paused, or stopped.
#[derive(Debug, Clone, Copy, PartialEq, Eq, Structural)]
pub enum PlayerState {
    Playing,
    Paused,
    Stopped,
}

/// Everything the widget shows about the current track, as reported by one
/// poll of the platform player.
#[derive(Debug, Clone)]
pub struct TrackInfo {
    pub name: String,
    pub artist: String,
    pub album: String,
    pub artwork_url: Option<String>,
    pub duration_ms: u64,
    pub position_ms: u64,
    pub state: PlayerState,
    /// Which application reported the track, such as "Spotify" or "Music".
    pub source: String,
}

/// Why a player command failed, as reported by the platform.
#[derive(Debug, Clone)]
pub struct PlayerError {
    pub message: String,
}

/// The capability interface of a platform media player, injected into the
/// event loop rather than looked up globally. Implementations run platform
/// scripting and so live with the caller; `DummyPlayer` is the inert
/// placeholder for platforms without one.
pub trait PlayerTrait {
    /// The current track, or nothing when no player session is active.
    fn get_current_track(&self) -> Result<Option<TrackInfo>, PlayerError>;

    /// Toggles playback.
    fn play_pause(&self) -> Result<(), PlayerError>;

    /// Skips to the next track.
    fn next(&self) -> Result<(), PlayerError>;

    /// Returns to the previous track.
    fn prev(&self) -> Result<(), PlayerError>;

    /// Seeks to a position in the current track.
    fn seek(&self, position_ms: u64) -> Result<(), PlayerError>;

    /// Raises the player volume one step.
    fn volume_up(&self) -> Result<(), PlayerError>;

    /// Lowers the player volume one step.
    fn volume_down(&self) -> Result<(), PlayerError>;
}

/// The inert player for platforms without a scripting backend: it reports
/// no track and accepts every command without effect, as each method's
/// contract states.
pub struct DummyPlayer;

impl PlayerTrait for DummyPlayer {
    fn get_current_track(&self) -> (r: Result<Option<TrackInfo>, PlayerError>)
        ensures
            r matches Ok(t) && t is None,
    {
        Ok(None)
    }

    fn play_pause(&self) -> (r: Result<(), PlayerError>)
        ensures
            r is Ok,
    {
        Ok(())
    }

    fn next(&self) -> (r: Result<(), PlayerError>)
        ensures
            r is Ok,
    {
        Ok(())
    }

    fn prev(&self) -> (r: Result<(), PlayerError>)
        ensures
            r is Ok,
    {
        Ok(())
    }

    fn seek(&self, _position_ms: u64) -> (r: Result<(), PlayerError>)
        ensures
            r is Ok,
    {
        Ok(())
    }

    fn volume_up(&self) -> (r: Result<(), PlayerError>)
        ensures
            r is Ok,
    {
        Ok(())
    }

    fn volume_down(&self) -> (r: Result<(), PlayerError>)
        ensures
            r is Ok,
    {
        Ok(())
    }
}

// ---------------------------------------------------------------------------
// Decimal seconds
// ---------------------------------------------------------------------------

/// `s` with every `from` character replaced by `to`.
pub open spec fn replace_ch(s: Seq<char>, from: char, to: char) -> Seq<char> {
    Seq::new(
        s.len(),
        |i: int|
            if s[i] == from {
                to
            } else {
                s[i]
            },
    )
}

/// `x` clamped into the `u64` range.
pub open spec fn sat_u64(x: int) -> u64 {
    if x > u64::MAX {
        u64::MAX
    } else {
        x as u64
    }
}

/// Milliseconds named by a fractional-seconds digit run: its first three
/// digits, right-padded with zeros — `5` is 500 ms, `25` is 250 ms, `2567`
/// is 256 ms.
pub open spec fn spec_frac3(f: Seq<char>) -> nat {
    if f.len() >= 3 {
        digits_value(f.subrange(0, 3))
    } else if f.len() == 2 {
        digits_value(f) * 10
    } else if f.len() == 1 {
        digits_value(f) * 100
    } else {
        0
    }
}

/// What parsing a player position of decimal seconds into milliseconds
/// yields. A comma counts as the decimal point; the grammar is a digit run,
/// an optional point, and a fractional digit run, at least one digit in
/// all. Milliseconds beyond `u64::MAX` clamp there; anything malformed
/// yields 0, as the player treats an unreadable position as the start.
pub open spec fn spec_seconds_to_ms(s: Seq<char>) -> u64 {
    let t = replace_ch(s, ',', '.');
    let i = find_char(t, '.') as int;
    if i >= t.len() {
        if t.len() > 0 && all_digits(t) {
            sat_u64((digits_value(t) * 1000) as int)
        } else {
            0
        }
    } else {
        let ip = t.subrange(0, i);
        let fp = t.subrange(i + 1, t.len() as int);
        if find_char(fp, '.') >= fp.len() && all_digits(ip) && all_digits(fp) && ip.len()
            + fp.len() > 0 {
            sat_u64((digits_value(ip) * 1000 + spec_frac3(fp)) as int)
        } else {
            0
        }
    }
}

/// What parsing a decimal number down to its whole part yields: the integer
/// part of a `digits[.digits]` literal, clamped into `u64`; 0 when
/// malformed. Here the decimal point is a point alone.
pub open spec fn spec_decimal_trunc(s: Seq<char>) -> u64 {
    let i = find_char(s, '.') as int;
    if i >= s.len() {
        if s.len() > 0 && all_digits(s) {
            sat_u64(digits_value(s) as int)
        } else {
            0
        }
    } else {
        let ip = s.subrange(0, i);
        let fp = s.subrange(i + 1, s.len() as int);
        if find_char(fp, '.') >= fp.len() && all_digits(ip) && all_digits(fp) && ip.len()
            + fp.len() > 0 {
            sat_u64(digits_value(ip) as int)
        } else {
            0
        }
    }
}

/// The numeric value of the digit at character `k`.
fn digit_at(s: &str, k: usize) -> (d: u64)
    requires
        k < s@.len(),
        is_digit_char(s@[k as int]),
    ensures
        d == digit_value(s@[k as int]),
{
    (s.get_char(k) as u32 - 48) as u64
}

/// The value of the first `min(3, len)` fraction digits, right-padded to
/// three digits: `spec_frac3` of the digit run starting at `from`.
fn frac3_at(s: &str, from: usize, n: usize) -> (f: u64)
    requires
        from <= n <= s@.len(),
        forall|j: int| from <= j < n ==> is_digit_char(#[trigger] s@[j]),
    ensures
        f == spec_frac3(s@.subrange(from as int, n as int)),
        f <= 999,
{
    let ghost fp = s@.subrange(from as int, n as int);
    proof {
        if fp.len() >= 1 {
            let q1 = fp.subrange(0, 1);
            assert(q1.drop_last() =~= fp.subrange(0, 0));
            assert(digits_value(fp.subrange(0, 0)) == 0);
            assert(q1.last() == fp[0]);
            assert(fp[0] == s@[from as int]);
            assert(digits_value(q1) == digit_value(s@[from as int]));
        }
        if fp.len() >= 2 {
            let q2 = fp.subrange(0, 2);
            assert(q2.drop_last() =~= fp.subrange(0, 1));
            assert(q2.last() == fp[1]);
            assert(fp[1] == s@[from + 1]);
            assert(digits_value(q2) == digits_value(fp.subrange(0, 1)) * 10 + digit_value(
                s@[from + 1],
            ));
        }
        if fp.len() >= 3 {
            let q3 = fp.subrange(0, 3);
            assert(q3.drop_last() =~= fp.subrange(0, 2));
            assert(q3.last() == fp[2]);
            assert(fp[2] == s@[from + 2]);
            assert(digits_value(q3) == digits_value(fp.subrange(0, 2)) * 10 + digit_value(
                s@[from + 2],
            ));
        }
        if fp.len() == 1 {
            assert(fp =~= fp.subrange(0, 1));
        }
        if fp.len() == 2 {
            assert(fp =~= fp.subrange(0, 2));
        }
    }
    let flen = n - from;
    if flen == 0 {
        0
    } else if flen == 1 {
        let d0 = digit_at(s, from);
        d0 * 100
    } else if flen == 2 {
        let d0 = digit_at(s, from);
        let d1 = digit_at(s, from + 1);
        (d0 * 10 + d1) * 10
    } else {
        let d0 = digit_at(s, from);
        let d1 = digit_at(s, from + 1);
        let d2 = digit_at(s, from + 2);
        (d0 * 10 + d1) * 10 + d2
    }
}

/// Parses a player position of decimal seconds into milliseconds, exactly
/// as `spec_seconds_to_ms` describes.
pub fn parse_seconds_to_ms(s: &str) -> (r: u64)
    ensures
        r == spec_seconds_to_ms(s@),
{
    let ghost t = replace_ch(s@, ',', '.');
    let n = s.unicode_len();
    // find the first separator: a point, or a comma counting as one
    let mut i: usize = 0;
    loop
        invariant
            0 <= i <= n,
            n == s@.len(),
            t == replace_ch(s@, ',', '.'),
            forall|j: int| 0 <= j < i ==> #[trigger] t[j] != '.',
        ensures
            0 <= i <= n,
            forall|j: int| 0 <= j < i ==> #[trigger] t[j] != '.',
            i < n ==> t[i as int] == '.',
        decreases n - i,
    {
        if i >= n {
            break;
        }
        let c = s.get_char(i);
        if c == '.' || c == ',' {
            proof {
                assert(t[i as int] == '.');
            }
            break;
        }
        proof {
            assert(t[i as int] == s@[i as int]);
        }
        i = i + 1;
    }
    proof {
        lemma_find_char_is(t, '.', i as int);
        assert forall|j: int| 0 <= j < i implies s@[j] == t[j] && s@[j] != ',' by {
            assert(t[j] != '.');
        }
    }
    // integer part
    let mut acc = CheckedU64::new(0);
    let mut k: usize = 0;
    while k < i
        invariant
            0 <= k <= i <= n,
            n == s@.len(),
            t == replace_ch(s@, ',', '.'),
            find_char(t, '.') == i,
            i < n ==> t[i as int] == '.',
            forall|j: int| 0 <= j < i ==> s@[j] == t[j],
            acc@ == digits_value(t.subrange(0, k as int)),
            forall|j: int| 0 <= j < k ==> is_digit_char(#[trigger] t[j]),
        decreases i - k,
    {
        let c = s.get_char(k);
        let u = c as u32;
        if u < 48 || u > 57 {
            proof {
                assert(!is_digit_char(t[k as int]));
                if i >= n {
                    assert(!all_digits(t)) by {
                        assert(t.len() == n);
                    }
                } else {
                    let ip = t.subrange(0, i as int);
                    assert(ip[k as int] == t[k as int]);
                    assert(!all_digits(ip));
                }
            }
            return 0;
        }
        proof {
            assert(t.subrange(0, k + 1).drop_last() =~= t.subrange(0, k as int));
            assert(t.subrange(0, k + 1).last() == t[k as int]);
        }
        acc = acc.mul_value(10).add_value((u - 48) as u64);
        k = k + 1;
    }
    if i >= n {
        // no fraction: the whole string is the seconds digit run
        if n == 0 {
            return 0;
        }
        proof {
            assert(t.subrange(0, n as int) =~= t);
            assert(all_digits(t));
        }
        let total = acc.mul_value(1000);
        match total.to_option() {
            Some(v) => {
                return v;
            },
            None => {
                return u64::MAX;
            },
        }
    }
    // fraction: validate it is a digit run with no second separator
    let ghost fp = t.subrange(i + 1, n as int);
    let mut k2: usize = i + 1;
    while k2 < n
        invariant
            0 <= i < n,
            i + 1 <= k2 <= n,
            n == s@.len(),
            t == replace_ch(s@, ',', '.'),
            find_char(t, '.') == i,
            t[i as int] == '.',
            fp == t.subrange(i + 1, n as int),
            forall|j: int| 0 <= j < i ==> s@[j] == t[j],
            acc@ == digits_value(t.subrange(0, i as int)),
            forall|j: int| 0 <= j < i ==> is_digit_char(#[trigger] t[j]),
            forall|j: int|
                i + 1 <= j < k2 ==> is_digit_char(#[trigger] t[j]) && s@[j] == t[j],
        decreases n - k2,
    {
        let c = s.get_char(k2);
        if c == '.' || c == ',' {
            proof {
                assert(t[k2 as int] == '.');
                assert(fp[k2 - i - 1] == t[k2 as int]);
                lemma_find_char(fp, '.');
                assert(find_char(fp, '.') < fp.len());
            }
            return 0;
        }
        let u = c as u32;
        proof {
            assert(t[k2 as int] == s@[k2 as int]);
        }
        if u < 48 || u > 57 {
            proof {
                assert(fp[k2 - i - 1] == t[k2 as int]);
                assert(!all_digits(fp));
            }
            return 0;
        }
        k2 = k2 + 1;
    }
    proof {
        assert forall|j: int| 0 <= j < fp.len() implies is_digit_char(#[trigger] fp[j]) by {
            assert(fp[j] == t[i + 1 + j]);
        }
        assert forall|j: int| 0 <= j < fp.len() implies fp[j] != '.' by {
            assert(is_digit_char(fp[j]));
        }
        lemma_find_char_is(fp, '.', fp.len() as int);
    }
    let flen = n - i - 1;
    if i == 0 && flen == 0 {
        return 0;
    }
    proof {
        assert forall|j: int| i + 1 <= j < n implies is_digit_char(#[trigger] s@[j]) by {
            assert(is_digit_char(t[j]));
            assert(s@[j] == t[j]);
        }
    }
    let f3 = frac3_at(s, i + 1, n);
    proof {
        assert(s@.subrange(i + 1, n as int) =~= fp);
    }
    let total = acc.mul_value(1000).add_value(f3);
    match total.to_option() {
        Some(v) => v,
        None => u64::MAX,
    }
}

/// Parses a decimal number down to its whole part, exactly as
/// `spec_decimal_trunc` describes.
pub fn parse_decimal_trunc(s: &str) -> (r: u64)
    ensures
        r == spec_decimal_trunc(s@),
{
    let n = s.unicode_len();
    let mut i: usize = 0;
    loop
        invariant
            0 <= i <= n,
            n == s@.len(),
            forall|j: int| 0 <= j < i ==> #[trigger] s@[j] != '.',
        ensures
            0 <= i <= n,
            forall|j: int| 0 <= j < i ==> #[trigger] s@[j] != '.',
            i < n ==> s@[i as int] == '.',
        decreases n - i,
    {
        if i >= n {
            break;
        }
        if s.get_char(i) == '.' {
            break;
        }
        i = i + 1;
    }
    proof {
        assert(s@.subrange(0, n as int) =~= s@);
        lemma_find_char_is(s@, '.', i as int);
    }
    // integer part
    let mut acc = CheckedU64::new(0);
    let mut k: usize = 0;
    while k < i
        invariant
            0 <= k <= i <= n,
            n == s@.len(),
            find_char(s@, '.') == i,
            i < n ==> s@[i as int] == '.',
            acc@ == digits_value(s@.subrange(0, k as int)),
            forall|j: int| 0 <= j < k ==> is_digit_char(#[trigger] s@[j]),
        decreases i - k,
    {
        let c = s.get_char(k);
        let u = c as u32;
        if u < 48 || u > 57 {
            proof {
                if i >= n {
                    assert(s@.subrange(0, n as int) =~= s@);
                    assert(!all_digits(s@));
                } else {
                    let ip = s@.subrange(0, i as int);
                    assert(ip[k as int] == s@[k as int]);
                    assert(!all_digits(ip));
                }
            }
            return 0;
        }
        proof {
            assert(s@.subrange(0, k + 1).drop_last() =~= s@.subrange(0, k as int));
            assert(s@.subrange(0, k + 1).last() == s@[k as int]);
        }
        acc = acc.mul_value(10).add_value((u - 48) as u64);
        k = k + 1;
    }
    if i >= n {
        if n == 0 {
            return 0;
        }
        proof {
            assert(s@.subrange(0, n as int) =~= s@);
            assert(all_digits(s@));
        }
        match acc.to_option() {
            Some(v) => {
                return v;
            },
            None => {
                return u64::MAX;
            },
        }
    }
    // fraction: validated, then discarded
    let ghost fp = s@.subrange(i + 1, n as int);
    let mut k2: usize = i + 1;
    while k2 < n
        invariant
            0 <= i < n,
            i + 1 <= k2 <= n,
            n == s@.len(),
            find_char(s@, '.') == i,
            s@[i as int] == '.',
            fp == s@.subrange(i + 1, n as int),
            acc@ == digits_value(s@.subrange(0, i as int)),
            forall|j: int| 0 <= j < i ==> is_digit_char(#[trigger] s@[j]),
            forall|j: int| i + 1 <= j < k2 ==> is_digit_char(#[trigger] s@[j]),
        decreases n - k2,
    {
        let c = s.get_char(k2);
        if c == '.' {
            proof {
                assert(fp[k2 - i - 1] == s@[k2 as int]);
                lemma_find_char(fp, '.');
                assert(find_char(fp, '.') < fp.len());
            }
            return 0;
        }
        let u = c as u32;
        if u < 48 || u > 57 {
            proof {
                assert(fp[k2 - i - 1] == s@[k2 as int]);
                assert(!all_digits(fp));
            }
            return 0;
        }
        k2 = k2 + 1;
    }
    proof {
        assert forall|j: int| 0 <= j < fp.len() implies is_digit_char(#[trigger] fp[j]) by {
            assert(fp[j] == s@[i + 1 + j]);
        }
        assert forall|j: int| 0 <= j < fp.len() implies fp[j] != '.' by {
            assert(is_digit_char(fp[j]));
        }
        lemma_find_char_is(fp, '.', fp.len() as int);
    }
    let flen = n - i - 1;
    if i == 0 && flen == 0 {
        return 0;
    }
    match acc.to_option() {
        Some(v) => v,
        None => u64::MAX,
    }
}

// ---------------------------------------------------------------------------
// The track description scripts print
// ---------------------------------------------------------------------------

/// The player state named by the script's state word: anything but
/// `playing` or `paused` counts as stopped.
pub open spec fn spec_player_state(s: Seq<char>) -> PlayerState {
    if s == "playing"@ {
        PlayerState::Playing
    } else if s == "paused"@ {
        PlayerState::Paused
    } else {
        PlayerState::Stopped
    }
}

/// Reads the script's state word, exactly as `spec_player_state` describes.
pub fn player_state_of(s: &str) -> (r: PlayerState)
    ensures
        r == spec_player_state(s@),
{
    if str_eq(s, "playing") {
        PlayerState::Playing
    } else if str_eq(s, "paused") {
        PlayerState::Paused
    } else {
        PlayerState::Stopped
    }
}

/// The macOS player front. Its scripting — which application runs, what a
/// script printed — is the caller's I/O; every decision about those answers
/// is made here.
pub struct MacOsPlayer;

impl MacOsPlayer {
    /// Which running application to address: Spotify wins over Music, and
    /// neither running means no active player.
    pub fn detect_active_player(&self, spotify_running: bool, music_running: bool) -> (r: Option<
        &'static str,
    >)
        ensures
            spotify_running ==> (r matches Some(app) && app@ == "Spotify"@),
            !spotify_running && music_running ==> (r matches Some(app) && app@ == "Music"@),
            !spotify_running && !music_running ==> r is None,
    {
        if spotify_running {
            Some("Spotify")
        } else if music_running {
            Some("Music")
        } else {
            None
        }
    }

    /// Reads the one-line track description a player script printed:
    /// seven `|||`-separated fields — name, artist, album, duration in
    /// milliseconds (decimals truncated), position in decimal seconds,
    /// state word, artwork URL, where an empty URL or the word `NONE`
    /// means none. A stopped player or a short line means no track; the
    /// track is labeled with the given `source` application.
    pub fn parse_track_output(&self, output: &str, source: &str) -> (r: Option<TrackInfo>)
        ensures
            ({
                let parts = spec_split_sub(output@, "|||"@);
                if output@ == "STOPPED"@ || parts.len() < 7 {
                    r is None
                } else {
                    match r {
                        Some(t) => {
                            &&& t.name@ == parts[0]
                            &&& t.artist@ == parts[1]
                            &&& t.album@ == parts[2]
                            &&& t.duration_ms == spec_decimal_trunc(parts[3])
                            &&& t.position_ms == spec_seconds_to_ms(parts[4])
                            &&& t.state == spec_player_state(parts[5])
                            &&& match t.artwork_url {
                                Some(u) => u@ == parts[6] && parts[6].len() > 0 && parts[6]
                                    != "NONE"@,
                                None => parts[6].len() == 0 || parts[6] == "NONE"@,
                            }
                            &&& t.source@ == source@
                        },
                        None => false,
                    }
                }
            }),
    {
        if str_eq(output, "STOPPED") {
            return None;
        }
        proof {
            reveal_strlit("|||");
        }
        let parts = split_by_str(output, "|||");
        if parts.len() < 7 {
            return None;
        }
        let ghost pv = spec_split_sub(output@, "|||"@);
        proof {
            assert forall|k: int| 0 <= k < 7 implies parts@[k]@ == pv[k] by {
                assert(parts.deep_view()[k] == parts@[k].deep_view());
            }
        }
        let duration_ms = parse_decimal_trunc(parts[3].as_str());
        let position_ms = parse_seconds_to_ms(parts[4].as_str());
        let state = player_state_of(parts[5].as_str());
        let artwork_url = if parts[6].as_str().unicode_len() > 0 && !str_eq(
            parts[6].as_str(),
            "NONE",
        ) {
            Some(parts[6].clone())
        } else {
            None
        };
        Some(
            TrackInfo {
                name: parts[0].clone(),
                artist: parts[1].clone(),
                album: parts[2].clone(),
                artwork_url,
                duration_ms,
                position_ms,
                state,
                source: source.to_owned(),
            },
        )
    }
}

} // verus!
