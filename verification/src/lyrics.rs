//! The lyric timeline: parses an LRC-style transcript — lines prefixed with
//! a `[mm:ss.xx]` marker — into an ordered sequence of time-tagged lines,
//! and answers which line is active at a given playback position.
use crate::text::{
    all_digits, digit_value, digits_value, find_char, find_char_from, is_digit_char,
    lemma_find_char_is, parse_u64_str, spec_parse_u64, spec_split_char, spec_trim, split_by_char,
    trim_str,
};
use vstd::prelude::*;

verus! {

/// One time-tagged transcript line: a position in milliseconds and the text
/// sung there.
#[derive(Debug, Clone)]
pub struct LyricLine {
    pub timestamp_ms: u64,
    pub text: String,
}

impl View for LyricLine {
    type V = (u64, Seq<char>);

    open spec fn view(&self) -> (u64, Seq<char>) {
        (self.timestamp_ms, self.text@)
    }
}

/// The raw lyric payload as the lyric service hands it over: a synchronized
/// transcript when one exists, else plain untagged text.
#[derive(Debug, Clone)]
pub struct LrclibResponse {
    pub synced_lyrics: Option<String>,
    pub plain_lyrics: Option<String>,
}

// ---------------------------------------------------------------------------
// Timestamp grammar
// ---------------------------------------------------------------------------

/// Milliseconds named by a fractional-seconds digit run: a two-digit run is
/// centiseconds and is scaled by ten; any other run is taken verbatim.
pub open spec fn spec_frac_ms(frac: Seq<char>) -> nat {
    if frac.len() == 2 {
        digits_value(frac) * 10
    } else {
        digits_value(frac)
    }
}

/// Total milliseconds of a minutes/seconds/fraction triple, or nothing when
/// it exceeds `u64::MAX`.
pub open spec fn spec_total_ms(m: nat, s: nat, f: nat) -> Option<u64> {
    if m * 60000 + s * 1000 + f <= u64::MAX {
        Some((m * 60000 + s * 1000 + f) as u64)
    } else {
        None
    }
}

/// What parsing a timestamp body `mm:ss`, `mm:ss.x`, `mm:ss.xx`, ... yields:
/// minutes and seconds are non-empty digit runs, the optional fraction is a
/// non-empty digit run valued by `spec_frac_ms`. Anything else — a second
/// `:` or `.`, an empty component, a non-digit, a value beyond `u64::MAX`
/// milliseconds — yields nothing.
pub open spec fn spec_timestamp_ms(ts: Seq<char>) -> Option<u64> {
    let i = find_char(ts, ':') as int;
    if i >= ts.len() {
        None
    } else {
        let mins = ts.subrange(0, i);
        let rest = ts.subrange(i + 1, ts.len() as int);
        if find_char(rest, ':') < rest.len() {
            None
        } else {
            let j = find_char(rest, '.') as int;
            if j >= rest.len() {
                if mins.len() > 0 && all_digits(mins) && rest.len() > 0 && all_digits(rest) {
                    spec_total_ms(digits_value(mins), digits_value(rest), 0)
                } else {
                    None
                }
            } else {
                let secs = rest.subrange(0, j);
                let frac = rest.subrange(j + 1, rest.len() as int);
                if find_char(frac, '.') < frac.len() {
                    None
                } else if mins.len() > 0 && all_digits(mins) && secs.len() > 0 && all_digits(secs)
                    && frac.len() > 0 && all_digits(frac) {
                    spec_total_ms(digits_value(mins), digits_value(secs), spec_frac_ms(frac))
                } else {
                    None
                }
            }
        }
    }
}

/// A digit run of length two values at most 99.
proof fn lemma_two_digits_bound(s: Seq<char>)
    requires
        s.len() == 2,
        all_digits(s),
    ensures
        digits_value(s) <= 99,
{
    assert(digits_value(s) == digits_value(s.drop_last()) * 10 + digit_value(s.last()));
    let d = s.drop_last();
    assert(digits_value(d) == digits_value(d.drop_last()) * 10 + digit_value(d.last()));
    assert(d.drop_last().len() == 0);
    assert(digit_value(d.last()) <= 9) by {
        assert(d.last() == s[0]);
    }
    assert(digit_value(s.last()) <= 9) by {
        assert(s.last() == s[1]);
    }
}

/// Parses the body of a `[mm:ss.xx]` marker into milliseconds, exactly as
/// `spec_timestamp_ms` describes.
pub fn parse_timestamp(ts: &str) -> (r: Option<u64>)
    ensures
        r == spec_timestamp_ms(ts@),
{
    let n = ts.unicode_len();
    proof {
        assert(ts@.subrange(0, n as int) =~= ts@);
    }
    let i = find_char_from(ts, 0, ':');
    if i >= n {
        return None;
    }
    let ghost mins = ts@.subrange(0, i as int);
    let ghost rest = ts@.subrange(i + 1, n as int);
    let i2 = find_char_from(ts, i + 1, ':');
    proof {
        assert(find_char(rest, ':') == i2 - i - 1);
    }
    if i2 < n {
        return None;
    }
    let j = find_char_from(ts, i + 1, '.');
    proof {
        assert(find_char(rest, '.') == j - i - 1);
    }
    let m = match parse_u64_str(ts.substring_char(0, i)) {
        Some(v) => v,
        None => {
            return None;
        },
    };
    proof {
        assert(spec_parse_u64(mins) == Some(m));
    }
    let (s, f): (u64, u64) = if j >= n {
        let sv = match parse_u64_str(ts.substring_char(i + 1, n)) {
            Some(v) => v,
            None => {
                return None;
            },
        };
        (sv, 0)
    } else {
        let ghost secs = rest.subrange(0, j - i - 1);
        let ghost frac = rest.subrange(j - i, rest.len() as int);
        proof {
            assert(secs =~= ts@.subrange(i + 1, j as int));
            assert(frac =~= ts@.subrange(j + 1, n as int));
        }
        let j2 = find_char_from(ts, j + 1, '.');
        proof {
            assert(find_char(frac, '.') == j2 - j - 1);
        }
        if j2 < n {
            return None;
        }
        let sv = match parse_u64_str(ts.substring_char(i + 1, j)) {
            Some(v) => v,
            None => {
                return None;
            },
        };
        let fv = match parse_u64_str(ts.substring_char(j + 1, n)) {
            Some(v) => v,
            None => {
                return None;
            },
        };
        let flen = n - (j + 1);
        if flen == 2 {
            proof {
                lemma_two_digits_bound(frac);
            }
            (sv, fv * 10)
        } else {
            (sv, fv)
        }
    };
    let t1 = match m.checked_mul(60000) {
        Some(v) => v,
        None => {
            return None;
        },
    };
    let t2 = match s.checked_mul(1000) {
        Some(v) => v,
        None => {
            return None;
        },
    };
    let t3 = match t1.checked_add(t2) {
        Some(v) => v,
        None => {
            return None;
        },
    };
    match t3.checked_add(f) {
        Some(v) => Some(v),
        None => None,
    }
}

// ---------------------------------------------------------------------------
// Transcript parsing
// ---------------------------------------------------------------------------

/// What one transcript line contributes: a timestamp and the trimmed text
/// after the closing bracket, provided the line starts with `[`, holds a
/// `]`, and the characters between them parse as a timestamp. Any other
/// line contributes nothing.
pub open spec fn spec_line_entry(l: Seq<char>) -> Option<(u64, Seq<char>)> {
    if l.len() > 0 && l[0] == '[' && find_char(l, ']') < l.len() {
        let j = find_char(l, ']') as int;
        match spec_timestamp_ms(l.subrange(1, j)) {
            Some(ms) => Some((ms, spec_trim(l.subrange(j + 1, l.len() as int)))),
            None => None,
        }
    } else {
        None
    }
}

/// The entries that a sequence of lines contributes, in order.
pub open spec fn spec_entries(lines: Seq<Seq<char>>) -> Seq<(u64, Seq<char>)>
    decreases lines.len(),
{
    if lines.len() == 0 {
        Seq::empty()
    } else {
        let rest = spec_entries(lines.drop_first());
        match spec_line_entry(lines[0]) {
            Some(e) => seq![e] + rest,
            None => rest,
        }
    }
}

/// What parsing a whole transcript yields: the entries of its
/// newline-separated lines, in transcript order, timestamps not re-sorted.
pub open spec fn spec_transcript(raw: Seq<char>) -> Seq<(u64, Seq<char>)> {
    spec_entries(spec_split_char(raw, '\n'))
}

/// Parses one transcript line, exactly as `spec_line_entry` describes.
fn parse_line(line: &str) -> (r: Option<LyricLine>)
    ensures
        match r {
            Some(ll) => spec_line_entry(line@) == Some(ll@),
            None => spec_line_entry(line@) is None,
        },
{
    let n = line.unicode_len();
    if n == 0 {
        return None;
    }
    if line.get_char(0) != '[' {
        return None;
    }
    let j = find_char_from(line, 0, ']');
    proof {
        assert(line@.subrange(0, n as int) =~= line@);
    }
    if j >= n {
        return None;
    }
    let ms = match parse_timestamp(line.substring_char(1, j)) {
        Some(v) => v,
        None => {
            return None;
        },
    };
    let text = trim_str(line.substring_char(j + 1, n));
    Some(LyricLine { timestamp_ms: ms, text })
}

/// An ordered sequence of time-tagged lyric lines for one track, created
/// whole by `parse` and never mutated afterwards. Its mathematical view is
/// the sequence of (timestamp, text) pairs.
#[derive(Debug, Clone)]
pub struct LyricTimeline {
    lines: Vec<LyricLine>,
}

impl View for LyricTimeline {
    type V = Seq<(u64, Seq<char>)>;

    closed spec fn view(&self) -> Seq<(u64, Seq<char>)> {
        Seq::new(self.lines@.len(), |i: int| self.lines@[i]@)
    }
}

impl LyricTimeline {
    /// Parses an LRC-style transcript. Yields the timeline of every line
    /// carrying a well-formed timestamp, in transcript order; malformed or
    /// untagged lines are dropped silently. Yields nothing when no tagged
    /// line was recovered, even if untagged text existed.
    pub fn parse(raw: &str) -> (r: Option<LyricTimeline>)
        ensures
            match r {
                Some(t) => t@ == spec_transcript(raw@) && t@.len() > 0,
                None => spec_transcript(raw@).len() == 0,
            },
    {
        let parts = split_by_char(raw, '\n');
        let ghost lv = parts.deep_view();
        let mut lines: Vec<LyricLine> = Vec::new();
        let mut k: usize = 0;
        proof {
            assert(lv.subrange(0, lv.len() as int) =~= lv);
            assert(Seq::new(lines@.len(), |i: int| lines@[i]@) + spec_entries(lv)
                =~= spec_entries(lv));
        }
        while k < parts.len()
            invariant
                0 <= k <= parts.len(),
                lv == parts.deep_view(),
                lv.len() == parts@.len(),
                Seq::new(lines@.len(), |i: int| lines@[i]@) + spec_entries(
                    lv.subrange(k as int, lv.len() as int),
                ) == spec_entries(lv),
            decreases parts.len() - k,
        {
            let ghost suffix = lv.subrange(k as int, lv.len() as int);
            proof {
                assert(suffix[0] == lv[k as int]);
                assert(suffix.drop_first() =~= lv.subrange(k + 1, lv.len() as int));
                assert(parts@[k as int].deep_view() == lv[k as int]);
            }
            match parse_line(parts[k].as_str()) {
                Some(ll) => {
                    lines.push(ll);
                    proof {
                        assert(Seq::new(lines@.len(), |i: int| lines@[i]@) =~= Seq::new(
                            (lines@.len() - 1) as nat,
                            |i: int| lines@[i]@,
                        ).push(ll@));
                        assert(Seq::new(lines@.len(), |i: int| lines@[i]@) + spec_entries(
                            lv.subrange(k + 1, lv.len() as int),
                        ) =~= spec_entries(lv));
                    }
                },
                None => {
                    proof {
                        assert(spec_entries(suffix) == spec_entries(suffix.drop_first()));
                    }
                },
            }
            k = k + 1;
        }
        proof {
            assert(lv.subrange(parts@.len() as int, lv.len() as int).len() == 0);
            assert(spec_entries(lv.subrange(parts@.len() as int, lv.len() as int)) =~= Seq::<(
                u64,
                Seq<char>,
            )>::empty());
            assert(Seq::new(lines@.len(), |i: int| lines@[i]@) =~= spec_entries(lv));
        }
        if lines.len() == 0 {
            None
        } else {
            let t = LyricTimeline { lines };
            proof {
                assert(t@ =~= spec_transcript(raw@));
            }
            Some(t)
        }
    }

    /// How many lines the timeline holds; always at least one for a parsed
    /// timeline.
    pub fn len(&self) -> (r: usize)
        ensures
            r == self@.len(),
    {
        self.lines.len()
    }

    /// The line at index `i`.
    pub fn line(&self, i: usize) -> (r: &LyricLine)
        requires
            i < self@.len(),
        ensures
            r@ == self@[i as int],
    {
        &self.lines[i]
    }
}

// ---------------------------------------------------------------------------
// Natural index
// ---------------------------------------------------------------------------

/// Index of the first entry whose timestamp exceeds `t`, or the entry count
/// when none does.
pub open spec fn spec_first_after(entries: Seq<(u64, Seq<char>)>, t: u64) -> nat
    decreases entries.len(),
{
    if entries.len() == 0 {
        0
    } else if entries[0].0 > t {
        0
    } else {
        1 + spec_first_after(entries.drop_first(), t)
    }
}

/// The natural index at position `t`: the line just before the first entry
/// whose timestamp exceeds `t`; 0 when no line qualifies yet, the last line
/// when `t` lies beyond every timestamp.
pub open spec fn spec_natural_index(entries: Seq<(u64, Seq<char>)>, t: u64) -> nat {
    let k = spec_first_after(entries, t);
    if k == 0 {
        0
    } else {
        (k - 1) as nat
    }
}

/// `spec_first_after` points at the first entry past `t`.
pub proof fn lemma_first_after(entries: Seq<(u64, Seq<char>)>, t: u64)
    ensures
        spec_first_after(entries, t) <= entries.len(),
        spec_first_after(entries, t) < entries.len() ==> entries[spec_first_after(
            entries,
            t,
        ) as int].0 > t,
        forall|j: int| 0 <= j < spec_first_after(entries, t) ==> entries[j].0 <= t,
    decreases entries.len(),
{
    if entries.len() == 0 {
    } else if entries[0].0 > t {
    } else {
        lemma_first_after(entries.drop_first(), t);
        assert forall|j: int| 0 <= j < spec_first_after(entries, t) implies entries[j].0 <= t by {
            if j > 0 {
                assert(entries[j] == entries.drop_first()[j - 1]);
            }
        }
    }
}

/// Conversely, an index with those properties is `spec_first_after`.
pub proof fn lemma_first_after_is(entries: Seq<(u64, Seq<char>)>, t: u64, i: int)
    requires
        0 <= i <= entries.len(),
        forall|j: int| 0 <= j < i ==> entries[j].0 <= t,
        i < entries.len() ==> entries[i].0 > t,
    ensures
        spec_first_after(entries, t) == i,
    decreases entries.len(),
{
    if entries.len() == 0 {
    } else if entries[0].0 > t {
        if i > 0 {
            assert(entries[0].0 <= t);
        }
    } else {
        if i == 0 {
            assert(entries[0].0 > t);
        }
        assert forall|j: int| 0 <= j < i - 1 implies entries.drop_first()[j].0 <= t by {
            assert(entries.drop_first()[j] == entries[j + 1]);
        }
        assert(i - 1 < entries.drop_first().len() ==> entries.drop_first()[i - 1].0 > t);
        lemma_first_after_is(entries.drop_first(), t, i - 1);
    }
}

/// Law: for a fixed timeline, the natural index is monotone in playback
/// position — a later position never points at an earlier line.
pub proof fn lemma_natural_index_monotonic(entries: Seq<(u64, Seq<char>)>, t1: u64, t2: u64)
    requires
        t1 <= t2,
    ensures
        spec_natural_index(entries, t1) <= spec_natural_index(entries, t2),
{
    lemma_first_after_monotonic(entries, t1, t2);
}

/// `spec_first_after` is monotone in the position.
proof fn lemma_first_after_monotonic(entries: Seq<(u64, Seq<char>)>, t1: u64, t2: u64)
    requires
        t1 <= t2,
    ensures
        spec_first_after(entries, t1) <= spec_first_after(entries, t2),
    decreases entries.len(),
{
    if entries.len() == 0 {
    } else if entries[0].0 > t1 {
    } else {
        lemma_first_after_monotonic(entries.drop_first(), t1, t2);
    }
}

impl LyricTimeline {
    /// The natural index at playback position `position_ms`, found by a
    /// forward scan, exactly as `spec_natural_index` describes.
    pub fn natural_index(&self, position_ms: u64) -> (r: usize)
        ensures
            r == spec_natural_index(self@, position_ms),
    {
        let n = self.lines.len();
        let mut i: usize = 0;
        loop
            invariant
                0 <= i <= n,
                n == self@.len(),
                n == self.lines@.len(),
                forall|j: int| 0 <= j < i ==> self@[j].0 <= position_ms,
            ensures
                0 <= i <= n,
                forall|j: int| 0 <= j < i ==> self@[j].0 <= position_ms,
                i < n ==> self@[i as int].0 > position_ms,
            decreases n - i,
        {
            if i >= n {
                break;
            }
            if self.lines[i].timestamp_ms > position_ms {
                break;
            }
            i = i + 1;
        }
        proof {
            lemma_first_after_is(self@, position_ms, i as int);
        }
        if i == 0 {
            0
        } else {
            i - 1
        }
    }
}

// ---------------------------------------------------------------------------
// Clock display and the parse/display round trip
// ---------------------------------------------------------------------------

/// The minutes and whole seconds a clock label shows for a position of
/// `ms` milliseconds.
pub fn clock_display(ms: u64) -> (r: (u64, u64))
    ensures
        r.0 == ms / 60000,
        r.1 == (ms % 60000) / 1000,
{
    (ms / 60000, (ms % 60000) / 1000)
}

/// Law: timestamp parsing is inverse-consistent with the clock display.
/// Every well-formed timestamp body `mm:ss`, `mm:ss.x` or `mm:ss.xx` whose
/// seconds lie below 60 parses to a millisecond value that the clock
/// formats back to the original whole minutes and seconds.
pub proof fn lemma_timestamp_round_trip(mins: Seq<char>, secs: Seq<char>, frac: Seq<char>)
    requires
        mins.len() > 0,
        all_digits(mins),
        secs.len() > 0,
        all_digits(secs),
        digits_value(secs) < 60,
        frac.len() <= 2,
        all_digits(frac),
        digits_value(mins) * 60000 + digits_value(secs) * 1000 + spec_frac_ms(frac) <= u64::MAX,
    ensures
        ({
            let ts = if frac.len() == 0 {
                mins + seq![':'] + secs
            } else {
                mins + seq![':'] + secs + seq!['.'] + frac
            };
            match spec_timestamp_ms(ts) {
                Some(v) => v / 60000 == digits_value(mins) && (v % 60000) / 1000 == digits_value(
                    secs,
                ),
                None => false,
            }
        }),
{
    let m = digits_value(mins);
    let s = digits_value(secs);
    let f = spec_frac_ms(frac);
    let ts = if frac.len() == 0 {
        mins + seq![':'] + secs
    } else {
        mins + seq![':'] + secs + seq!['.'] + frac
    };
    let ml = mins.len() as int;
    let sl = secs.len() as int;
    assert(':' as u32 == 58);
    assert('.' as u32 == 46);
    assert forall|j: int| 0 <= j < ml implies ts[j] != ':' by {
        assert(is_digit_char(ts[j]));
    }
    assert(ts[ml] == ':');
    lemma_find_char_is(ts, ':', ml);
    let rest = ts.subrange(ml + 1, ts.len() as int);
    assert(ts.subrange(0, ml) =~= mins);
    assert forall|j: int| 0 <= j < rest.len() implies rest[j] != ':' by {
        assert(rest[j] == ts[ml + 1 + j]);
    }
    lemma_find_char_is(rest, ':', rest.len() as int);
    if frac.len() == 0 {
        assert(rest =~= secs);
        lemma_find_char_is(rest, '.', rest.len() as int);
        assert(spec_timestamp_ms(ts) == spec_total_ms(m, s, 0));
        lemma_clock_display_parts(m, s, 0);
    } else {
        assert forall|j: int| 0 <= j < sl implies rest[j] != '.' by {
            assert(rest[j] == ts[ml + 1 + j]);
            assert(is_digit_char(rest[j]));
        }
        assert(rest[sl] == ts[ml + 1 + sl]);
        assert(rest[sl] == '.');
        lemma_find_char_is(rest, '.', sl);
        assert(rest.subrange(0, sl) =~= secs);
        let fr = rest.subrange(sl + 1, rest.len() as int);
        assert(fr =~= frac);
        assert forall|j: int| 0 <= j < fr.len() implies fr[j] != '.' by {
            assert(is_digit_char(fr[j]));
        }
        lemma_find_char_is(fr, '.', fr.len() as int);
        assert(spec_timestamp_ms(ts) == spec_total_ms(m, s, f));
        if frac.len() == 2 {
            lemma_two_digits_bound(frac);
        } else {
            assert(digits_value(frac) == digits_value(frac.drop_last()) * 10 + digit_value(
                frac.last(),
            ));
            assert(frac.drop_last().len() == 0);
            assert(digit_value(frac.last()) <= 9) by {
                assert(frac.last() == frac[0]);
            }
        }
        lemma_clock_display_parts(m, s, f);
    }
}

/// Arithmetic behind the round trip: with seconds below 60 and fraction
/// below 1000 milliseconds, integer division recovers the components.
proof fn lemma_clock_display_parts(m: nat, s: nat, f: nat)
    requires
        s < 60,
        f < 1000,
        m * 60000 + s * 1000 + f <= u64::MAX,
    ensures
        (m * 60000 + s * 1000 + f) as u64 / 60000 == m,
        ((m * 60000 + s * 1000 + f) as u64 % 60000) / 1000 == s,
{
    let v = (m * 60000 + s * 1000 + f) as u64;
    vstd::arithmetic::div_mod::lemma_fundamental_div_mod_converse(
        v as int,
        60000,
        m as int,
        (s * 1000 + f) as int,
    );
    vstd::arithmetic::div_mod::lemma_fundamental_div_mod_converse(
        (s * 1000 + f) as int,
        1000,
        s as int,
        f as int,
    );
}

// ---------------------------------------------------------------------------
// Choosing the raw transcript of a response
// ---------------------------------------------------------------------------

/// The transcript text a response contributes: the synchronized text when
/// present, else the plain text, else nothing.
pub open spec fn spec_raw_transcript(r: LrclibResponse) -> Option<Seq<char>> {
    match r.synced_lyrics {
        Some(s) => Some(s@),
        None => match r.plain_lyrics {
            Some(p) => Some(p@),
            None => None,
        },
    }
}

impl LyricTimeline {
    /// Parses the transcript a lyric-service response carries, preferring
    /// synchronized text over plain text; plain text without timestamp
    /// markers still yields nothing.
    pub fn from_response(resp: &LrclibResponse) -> (r: Option<LyricTimeline>)
        ensures
            match spec_raw_transcript(*resp) {
                Some(raw) => match r {
                    Some(t) => t@ == spec_transcript(raw) && t@.len() > 0,
                    None => spec_transcript(raw).len() == 0,
                },
                None => r is None,
            },
    {
        match &resp.synced_lyrics {
            Some(s) => Self::parse(s.as_str()),
            None => match &resp.plain_lyrics {
                Some(p) => Self::parse(p.as_str()),
                None => None,
            },
        }
    }
}

} // verus!
