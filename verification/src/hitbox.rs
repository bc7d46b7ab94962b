//! Click handling: the per-line hit-test table rebuilt every frame, and the
//! translation of a pointer click into a player action — a transport
//! command, a progress-bar seek, or a seek to a rendered lyric line.
use crate::lyrics::LyricTimeline;
use vstd::prelude::*;

verus! {

/// A rectangle of terminal cells: origin column and row, and size in cells.
#[derive(Debug, Clone, Copy, PartialEq, Eq, Structural)]
pub struct Rect {
    pub x: u16,
    pub y: u16,
    pub width: u16,
    pub height: u16,
}

/// The cell `(x, y)` lies inside `r`.
pub open spec fn spec_contains(r: Rect, x: u16, y: u16) -> bool {
    &&& r.x <= x
    &&& (x as int) < r.x + r.width
    &&& r.y <= y
    &&& (y as int) < r.y + r.height
}

impl Rect {
    /// A rectangle from its origin and size.
    pub fn new(x: u16, y: u16, width: u16, height: u16) -> (r: Rect)
        ensures
            r == (Rect { x, y, width, height }),
    {
        Rect { x, y, width, height }
    }

    /// An empty rectangle at the origin.
    pub fn zero() -> (r: Rect)
        ensures
            r == (Rect { x: 0u16, y: 0u16, width: 0u16, height: 0u16 }),
    {
        Rect { x: 0, y: 0, width: 0, height: 0 }
    }

    /// Whether the cell `(x, y)` lies inside this rectangle, exactly as
    /// `spec_contains` describes.
    pub fn contains(&self, x: u16, y: u16) -> (r: bool)
        ensures
            r == spec_contains(*self, x, y),
    {
        x >= self.x && (x as u32) < self.x as u32 + self.width as u32 && y >= self.y && (y as u32)
            < self.y as u32 + self.height as u32
    }
}

// ---------------------------------------------------------------------------
// The hit-test table
// ---------------------------------------------------------------------------

/// Builds the hit-test table for one render pass: one single-row rectangle
/// per visible line of the window `[start, end)`, drawn top to bottom from
/// `area`'s origin, each paired with its line's timestamp.
pub fn build_hitboxes(area: Rect, timeline: &LyricTimeline, start: usize, end: usize) -> (v: Vec<
    (Rect, u64),
>)
    requires
        start <= end <= timeline@.len(),
        area.y + (end - start) <= u16::MAX + 1,
    ensures
        v@.len() == end - start,
        forall|k: int|
            0 <= k < v@.len() ==> #[trigger] v@[k] == (
                Rect { x: area.x, y: (area.y + k) as u16, width: area.width, height: 1u16 },
                timeline@[start + k].0,
            ),
{
    let mut v: Vec<(Rect, u64)> = Vec::new();
    let mut k: usize = 0;
    while k < end - start
        invariant
            start <= end <= timeline@.len(),
            area.y + (end - start) <= u16::MAX + 1,
            0 <= k <= end - start,
            v@.len() == k,
            forall|j: int|
                0 <= j < k ==> #[trigger] v@[j] == (
                    Rect { x: area.x, y: (area.y + j) as u16, width: area.width, height: 1u16 },
                    timeline@[start + j].0,
                ),
        decreases end - start - k,
    {
        let line = timeline.line(start + k);
        let row = Rect { x: area.x, y: area.y + (k as u16), width: area.width, height: 1 };
        v.push((row, line.timestamp_ms));
        k = k + 1;
    }
    v
}

/// Index of the first table entry whose rectangle holds `(x, y)`, or the
/// table length when none does.
pub open spec fn spec_first_hit(entries: Seq<(Rect, u64)>, x: u16, y: u16) -> nat
    decreases entries.len(),
{
    if entries.len() == 0 {
        0
    } else if spec_contains(entries[0].0, x, y) {
        0
    } else {
        1 + spec_first_hit(entries.drop_first(), x, y)
    }
}

/// An index with the first-hit properties is `spec_first_hit`.
proof fn lemma_first_hit_is(entries: Seq<(Rect, u64)>, x: u16, y: u16, i: int)
    requires
        0 <= i <= entries.len(),
        forall|j: int| 0 <= j < i ==> !spec_contains(entries[j].0, x, y),
        i < entries.len() ==> spec_contains(entries[i].0, x, y),
    ensures
        spec_first_hit(entries, x, y) == i,
    decreases entries.len(),
{
    if entries.len() == 0 {
    } else if spec_contains(entries[0].0, x, y) {
        if i > 0 {
            assert(!spec_contains(entries[0].0, x, y));
        }
    } else {
        if i == 0 {
            assert(spec_contains(entries[0].0, x, y));
        }
        assert forall|j: int| 0 <= j < i - 1 implies !spec_contains(
            entries.drop_first()[j].0,
            x,
            y,
        ) by {
            assert(entries.drop_first()[j] == entries[j + 1]);
        }
        assert(i - 1 < entries.drop_first().len() ==> spec_contains(
            entries.drop_first()[i - 1].0,
            x,
            y,
        ));
        lemma_first_hit_is(entries.drop_first(), x, y, i - 1);
    }
}

/// The timestamp of the first table entry whose rectangle holds `(x, y)`,
/// or nothing when the click missed every rendered line.
pub fn hit_test(entries: &Vec<(Rect, u64)>, x: u16, y: u16) -> (r: Option<u64>)
    ensures
        ({
            let i = spec_first_hit(entries@, x, y);
            if i < entries@.len() {
                r == Some(entries@[i as int].1)
            } else {
                r is None
            }
        }),
{
    let n = entries.len();
    let mut i: usize = 0;
    loop
        invariant
            0 <= i <= n,
            n == entries@.len(),
            forall|j: int| 0 <= j < i ==> !spec_contains(entries@[j].0, x, y),
        ensures
            0 <= i <= n,
            forall|j: int| 0 <= j < i ==> !spec_contains(entries@[j].0, x, y),
            i < n ==> spec_contains(entries@[i as int].0, x, y),
        decreases n - i,
    {
        if i >= n {
            break;
        }
        if entries[i].0.contains(x, y) {
            break;
        }
        i = i + 1;
    }
    proof {
        lemma_first_hit_is(entries@, x, y, i as int);
    }
    if i < n {
        Some(entries[i].1)
    } else {
        None
    }
}

// ---------------------------------------------------------------------------
// Click resolution
// ---------------------------------------------------------------------------

/// What a pointer click asks of the player.
#[derive(Debug, Clone, Copy, PartialEq, Eq, Structural)]
pub enum ClickAction {
    /// The click hit nothing actionable.
    Nothing,
    /// The click hit the previous-track button.
    PreviousTrack,
    /// The click hit the play/pause button.
    PlayPause,
    /// The click hit the next-track button.
    NextTrack,
    /// The click hit the progress bar: seek to this position.
    Seek { target_ms: u64 },
    /// The click hit a rendered lyric line: seek to its timestamp and
    /// return the viewport to auto-follow.
    SeekToLine { timestamp_ms: u64 },
}

/// The seek target of a click `rel_x` cells into a progress bar `width`
/// cells wide over a track of `duration_ms`: the position scales linearly
/// and rounds down; a zero-width bar counts as one cell wide.
pub open spec fn spec_seek_target(duration_ms: u64, rel_x: u16, width: u16) -> int {
    (duration_ms * rel_x) / (if width == 0 {
        1
    } else {
        width as int
    })
}

/// What a click at `(x, y)` resolves to, testing in order: the lyric
/// hit-test table, the three transport buttons, then the progress bar —
/// which seeks only when the track has a positive duration.
pub open spec fn spec_resolve_click(
    x: u16,
    y: u16,
    hitboxes: Seq<(Rect, u64)>,
    prev_btn: Rect,
    play_btn: Rect,
    next_btn: Rect,
    progress: Rect,
    duration_ms: u64,
) -> ClickAction {
    let h = spec_first_hit(hitboxes, x, y);
    if h < hitboxes.len() {
        ClickAction::SeekToLine { timestamp_ms: hitboxes[h as int].1 }
    } else if spec_contains(prev_btn, x, y) {
        ClickAction::PreviousTrack
    } else if spec_contains(play_btn, x, y) {
        ClickAction::PlayPause
    } else if spec_contains(next_btn, x, y) {
        ClickAction::NextTrack
    } else if spec_contains(progress, x, y) && duration_ms > 0 {
        ClickAction::Seek {
            target_ms: spec_seek_target(duration_ms, (x - progress.x) as u16, progress.width)
                as u64,
        }
    } else {
        ClickAction::Nothing
    }
}

/// Resolves a pointer click against the current frame, exactly as
/// `spec_resolve_click` describes. The caller performs the action: on
/// `SeekToLine` it also returns the scroll controller to auto-follow.
pub fn resolve_click(
    x: u16,
    y: u16,
    hitboxes: &Vec<(Rect, u64)>,
    prev_btn: Rect,
    play_btn: Rect,
    next_btn: Rect,
    progress: Rect,
    duration_ms: u64,
) -> (r: ClickAction)
    ensures
        r == spec_resolve_click(
            x,
            y,
            hitboxes@,
            prev_btn,
            play_btn,
            next_btn,
            progress,
            duration_ms,
        ),
        r matches ClickAction::Seek { target_ms } ==> target_ms <= duration_ms,
{
    if let Some(ts) = hit_test(hitboxes, x, y) {
        return ClickAction::SeekToLine { timestamp_ms: ts };
    }
    if prev_btn.contains(x, y) {
        return ClickAction::PreviousTrack;
    }
    if play_btn.contains(x, y) {
        return ClickAction::PlayPause;
    }
    if next_btn.contains(x, y) {
        return ClickAction::NextTrack;
    }
    if progress.contains(x, y) && duration_ms > 0 {
        let rel_x = x - progress.x;
        let w: u16 = if progress.width == 0 {
            1
        } else {
            progress.width
        };
        proof {
            assert(duration_ms as int * rel_x as int <= u64::MAX as int * u16::MAX as int)
                by (nonlinear_arith)
                requires
                    duration_ms <= u64::MAX,
                    rel_x <= u16::MAX,
            ;
        }
        let prod = (duration_ms as u128) * (rel_x as u128);
        let quot = prod / (w as u128);
        proof {
            assert(rel_x < w);
            assert(duration_ms * rel_x <= duration_ms * (w - 1)) by (nonlinear_arith)
                requires
                    rel_x <= w - 1,
                    duration_ms >= 0,
            ;
            assert(duration_ms * (w - 1) / (w as int) <= duration_ms) by (nonlinear_arith)
                requires
                    w >= 1,
                    duration_ms >= 0,
            ;
            assert(duration_ms * rel_x / (w as int) <= duration_ms * (w - 1) / (w as int)) by {
                vstd::arithmetic::div_mod::lemma_div_is_ordered(
                    duration_ms * rel_x,
                    duration_ms * (w - 1),
                    w as int,
                );
            }
            assert(quot <= duration_ms);
        }
        let target = quot as u64;
        return ClickAction::Seek { target_ms: target };
    }
    ClickAction::Nothing
}

} // verus!
