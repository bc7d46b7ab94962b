//! The scroll controller: a state machine deciding which line index sits at
//! the top of the lyric viewport — following playback automatically, or
//! pinned where the user scrolled, with a timed and animated return to
//! auto-follow.
use crate::lyrics::{lemma_first_after, spec_natural_index, LyricTimeline};
use vstd::prelude::*;

verus! {

/// How long a manual scroll holds before the viewport may return to
/// auto-follow, in milliseconds.
pub const MANUAL_HOLD_MS: u64 = 3000;

/// Scroll state: following the natural index, or pinned at a user-chosen
/// offset since some input instant.
#[derive(Debug, Clone, Copy, PartialEq, Eq, Structural)]
pub enum ScrollState {
    Auto,
    Manual { offset: usize, last_input_ms: u64 },
}

// ---------------------------------------------------------------------------
// Transitions
// ---------------------------------------------------------------------------

/// The offset a scroll event starts from: the held offset in manual state,
/// the natural index when still auto-following.
pub open spec fn spec_seed_offset(st: ScrollState, natural: nat) -> nat {
    match st {
        ScrollState::Auto => natural,
        ScrollState::Manual { offset, .. } => offset as nat,
    }
}

/// What a scroll-down event yields: one line below the seed offset,
/// saturating at the last line, held from `now_ms`.
pub open spec fn spec_scroll_down(
    st: ScrollState,
    natural: nat,
    line_count: nat,
    now_ms: u64,
) -> ScrollState {
    let seed = spec_seed_offset(st, natural);
    let cap = if line_count == 0 {
        0
    } else {
        (line_count - 1) as nat
    };
    let off = if seed + 1 <= cap {
        seed + 1
    } else {
        cap
    };
    ScrollState::Manual { offset: off as usize, last_input_ms: now_ms }
}

/// What a scroll-up event yields: one line above the seed offset,
/// saturating at zero, held from `now_ms`.
pub open spec fn spec_scroll_up(st: ScrollState, natural: nat, now_ms: u64) -> ScrollState {
    let seed = spec_seed_offset(st, natural);
    let off = if seed == 0 {
        0
    } else {
        (seed - 1) as nat
    };
    ScrollState::Manual { offset: off as usize, last_input_ms: now_ms }
}

/// What one animation tick yields. Auto-follow is left alone. A manual hold
/// older than `MANUAL_HOLD_MS` is cleared outright; otherwise the offset
/// glides one line toward the natural index, and clears once it arrives.
pub open spec fn spec_tick(st: ScrollState, natural: nat, now_ms: u64) -> ScrollState {
    match st {
        ScrollState::Auto => ScrollState::Auto,
        ScrollState::Manual { offset, last_input_ms } => {
            if now_ms >= last_input_ms + MANUAL_HOLD_MS {
                ScrollState::Auto
            } else if (offset as nat) < natural {
                ScrollState::Manual { offset: (offset + 1) as usize, last_input_ms }
            } else if (offset as nat) > natural {
                ScrollState::Manual { offset: (offset - 1) as usize, last_input_ms }
            } else {
                ScrollState::Auto
            }
        },
    }
}

/// The window of line indices `[start, end)` visible in a viewport of
/// `height` lines: auto-follow centers the natural index, a manual hold
/// pins the top line to the held offset, clamped to the last line.
pub open spec fn spec_visible_window(
    st: ScrollState,
    entries: Seq<(u64, Seq<char>)>,
    position_ms: u64,
    height: nat,
) -> (nat, nat) {
    let count = entries.len();
    let start = match st {
        ScrollState::Auto => {
            let n = spec_natural_index(entries, position_ms);
            if n >= height / 2 {
                (n - height / 2) as nat
            } else {
                0
            }
        },
        ScrollState::Manual { offset, .. } => {
            if count == 0 {
                0
            } else if offset as nat <= (count - 1) as nat {
                offset as nat
            } else {
                (count - 1) as nat
            }
        },
    };
    let end = if start + height <= count {
        start + height
    } else {
        count
    };
    (start, end)
}

// ---------------------------------------------------------------------------
// The controller
// ---------------------------------------------------------------------------

/// Decides the visible lyric window. Created in auto-follow; driven by
/// scroll, click, tick and track-change events. Its mathematical view is
/// the current `ScrollState`.
#[derive(Debug, Clone, Copy)]
pub struct ScrollController {
    state: ScrollState,
}

impl View for ScrollController {
    type V = ScrollState;

    closed spec fn view(&self) -> ScrollState {
        self.state
    }
}

impl ScrollController {
    /// A fresh controller, auto-following.
    pub fn new() -> (r: ScrollController)
        ensures
            r@ == ScrollState::Auto,
    {
        ScrollController { state: ScrollState::Auto }
    }

    /// The current state.
    pub fn state(&self) -> (r: ScrollState)
        ensures
            r == self@,
    {
        self.state
    }

    /// Applies a scroll-down event arriving at `now_ms`, exactly as
    /// `spec_scroll_down` describes.
    pub fn on_scroll_down(&mut self, timeline: &LyricTimeline, position_ms: u64, now_ms: u64)
        ensures
            final(self)@ == spec_scroll_down(
                old(self)@,
                spec_natural_index(timeline@, position_ms),
                timeline@.len(),
                now_ms,
            ),
    {
        let count = timeline.len();
        let seed = match self.state {
            ScrollState::Auto => timeline.natural_index(position_ms),
            ScrollState::Manual { offset, .. } => offset,
        };
        let cap = if count == 0 {
            0
        } else {
            count - 1
        };
        let off = if seed >= cap {
            cap
        } else {
            seed + 1
        };
        self.state = ScrollState::Manual { offset: off, last_input_ms: now_ms };
    }

    /// Applies a scroll-up event arriving at `now_ms`, exactly as
    /// `spec_scroll_up` describes.
    pub fn on_scroll_up(&mut self, timeline: &LyricTimeline, position_ms: u64, now_ms: u64)
        ensures
            final(self)@ == spec_scroll_up(
                old(self)@,
                spec_natural_index(timeline@, position_ms),
                now_ms,
            ),
    {
        let seed = match self.state {
            ScrollState::Auto => timeline.natural_index(position_ms),
            ScrollState::Manual { offset, .. } => offset,
        };
        let off = if seed == 0 {
            0
        } else {
            seed - 1
        };
        self.state = ScrollState::Manual { offset: off, last_input_ms: now_ms };
    }

    /// Applies a click on a rendered line: an explicit resync, returning to
    /// auto-follow at once (the seek itself is the caller's side).
    pub fn on_click(&mut self)
        ensures
            final(self)@ == ScrollState::Auto,
    {
        self.state = ScrollState::Auto;
    }

    /// Applies a track change: any manual hold is discarded with the old
    /// timeline, never carried across songs.
    pub fn on_track_change(&mut self)
        ensures
            final(self)@ == ScrollState::Auto,
    {
        self.state = ScrollState::Auto;
    }

    /// Applies one animation tick at `now_ms`, exactly as `spec_tick`
    /// describes.
    pub fn on_tick(&mut self, timeline: &LyricTimeline, position_ms: u64, now_ms: u64)
        ensures
            final(self)@ == spec_tick(
                old(self)@,
                spec_natural_index(timeline@, position_ms),
                now_ms,
            ),
    {
        match self.state {
            ScrollState::Auto => {},
            ScrollState::Manual { offset, last_input_ms } => {
                if now_ms >= last_input_ms && now_ms - last_input_ms >= MANUAL_HOLD_MS {
                    self.state = ScrollState::Auto;
                } else {
                    let natural = timeline.natural_index(position_ms);
                    if offset < natural {
                        self.state = ScrollState::Manual { offset: offset + 1, last_input_ms };
                    } else if offset > natural {
                        self.state = ScrollState::Manual { offset: offset - 1, last_input_ms };
                    } else {
                        self.state = ScrollState::Auto;
                    }
                }
            },
        }
    }

    /// The window of line indices `[start, end)` to render in a viewport of
    /// `viewport_height` lines, exactly as `spec_visible_window` describes.
    pub fn visible_window(
        &self,
        timeline: &LyricTimeline,
        position_ms: u64,
        viewport_height: usize,
    ) -> (r: (usize, usize))
        ensures
            (r.0 as nat, r.1 as nat) == spec_visible_window(
                self@,
                timeline@,
                position_ms,
                viewport_height as nat,
            ),
            r.0 <= r.1 <= timeline@.len(),
    {
        let count = timeline.len();
        let start = match self.state {
            ScrollState::Auto => {
                let n = timeline.natural_index(position_ms);
                proof {
                    lemma_first_after(timeline@, position_ms);
                }
                if n >= viewport_height / 2 {
                    n - viewport_height / 2
                } else {
                    0
                }
            },
            ScrollState::Manual { offset, .. } => {
                if count == 0 {
                    0
                } else if offset <= count - 1 {
                    offset
                } else {
                    count - 1
                }
            },
        };
        proof {
            if self@ is Auto {
                lemma_first_after(timeline@, position_ms);
            }
        }
        let end = if viewport_height <= count && start <= count - viewport_height {
            start + viewport_height
        } else {
            count
        };
        (start, end)
    }
}

// ---------------------------------------------------------------------------
// Laws of the state machine
// ---------------------------------------------------------------------------

/// Law: scroll events keep the offset clamped. However often they repeat,
/// a scroll-down never pushes the held offset past the last line, and a
/// scroll-up never pushes it below zero.
pub proof fn lemma_scroll_clamped(st: ScrollState, natural: nat, line_count: nat, now_ms: u64)
    requires
        line_count > 0,
        natural < line_count,
        st matches ScrollState::Manual { offset, .. } ==> (offset as nat) < line_count,
    ensures
        spec_scroll_down(st, natural, line_count, now_ms) matches ScrollState::Manual {
            offset,
            ..
        } && (offset as nat) < line_count,
        spec_scroll_up(st, natural, now_ms) matches ScrollState::Manual { offset, .. } && (offset
            as nat) < line_count,
{
}

/// Law: a manual hold older than `MANUAL_HOLD_MS` returns to auto-follow on
/// the very next tick, whatever the offset distance.
pub proof fn lemma_timeout_returns_to_auto(st: ScrollState, natural: nat, now_ms: u64)
    requires
        st matches ScrollState::Manual { last_input_ms, .. } && now_ms >= last_input_ms
            + MANUAL_HOLD_MS,
    ensures
        spec_tick(st, natural, now_ms) == ScrollState::Auto,
{
}

/// The state after `n` ticks with the natural index and the clock held
/// still.
pub open spec fn spec_ticks(st: ScrollState, natural: nat, now_ms: u64, n: nat) -> ScrollState
    decreases n,
{
    if n == 0 {
        st
    } else {
        spec_ticks(spec_tick(st, natural, now_ms), natural, now_ms, (n - 1) as nat)
    }
}

/// How far the held offset lies from the natural index; zero when
/// auto-following.
pub open spec fn spec_offset_distance(st: ScrollState, natural: nat) -> nat {
    match st {
        ScrollState::Auto => 0,
        ScrollState::Manual { offset, .. } => if offset as nat >= natural {
            (offset as nat - natural) as nat
        } else {
            (natural - offset as nat) as nat
        },
    }
}

/// Auto-follow is a fixed point of the tick.
proof fn lemma_ticks_stay_auto(natural: nat, now_ms: u64, n: nat)
    ensures
        spec_ticks(ScrollState::Auto, natural, now_ms, n) == ScrollState::Auto,
    decreases n,
{
    if n > 0 {
        lemma_ticks_stay_auto(natural, now_ms, (n - 1) as nat);
    }
}

/// Law: convergence terminates. From any state, with no further input and
/// the clock and position held still, repeated ticks reach auto-follow
/// within offset-distance-plus-one ticks.
pub proof fn lemma_convergence(st: ScrollState, natural: nat, now_ms: u64)
    requires
        natural <= usize::MAX,
    ensures
        spec_ticks(st, natural, now_ms, spec_offset_distance(st, natural) + 1)
            == ScrollState::Auto,
    decreases spec_offset_distance(st, natural),
{
    let d = spec_offset_distance(st, natural);
    match st {
        ScrollState::Auto => {
            lemma_ticks_stay_auto(natural, now_ms, d + 1);
        },
        ScrollState::Manual { offset, last_input_ms } => {
            let st2 = spec_tick(st, natural, now_ms);
            if st2 == ScrollState::Auto {
                lemma_ticks_stay_auto(natural, now_ms, d);
            } else {
                assert(spec_offset_distance(st2, natural) == d - 1);
                lemma_convergence(st2, natural, now_ms);
            }
        },
    }
}

/// Law: convergence never overshoots. Every state reached by ticking from a
/// manual hold keeps its offset between the original offset and the natural
/// index.
pub proof fn lemma_convergence_no_overshoot(
    st: ScrollState,
    natural: nat,
    now_ms: u64,
    n: nat,
    start: usize,
)
    requires
        natural <= usize::MAX,
        st matches ScrollState::Manual { offset, .. } && offset == start,
    ensures
        spec_ticks(st, natural, now_ms, n) matches ScrollState::Manual { offset, .. } ==> {
            &&& start as nat <= natural ==> start <= offset && offset as nat <= natural
            &&& start as nat >= natural ==> natural <= offset as nat && offset <= start
        },
    decreases n,
{
    if n > 0 {
        let st2 = spec_tick(st, natural, now_ms);
        match st2 {
            ScrollState::Auto => {
                lemma_ticks_stay_auto(natural, now_ms, (n - 1) as nat);
            },
            ScrollState::Manual { offset: o2, .. } => {
                lemma_convergence_no_overshoot(st2, natural, now_ms, (n - 1) as nat, o2);
            },
        }
    }
}

} // verus!
