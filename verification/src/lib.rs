//! Engine of a terminal "now playing" widget: a time-tagged lyric timeline
//! with a scroll-animation state machine, a pixel-to-glyph artwork
//! rasterizer, and the small parsers that feed them, each verified against
//! an explicit contract.
pub mod artwork;
pub mod hitbox;
pub mod lyrics;
pub mod player;
pub mod scroll;
pub mod spotify;
pub mod text;
pub mod theme;
