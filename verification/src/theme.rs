//! The color theme handed to the renderer: eleven named colors, parsed from
//! the `|`-separated value of a theme definition line. Reading theme files
//! is the caller's I/O; decoding their values is done here.
use crate::text::{spec_split_char, split_by_char};
use vstd::prelude::*;

verus! {

/// A terminal color: a 24-bit value, or the terminal's own default.
#[derive(Debug, Clone, Copy, PartialEq, Eq, Structural)]
pub enum ThemeColor {
    Reset,
    Rgb { r: u8, g: u8, b: u8 },
}

/// The palette the renderer paints with.
#[derive(Debug, Clone)]
pub struct Theme {
    pub name: String,
    pub base: ThemeColor,
    pub text: ThemeColor,
    pub red: ThemeColor,
    pub green: ThemeColor,
    pub yellow: ThemeColor,
    pub blue: ThemeColor,
    pub magenta: ThemeColor,
    pub cyan: ThemeColor,
    pub surface: ThemeColor,
    pub overlay: ThemeColor,
}

impl Default for Theme {
    /// The fallback palette, Catppuccin Mocha, used when no theme file can
    /// be read.
    fn default() -> (r: Theme)
        ensures
            r.name@ == "Catppuccin Mocha"@,
            r.base == (ThemeColor::Rgb { r: 30u8, g: 30u8, b: 46u8 }),
            r.text == (ThemeColor::Rgb { r: 205u8, g: 214u8, b: 244u8 }),
            r.red == (ThemeColor::Rgb { r: 243u8, g: 139u8, b: 168u8 }),
            r.green == (ThemeColor::Rgb { r: 166u8, g: 227u8, b: 161u8 }),
            r.yellow == (ThemeColor::Rgb { r: 249u8, g: 226u8, b: 175u8 }),
            r.blue == (ThemeColor::Rgb { r: 137u8, g: 180u8, b: 250u8 }),
            r.magenta == (ThemeColor::Rgb { r: 203u8, g: 166u8, b: 247u8 }),
            r.cyan == (ThemeColor::Rgb { r: 148u8, g: 226u8, b: 213u8 }),
            r.surface == (ThemeColor::Rgb { r: 49u8, g: 50u8, b: 68u8 }),
            r.overlay == (ThemeColor::Rgb { r: 108u8, g: 112u8, b: 134u8 }),
    {
        Theme {
            name: "Catppuccin Mocha".to_owned(),
            base: ThemeColor::Rgb { r: 30, g: 30, b: 46 },
            text: ThemeColor::Rgb { r: 205, g: 214, b: 244 },
            red: ThemeColor::Rgb { r: 243, g: 139, b: 168 },
            green: ThemeColor::Rgb { r: 166, g: 227, b: 161 },
            yellow: ThemeColor::Rgb { r: 249, g: 226, b: 175 },
            blue: ThemeColor::Rgb { r: 137, g: 180, b: 250 },
            magenta: ThemeColor::Rgb { r: 203, g: 166, b: 247 },
            cyan: ThemeColor::Rgb { r: 148, g: 226, b: 213 },
            surface: ThemeColor::Rgb { r: 49, g: 50, b: 68 },
            overlay: ThemeColor::Rgb { r: 108, g: 112, b: 134 },
        }
    }
}

// ---------------------------------------------------------------------------
// Hex colors
// ---------------------------------------------------------------------------

/// A hexadecimal digit, either case.
pub open spec fn is_hex_digit(c: char) -> bool {
    (48 <= c as u32 && c as u32 <= 57) || (97 <= c as u32 && c as u32 <= 102) || (65 <= c as u32
        && c as u32 <= 70)
}

/// Numeric value of one hexadecimal digit.
pub open spec fn hex_value(c: char) -> nat
    recommends
        is_hex_digit(c),
{
    if 48 <= c as u32 && c as u32 <= 57 {
        (c as u32 - 48) as nat
    } else if 97 <= c as u32 && c as u32 <= 102 {
        (c as u32 - 87) as nat
    } else {
        (c as u32 - 55) as nat
    }
}

/// The byte named by two hexadecimal digits; 0 when either is not one, as
/// an unreadable channel falls back to black.
pub open spec fn spec_hex_pair(a: char, b: char) -> u8 {
    if is_hex_digit(a) && is_hex_digit(b) {
        (hex_value(a) * 16 + hex_value(b)) as u8
    } else {
        0
    }
}

/// `s` without its leading `#` characters, however many.
pub open spec fn skip_hashes(s: Seq<char>) -> Seq<char>
    decreases s.len(),
{
    if s.len() > 0 && s[0] == '#' {
        skip_hashes(s.drop_first())
    } else {
        s
    }
}

/// A suffix beginning at the first character that is not `#` is what
/// `skip_hashes` yields.
proof fn lemma_skip_hashes_is(s: Seq<char>, h: int)
    requires
        0 <= h <= s.len(),
        forall|j: int| 0 <= j < h ==> s[j] == '#',
        h < s.len() ==> s[h] != '#',
    ensures
        skip_hashes(s) == s.subrange(h, s.len() as int),
    decreases s.len(),
{
    if s.len() > 0 && s[0] == '#' {
        if h == 0 {
            assert(s[0] != '#');
        }
        assert forall|j: int| 0 <= j < h - 1 implies s.drop_first()[j] == '#' by {
            assert(s.drop_first()[j] == s[j + 1]);
        }
        assert(h - 1 < s.drop_first().len() ==> s.drop_first()[h - 1] != '#');
        lemma_skip_hashes_is(s.drop_first(), h - 1);
        assert(s.drop_first().subrange(h - 1, s.drop_first().len() as int) =~= s.subrange(
            h,
            s.len() as int,
        ));
    } else {
        assert(s.subrange(0, s.len() as int) =~= s);
    }
}

/// What reading a hex color yields: after discarding leading `#`
/// characters, exactly six digits name three channel bytes; any other
/// length means the terminal's default color.
pub open spec fn spec_parse_hex(s: Seq<char>) -> ThemeColor {
    let t = skip_hashes(s);
    if t.len() == 6 {
        ThemeColor::Rgb {
            r: spec_hex_pair(t[0], t[1]),
            g: spec_hex_pair(t[2], t[3]),
            b: spec_hex_pair(t[4], t[5]),
        }
    } else {
        ThemeColor::Reset
    }
}

/// The numeric value of one hexadecimal character, or nothing.
fn hex_digit(c: char) -> (r: Option<u8>)
    ensures
        match r {
            Some(v) => is_hex_digit(c) && v == hex_value(c),
            None => !is_hex_digit(c),
        },
{
    let u = c as u32;
    if 48 <= u && u <= 57 {
        Some((u - 48) as u8)
    } else if 97 <= u && u <= 102 {
        Some((u - 87) as u8)
    } else if 65 <= u && u <= 70 {
        Some((u - 55) as u8)
    } else {
        None
    }
}

/// The byte at characters `k`, `k + 1`, exactly as `spec_hex_pair`
/// describes.
fn hex_pair_at(s: &str, k: usize) -> (r: u8)
    requires
        k + 2 <= s@.len() <= usize::MAX,
    ensures
        r == spec_hex_pair(s@[k as int], s@[k + 1]),
{
    let a = hex_digit(s.get_char(k));
    let b = hex_digit(s.get_char(k + 1));
    match (a, b) {
        (Some(x), Some(y)) => x * 16 + y,
        _ => 0,
    }
}

/// Reads a `#rrggbb` hex color, exactly as `spec_parse_hex` describes.
pub fn parse_hex(hex: &str) -> (r: ThemeColor)
    ensures
        r == spec_parse_hex(hex@),
{
    let n = hex.unicode_len();
    let mut h: usize = 0;
    loop
        invariant
            0 <= h <= n,
            n == hex@.len(),
            forall|j: int| 0 <= j < h ==> hex@[j] == '#',
        ensures
            0 <= h <= n,
            forall|j: int| 0 <= j < h ==> hex@[j] == '#',
            h < n ==> hex@[h as int] != '#',
        decreases n - h,
    {
        if h >= n {
            break;
        }
        if hex.get_char(h) != '#' {
            break;
        }
        h = h + 1;
    }
    proof {
        lemma_skip_hashes_is(hex@, h as int);
    }
    if n - h == 6 {
        let ghost t = skip_hashes(hex@);
        proof {
            assert forall|j: int| 0 <= j < 6 implies t[j] == hex@[h + j] by {}
        }
        ThemeColor::Rgb {
            r: hex_pair_at(hex, h),
            g: hex_pair_at(hex, h + 2),
            b: hex_pair_at(hex, h + 4),
        }
    } else {
        ThemeColor::Reset
    }
}

// ---------------------------------------------------------------------------
// Theme definition values
// ---------------------------------------------------------------------------

impl Theme {
    /// Reads the `|`-separated value of a theme definition line: a name and
    /// at least ten hex colors, in palette order; extra fields are ignored,
    /// fewer mean no theme.
    pub fn from_encoded(value: &str) -> (r: Option<Theme>)
        ensures
            ({
                let parts = spec_split_char(value@, '|');
                if parts.len() >= 11 {
                    match r {
                        Some(t) => {
                            &&& t.name@ == parts[0]
                            &&& t.base == spec_parse_hex(parts[1])
                            &&& t.text == spec_parse_hex(parts[2])
                            &&& t.red == spec_parse_hex(parts[3])
                            &&& t.green == spec_parse_hex(parts[4])
                            &&& t.yellow == spec_parse_hex(parts[5])
                            &&& t.blue == spec_parse_hex(parts[6])
                            &&& t.magenta == spec_parse_hex(parts[7])
                            &&& t.cyan == spec_parse_hex(parts[8])
                            &&& t.surface == spec_parse_hex(parts[9])
                            &&& t.overlay == spec_parse_hex(parts[10])
                        },
                        None => false,
                    }
                } else {
                    r is None
                }
            }),
    {
        let parts = split_by_char(value, '|');
        if parts.len() < 11 {
            return None;
        }
        let ghost pv = spec_split_char(value@, '|');
        proof {
            assert forall|k: int| 0 <= k < 11 implies parts@[k]@ == pv[k] by {
                assert(parts.deep_view()[k] == parts@[k].deep_view());
            }
        }
        Some(
            Theme {
                name: parts[0].clone(),
                base: parse_hex(parts[1].as_str()),
                text: parse_hex(parts[2].as_str()),
                red: parse_hex(parts[3].as_str()),
                green: parse_hex(parts[4].as_str()),
                yellow: parse_hex(parts[5].as_str()),
                blue: parse_hex(parts[6].as_str()),
                magenta: parse_hex(parts[7].as_str()),
                cyan: parse_hex(parts[8].as_str()),
                surface: parse_hex(parts[9].as_str()),
                overlay: parse_hex(parts[10].as_str()),
            },
        )
    }
}

} // verus!
