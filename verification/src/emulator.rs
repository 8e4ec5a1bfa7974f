use vstd::prelude::*;

verus! {

// ── Public cell type passed to the renderer ───────────────────────────────────

/// One visible terminal cell.
#[derive(Clone, Copy, Debug)]
pub struct TermCell {
    pub row: u16,
    pub col: u16,
    pub ch: char,
    /// Foreground RGB.
    pub fg: [u8; 3],
    /// Background RGB.
    pub bg: [u8; 3],
}

// ── Terminal colours ──────────────────────────────────────────────────────────

/// The terminal's named colours.
#[derive(Clone, Copy, Debug, PartialEq, Eq, Structural)]
pub enum NamedColor {
    Black,
    Red,
    Green,
    Yellow,
    Blue,
    Magenta,
    Cyan,
    White,
    BrightBlack,
    BrightRed,
    BrightGreen,
    BrightYellow,
    BrightBlue,
    BrightMagenta,
    BrightCyan,
    BrightWhite,
    Foreground,
    Background,
    Cursor,
    DimBlack,
    DimRed,
    DimGreen,
    DimYellow,
    DimBlue,
    DimMagenta,
    DimCyan,
    DimWhite,
    BrightForeground,
    DimForeground,
}

/// A true-colour triple.
#[derive(Clone, Copy, Debug, PartialEq, Eq, Structural)]
pub struct Rgb {
    pub r: u8,
    pub g: u8,
    pub b: u8,
}

/// A cell colour as the terminal reports it.
#[derive(Clone, Copy, Debug, PartialEq, Eq, Structural)]
pub enum Color {
    Named(NamedColor),
    Spec(Rgb),
    Indexed(u8),
}

/// The sixteen system colours, in palette order.
pub open spec fn system_rgb(i: int) -> [u8; 3] {
    if i == 0 {
        [18, 18, 18]
    } else if i == 1 {
        [204, 36, 29]
    } else if i == 2 {
        [152, 151, 26]
    } else if i == 3 {
        [215, 153, 33]
    } else if i == 4 {
        [69, 133, 136]
    } else if i == 5 {
        [177, 98, 134]
    } else if i == 6 {
        [104, 157, 106]
    } else if i == 7 {
        [168, 153, 132]
    } else if i == 8 {
        [146, 131, 116]
    } else if i == 9 {
        [251, 73, 52]
    } else if i == 10 {
        [184, 187, 38]
    } else if i == 11 {
        [250, 189, 47]
    } else if i == 12 {
        [131, 165, 152]
    } else if i == 13 {
        [211, 134, 155]
    } else if i == 14 {
        [142, 192, 124]
    } else {
        [235, 219, 178]
    }
}

/// Palette index of a standard or bright colour; dim colours share the
/// index of the plain colour; other named colours have none.
pub open spec fn palette_slot(name: NamedColor) -> Option<int> {
    match name {
        NamedColor::Black | NamedColor::DimBlack => Some(0),
        NamedColor::Red | NamedColor::DimRed => Some(1),
        NamedColor::Green | NamedColor::DimGreen => Some(2),
        NamedColor::Yellow | NamedColor::DimYellow => Some(3),
        NamedColor::Blue | NamedColor::DimBlue => Some(4),
        NamedColor::Magenta | NamedColor::DimMagenta => Some(5),
        NamedColor::Cyan | NamedColor::DimCyan => Some(6),
        NamedColor::White | NamedColor::DimWhite => Some(7),
        NamedColor::BrightBlack => Some(8),
        NamedColor::BrightRed => Some(9),
        NamedColor::BrightGreen => Some(10),
        NamedColor::BrightYellow => Some(11),
        NamedColor::BrightBlue => Some(12),
        NamedColor::BrightMagenta => Some(13),
        NamedColor::BrightCyan => Some(14),
        NamedColor::BrightWhite => Some(15),
        _ => None,
    }
}

/// The RGB of a named colour: its system colour, the dark background for
/// `Background`, light grey for the foreground, cursor and other colours.
pub open spec fn named_rgb(name: NamedColor) -> [u8; 3] {
    match palette_slot(name) {
        Some(i) => system_rgb(i),
        None => if name == NamedColor::Background {
            [18, 18, 18]
        } else {
            [204, 204, 204]
        },
    }
}

/// One channel of the 6×6×6 colour cube.
pub open spec fn cube_level(v: int) -> int {
    if v == 0 {
        0
    } else {
        55 + v * 40
    }
}

/// The RGB of a 256-colour palette index: system colours, then the 6×6×6
/// cube (red the most significant digit), then a 24-step grey ramp.
pub open spec fn indexed_rgb(idx: u8) -> [u8; 3] {
    if idx < 16 {
        system_rgb(idx as int)
    } else if idx <= 231 {
        let n = idx - 16;
        [cube_level(n / 36) as u8, cube_level((n / 6) % 6) as u8, cube_level(n % 6) as u8]
    } else {
        let v = 8 + (idx - 232) * 10;
        [v as u8, v as u8, v as u8]
    }
}

/// The RGB a cell colour is drawn with.
pub open spec fn color_rgb(color: Color) -> [u8; 3] {
    match color {
        Color::Spec(rgb) => [rgb.r, rgb.g, rgb.b],
        Color::Named(name) => named_rgb(name),
        Color::Indexed(idx) => indexed_rgb(idx),
    }
}

/// Convert a terminal colour to an RGB triple: true colours as given, named
/// colours from the fixed palette, indexed colours from the 256-colour
/// palette.
pub fn color_to_rgb(color: &Color) -> (rgb: [u8; 3])
    ensures
        rgb == color_rgb(*color),
{
    match color {
        Color::Spec(rgb) => [rgb.r, rgb.g, rgb.b],
        Color::Named(name) => named_to_rgb(*name),
        Color::Indexed(idx) => indexed_to_rgb(*idx),
    }
}

pub fn named_to_rgb(name: NamedColor) -> (rgb: [u8; 3])
    ensures
        rgb == named_rgb(name),
{
    match name {
        NamedColor::Black | NamedColor::DimBlack => [18, 18, 18],
        NamedColor::Red | NamedColor::DimRed => [204, 36, 29],
        NamedColor::Green | NamedColor::DimGreen => [152, 151, 26],
        NamedColor::Yellow | NamedColor::DimYellow => [215, 153, 33],
        NamedColor::Blue | NamedColor::DimBlue => [69, 133, 136],
        NamedColor::Magenta | NamedColor::DimMagenta => [177, 98, 134],
        NamedColor::Cyan | NamedColor::DimCyan => [104, 157, 106],
        NamedColor::White | NamedColor::DimWhite => [168, 153, 132],
        NamedColor::BrightBlack => [146, 131, 116],
        NamedColor::BrightRed => [251, 73, 52],
        NamedColor::BrightGreen => [184, 187, 38],
        NamedColor::BrightYellow => [250, 189, 47],
        NamedColor::BrightBlue => [131, 165, 152],
        NamedColor::BrightMagenta => [211, 134, 155],
        NamedColor::BrightCyan => [142, 192, 124],
        NamedColor::BrightWhite => [235, 219, 178],
        NamedColor::Foreground => [204, 204, 204],
        NamedColor::Background => [18, 18, 18],
        _ => [204, 204, 204],
    }
}

/// Standard 256-colour palette.
pub fn indexed_to_rgb(idx: u8) -> (rgb: [u8; 3])
    ensures
        rgb == indexed_rgb(idx),
{
    match idx {
        // System colours 0-15 — same as named above
        0 => [18, 18, 18],
        1 => [204, 36, 29],
        2 => [152, 151, 26],
        3 => [215, 153, 33],
        4 => [69, 133, 136],
        5 => [177, 98, 134],
        6 => [104, 157, 106],
        7 => [168, 153, 132],
        8 => [146, 131, 116],
        9 => [251, 73, 52],
        10 => [184, 187, 38],
        11 => [250, 189, 47],
        12 => [131, 165, 152],
        13 => [211, 134, 155],
        14 => [142, 192, 124],
        15 => [235, 219, 178],
        // 6×6×6 colour cube (16–231)
        16..=231 => {
            let n = idx - 16;
            let b = n % 6;
            let g = (n / 6) % 6;
            let r = n / 36;
            [cube_scale(r), cube_scale(g), cube_scale(b)]
        },
        // Greyscale ramp (232–255)
        232..=255 => {
            let v = 8 + (idx - 232) * 10;
            [v, v, v]
        },
    }
}

fn cube_scale(v: u8) -> (s: u8)
    requires
        v < 6,
    ensures
        s == cube_level(v as int),
{
    if v == 0 {
        0
    } else {
        55 + v * 40
    }
}

// ── Laws ──────────────────────────────────────────────────────────────────────

/// Palette indices 0–15 are the same colours as the standard and bright
/// named colours, and each dim colour is drawn like its plain colour.
pub proof fn law_system_colors_agree(name: NamedColor)
    ensures
        palette_slot(name) matches Some(i) ==> indexed_rgb(i as u8) == named_rgb(name),
        named_rgb(NamedColor::DimBlack) == named_rgb(NamedColor::Black),
        named_rgb(NamedColor::DimRed) == named_rgb(NamedColor::Red),
        named_rgb(NamedColor::DimGreen) == named_rgb(NamedColor::Green),
        named_rgb(NamedColor::DimYellow) == named_rgb(NamedColor::Yellow),
        named_rgb(NamedColor::DimBlue) == named_rgb(NamedColor::Blue),
        named_rgb(NamedColor::DimMagenta) == named_rgb(NamedColor::Magenta),
        named_rgb(NamedColor::DimCyan) == named_rgb(NamedColor::Cyan),
        named_rgb(NamedColor::DimWhite) == named_rgb(NamedColor::White),
{
}

/// Every cube colour channel is one of the six levels 0, 95, 135, 175, 215,
/// 255, and grey-ramp colours have equal channels between 8 and 238.
pub proof fn law_palette_ranges(idx: u8)
    ensures
        16 <= idx <= 231 ==> {
            let c = indexed_rgb(idx);
            forall|k: int| 0 <= k < 3 ==> {
                let v = #[trigger] c[k];
                v == 0 || v == 95 || v == 135 || v == 175 || v == 215 || v == 255
            }
        },
        232 <= idx ==> indexed_rgb(idx)[0] == indexed_rgb(idx)[1] == indexed_rgb(idx)[2]
            && 8 <= indexed_rgb(idx)[0] <= 238,
{
}

/// The 6×6×6 cube: palette index `16 + 36r + 6g + b` has red level `r`,
/// green level `g` and blue level `b`, each channel decided by its own
/// coordinate.
pub proof fn law_color_cube_coordinates(r: int, g: int, b: int)
    requires
        0 <= r < 6,
        0 <= g < 6,
        0 <= b < 6,
    ensures
        indexed_rgb((16 + 36 * r + 6 * g + b) as u8) == [
            cube_level(r) as u8,
            cube_level(g) as u8,
            cube_level(b) as u8,
        ],
{
    let n = 36 * r + 6 * g + b;
    assert(n / 36 == r) by (nonlinear_arith)
        requires n == 36 * r + 6 * g + b, 0 <= r < 6, 0 <= g < 6, 0 <= b < 6;
    assert((n / 6) % 6 == g) by (nonlinear_arith)
        requires n == 36 * r + 6 * g + b, 0 <= r < 6, 0 <= g < 6, 0 <= b < 6;
    assert(n % 6 == b) by (nonlinear_arith)
        requires n == 36 * r + 6 * g + b, 0 <= r < 6, 0 <= g < 6, 0 <= b < 6;
}

/// The grey ramp: palette index `232 + k` is the grey of level `8 + 10k`.
pub proof fn law_grey_ramp(k: int)
    requires
        0 <= k < 24,
    ensures
        indexed_rgb((232 + k) as u8) == [(8 + 10 * k) as u8, (8 + 10 * k) as u8, (8 + 10 * k) as u8],
{
}

} // verus!
