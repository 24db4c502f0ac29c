//! Rendering of terminal snapshots: the colour palette, and the layout of a
//! snapshot as a vector drawing.

use vstd::prelude::*;

pub mod svg;

verus! {

/// One step of the colour cube of the 256-colour palette: the steps 0 to 5
/// stand for the component values 0, 95, 135, 175, 215 and 255.
pub open spec fn cube_level(step: int) -> u8 {
    if step <= 0 {
        0
    } else {
        (55 + 40 * step) as u8
    }
}

/// The colour that the 256-colour palette fixes for an index from 16 on:
/// the indices 16 to 231 are a cube of six levels per component, with red
/// as the slowest and blue as the fastest axis, and the indices 232 to 255
/// are a ramp of greys from 8 in steps of 10.
pub open spec fn ansi256_rgb(idx: u8) -> (u8, u8, u8)
    recommends
        idx >= 16,
{
    if idx < 232 {
        let cell = idx - 16;
        (cube_level(cell / 36), cube_level((cell / 6) % 6), cube_level(cell % 6))
    } else {
        let grey = ((idx - 232) * 10 + 8) as u8;
        (grey, grey, grey)
    }
}

/// The colour that a terminal colour is drawn in, or `None` for the
/// terminal's default colour. The sixteen low indices are drawn in the
/// Base16 default palette, the others as the 256-colour palette fixes them.
pub open spec fn color_rgb(color: vt100::Color) -> Option<(u8, u8, u8)> {
    match color {
        vt100::Color::Default => None,
        vt100::Color::Idx(i) => Some(
            if i == 0 {
                (24u8, 24u8, 24u8)
            } else if i == 1 || i == 9 {
                (171u8, 70u8, 66u8)
            } else if i == 2 || i == 10 {
                (161u8, 181u8, 108u8)
            } else if i == 3 || i == 11 {
                (247u8, 202u8, 136u8)
            } else if i == 4 || i == 12 {
                (124u8, 175u8, 194u8)
            } else if i == 5 || i == 13 {
                (186u8, 139u8, 175u8)
            } else if i == 6 || i == 14 {
                (134u8, 193u8, 185u8)
            } else if i == 7 {
                (216u8, 216u8, 216u8)
            } else if i == 8 {
                (88u8, 88u8, 88u8)
            } else if i == 15 {
                (248u8, 248u8, 248u8)
            } else {
                ansi256_rgb(i)
            },
        ),
        vt100::Color::Rgb(r, g, b) => Some((r, g, b)),
    }
}

/// `ansi_colours::rgb_from_ansi256`: the colour at an index of the
/// 256-colour palette. From index 16 on the palette is standard, and the
/// result is the colour of the cube or of the grey ramp. Nothing is claimed
/// of the sixteen low indices.
#[verifier::external_body]
fn rgb_from_ansi256(idx: u8) -> (rgb: (u8, u8, u8))
    ensures
        idx >= 16 ==> rgb == ansi256_rgb(idx),
{
    ansi_colours::rgb_from_ansi256(idx)
}

/// The colour that a terminal colour is drawn in, as (red, green, blue), or
/// `None` for the terminal's default colour.
pub fn parse_color(color: vt100::Color) -> (rgb: Option<(u8, u8, u8)>)
    ensures
        rgb == color_rgb(color),
{
    match color {
        vt100::Color::Default => None,
        vt100::Color::Idx(i) => match i {
            0 => Some((24, 24, 24)),
            1 => Some((171, 70, 66)),
            2 => Some((161, 181, 108)),
            3 => Some((247, 202, 136)),
            4 => Some((124, 175, 194)),
            5 => Some((186, 139, 175)),
            6 => Some((134, 193, 185)),
            7 => Some((216, 216, 216)),
            8 => Some((88, 88, 88)),
            9 => Some((171, 70, 66)),
            10 => Some((161, 181, 108)),
            11 => Some((247, 202, 136)),
            12 => Some((124, 175, 194)),
            13 => Some((186, 139, 175)),
            14 => Some((134, 193, 185)),
            15 => Some((248, 248, 248)),
            other => Some(rgb_from_ansi256(other)),
        },
        vt100::Color::Rgb(r, g, b) => Some((r, g, b)),
    }
}

/// The colour behind a cell without a background colour of its own.
pub const DEFAULT_BG_COLOR: (u8, u8, u8) = (0, 0, 0);

/// The colour of a cell's text without a colour of its own.
pub const DEFAULT_FG_COLOR: (u8, u8, u8) = (255, 255, 255);

/// The colours that a cell is drawn in, as (background, foreground): the
/// cell's own colours, or the defaults where it has none, and the two
/// exchanged for the cell under the cursor.
pub open spec fn cell_colours_of(fg: vt100::Color, bg: vt100::Color, at_cursor: bool) -> (
    (u8, u8, u8),
    (u8, u8, u8),
) {
    let background = match color_rgb(bg) {
        Some(rgb) => rgb,
        None => DEFAULT_BG_COLOR,
    };
    let foreground = match color_rgb(fg) {
        Some(rgb) => rgb,
        None => DEFAULT_FG_COLOR,
    };
    if at_cursor {
        (foreground, background)
    } else {
        (background, foreground)
    }
}

/// The colours that a cell with the foreground `fg` and the background
/// `bg` is drawn in, as (background, foreground).
pub fn cell_colours(fg: vt100::Color, bg: vt100::Color, at_cursor: bool) -> (c: (
    (u8, u8, u8),
    (u8, u8, u8),
))
    ensures
        c == cell_colours_of(fg, bg, at_cursor),
{
    let background = match parse_color(bg) {
        Some(rgb) => rgb,
        None => DEFAULT_BG_COLOR,
    };
    let foreground = match parse_color(fg) {
        Some(rgb) => rgb,
        None => DEFAULT_FG_COLOR,
    };
    if at_cursor {
        (foreground, background)
    } else {
        (background, foreground)
    }
}

} // verus!
