//! Where and in which colour the world is drawn. The functions compute the
//! shapes; drawing them is the renderer's part.

use vstd::prelude::*;

verus! {

/// Width and height of a glyph of the prompt's font, in pixels.
pub const FONT_SIZE: u32 = 8;

/// Colour of the apples, as red, green, blue and opacity.
pub const APPLE_COLOR: u32 = 0x00FF00FF;

/// A square on the canvas.
#[derive(Debug, Clone, Copy, PartialEq, Eq, Structural)]
pub struct Square {
    /// Left edge.
    pub x: u16,
    /// Top edge.
    pub y: u16,
    /// Edge length; for a circle, its diameter.
    pub size: u16,
}

/// The colour of the snake with the given identifier: one of six, by the
/// identifier's remainder modulo six.
pub open spec fn spec_snake_color(snake_id: u8) -> u32 {
    let k = snake_id % 6;
    if k == 0 {
        0x9370DBff
    } else if k == 1 {
        0xFF69B4ff
    } else if k == 2 {
        0x20B2AAff
    } else if k == 3 {
        0xDDA0DDff
    } else if k == 4 {
        0xFF8C00ff
    } else {
        0x9932CCff
    }
}

/// The square inside the cell `cell` that leaves `margin` pixels free on
/// every side, if its corner and its size are 16-bit numbers.
pub open spec fn spec_inset(cell: (u16, u16), grid_size: u16, margin: u16) -> Option<Square> {
    if cell.0 * grid_size + margin <= u16::MAX && cell.1 * grid_size + margin <= u16::MAX
        && grid_size >= 2 * margin {
        Some(
            Square {
                x: (cell.0 * grid_size + margin) as u16,
                y: (cell.1 * grid_size + margin) as u16,
                size: (grid_size - 2 * margin) as u16,
            },
        )
    } else {
        None
    }
}

/// The top left corner of a line of `text_len` glyphs that is centred on a
/// canvas of the given size, if the line fits in its left half twice over.
pub open spec fn spec_text_origin(width: u32, height: u32, text_len: u32) -> Option<(u32, u32)> {
    if text_len * FONT_SIZE <= u32::MAX && width / 2 >= (text_len * FONT_SIZE) / 2 && height / 2
        >= FONT_SIZE / 2 {
        Some(
            (
                (width / 2 - (text_len * FONT_SIZE) / 2) as u32,
                (height / 2 - FONT_SIZE / 2) as u32,
            ),
        )
    } else {
        None
    }
}

/// Returns the colour in which the snake with the given identifier is drawn.
pub fn snake_color(snake_id: u8) -> (color: u32)
    ensures
        color == spec_snake_color(snake_id),
{
    let k = snake_id % 6;
    if k == 0 {
        0x9370DBff
    } else if k == 1 {
        0xFF69B4ff
    } else if k == 2 {
        0x20B2AAff
    } else if k == 3 {
        0xDDA0DDff
    } else if k == 4 {
        0xFF8C00ff
    } else {
        0x9932CCff
    }
}

/// Computes the square inside a cell that leaves `margin` pixels free on
/// every side.
fn inset(cell: (u16, u16), grid_size: u16, margin: u16) -> (r: Option<Square>)
    requires
        margin <= 2,
    ensures
        r == spec_inset(cell, grid_size, margin),
{
    assert(0 <= cell.0 * grid_size <= 65535 * 65535) by (nonlinear_arith)
        requires
            0 <= cell.0 <= 65535,
            0 <= grid_size <= 65535,
    ;
    assert(0 <= cell.1 * grid_size <= 65535 * 65535) by (nonlinear_arith)
        requires
            0 <= cell.1 <= 65535,
            0 <= grid_size <= 65535,
    ;
    let x = cell.0 as u32 * grid_size as u32 + margin as u32;
    let y = cell.1 as u32 * grid_size as u32 + margin as u32;
    if x > 65535 || y > 65535 || grid_size < 2 * margin {
        None
    } else {
        Some(Square { x: x as u16, y: y as u16, size: grid_size - 2 * margin })
    }
}

/// Computes the square that stands for one segment of a snake: the cell
/// without a border of one pixel.
pub fn segment_square(cell: (u16, u16), grid_size: u16) -> (r: Option<Square>)
    ensures
        r == spec_inset(cell, grid_size, 1),
{
    inset(cell, grid_size, 1)
}

/// Computes the square around the circle that stands for an apple: the cell
/// without a border of two pixels.
pub fn apple_circle(cell: (u16, u16), grid_size: u16) -> (r: Option<Square>)
    ensures
        r == spec_inset(cell, grid_size, 2),
{
    inset(cell, grid_size, 2)
}

/// Computes the top left corner of a line of `text_len` glyphs centred on a
/// canvas of the given size.
pub fn text_origin(width: u32, height: u32, text_len: u32) -> (r: Option<(u32, u32)>)
    ensures
        r == spec_text_origin(width, height, text_len),
{
    if text_len > u32::MAX / FONT_SIZE {
        return None;
    }
    let half_line = (text_len * FONT_SIZE) / 2;
    if width / 2 < half_line || height / 2 < FONT_SIZE / 2 {
        None
    } else {
        Some((width / 2 - half_line, height / 2 - FONT_SIZE / 2))
    }
}

} // verus!
