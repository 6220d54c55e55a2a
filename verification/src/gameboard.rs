//! A full-frame board renderer: one bordered rectangle with a blank
//! interior, computed row by row from the terminal size. Useful for a
//! complete redraw; the differential path in `entity` draws only what
//! changed.

use vstd::prelude::*;

verus! {

/// The glyphs the frame is drawn with.
#[derive(Clone, Copy, Debug)]
pub struct BorderTypes {
    pub horizontal: char,
    pub vertical: char,
    pub top_left: char,
    pub top_right: char,
    pub bottom_left: char,
    pub bottom_right: char,
}

impl Default for BorderTypes {
    /// The default border: thin box-drawing lines with rounded corners.
    fn default() -> (bt: BorderTypes)
        ensures
            bt.horizontal == '\u{2500}',
            bt.vertical == '\u{2502}',
            bt.top_left == '\u{256d}',
            bt.top_right == '\u{256e}',
            bt.bottom_left == '\u{2570}',
            bt.bottom_right == '\u{256f}',
    {
        BorderTypes {
            horizontal: '\u{2500}',
            vertical: '\u{2502}',
            top_left: '\u{256d}',
            top_right: '\u{256e}',
            bottom_left: '\u{2570}',
            bottom_right: '\u{256f}',
        }
    }
}

/// The glyph of a frame around a `width` by `height` interior, at the
/// 1-based frame cell `(x, y)`: corners and edges on the outermost ring, a
/// blank everywhere inside.
pub open spec fn frame_glyph(bt: BorderTypes, width: u16, height: u16, x: int, y: int) -> char {
    if y == 1 {
        if x == 1 {
            bt.top_left
        } else if x == width + 2 {
            bt.top_right
        } else {
            bt.horizontal
        }
    } else if y == height + 2 {
        if x == 1 {
            bt.bottom_left
        } else if x == width + 2 {
            bt.bottom_right
        } else {
            bt.horizontal
        }
    } else if x == 1 || x == width + 2 {
        bt.vertical
    } else {
        ' '
    }
}

/// A board drawn as whole rows.
#[derive(Clone, Copy, Debug)]
pub struct GameBoard {
    pub border_types: BorderTypes,
}

impl Default for GameBoard {
    /// A board with the default border glyphs.
    fn default() -> (b: GameBoard)
        ensures
            b.border_types.horizontal == '\u{2500}',
            b.border_types.vertical == '\u{2502}',
            b.border_types.top_left == '\u{256d}',
            b.border_types.top_right == '\u{256e}',
            b.border_types.bottom_left == '\u{2570}',
            b.border_types.bottom_right == '\u{256f}',
    {
        GameBoard { border_types: BorderTypes::default() }
    }
}

impl GameBoard {
    /// The rows of a full redraw of the frame around a `width` by
    /// `height` interior: `height + 2` rows of `width + 2` glyphs each,
    /// row `y` holding `frame_glyph(.., x, y)` at column `x` (both
    /// 1-based). The caller writes row `y` at terminal position `(1, y)`.
    pub fn render_rows(&self, width: u16, height: u16) -> (r: Vec<Vec<char>>)
        requires
            width + 2 <= u16::MAX,
            height + 2 <= u16::MAX,
        ensures
            r@.len() == height + 2,
            forall|yi: int| 0 <= yi < height + 2 ==> (#[trigger] r@[yi])@.len() == width + 2,
            forall|yi: int, xi: int|
                0 <= yi < height + 2 && 0 <= xi < width + 2 ==> #[trigger] (r@[yi])@[xi]
                    == frame_glyph(self.border_types, width, height, xi + 1, yi + 1),
    {
        let mut r: Vec<Vec<char>> = Vec::new();
        let mut y: u16 = 0;
        while y < height + 2
            invariant
                width + 2 <= u16::MAX,
                height + 2 <= u16::MAX,
                0 <= y <= height + 2,
                r@.len() == y,
                forall|yi: int| 0 <= yi < y ==> (#[trigger] r@[yi])@.len() == width + 2,
                forall|yi: int, xi: int|
                    0 <= yi < y && 0 <= xi < width + 2 ==> #[trigger] (r@[yi])@[xi] == frame_glyph(
                        self.border_types,
                        width,
                        height,
                        xi + 1,
                        yi + 1,
                    ),
            decreases height + 2 - y,
        {
            let mut row: Vec<char> = Vec::new();
            let mut x: u16 = 0;
            while x < width + 2
                invariant
                    width + 2 <= u16::MAX,
                    height + 2 <= u16::MAX,
                    y < height + 2,
                    0 <= x <= width + 2,
                    row@.len() == x,
                    forall|xi: int|
                        0 <= xi < x ==> #[trigger] row@[xi] == frame_glyph(
                            self.border_types,
                            width,
                            height,
                            xi + 1,
                            y + 1,
                        ),
                decreases width + 2 - x,
            {
                let g: char = if y == 0 {
                    if x == 0 {
                        self.border_types.top_left
                    } else if x == width + 1 {
                        self.border_types.top_right
                    } else {
                        self.border_types.horizontal
                    }
                } else if y == height + 1 {
                    if x == 0 {
                        self.border_types.bottom_left
                    } else if x == width + 1 {
                        self.border_types.bottom_right
                    } else {
                        self.border_types.horizontal
                    }
                } else if x == 0 || x == width + 1 {
                    self.border_types.vertical
                } else {
                    ' '
                };
                row.push(g);
                x = x + 1;
            }
            r.push(row);
            y = y + 1;
        }
        r
    }
}

} // verus!
