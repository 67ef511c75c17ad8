//! `display`: shows a stream of frames on a canvas of terminal cells, and sends keys on.

use vstd::prelude::*;

verus! {

/// A key of the keyboard, as the terminal reports it.
#[derive(Debug, Clone, Copy, PartialEq, Eq, Structural)]
pub enum Key {
    Backspace,
    Enter,
    Left,
    Right,
    Up,
    Down,
    Home,
    End,
    PageUp,
    PageDown,
    Tab,
    Delete,
    Insert,
    /// A function key, by its number.
    F(u8),
    /// The key of a character.
    Char(char),
    Esc,
    CapsLock,
    ScrollLock,
    NumLock,
    PrintScreen,
    Pause,
    /// Any other key.
    Other,
}

/// The code by which a key is sent on: the code that a browser has for it. A function key has
/// its number above 111, a character's key the place of the character above that of `0`.
pub open spec fn js_code(key: Key) -> Option<int> {
    match key {
        Key::Backspace => Some(8),
        Key::Enter => Some(13),
        Key::Left => Some(37),
        Key::Right => Some(39),
        Key::Up => Some(38),
        Key::Down => Some(40),
        Key::Home => Some(36),
        Key::End => Some(35),
        Key::PageUp => Some(33),
        Key::PageDown => Some(34),
        Key::Tab => Some(9),
        Key::Delete => Some(46),
        Key::Insert => Some(45),
        Key::F(n) => Some(111 + n),
        Key::Char(c) => Some(c as int + 48),
        Key::Esc => Some(27),
        Key::CapsLock => Some(20),
        Key::ScrollLock => Some(145),
        Key::NumLock => Some(144),
        Key::PrintScreen => Some(44),
        Key::Pause => Some(19),
        Key::Other => None,
    }
}

/// The code by which a key is sent on, for the keys that have one.
pub fn key_code_to_js(key: Key) -> (code: Option<i32>)
    ensures
        match code {
            Some(c) => js_code(key) == Some(c as int),
            None => js_code(key) is None,
        },
{
    match key {
        Key::Backspace => Some(8),
        Key::Enter => Some(13),
        Key::Left => Some(37),
        Key::Right => Some(39),
        Key::Up => Some(38),
        Key::Down => Some(40),
        Key::Home => Some(36),
        Key::End => Some(35),
        Key::PageUp => Some(33),
        Key::PageDown => Some(34),
        Key::Tab => Some(9),
        Key::Delete => Some(46),
        Key::Insert => Some(45),
        Key::F(n) => Some(111 + n as i32),
        Key::Char(c) => Some(c as i32 + '0' as i32),
        Key::Esc => Some(27),
        Key::CapsLock => Some(20),
        Key::ScrollLock => Some(145),
        Key::NumLock => Some(144),
        Key::PrintScreen => Some(44),
        Key::Pause => Some(19),
        Key::Other => None,
    }
}

/// Where and how large a frame of `cols` by `rows` pixels is drawn on a canvas of terminal
/// cells: each pixel is a square of `scale` cells, and the frame has its upper left corner at
/// the cell `(min_x, min_y)`.
#[derive(Debug, Clone, Copy, PartialEq, Eq, Structural)]
pub struct Layout {
    pub cols: usize,
    pub rows: usize,
    pub scale: usize,
    pub min_x: usize,
    pub min_y: usize,
}

/// The smaller of two numbers.
pub open spec fn least(a: int, b: int) -> int {
    if a <= b {
        a
    } else {
        b
    }
}

/// The layout of a frame of `cols` by `rows` pixels on a canvas whose lower left corner is the
/// cell `origin` and whose upper right corner is the cell `corner`, rows counted downwards:
/// the pixels are as large as the canvas has room for, and the frame stands in the lower left
/// corner. There is none where the canvas has its corners the other way round or the frame
/// has no pixels.
pub open spec fn fitted(origin: (usize, usize), corner: (usize, usize), cols: usize, rows: usize) -> Option<
    Layout,
> {
    if origin.0 <= corner.0 && corner.1 <= origin.1 && cols > 0 && rows > 0 {
        let scale = least((corner.0 - origin.0) / cols as int, (origin.1 - corner.1) / rows as int);
        Some(
            Layout {
                cols,
                rows,
                scale: scale as usize,
                min_x: origin.0,
                min_y: (origin.1 - scale * rows) as usize,
            },
        )
    } else {
        None
    }
}

impl Layout {
    /// Whether the frame lies among the cells that have numbers.
    pub open spec fn wf(self) -> bool {
        &&& self.min_x + self.cols * self.scale <= usize::MAX
        &&& self.min_y + self.rows * self.scale <= usize::MAX
    }

    /// Fits a frame of `cols` by `rows` pixels into a canvas.
    pub fn fit(origin: (usize, usize), corner: (usize, usize), cols: usize, rows: usize) -> (layout:
        Option<Layout>)
        ensures
            layout == fitted(origin, corner, cols, rows),
            layout matches Some(l) ==> l.wf() && l.min_x + cols * l.scale <= corner.0 && corner.1
                <= l.min_y && l.min_y + rows * l.scale == origin.1,
    {
        if origin.0 <= corner.0 && corner.1 <= origin.1 && cols > 0 && rows > 0 {
            let width = corner.0 - origin.0;
            let height = origin.1 - corner.1;
            let across = width / cols;
            let down = height / rows;
            let scale = if across <= down {
                across
            } else {
                down
            };
            proof {
                assert(scale * cols <= width) by (nonlinear_arith)
                    requires
                        scale <= width / cols,
                        cols > 0,
                ;
                assert(scale * rows <= height) by (nonlinear_arith)
                    requires
                        scale <= height / rows,
                        rows > 0,
                ;
                assert(cols * scale == scale * cols) by (nonlinear_arith);
                assert(rows * scale == scale * rows) by (nonlinear_arith);
            }
            Some(Layout { cols, rows, scale, min_x: origin.0, min_y: origin.1 - scale * rows })
        } else {
            None
        }
    }

    /// The cell of the canvas that shows the part `(dx, dy)` of the pixel `(x, y)`.
    pub fn cell(&self, x: usize, y: usize, dx: usize, dy: usize) -> (cell: (usize, usize))
        requires
            self.wf(),
            x < self.cols,
            y < self.rows,
            dx < self.scale,
            dy < self.scale,
        ensures
            cell.0 == self.min_x + x * self.scale + dx,
            cell.1 == self.min_y + y * self.scale + dy,
            cell.0 < self.min_x + self.cols * self.scale,
            cell.1 < self.min_y + self.rows * self.scale,
    {
        proof {
            assert(x * self.scale + self.scale <= self.cols * self.scale) by (nonlinear_arith)
                requires
                    x < self.cols,
            ;
            assert(y * self.scale + self.scale <= self.rows * self.scale) by (nonlinear_arith)
                requires
                    y < self.rows,
            ;
            assert(0 <= x * self.scale) by (nonlinear_arith);
            assert(0 <= y * self.scale) by (nonlinear_arith);
        }
        (self.min_x + x * self.scale + dx, self.min_y + y * self.scale + dy)
    }
}

/// The colour of the given parts of red, green and blue as one number, a byte for each part.
pub fn rgb(red: u8, green: u8, blue: u8) -> (colour: u32)
    ensures
        colour == red * 0x10000 + green * 0x100 + blue,
{
    let r = red as u32;
    let g = green as u32;
    let b = blue as u32;
    assert((r << 16) | (g << 8) | b == r * 0x10000 + g * 0x100 + b) by (bit_vector)
        requires
            r < 256,
            g < 256,
            b < 256,
    ;
    (r << 16) | (g << 8) | b
}

} // verus!
