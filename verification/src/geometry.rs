//! Rectangles on the screen and the one font metric that layout needs.

use vstd::prelude::*;

verus! {

/// A rectangle of the screen: from `x0` to `x1`, `x1` excluded, and from `y0`
/// to `y1`, `y1` excluded.
#[derive(Clone, Copy, Debug, PartialEq, Eq, Structural)]
pub struct Rect {
    /// The left edge.
    pub x0: i16,
    /// The top edge.
    pub y0: i16,
    /// The right edge.
    pub x1: i16,
    /// The bottom edge.
    pub y1: i16,
}

/// `value`, but no less than `low` and no more than `high`, where `low` does
/// not exceed `high`.
pub open spec fn clamped(value: int, low: int, high: int) -> int {
    if value < low {
        low
    } else if value > high {
        high
    } else {
        value
    }
}

impl Rect {
    /// The width of the rectangle; none if the right edge lies left of the
    /// left edge.
    pub open spec fn spec_width(self) -> int {
        if self.x1 >= self.x0 {
            self.x1 - self.x0
        } else {
            0
        }
    }

    /// The height of the rectangle; none if the bottom edge lies above the
    /// top edge.
    pub open spec fn spec_height(self) -> int {
        if self.y1 >= self.y0 {
            self.y1 - self.y0
        } else {
            0
        }
    }

    /// The upper part of the rectangle, `height` high, as far as the
    /// rectangle reaches.
    pub open spec fn top_part(self, height: int) -> Rect {
        Rect { y1: (self.y0 + clamped(height, 0, self.spec_height())) as i16, ..self }
    }

    /// What `top_part` leaves of the rectangle.
    pub open spec fn below_top_part(self, height: int) -> Rect {
        Rect { y0: (self.y0 + clamped(height, 0, self.spec_height())) as i16, ..self }
    }

    /// The left part of the rectangle, `width` wide, as far as the rectangle
    /// reaches.
    pub open spec fn left_part(self, width: int) -> Rect {
        Rect { x1: (self.x0 + clamped(width, 0, self.spec_width())) as i16, ..self }
    }

    /// What `left_part` leaves of the rectangle.
    pub open spec fn beside_left_part(self, width: int) -> Rect {
        Rect { x0: (self.x0 + clamped(width, 0, self.spec_width())) as i16, ..self }
    }

    /// The rectangle with the given edges.
    pub fn new(x0: i16, y0: i16, x1: i16, y1: i16) -> (rect: Self)
        ensures
            rect == (Rect { x0, y0, x1, y1 }),
    {
        Rect { x0, y0, x1, y1 }
    }

    /// The width of the rectangle.
    pub fn width(self) -> (width: i32)
        ensures
            width == self.spec_width(),
    {
        if self.x1 >= self.x0 {
            self.x1 as i32 - self.x0 as i32
        } else {
            0
        }
    }

    /// The height of the rectangle.
    pub fn height(self) -> (height: i32)
        ensures
            height == self.spec_height(),
    {
        if self.y1 >= self.y0 {
            self.y1 as i32 - self.y0 as i32
        } else {
            0
        }
    }

    /// Cut the rectangle across into an upper part, `height` high, and the
    /// rest below it. The upper part reaches no further than the rectangle.
    pub fn split_top(self, height: i32) -> (parts: (Rect, Rect))
        ensures
            parts.0 == self.top_part(height as int),
            parts.1 == self.below_top_part(height as int),
    {
        let full = self.height();
        let height = if height < 0 {
            0
        } else if height > full {
            full
        } else {
            height
        };
        let cut = (self.y0 as i32 + height) as i16;
        (Rect { y1: cut, ..self }, Rect { y0: cut, ..self })
    }

    /// Cut the rectangle across into a lower part, `height` high, and the
    /// rest above it, which comes first. The lower part reaches no further
    /// than the rectangle.
    pub fn split_bottom(self, height: i32) -> (parts: (Rect, Rect))
        ensures
            parts.0 == self.top_part(self.spec_height() - clamped(
                height as int,
                0,
                self.spec_height(),
            )),
            parts.1 == self.below_top_part(self.spec_height() - clamped(
                height as int,
                0,
                self.spec_height(),
            )),
    {
        let full = self.height();
        let height = if height < 0 {
            0
        } else if height > full {
            full
        } else {
            height
        };
        self.split_top(full - height)
    }

    /// Cut the rectangle down into a left part, `width` wide, and the rest
    /// beside it. The left part reaches no further than the rectangle.
    pub fn split_left(self, width: i32) -> (parts: (Rect, Rect))
        ensures
            parts.0 == self.left_part(width as int),
            parts.1 == self.beside_left_part(width as int),
    {
        let full = self.width();
        let width = if width < 0 {
            0
        } else if width > full {
            full
        } else {
            width
        };
        let cut = (self.x0 as i32 + width) as i16;
        (Rect { x1: cut, ..self }, Rect { x0: cut, ..self })
    }
}

/// How much room the glyphs of a font take.
#[derive(Clone, Copy, Debug)]
pub struct Font {
    advances: [u8; 256],
    line_height: u8,
}

impl Font {
    /// How far the glyph of `byte` moves the pen on.
    pub closed spec fn advance(&self, byte: u8) -> int {
        self.advances@[byte as int] as int
    }

    /// The height of a line.
    pub closed spec fn spec_line_height(&self) -> int {
        self.line_height as int
    }

    /// A glyph takes little room.
    pub broadcast proof fn lemma_advance_bounds(&self, byte: u8)
        ensures
            0 <= #[trigger] self.advance(byte) <= u8::MAX,
    {
    }

    /// A line is not high.
    pub broadcast proof fn lemma_line_height_bounds(&self)
        ensures
            0 <= #[trigger] self.spec_line_height() <= u8::MAX,
    {
    }

    /// The width of `text` in one line.
    pub open spec fn text_width(&self, text: Seq<u8>) -> int
        decreases text.len(),
    {
        if text.len() == 0 {
            0
        } else {
            self.text_width(text.drop_last()) + self.advance(text.last())
        }
    }

    /// The font in which the glyph of each byte moves the pen on as
    /// `advances` says for the byte.
    pub fn new(advances: [u8; 256], line_height: u8) -> (font: Self)
        ensures
            forall|byte: u8| #[trigger] font.advance(byte) == advances@[byte as int],
            font.spec_line_height() == line_height,
    {
        Font { advances, line_height }
    }

    /// The font in which every glyph moves the pen on by `advance`.
    pub fn fixed(advance: u8, line_height: u8) -> (font: Self)
        ensures
            forall|byte: u8| #[trigger] font.advance(byte) == advance,
            font.spec_line_height() == line_height,
    {
        Font { advances: [advance;256], line_height }
    }

    /// How far the glyph of `byte` moves the pen on.
    pub fn char_width(&self, byte: u8) -> (advance: i32)
        ensures
            advance == self.advance(byte),
    {
        self.advances[byte as usize] as i32
    }

    /// The height of a line.
    pub fn line_height(&self) -> (height: i32)
        ensures
            height == self.spec_line_height(),
            0 <= height <= u8::MAX,
    {
        self.line_height as i32
    }
}

} // verus!
