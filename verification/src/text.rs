//! Text with named parameters, broken into lines that fit an area.

use crate::component::{Component, Event, EventCtx, Never};
use crate::geometry::{Font, Rect};
use crate::textbox::bytes_equal;
use crate::trace::{close, closed, field_bytes, field_of, open, opened, Trace};
use vstd::prelude::*;
use vstd::slice::slice_subrange;

verus! {

/// The byte that opens a parameter in a format.
pub const PARAM_OPEN: u8 = 123;

/// The byte that closes a parameter in a format.
pub const PARAM_CLOSE: u8 = 125;

/// The byte at which a line may be broken.
pub const SPACE: u8 = 32;

/// The byte that breaks a line.
pub const NEWLINE: u8 = 10;

/// One parameter: a name and the text that stands for it.
pub type Param = (&'static [u8], &'static [u8]);

/// The text that stands for the parameter `name`: that of the parameter of
/// this name that was given last, none if none was given.
pub open spec fn param_value(params: Seq<Param>, name: Seq<u8>) -> Option<Seq<u8>>
    decreases params.len(),
{
    if params.len() == 0 {
        None
    } else if params.last().0@ == name {
        Some(params.last().1@)
    } else {
        param_value(params.drop_last(), name)
    }
}

/// The place of the first `byte` in `text`; the length of `text` if there is
/// none.
pub open spec fn position_of(text: Seq<u8>, byte: u8) -> int
    decreases text.len(),
{
    if text.len() == 0 {
        0
    } else if text[0] == byte {
        0
    } else {
        1 + position_of(text.drop_first(), byte)
    }
}

/// The place of a byte lies in the text or right behind it.
pub proof fn lemma_position_of(text: Seq<u8>, byte: u8)
    ensures
        0 <= position_of(text, byte) <= text.len(),
        position_of(text, byte) < text.len() ==> text[position_of(text, byte)] == byte,
        forall|i: int| 0 <= i < position_of(text, byte) ==> text[i] != byte,
    decreases text.len(),
{
    if text.len() > 0 && text[0] != byte {
        let rest = text.drop_first();
        lemma_position_of(rest, byte);
        assert forall|i: int| 0 <= i < position_of(text, byte) implies text[i] != byte by {
            if i > 0 {
                assert(rest[i - 1] == text[i]);
            }
        }
    }
}

/// `format` with each parameter replaced by the text that stands for it. A
/// parameter is a name between `{` and the next `}`; a parameter that no text
/// stands for is left out, and a `{` that nothing closes stands for itself.
pub open spec fn formatted(format: Seq<u8>, params: Seq<Param>) -> Seq<u8>
    decreases format.len(),
    via formatted_decreases
{
    if format.len() == 0 {
        Seq::<u8>::empty()
    } else {
        let name_len = position_of(format.drop_first(), PARAM_CLOSE);
        if format[0] == PARAM_OPEN && name_len < format.len() - 1 {
            let value = match param_value(params, format.subrange(1, 1 + name_len)) {
                Some(value) => value,
                None => Seq::<u8>::empty(),
            };
            value + formatted(format.skip(name_len + 2), params)
        } else {
            seq![format[0]] + formatted(format.drop_first(), params)
        }
    }
}

#[via_fn]
proof fn formatted_decreases(format: Seq<u8>, params: Seq<Param>) {
    if format.len() > 0 {
        lemma_position_of(format.drop_first(), PARAM_CLOSE);
    }
}

/// The number of bytes at the start of `text`, from `upto` on, that fit
/// together in a line `max_width` wide; a newline ends the line.
pub open spec fn fitting_len(font: Font, text: Seq<u8>, max_width: int, upto: int) -> int
    decreases text.len() - upto,
{
    if 0 <= upto < text.len() && text[upto] != NEWLINE && font.text_width(text.take(upto + 1))
        <= max_width {
        fitting_len(font, text, max_width, upto + 1)
    } else {
        upto
    }
}

/// The bytes that fit are bytes of the text.
pub proof fn lemma_fitting_len(font: Font, text: Seq<u8>, max_width: int, upto: int)
    requires
        0 <= upto <= text.len(),
    ensures
        upto <= fitting_len(font, text, max_width, upto) <= text.len(),
    decreases text.len() - upto,
{
    if upto < text.len() && text[upto] != NEWLINE && font.text_width(text.take(upto + 1))
        <= max_width {
        lemma_fitting_len(font, text, max_width, upto + 1);
    }
}

/// The place of the last space in `line`, none if there is none.
pub open spec fn last_space(line: Seq<u8>) -> Option<int>
    decreases line.len(),
{
    if line.len() == 0 {
        None
    } else if line.last() == SPACE {
        Some(line.len() - 1)
    } else {
        last_space(line.drop_last())
    }
}

/// The last space lies in the line.
pub proof fn lemma_last_space(line: Seq<u8>)
    ensures
        last_space(line) matches Some(at) ==> 0 <= at < line.len() && line[at] == SPACE,
    decreases line.len(),
{
    if line.len() > 0 && line.last() != SPACE {
        lemma_last_space(line.drop_last());
    }
}

/// Where the first line of `text` ends: the length of the line, and the
/// number of bytes behind it that the break takes up. The line is as long as
/// fits. If the text goes on behind it, the line is broken at a newline or a
/// space that ends it, else at its last space, and where there is no space,
/// where the line is full; the newline or space of the break is taken up. A
/// line holds one byte at least.
pub open spec fn line_break(font: Font, text: Seq<u8>, max_width: int) -> (int, int) {
    let fitting = fitting_len(font, text, max_width, 0);
    if fitting >= text.len() {
        (text.len() as int, 0)
    } else if text[fitting] == NEWLINE || text[fitting] == SPACE {
        (fitting, 1)
    } else {
        match last_space(text.take(fitting)) {
            Some(at) => (at, 1),
            None => if fitting == 0 {
                (1, 0)
            } else {
                (fitting, 0)
            },
        }
    }
}

/// A break takes up at least one byte of a text that is not empty, and none
/// that the text does not have.
pub proof fn lemma_line_break(font: Font, text: Seq<u8>, max_width: int)
    requires
        text.len() > 0,
    ensures
        0 <= line_break(font, text, max_width).0 <= text.len(),
        0 <= line_break(font, text, max_width).1 <= 1,
        1 <= line_break(font, text, max_width).0 + line_break(font, text, max_width).1
            <= text.len(),
{
    lemma_fitting_len(font, text, max_width, 0);
    let fitting = fitting_len(font, text, max_width, 0);
    if fitting < text.len() {
        lemma_last_space(text.take(fitting));
    }
}

/// A text is no narrower than what it starts with.
pub proof fn lemma_text_width_grows(font: Font, text: Seq<u8>, len: int)
    requires
        0 <= len <= text.len(),
    ensures
        0 <= font.text_width(text.take(len)) <= font.text_width(text),
    decreases text.len() - len,
{
    if len == text.len() {
        assert(text.take(len) =~= text);
        lemma_text_width_nonnegative(font, text);
    } else {
        lemma_text_width_grows(font, text, len + 1);
        assert(text.take(len + 1).drop_last() =~= text.take(len));
        assert(text.take(len + 1).last() == text[len]);
        font.lemma_advance_bounds(text[len]);
        lemma_text_width_nonnegative(font, text.take(len));
    }
}

/// No text has a negative width.
pub proof fn lemma_text_width_nonnegative(font: Font, text: Seq<u8>)
    ensures
        0 <= font.text_width(text),
    decreases text.len(),
{
    if text.len() > 0 {
        lemma_text_width_nonnegative(font, text.drop_last());
        font.lemma_advance_bounds(text.last());
    }
}

/// What fits is no wider than the line.
pub proof fn lemma_fitting_fits(font: Font, text: Seq<u8>, max_width: int, upto: int)
    requires
        0 <= upto <= text.len(),
        font.text_width(text.take(upto)) <= max_width,
    ensures
        font.text_width(text.take(fitting_len(font, text, max_width, upto))) <= max_width,
    decreases text.len() - upto,
{
    if upto < text.len() && text[upto] != NEWLINE && font.text_width(text.take(upto + 1))
        <= max_width {
        lemma_fitting_fits(font, text, max_width, upto + 1);
    }
}

/// A line is no wider than the area, as long as the glyph that the line
/// starts with fits the area by itself.
pub proof fn lemma_line_fits(font: Font, text: Seq<u8>, max_width: int)
    requires
        text.len() > 0,
        font.advance(text[0]) <= max_width,
    ensures
        font.text_width(text.take(line_break(font, text, max_width).0)) <= max_width,
{
    font.lemma_advance_bounds(text[0]);
    assert(text.take(0).len() == 0);
    lemma_fitting_len(font, text, max_width, 0);
    lemma_fitting_fits(font, text, max_width, 0);
    let fitting = fitting_len(font, text, max_width, 0);
    if fitting < text.len() {
        let line = text.take(fitting);
        lemma_last_space(line);
        match last_space(line) {
            Some(at) => {
                lemma_text_width_grows(font, line, at);
                assert(line.take(at) =~= text.take(at));
            },
            None => {
                if fitting == 0 {
                    assert(text.take(1).drop_last() =~= text.take(0));
                    assert(font.text_width(text.take(1)) == font.advance(text[0]));
                }
            },
        }
    }
}

/// `text` broken into lines that fit `max_width`, with a newline between
/// each line and the next.
pub open spec fn laid_out(font: Font, text: Seq<u8>, max_width: int) -> Seq<u8>
    decreases text.len(),
    via laid_out_decreases
{
    if text.len() == 0 {
        Seq::<u8>::empty()
    } else {
        let (len, taken) = line_break(font, text, max_width);
        let rest = text.skip(len + taken);
        text.take(len) + if rest.len() == 0 {
            Seq::<u8>::empty()
        } else {
            seq![NEWLINE] + laid_out(font, rest, max_width)
        }
    }
}

#[via_fn]
proof fn laid_out_decreases(font: Font, text: Seq<u8>, max_width: int) {
    if text.len() > 0 {
        lemma_line_break(font, text, max_width);
    }
}

/// Where the first line of `text` ends: the length of the line, and the
/// number of bytes behind it that the break takes up.
pub fn break_line(font: &Font, text: &[u8], max_width: i32) -> (ends: (usize, usize))
    ensures
        ends.0 == line_break(*font, text@, max_width as int).0,
        ends.1 == line_break(*font, text@, max_width as int).1,
{
    let mut fitting: usize = 0;
    let mut width: i64 = 0;
    loop
        invariant
            fitting <= text@.len(),
            width == font.text_width(text@.take(fitting as int)),
            0 <= width,
            fitting > 0 ==> width <= max_width,
            fitting_len(*font, text@, max_width as int, 0) == fitting_len(
                *font,
                text@,
                max_width as int,
                fitting as int,
            ),
        ensures
            fitting == fitting_len(*font, text@, max_width as int, 0),
            fitting <= text@.len(),
        decreases text@.len() - fitting,
    {
        if fitting >= text.len() {
            break ;
        }
        let byte = text[fitting];
        proof {
            font.lemma_advance_bounds(byte);
            assert(text@.take(fitting + 1).drop_last() =~= text@.take(fitting as int));
        }
        if byte == NEWLINE {
            break ;
        }
        if width > i32::MAX as i64 {
            break ;
        }
        let wider = width + font.char_width(byte) as i64;
        if wider > max_width as i64 {
            break ;
        }
        width = wider;
        fitting += 1;
    }
    if fitting >= text.len() {
        return (text.len(), 0);
    }
    if text[fitting] == NEWLINE || text[fitting] == SPACE {
        return (fitting, 1);
    }
    let mut at = fitting;
    while at > 0
        invariant
            at <= fitting < text@.len(),
            fitting == fitting_len(*font, text@, max_width as int, 0),
            text@[fitting as int] != NEWLINE,
            text@[fitting as int] != SPACE,
            last_space(text@.take(fitting as int)) == last_space(text@.take(at as int)),
        decreases at,
    {
        assert(text@.take(at as int).drop_last() =~= text@.take(at - 1));
        assert(text@.take(at as int).last() == text@[at - 1]);
        if text[at - 1] == SPACE {
            assert(last_space(text@.take(at as int)) == Some(at - 1));
            return (at - 1, 1);
        }
        at -= 1;
    }
    assert(text@.take(0).len() == 0);
    if fitting == 0 {
        (1, 0)
    } else {
        (fitting, 0)
    }
}

/// Break `text` into lines that fit `max_width`, with a newline between each
/// line and the next.
pub fn layout(font: &Font, text: &[u8], max_width: i32) -> (lines: Vec<u8>)
    ensures
        lines@ == laid_out(*font, text@, max_width as int),
{
    let mut lines: Vec<u8> = Vec::new();
    let mut start: usize = 0;
    assert(text@.skip(0) =~= text@);
    while start < text.len()
        invariant
            start <= text@.len(),
            laid_out(*font, text@, max_width as int) == lines@ + laid_out(
                *font,
                text@.skip(start as int),
                max_width as int,
            ),
        decreases text@.len() - start,
    {
        let rest = slice_subrange(text, start, text.len());
        assert(rest@ =~= text@.skip(start as int));
        proof {
            lemma_line_break(*font, rest@, max_width as int);
        }
        let (len, taken) = break_line(font, rest, max_width);
        let ghost before = lines@;
        let mut index: usize = 0;
        while index < len
            invariant
                index <= len <= rest@.len(),
                rest@ == text@.skip(start as int),
                start + len <= text@.len() <= usize::MAX,
                lines@ == before + rest@.take(index as int),
            decreases len - index,
        {
            lines.push(text[start + index]);
            assert(rest@.take(index + 1) =~= rest@.take(index as int).push(rest@[index as int]));
            assert(lines@ =~= before + rest@.take(index + 1));
            index += 1;
        }
        assert(rest@.skip(len + taken) =~= text@.skip(start + len + taken));
        start = start + len + taken;
        if start < text.len() {
            lines.push(NEWLINE);
        }
        assert(lines@ + laid_out(*font, text@.skip(start as int), max_width as int) =~= before
            + laid_out(*font, rest@, max_width as int));
    }
    lines
}

/// Text with named parameters, to be shown in an area.
pub struct FormattedText {
    area: Rect,
    format: &'static [u8],
    params: Vec<Param>,
    font: Font,
}

impl FormattedText {
    /// The area that the text is shown in.
    pub closed spec fn area(&self) -> Rect {
        self.area
    }

    /// The text with its parameters still named.
    pub closed spec fn format(&self) -> Seq<u8> {
        self.format@
    }

    /// The parameters given so far.
    pub closed spec fn params(&self) -> Seq<Param> {
        self.params@
    }

    /// The font that the text is set in.
    pub closed spec fn font(&self) -> Font {
        self.font
    }

    /// The text with each parameter replaced by what stands for it.
    pub open spec fn content(&self) -> Seq<u8> {
        formatted(self.format(), self.params())
    }

    /// The content broken into lines that fit the area.
    pub open spec fn lines(&self) -> Seq<u8> {
        laid_out(self.font(), self.content(), self.area().spec_width())
    }

    /// The text `format`, set in `font`, to be shown in `area`. No parameter
    /// is given yet.
    pub fn new(area: Rect, format: &'static [u8], font: Font) -> (text: Self)
        ensures
            text.area() == area,
            text.format() == format@,
            text.params() == Seq::<Param>::empty(),
            text.font() == font,
    {
        FormattedText { area, format, params: Vec::new(), font }
    }

    /// The same text in which `value` stands for the parameter `name`.
    pub fn with(self, name: &'static [u8], value: &'static [u8]) -> (text: Self)
        ensures
            text.area() == self.area(),
            text.format() == self.format(),
            text.params() == self.params().push((name, value)),
            text.font() == self.font(),
    {
        let mut text = self;
        text.params.push((name, value));
        text
    }

    /// The text that stands for the parameter `name`, if one does.
    fn value_of(&self, name: &[u8]) -> (value: Option<&'static [u8]>)
        ensures
            match value {
                Some(value) => param_value(self.params(), name@) == Some(value@),
                None => param_value(self.params(), name@) is None,
            },
    {
        let mut index = self.params.len();
        assert(self.params@.take(index as int) =~= self.params@);
        while index > 0
            invariant
                index <= self.params@.len(),
                param_value(self.params@, name@) == param_value(
                    self.params@.take(index as int),
                    name@,
                ),
            decreases index,
        {
            assert(self.params@.take(index as int).drop_last() =~= self.params@.take(index - 1));
            let param = self.params[index - 1];
            if bytes_equal(param.0, name) {
                return Some(param.1);
            }
            index -= 1;
        }
        assert(self.params@.take(0).len() == 0);
        None
    }

    /// The text with each parameter replaced by what stands for it.
    pub fn format_content(&self) -> (content: Vec<u8>)
        ensures
            content@ == self.content(),
    {
        let format = self.format;
        let mut content: Vec<u8> = Vec::new();
        let mut at: usize = 0;
        assert(format@.skip(0) =~= format@);
        while at < format.len()
            invariant
                at <= format@.len(),
                format == self.format,
                formatted(format@, self.params@) == content@ + formatted(
                    format@.skip(at as int),
                    self.params@,
                ),
            decreases format@.len() - at,
        {
            let ghost rest = format@.skip(at as int);
            let ghost before = content@;
            proof {
                lemma_position_of(rest.drop_first(), PARAM_CLOSE);
            }
            let mut close_at = at + 1;
            if format[at] == PARAM_OPEN {
                assert(rest.drop_first() =~= format@.skip(at + 1));
                while close_at < format.len() && format[close_at] != PARAM_CLOSE
                    invariant
                        at < close_at <= format@.len(),
                        rest == format@.skip(at as int),
                        position_of(rest.drop_first(), PARAM_CLOSE) == (close_at - at - 1)
                            + position_of(format@.skip(close_at as int), PARAM_CLOSE),
                    decreases format@.len() - close_at,
                {
                    assert(format@.skip(close_at as int).drop_first() =~= format@.skip(
                        close_at + 1,
                    ));
                    close_at += 1;
                }
            }
            if format[at] == PARAM_OPEN && close_at < format.len() {
                let name = slice_subrange(format, at + 1, close_at);
                assert(name@ =~= rest.subrange(1, close_at - at));
                assert(rest.skip(close_at - at + 1) =~= format@.skip(close_at + 1));
                match self.value_of(name) {
                    Some(value) => {
                        let mut index: usize = 0;
                        while index < value.len()
                            invariant
                                index <= value@.len(),
                                content@ == before + value@.take(index as int),
                            decreases value@.len() - index,
                        {
                            content.push(value[index]);
                            assert(value@.take(index + 1) =~= value@.take(index as int).push(
                                value@[index as int],
                            ));
                            assert(content@ =~= before + value@.take(index + 1));
                            index += 1;
                        }
                        assert(value@.take(index as int) =~= value@);
                    },
                    None => {},
                }
                at = close_at + 1;
            } else {
                assert(rest.drop_first() =~= format@.skip(at + 1));
                content.push(format[at]);
                at += 1;
            }
            assert(formatted(format@, self.params@) =~= content@ + formatted(
                format@.skip(at as int),
                self.params@,
            ));
        }
        content
    }

    /// The content broken into lines that fit the area.
    pub fn layout_content(&self) -> (lines: Vec<u8>)
        ensures
            lines@ == self.lines(),
    {
        let content = self.format_content();
        layout(&self.font, content.as_slice(), self.area.width())
    }
}

/// What a text hands to the renderer.
pub struct TextPaint {
    /// Where to draw.
    pub area: Rect,
    /// What to draw, line by line.
    pub lines: Vec<u8>,
}

impl Component for FormattedText {
    type Msg = Never;

    type Paint = TextPaint;

    open spec fn inv(&self) -> bool {
        true
    }

    /// A text answers nothing and never changes.
    open spec fn handles(
        &self,
        ctx: EventCtx,
        event: Event,
        after: Self,
        ctx_after: EventCtx,
        msg: Option<Never>,
    ) -> bool {
        &&& after == *self
        &&& ctx_after == ctx
        &&& msg is None
    }

    /// The lines of the text in its area.
    open spec fn paints(&self, paint: TextPaint) -> bool {
        &&& paint.area == self.area()
        &&& paint.lines@ == self.lines()
    }

    fn event(&mut self, ctx: &mut EventCtx, event: Event) -> (msg: Option<Never>) {
        None
    }

    fn paint(&self) -> (paint: TextPaint) {
        TextPaint { area: self.area, lines: self.layout_content() }
    }
}

impl Trace for FormattedText {
    /// The text as it is laid out.
    open spec fn traced(&self) -> Seq<u8> {
        opened("Text") + field_of("content", self.lines()) + closed()
    }

    fn trace(&self, t: &mut Vec<u8>) {
        let lines = self.layout_content();
        open(t, "Text");
        field_bytes(t, "content", lines.as_slice());
        close(t);
        assert(t@ =~= old(t)@ + self.traced());
    }
}

} // verus!
