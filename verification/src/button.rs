//! The controls that a keyboard is made of, as far as its logic reads and
//! writes them: which control a click is for, whether the control takes
//! clicks, and what it shows.

use crate::component::{Component, Event, EventCtx};
use crate::textbox::bytes_equal;
use crate::trace::{close, closed, field_bytes, field_of, open, opened, symbol, Trace};
use vstd::prelude::*;
use vstd::string::StringSliceAdditionalSpecFns;

verus! {

/// What a button reports to its parent.
#[derive(Clone, Copy, Debug, PartialEq, Eq, Structural)]
pub enum ButtonMsg {
    /// The button was clicked.
    Clicked,
}

/// The glyphs that a button can show.
#[derive(Clone, Copy, Debug, PartialEq, Eq, Structural)]
pub enum Icon {
    /// Delete the last unit.
    Back,
    /// Accept the input.
    Confirm,
}

/// The looks that a button can take.
#[derive(Clone, Copy, Debug, PartialEq, Eq, Structural)]
pub enum ButtonStyle {
    /// An ordinary key.
    Default,
    /// A control that accepts the input.
    Confirm,
    /// A control that takes input away.
    Clear,
}

/// What a button shows.
#[derive(Clone, Copy, Debug)]
pub enum ButtonContent {
    /// Nothing.
    Empty,
    /// A text.
    Text(&'static [u8]),
    /// A glyph.
    Icon(Icon),
}

impl ButtonContent {
    /// Whether two contents show the same.
    pub open spec fn same_as(self, other: ButtonContent) -> bool {
        match (self, other) {
            (ButtonContent::Empty, ButtonContent::Empty) => true,
            (ButtonContent::Text(a), ButtonContent::Text(b)) => a@ == b@,
            (ButtonContent::Icon(a), ButtonContent::Icon(b)) => a == b,
            _ => false,
        }
    }

    /// Contents that show the same are the same.
    pub broadcast proof fn lemma_same_as(a: ButtonContent, b: ButtonContent)
        ensures
            #[trigger] a.same_as(b) == (a == b),
    {
        broadcast use vstd::slice::group_slice_axioms;

        match (a, b) {
            (ButtonContent::Text(x), ButtonContent::Text(y)) => {
                if x@ == y@ {
                    assert(x =~= y);
                }
            },
            _ => {},
        }
    }

    /// Whether `self` and `other` show the same.
    pub fn shows_same(&self, other: &ButtonContent) -> (same: bool)
        ensures
            same == (*self == *other),
    {
        broadcast use ButtonContent::lemma_same_as;

        assert(self.same_as(*other) == (*self == *other));
        match (self, other) {
            (ButtonContent::Empty, ButtonContent::Empty) => true,
            (ButtonContent::Text(a), ButtonContent::Text(b)) => bytes_equal(a, b),
            (ButtonContent::Icon(a), ButtonContent::Icon(b)) => *a == *b,
            _ => false,
        }
    }
}

/// One control: a key of the keyboard, or one of its function buttons. A
/// click reaches the control whose identifier the click event names.
#[derive(Clone, Copy, Debug)]
pub struct Button {
    id: usize,
    enabled: bool,
    content: ButtonContent,
    style: ButtonStyle,
}

impl Button {
    /// The identifier that click events for this button carry.
    pub closed spec fn id(&self) -> usize {
        self.id
    }

    /// Whether the button takes clicks.
    pub closed spec fn enabled(&self) -> bool {
        self.enabled
    }

    /// What the button shows.
    pub closed spec fn content(&self) -> ButtonContent {
        self.content
    }

    /// The look of the button.
    pub closed spec fn style(&self) -> ButtonStyle {
        self.style
    }

    /// `self` is as it was made: enabled, in the default style, with the given
    /// identifier and content.
    pub open spec fn is_plain(&self, id: usize, content: ButtonContent) -> bool {
        &&& self.id() == id
        &&& self.enabled()
        &&& self.content() == content
        &&& self.style() == ButtonStyle::Default
    }

    /// `self` is an enabled button with the given identifier, content and
    /// style.
    pub open spec fn is_made(&self, id: usize, content: ButtonContent, style: ButtonStyle) -> bool {
        &&& self.id() == id
        &&& self.enabled()
        &&& self.content() == content
        &&& self.style() == style
    }

    /// `self` differs from `before` in nothing but whether it takes clicks.
    pub open spec fn is_with_enabled(&self, before: Button, enabled: bool) -> bool {
        &&& self.id() == before.id()
        &&& self.enabled() == enabled
        &&& self.content() == before.content()
        &&& self.style() == before.style()
    }

    /// Whether the button answers `event` with a click message.
    pub open spec fn is_clicked_by(&self, event: Event) -> bool {
        self.enabled() && event == Event::Click(self.id())
    }

    /// An enabled button in the default style.
    pub fn new(id: usize, content: ButtonContent) -> (button: Self)
        ensures
            button.is_plain(id, content),
    {
        Button { id, enabled: true, content, style: ButtonStyle::Default }
    }

    /// An enabled button that shows `text`.
    pub fn with_text(id: usize, text: &'static [u8]) -> (button: Self)
        ensures
            button.is_plain(id, ButtonContent::Text(text)),
    {
        Button::new(id, ButtonContent::Text(text))
    }

    /// An enabled button that shows `icon`.
    pub fn with_icon(id: usize, icon: Icon) -> (button: Self)
        ensures
            button.is_plain(id, ButtonContent::Icon(icon)),
    {
        Button::new(id, ButtonContent::Icon(icon))
    }

    /// An enabled button that shows nothing.
    pub fn empty(id: usize) -> (button: Self)
        ensures
            button.is_plain(id, ButtonContent::Empty),
    {
        Button::new(id, ButtonContent::Empty)
    }

    /// The same button in another style.
    pub fn styled(self, style: ButtonStyle) -> (button: Self)
        ensures
            button.id() == self.id(),
            button.enabled() == self.enabled(),
            button.content() == self.content(),
            button.style() == style,
    {
        Button { id: self.id, enabled: self.enabled, content: self.content, style }
    }

    /// Whether the button takes clicks.
    pub fn is_enabled(&self) -> (enabled: bool)
        ensures
            enabled == self.enabled(),
    {
        self.enabled
    }

    /// What the button shows.
    pub fn shown_content(&self) -> (content: ButtonContent)
        ensures
            content == self.content(),
    {
        self.content
    }

    /// The look of the button.
    pub fn shown_style(&self) -> (style: ButtonStyle)
        ensures
            style == self.style(),
    {
        self.style
    }

    /// Make the button take clicks if `enabled`, and refuse them if not. Asks
    /// for a repaint if that is a change.
    pub fn enable_if(&mut self, ctx: &mut EventCtx, enabled: bool)
        ensures
            final(self).is_with_enabled(*old(self), enabled),
            final(ctx).is_with_paint_if(*old(ctx), old(self).enabled() != enabled),
    {
        if self.enabled != enabled {
            self.enabled = enabled;
            ctx.request_paint();
        }
    }

    /// Make the button take clicks. Asks for a repaint if it did not.
    pub fn enable(&mut self, ctx: &mut EventCtx)
        ensures
            final(self).is_with_enabled(*old(self), true),
            final(ctx).is_with_paint_if(*old(ctx), !old(self).enabled()),
    {
        self.enable_if(ctx, true)
    }

    /// Make the button refuse clicks. Asks for a repaint if it took them.
    pub fn disable(&mut self, ctx: &mut EventCtx)
        ensures
            final(self).is_with_enabled(*old(self), false),
            final(ctx).is_with_paint_if(*old(ctx), old(self).enabled()),
    {
        self.enable_if(ctx, false)
    }

    /// Show `content`. Asks for a repaint if that is a change.
    pub fn set_content(&mut self, ctx: &mut EventCtx, content: ButtonContent)
        ensures
            final(self).id() == old(self).id(),
            final(self).enabled() == old(self).enabled(),
            final(self).content() == content,
            final(self).style() == old(self).style(),
            final(ctx).is_with_paint_if(*old(ctx), old(self).content() != content),
    {
        if !self.content.shows_same(&content) {
            self.content = content;
            ctx.request_paint();
        }
    }

    /// Take the look `style`. Asks for a repaint if that is a change.
    pub fn set_stylesheet(&mut self, ctx: &mut EventCtx, style: ButtonStyle)
        ensures
            final(self).id() == old(self).id(),
            final(self).enabled() == old(self).enabled(),
            final(self).content() == old(self).content(),
            final(self).style() == style,
            final(ctx).is_with_paint_if(*old(ctx), old(self).style() != style),
    {
        if self.style != style {
            self.style = style;
            ctx.request_paint();
        }
    }
}

impl Component for Button {
    type Msg = ButtonMsg;

    type Paint = Button;

    open spec fn inv(&self) -> bool {
        true
    }

    /// An enabled button answers the click that names it; nothing changes.
    open spec fn handles(
        &self,
        ctx: EventCtx,
        event: Event,
        after: Self,
        ctx_after: EventCtx,
        msg: Option<ButtonMsg>,
    ) -> bool {
        &&& after == *self
        &&& ctx_after == ctx
        &&& msg == if self.is_clicked_by(event) {
            Some(ButtonMsg::Clicked)
        } else {
            None
        }
    }

    open spec fn paints(&self, paint: Button) -> bool {
        paint == *self
    }

    fn event(&mut self, ctx: &mut EventCtx, event: Event) -> (msg: Option<ButtonMsg>) {
        let clicked = match event {
            Event::Click(id) => self.enabled && id == self.id,
            Event::Timer(_) => false,
        };
        if clicked {
            Some(ButtonMsg::Clicked)
        } else {
            None
        }
    }

    fn paint(&self) -> (paint: Button) {
        *self
    }
}

impl Trace for Button {
    /// The text of the button, if it shows one; for a glyph, that it shows
    /// one.
    open spec fn traced(&self) -> Seq<u8> {
        opened("Button") + match self.content() {
            ButtonContent::Empty => Seq::<u8>::empty(),
            ButtonContent::Text(text) => field_of("text", text@),
            ButtonContent::Icon(_) => "icon".spec_bytes(),
        } + closed()
    }

    fn trace(&self, t: &mut Vec<u8>) {
        open(t, "Button");
        match self.content {
            ButtonContent::Empty => {},
            ButtonContent::Text(text) => field_bytes(t, "text", text),
            ButtonContent::Icon(_) => symbol(t, "icon"),
        }
        close(t);
        assert(t@ =~= old(t)@ + self.traced());
    }
}

/// A line of text that takes no input.
#[derive(Clone, Copy, Debug)]
pub struct Label {
    text: &'static [u8],
}

impl Label {
    /// The text of the label.
    pub closed spec fn text(&self) -> &'static [u8] {
        self.text
    }

    /// A label that shows `text`.
    pub fn new(text: &'static [u8]) -> (label: Self)
        ensures
            label.text() == text,
    {
        Label { text }
    }
}

impl Component for Label {
    type Msg = ButtonMsg;

    type Paint = &'static [u8];

    open spec fn inv(&self) -> bool {
        true
    }

    /// A label answers nothing and never changes.
    open spec fn handles(
        &self,
        ctx: EventCtx,
        event: Event,
        after: Self,
        ctx_after: EventCtx,
        msg: Option<ButtonMsg>,
    ) -> bool {
        &&& after == *self
        &&& ctx_after == ctx
        &&& msg is None
    }

    open spec fn paints(&self, paint: &'static [u8]) -> bool {
        paint == self.text()
    }

    fn event(&mut self, ctx: &mut EventCtx, event: Event) -> (msg: Option<ButtonMsg>) {
        None
    }

    fn paint(&self) -> (paint: &'static [u8]) {
        self.text
    }
}

impl Trace for Label {
    /// The text of the label as it is.
    open spec fn traced(&self) -> Seq<u8> {
        self.text()@
    }

    fn trace(&self, t: &mut Vec<u8>) {
        crate::trace::bytes(t, self.text);
    }
}

} // verus!
