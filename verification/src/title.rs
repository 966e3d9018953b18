//! A content under a title line.

use crate::component::{Component, Event, EventCtx};
use crate::geometry::{Font, Rect};
use crate::trace::{close, closed, field, field_of, open, opened, Trace};
use vstd::prelude::*;

verus! {

/// The room between the title line and the content.
pub const HEADER_SPACE: i32 = 4;

/// A content with a title above it. Events go to the content.
pub struct Title<T, U> {
    area: Rect,
    title: U,
    content: T,
}

/// What a titled content hands to the renderer.
pub struct TitlePaint<T> {
    /// The area of the title line.
    pub area: Rect,
    /// What the content shows.
    pub content: T,
}

impl<T, U> Title<T, U> {
    /// The area of the title line.
    pub closed spec fn area(&self) -> Rect {
        self.area
    }

    /// The title.
    pub closed spec fn spec_title(&self) -> &U {
        &self.title
    }

    /// The content.
    pub closed spec fn content(&self) -> T {
        self.content
    }

    /// The area of a title line of height `header_height` at the top of
    /// `area`.
    pub open spec fn title_area_of(area: Rect, header_height: int) -> Rect {
        area.top_part(header_height)
    }

    /// The area that a title line of height `header_height` at the top of
    /// `area` leaves to the content: what lies below the line and the room
    /// under it.
    pub open spec fn content_area_of(area: Rect, header_height: int) -> Rect {
        area.below_top_part(header_height).below_top_part(HEADER_SPACE as int)
    }

    /// The content that `content` makes for its area, under `title` set in
    /// `font`, in `area`.
    pub fn new<Make: FnOnce(Rect) -> T>(area: Rect, title: U, font: &Font, content: Make) -> (titled:
        Self)
        requires
            call_requires(content, (Self::content_area_of(area, font.spec_line_height()),)),
        ensures
            titled.area() == Self::title_area_of(area, font.spec_line_height()),
            *titled.spec_title() == title,
            call_ensures(
                content,
                (Self::content_area_of(area, font.spec_line_height()),),
                titled.content(),
            ),
    {
        let (title_area, content_area) = Self::areas(area, font.line_height());
        Title { area: title_area, title, content: content(content_area) }
    }

    /// The areas of the title line and of the content in `area`, for a title
    /// line of height `header_height`.
    pub fn areas(area: Rect, header_height: i32) -> (areas: (Rect, Rect))
        ensures
            areas.0 == Self::title_area_of(area, header_height as int),
            areas.1 == Self::content_area_of(area, header_height as int),
    {
        let (header_area, content_area) = area.split_top(header_height);
        let (_space, content_area) = content_area.split_top(HEADER_SPACE);
        (header_area, content_area)
    }

    /// The title.
    #[verifier::when_used_as_spec(spec_title)]
    pub fn title(&self) -> (title: &U)
        ensures
            title == self.spec_title(),
    {
        &self.title
    }
}

impl<T: Component, U> Component for Title<T, U> {
    type Msg = T::Msg;

    type Paint = TitlePaint<T::Paint>;

    open spec fn inv(&self) -> bool {
        self.content().inv()
    }

    /// The content handles the event; the title stays as it is.
    open spec fn handles(
        &self,
        ctx: EventCtx,
        event: Event,
        after: Self,
        ctx_after: EventCtx,
        msg: Option<T::Msg>,
    ) -> bool {
        &&& after.area() == self.area()
        &&& after.spec_title() == self.spec_title()
        &&& self.content().handles(ctx, event, after.content(), ctx_after, msg)
    }

    /// The title line in its area, and the content as it paints itself.
    open spec fn paints(&self, paint: TitlePaint<T::Paint>) -> bool {
        &&& paint.area == self.area()
        &&& self.content().paints(paint.content)
    }

    fn event(&mut self, ctx: &mut EventCtx, event: Event) -> (msg: Option<T::Msg>) {
        self.content.event(ctx, event)
    }

    fn paint(&self) -> (paint: TitlePaint<T::Paint>) {
        TitlePaint { area: self.area, content: self.content.paint() }
    }
}

impl<T: Trace, U: Trace> Trace for Title<T, U> {
    /// The traces of the title and of the content.
    open spec fn traced(&self) -> Seq<u8> {
        opened("Title") + field_of("title", self.spec_title().traced()) + field_of(
            "content",
            self.content().traced(),
        ) + closed()
    }

    fn trace(&self, t: &mut Vec<u8>) {
        open(t, "Title");
        field(t, "title", &self.title);
        field(t, "content", &self.content);
        close(t);
        assert(t@ =~= old(t)@ + self.traced());
    }
}

} // verus!
