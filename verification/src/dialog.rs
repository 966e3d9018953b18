//! A dialog: a content above two controls, left and right.

use crate::component::{Component, Event, EventCtx};
use crate::geometry::Rect;
use crate::trace::{close, closed, field, field_of, open, opened, Trace};
use vstd::prelude::*;

verus! {

/// What a dialog reports: the message of the part that answered.
#[derive(Clone, Copy, Debug)]
pub enum DialogMsg<T, L, R> {
    /// The content answered.
    Content(T),
    /// The left control answered.
    Left(L),
    /// The right control answered.
    Right(R),
}

/// The areas of the parts of a dialog.
#[derive(Clone, Copy, Debug, PartialEq, Eq, Structural)]
pub struct DialogLayout {
    /// The area of the content.
    pub content: Rect,
    /// The area of the left control.
    pub left: Rect,
    /// The area of the right control.
    pub right: Rect,
}

/// The part of the height of a dialog that the controls take: one in this
/// many.
pub const CONTROLS_SHARE: i32 = 5;

impl DialogLayout {
    /// The strip at the bottom of `area` that the controls share.
    pub open spec fn controls_of(area: Rect) -> Rect {
        area.below_top_part(area.spec_height() - area.spec_height() / (CONTROLS_SHARE as int))
    }

    /// The layout with the controls side by side in the lowest fifth of
    /// `area`, each half as wide as `area`, and the content above them.
    pub open spec fn middle_of(area: Rect) -> DialogLayout {
        let controls = Self::controls_of(area);
        DialogLayout {
            content: area.top_part(area.spec_height() - area.spec_height() / (CONTROLS_SHARE as int)),
            left: controls.left_part(controls.spec_width() / 2),
            right: controls.beside_left_part(controls.spec_width() / 2),
        }
    }

    /// The layout with the controls side by side in the lowest fifth of
    /// `area`, and the content above them.
    pub fn middle(area: Rect) -> (layout: Self)
        ensures
            layout == Self::middle_of(area),
    {
        let (content, controls) = area.split_bottom(area.height() / CONTROLS_SHARE);
        let (left, right) = controls.split_left(controls.width() / 2);
        DialogLayout { content, left, right }
    }
}

/// A content above two controls. An event goes to the content first, then to
/// the left control, then to the right one, and no further than to the first
/// part that answers.
pub struct Dialog<T, L, R> {
    content: T,
    left: L,
    right: R,
}

/// What a dialog hands to the renderer: what its parts hand to it.
pub struct DialogPaint<T, L, R> {
    /// What the content shows.
    pub content: T,
    /// What the left control shows.
    pub left: L,
    /// What the right control shows.
    pub right: R,
}

impl<T, L, R> Dialog<T, L, R> {
    /// The content.
    pub closed spec fn content(&self) -> T {
        self.content
    }

    /// The left control.
    pub closed spec fn left(&self) -> L {
        self.left
    }

    /// The right control.
    pub closed spec fn right(&self) -> R {
        self.right
    }

    /// The dialog in `area` whose parts `content`, `left` and `right` make,
    /// each for its area.
    pub fn new<MakeT: FnOnce(Rect) -> T, MakeL: FnOnce(Rect) -> L, MakeR: FnOnce(Rect) -> R>(
        area: Rect,
        content: MakeT,
        left: MakeL,
        right: MakeR,
    ) -> (dialog: Self)
        requires
            call_requires(content, (DialogLayout::middle_of(area).content,)),
            call_requires(left, (DialogLayout::middle_of(area).left,)),
            call_requires(right, (DialogLayout::middle_of(area).right,)),
        ensures
            call_ensures(content, (DialogLayout::middle_of(area).content,), dialog.content()),
            call_ensures(left, (DialogLayout::middle_of(area).left,), dialog.left()),
            call_ensures(right, (DialogLayout::middle_of(area).right,), dialog.right()),
    {
        let layout = DialogLayout::middle(area);
        Dialog { content: content(layout.content), left: left(layout.left), right: right(layout.right) }
    }
}

impl<T: Component, L: Component, R: Component> Dialog<T, L, R> {
    /// The controls handle `event` after the content passed it over: the
    /// left one first, and the right one if the left one passes it over too.
    pub open spec fn controls_handle(
        &self,
        ctx: EventCtx,
        event: Event,
        after: Self,
        ctx_after: EventCtx,
        msg: Option<DialogMsg<T::Msg, L::Msg, R::Msg>>,
    ) -> bool {
        exists|ctx_left: EventCtx, msg_left: Option<L::Msg>| #[trigger]
            self.left().handles(ctx, event, after.left(), ctx_left, msg_left) && match msg_left {
                Some(answer) => {
                    &&& after.right() == self.right()
                    &&& ctx_after == ctx_left
                    &&& msg == Some(DialogMsg::<T::Msg, L::Msg, R::Msg>::Left(answer))
                },
                None => exists|msg_right: Option<R::Msg>| #[trigger]
                    self.right().handles(ctx_left, event, after.right(), ctx_after, msg_right)
                        && msg == match msg_right {
                        Some(answer) => Some(
                            DialogMsg::<T::Msg, L::Msg, R::Msg>::Right(answer),
                        ),
                        None => None,
                    },
            }
    }
}

impl<T: Component, L: Component, R: Component> Component for Dialog<T, L, R> {
    type Msg = DialogMsg<T::Msg, L::Msg, R::Msg>;

    type Paint = DialogPaint<T::Paint, L::Paint, R::Paint>;

    open spec fn inv(&self) -> bool {
        &&& self.content().inv()
        &&& self.left().inv()
        &&& self.right().inv()
    }

    /// The content handles the event first. If it answers, the controls are
    /// passed over and stay as they are; if not, the controls handle the
    /// event, the left one first.
    open spec fn handles(
        &self,
        ctx: EventCtx,
        event: Event,
        after: Self,
        ctx_after: EventCtx,
        msg: Option<DialogMsg<T::Msg, L::Msg, R::Msg>>,
    ) -> bool {
        exists|ctx_content: EventCtx, msg_content: Option<T::Msg>| #[trigger]
            self.content().handles(ctx, event, after.content(), ctx_content, msg_content)
                && match msg_content {
                Some(answer) => {
                    &&& after.left() == self.left()
                    &&& after.right() == self.right()
                    &&& ctx_after == ctx_content
                    &&& msg == Some(DialogMsg::<T::Msg, L::Msg, R::Msg>::Content(answer))
                },
                None => self.controls_handle(ctx_content, event, after, ctx_after, msg),
            }
    }

    /// Each part is painted as it paints itself.
    open spec fn paints(&self, paint: DialogPaint<T::Paint, L::Paint, R::Paint>) -> bool {
        &&& self.content().paints(paint.content)
        &&& self.left().paints(paint.left)
        &&& self.right().paints(paint.right)
    }

    fn event(&mut self, ctx: &mut EventCtx, event: Event) -> (msg: Option<
        DialogMsg<T::Msg, L::Msg, R::Msg>,
    >) {
        let ghost ctx_start = *ctx;
        let msg_content = self.content.event(ctx, event);
        let ghost ctx_content = *ctx;
        if let Some(answer) = msg_content {
            let msg = Some(DialogMsg::Content(answer));
            assert(old(self).content().handles(
                ctx_start,
                event,
                self.content(),
                ctx_content,
                msg_content,
            ));
            return msg;
        }
        let msg_left = self.left.event(ctx, event);
        let ghost ctx_left = *ctx;
        proof {
            EventCtx::lemma_extends_twice(ctx_start, ctx_content, ctx_left);
        }
        if let Some(answer) = msg_left {
            let msg = Some(DialogMsg::Left(answer));
            assert(old(self).left().handles(ctx_content, event, self.left(), ctx_left, msg_left));
            assert(old(self).controls_handle(ctx_content, event, *self, ctx_left, msg));
            assert(old(self).content().handles(
                ctx_start,
                event,
                self.content(),
                ctx_content,
                msg_content,
            ));
            return msg;
        }
        let msg_right = self.right.event(ctx, event);
        proof {
            EventCtx::lemma_extends_twice(ctx_start, ctx_left, *ctx);
        }
        let msg = match msg_right {
            Some(answer) => Some(DialogMsg::Right(answer)),
            None => None,
        };
        assert(old(self).right().handles(ctx_left, event, self.right(), *ctx, msg_right));
        assert(old(self).left().handles(ctx_content, event, self.left(), ctx_left, msg_left));
        assert(old(self).controls_handle(ctx_content, event, *self, *ctx, msg));
        assert(old(self).content().handles(
            ctx_start,
            event,
            self.content(),
            ctx_content,
            msg_content,
        ));
        msg
    }

    fn paint(&self) -> (paint: DialogPaint<T::Paint, L::Paint, R::Paint>) {
        DialogPaint {
            content: self.content.paint(),
            left: self.left.paint(),
            right: self.right.paint(),
        }
    }
}

impl<T: Trace, L: Trace, R: Trace> Trace for Dialog<T, L, R> {
    /// The traces of the parts.
    open spec fn traced(&self) -> Seq<u8> {
        opened("Dialog") + field_of("content", self.content().traced()) + field_of(
            "left",
            self.left().traced(),
        ) + field_of("right", self.right().traced()) + closed()
    }

    fn trace(&self, t: &mut Vec<u8>) {
        open(t, "Dialog");
        field(t, "content", &self.content);
        field(t, "left", &self.left);
        field(t, "right", &self.right);
        close(t);
        assert(t@ =~= old(t)@ + self.traced());
    }
}

} // verus!
