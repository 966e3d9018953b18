//! A component that can be shown or hidden. While hidden it takes no events
//! and shows nothing.

use crate::component::{Component, Event, EventCtx};
use vstd::prelude::*;

verus! {

/// A component together with whether it is shown.
pub struct Maybe<T> {
    inner: T,
    visible: bool,
}

impl<T> Maybe<T> {
    /// The component inside.
    pub closed spec fn held(&self) -> &T {
        &self.inner
    }

    /// Whether the component is shown.
    pub closed spec fn is_shown(&self) -> bool {
        self.visible
    }

    /// Two values that hold the same component and agree on whether it is
    /// shown are the same.
    pub proof fn lemma_ext_equal(a: Maybe<T>, b: Maybe<T>)
        requires
            a.held() == b.held(),
            a.is_shown() == b.is_shown(),
        ensures
            a == b,
    {
    }

    /// `inner`, shown or hidden as `visible` says.
    pub fn new(visible: bool, inner: T) -> (maybe: Self)
        ensures
            *maybe.held() == inner,
            maybe.is_shown() == visible,
    {
        Maybe { inner, visible }
    }

    /// `inner`, shown.
    pub fn visible(inner: T) -> (maybe: Self)
        ensures
            *maybe.held() == inner,
            maybe.is_shown(),
    {
        Maybe::new(true, inner)
    }

    /// `inner`, hidden.
    pub fn hidden(inner: T) -> (maybe: Self)
        ensures
            *maybe.held() == inner,
            !maybe.is_shown(),
    {
        Maybe::new(false, inner)
    }

    /// Whether the component is shown.
    #[verifier::when_used_as_spec(is_shown)]
    pub fn is_visible(&self) -> (visible: bool)
        ensures
            visible == self.is_shown(),
    {
        self.visible
    }

    /// The component inside.
    #[verifier::when_used_as_spec(held)]
    pub fn inner(&self) -> (inner: &T)
        ensures
            inner == self.held(),
    {
        &self.inner
    }

    /// The component inside, to change it. Whether it is shown stays as it is.
    pub fn inner_mut(&mut self) -> (inner: &mut T)
        ensures
            *inner == *old(self).held(),
            *final(self).held() == *final(inner),
            final(self).is_shown() == old(self).is_shown(),
    {
        &mut self.inner
    }

    /// Show the component if `show`, hide it if not. Asks for a repaint if
    /// that is a change.
    pub fn show_if(&mut self, ctx: &mut EventCtx, show: bool)
        ensures
            final(self).held() == old(self).held(),
            final(self).is_shown() == show,
            final(ctx).is_with_paint_if(*old(ctx), old(self).is_shown() != show),
    {
        if self.visible != show {
            self.visible = show;
            ctx.request_paint();
        }
    }
}

impl<T: Component> Component for Maybe<T> {
    type Msg = T::Msg;

    type Paint = Option<T::Paint>;

    open spec fn inv(&self) -> bool {
        self.held().inv()
    }

    /// A shown component handles the event itself; a hidden one is passed
    /// over, and nothing changes.
    open spec fn handles(
        &self,
        ctx: EventCtx,
        event: Event,
        after: Self,
        ctx_after: EventCtx,
        msg: Option<T::Msg>,
    ) -> bool {
        if self.is_shown() {
            &&& after.is_shown()
            &&& self.held().handles(ctx, event, *after.held(), ctx_after, msg)
        } else {
            &&& after == *self
            &&& ctx_after == ctx
            &&& msg is None
        }
    }

    /// A shown component is painted as it paints itself; a hidden one is not
    /// painted.
    open spec fn paints(&self, paint: Option<T::Paint>) -> bool {
        if self.is_shown() {
            paint matches Some(inner) && self.held().paints(inner)
        } else {
            paint is None
        }
    }

    fn event(&mut self, ctx: &mut EventCtx, event: Event) -> (msg: Option<T::Msg>) {
        if self.visible {
            self.inner.event(ctx, event)
        } else {
            None
        }
    }

    fn paint(&self) -> (paint: Option<T::Paint>) {
        if self.visible {
            Some(self.inner.paint())
        } else {
            None
        }
    }
}

} // verus!
