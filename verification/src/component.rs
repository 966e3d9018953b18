//! The retained-mode substrate: events, the per-pass event context, and the
//! component abstraction that every widget implements.

use vstd::prelude::*;

verus! {

/// Opaque handle of one requested timer. Two tokens are the same timer exactly
/// when they compare equal.
#[derive(Clone, Copy, Debug, PartialEq, Eq, Structural)]
pub struct TimerToken(usize);

impl TimerToken {
    /// The number behind the token.
    pub closed spec fn raw(self) -> usize {
        self.0
    }

    /// The token that stands for the number `raw`.
    pub closed spec fn with_raw(raw: usize) -> TimerToken {
        TimerToken(raw)
    }

    /// Tokens and numbers correspond one to one.
    pub proof fn lemma_raw_with_raw(raw: usize)
        ensures
            TimerToken::with_raw(raw).raw() == raw,
    {
    }

    /// Tokens are equal exactly when their numbers are.
    pub proof fn lemma_raw_injective(a: TimerToken, b: TimerToken)
        ensures
            (a == b) == (a.raw() == b.raw()),
    {
    }

    /// Build the token that stands for the number `raw`.
    pub fn from_raw(raw: usize) -> (token: Self)
        ensures
            token == TimerToken::with_raw(raw),
            token.raw() == raw,
    {
        TimerToken(raw)
    }

    /// The number that stands for this token.
    pub fn into_raw(self) -> (raw: usize)
        ensures
            raw == self.raw(),
    {
        self.0
    }
}

/// What a component can be told about.
#[derive(Clone, Copy, Debug, PartialEq, Eq, Structural)]
pub enum Event {
    /// The control with this identifier was clicked.
    Click(usize),
    /// The timer with this token fired.
    Timer(TimerToken),
}

/// One timer that a component asked the host to schedule.
#[derive(Clone, Copy, Debug, PartialEq, Eq, Structural)]
pub struct TimerRequest {
    /// Handle under which the host reports the timer when it fires.
    pub token: TimerToken,
    /// Delay until the timer fires, in milliseconds.
    pub delay_ms: u32,
}

/// Number of the first token that an event context hands out.
pub const FIRST_TIMER_TOKEN: usize = 1;

/// The token number that follows `raw`. Numbers run upwards and start over at
/// `FIRST_TIMER_TOKEN` when they are used up.
pub open spec fn next_token_after(raw: usize) -> usize {
    if raw == usize::MAX {
        FIRST_TIMER_TOKEN
    } else {
        (raw + 1) as usize
    }
}

/// The side channel between event handling and the host's scheduler: a sticky
/// "repaint needed" flag and the timers requested so far.
pub struct EventCtx {
    timers: Vec<TimerRequest>,
    next_token: usize,
    paint_requested: bool,
}

impl EventCtx {
    /// Whether a repaint was requested and not yet cleared by the host.
    pub closed spec fn paint_requested(&self) -> bool {
        self.paint_requested
    }

    /// The timers requested and not yet taken by the host, oldest first.
    pub closed spec fn timers(&self) -> Seq<TimerRequest> {
        self.timers@
    }

    /// The number of the token that the next timer request returns.
    pub closed spec fn next_token(&self) -> usize {
        self.next_token
    }

    /// `self` is what `before` can become while components handle events:
    /// the repaint flag is never lowered and requested timers are only added.
    pub open spec fn extends(&self, before: EventCtx) -> bool {
        &&& before.paint_requested() ==> self.paint_requested()
        &&& before.timers().is_prefix_of(self.timers())
    }

    /// A timer request returns another token than the request before it.
    pub proof fn lemma_successive_tokens_differ(first: EventCtx, second: EventCtx, delay_ms: u32)
        requires
            second.is_with_timer(first, delay_ms),
        ensures
            second.issued_token() != first.issued_token(),
    {
        TimerToken::lemma_raw_with_raw(first.next_token());
        TimerToken::lemma_raw_with_raw(second.next_token());
    }

    /// What extends an extension of `first` extends `first`.
    pub proof fn lemma_extends_twice(first: EventCtx, second: EventCtx, third: EventCtx)
        requires
            second.extends(first),
            third.extends(second),
        ensures
            third.extends(first),
    {
    }

    /// `self` holds the timer requests of `before` and no other, and hands out
    /// the same token next.
    pub open spec fn has_same_timers(&self, before: EventCtx) -> bool {
        &&& self.timers() == before.timers()
        &&& self.next_token() == before.next_token()
    }

    /// `self` holds the timer requests of `before` and behind them one more,
    /// with the given delay and the token that `before` hands out next.
    pub open spec fn has_one_more_timer(&self, before: EventCtx, delay_ms: u32) -> bool {
        &&& self.timers() == before.timers().push(
            TimerRequest { token: before.issued_token(), delay_ms },
        )
        &&& self.next_token() == next_token_after(before.next_token())
    }

    /// `self` is `before` with a repaint requested and nothing else changed.
    pub open spec fn is_with_paint(&self, before: EventCtx) -> bool {
        &&& self.paint_requested()
        &&& self.has_same_timers(before)
    }

    /// `self` is `before` with the repaint flag raised if `paint` holds, and
    /// nothing else changed.
    pub open spec fn is_with_paint_if(&self, before: EventCtx, paint: bool) -> bool {
        &&& self.paint_requested() == (before.paint_requested() || paint)
        &&& self.has_same_timers(before)
    }

    /// `self` is `before` after one timer request with the given delay.
    pub open spec fn is_with_timer(&self, before: EventCtx, delay_ms: u32) -> bool {
        &&& self.paint_requested() == before.paint_requested()
        &&& self.has_one_more_timer(before, delay_ms)
    }

    /// The token that the next timer request on this context returns.
    pub open spec fn issued_token(&self) -> TimerToken {
        TimerToken::with_raw(self.next_token())
    }

    /// A context with nothing requested.
    pub fn new() -> (ctx: Self)
        ensures
            !ctx.paint_requested(),
            ctx.timers() == Seq::<TimerRequest>::empty(),
            ctx.next_token() == FIRST_TIMER_TOKEN,
    {
        EventCtx { timers: Vec::new(), next_token: FIRST_TIMER_TOKEN, paint_requested: false }
    }

    /// Ask the host to repaint after this pass.
    pub fn request_paint(&mut self)
        ensures
            final(self).is_with_paint(*old(self)),
    {
        self.paint_requested = true;
    }

    /// Whether a repaint is pending.
    pub fn is_paint_requested(&self) -> (requested: bool)
        ensures
            requested == self.paint_requested(),
    {
        self.paint_requested
    }

    /// Lower the repaint flag. For the host, once it has scheduled the repaint.
    pub fn clear_paint_requests(&mut self)
        ensures
            !final(self).paint_requested(),
            final(self).timers() == old(self).timers(),
            final(self).next_token() == old(self).next_token(),
    {
        self.paint_requested = false;
    }

    /// Ask the host for a one-shot timer that fires after `delay_ms`
    /// milliseconds. Returns at once with the token under which the timer will
    /// be reported. Earlier requests stay as they are.
    pub fn request_timer(&mut self, delay_ms: u32) -> (token: TimerToken)
        ensures
            token == old(self).issued_token(),
            final(self).is_with_timer(*old(self), delay_ms),
    {
        let token = TimerToken(self.next_token);
        self.timers.push(TimerRequest { token, delay_ms });
        self.next_token = if self.next_token == usize::MAX {
            FIRST_TIMER_TOKEN
        } else {
            self.next_token + 1
        };
        token
    }

    /// Take the most recent timer request, if any is left. For the host.
    pub fn pop_timer(&mut self) -> (request: Option<TimerRequest>)
        ensures
            final(self).paint_requested() == old(self).paint_requested(),
            final(self).next_token() == old(self).next_token(),
            old(self).timers().len() == 0 ==> request is None && final(self).timers()
                == old(self).timers(),
            old(self).timers().len() > 0 ==> request == Some(old(self).timers().last())
                && final(self).timers() == old(self).timers().drop_last(),
    {
        self.timers.pop()
    }
}

/// The message of a component that reports nothing: no such message is ever
/// made.
#[derive(Clone, Copy, Debug)]
pub struct Never(());

/// A node of the component tree. A parent owns its children by value and
/// forwards events to them; nothing points back up.
pub trait Component: Sized {
    /// What the component reports to its parent.
    type Msg;

    /// What the component hands to the renderer.
    type Paint;

    /// Well-formedness of the component's state.
    spec fn inv(&self) -> bool;

    /// The component's transition relation: handling `event` in state `self`
    /// under context `ctx` may end in state `after` under `ctx_after` with
    /// message `msg`.
    spec fn handles(
        &self,
        ctx: EventCtx,
        event: Event,
        after: Self,
        ctx_after: EventCtx,
        msg: Option<Self::Msg>,
    ) -> bool;

    /// `paint` describes what is shown in state `self`.
    spec fn paints(&self, paint: Self::Paint) -> bool;

    /// Handle one event, synchronously, and report at most one message.
    fn event(&mut self, ctx: &mut EventCtx, event: Event) -> (msg: Option<Self::Msg>)
        requires
            old(self).inv(),
        ensures
            final(self).inv(),
            old(self).handles(*old(ctx), event, *final(self), *final(ctx), msg),
            final(ctx).extends(*old(ctx)),
    ;

    /// Describe what is to be drawn. Reads the state and changes nothing.
    fn paint(&self) -> (paint: Self::Paint)
        requires
            self.inv(),
        ensures
            self.paints(paint),
    ;
}

} // verus!
