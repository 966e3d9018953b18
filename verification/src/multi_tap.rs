//! Multi-tap disambiguation: repeated taps on one key cycle through the
//! symbols of that key until another key is tapped or a timeout passes.

use crate::component::{EventCtx, TimerToken};
use crate::textbox::{edited, TextEdit, MAX_LENGTH};
use vstd::prelude::*;

verus! {

/// Time after which a pending key is given up, in milliseconds.
pub const MULTI_TAP_TIMEOUT_MS: u32 = 1000;

/// The key that is in mid-cycle.
#[derive(Clone, Copy, Debug, PartialEq, Eq, Structural)]
pub struct Pending {
    /// Index of the pending key.
    pub key: usize,
    /// Index of the current symbol among the symbols of the pending key.
    pub char: usize,
    /// Timer that ends the pending state.
    pub timer: TimerToken,
}

/// State of a multi-tap keyboard: at most one pending key, and the timeout
/// after which it is given up.
pub struct MultiTapKeyboard {
    /// Timeout after which the pending key is given up, in milliseconds.
    timeout: u32,
    /// The pending key, if any.
    pending: Option<Pending>,
}

/// The position that follows `position` in a cycle through `len` symbols.
pub open spec fn next_in_cycle(position: usize, len: nat) -> usize {
    ((position + 1) % (len as int)) as usize
}

impl MultiTapKeyboard {
    /// The symbol index of a pending key leaves room to step to the next.
    #[verifier::type_invariant]
    spec fn steppable(&self) -> bool {
        self.pending matches Some(pending) ==> pending.char < usize::MAX
    }

    /// The pending key, if any.
    pub closed spec fn pending(&self) -> Option<Pending> {
        self.pending
    }

    /// The timeout after which a pending key is given up, in milliseconds.
    pub closed spec fn timeout_ms(&self) -> u32 {
        self.timeout
    }

    /// States with the same pending key and the same timeout are the same.
    pub proof fn lemma_ext_equal(a: MultiTapKeyboard, b: MultiTapKeyboard)
        requires
            a.pending() == b.pending(),
            a.timeout_ms() == b.timeout_ms(),
        ensures
            a == b,
    {
    }

    /// Whether a tap on `key` continues a cycle, and is no fresh key.
    pub open spec fn is_repeat(&self, key: usize) -> bool {
        self.pending() matches Some(pending) && pending.key == key
    }

    /// The index, among the symbols of `key`, of the symbol that a tap on
    /// `key` selects: the next one in the cycle on a repeated tap, the first
    /// one on a fresh key.
    pub open spec fn tapped_char(&self, key: usize, len: nat) -> usize {
        if self.is_repeat(key) {
            next_in_cycle(self.pending()->0.char, len)
        } else {
            0
        }
    }

    /// The edit that a tap on `key` with the symbols `key_text` asks for.
    pub open spec fn tapped_edit(&self, key: usize, key_text: Seq<u8>) -> TextEdit {
        let unit = key_text[self.tapped_char(key, key_text.len()) as int];
        if self.is_repeat(key) {
            TextEdit::ReplaceLast(unit)
        } else {
            TextEdit::Append(unit)
        }
    }

    /// A new state with no pending key and a timeout of one second.
    pub fn new() -> (multi_tap: Self)
        ensures
            multi_tap.pending() is None,
            multi_tap.timeout_ms() == MULTI_TAP_TIMEOUT_MS,
    {
        MultiTapKeyboard { timeout: MULTI_TAP_TIMEOUT_MS, pending: None }
    }

    /// Index of the pending key, if any.
    pub fn pending_key(&self) -> (key: Option<usize>)
        ensures
            key == match self.pending() {
                Some(pending) => Some(pending.key),
                None => None,
            },
    {
        match &self.pending {
            Some(pending) => Some(pending.key),
            None => None,
        }
    }

    /// Index of the current symbol among the symbols of the pending key, if a
    /// key is pending.
    pub fn pending_char(&self) -> (char: Option<usize>)
        ensures
            char == match self.pending() {
                Some(pending) => Some(pending.char),
                None => None,
            },
    {
        match &self.pending {
            Some(pending) => Some(pending.char),
            None => None,
        }
    }

    /// Token of the timer that ends the pending state, if a key is pending.
    pub fn pending_timer(&self) -> (timer: Option<TimerToken>)
        ensures
            timer == match self.pending() {
                Some(pending) => Some(pending.timer),
                None => None,
            },
    {
        match &self.pending {
            Some(pending) => Some(pending.timer),
            None => None,
        }
    }

    /// Dropping the pending key leads from `self` under `ctx` to `after`
    /// under `ctx_after`: no key is pending afterwards, and a repaint is
    /// asked for if one was.
    pub open spec fn is_cleared_into(
        &self,
        ctx: EventCtx,
        after: &Self,
        ctx_after: EventCtx,
    ) -> bool {
        &&& after.pending() is None
        &&& after.timeout_ms() == self.timeout_ms()
        &&& ctx_after.is_with_paint_if(ctx, self.pending() is Some)
    }

    /// Dropping the pending key twice is dropping it once: the second time
    /// changes nothing and asks for no repaint.
    pub proof fn lemma_clear_pending_twice(
        start: Self,
        ctx: EventCtx,
        once: Self,
        ctx_once: EventCtx,
        twice: Self,
        ctx_twice: EventCtx,
    )
        requires
            start.is_cleared_into(ctx, &once, ctx_once),
            once.is_cleared_into(ctx_once, &twice, ctx_twice),
        ensures
            twice == once,
            ctx_twice.paint_requested() == ctx_once.paint_requested(),
            ctx_twice.has_same_timers(ctx_once),
    {
        Self::lemma_ext_equal(twice, once);
    }

    /// Drop the pending key, if there is one, and ask for a repaint if there
    /// was. The timer of the dropped key is left to fire; its token matches
    /// nothing afterwards.
    pub fn clear_pending_state(&mut self, ctx: &mut EventCtx)
        ensures
            old(self).is_cleared_into(*old(ctx), final(self), *final(ctx)),
    {
        if self.pending.is_some() {
            self.pending = None;
            ctx.request_paint();
        }
    }

    /// Register a tap on `key`, whose symbols are `key_text`, and return the
    /// edit that the tap asks for. A tap on the pending key steps to the next
    /// symbol of the key and replaces the last unit; a tap on any other key
    /// appends the first symbol of that key. A key with several symbols becomes
    /// the pending key, with a fresh timer; an earlier timer is not cancelled.
    /// A key with a single symbol leaves no key pending.
    pub fn click_key(&mut self, ctx: &mut EventCtx, key: usize, key_text: &[u8]) -> (edit: TextEdit)
        requires
            key_text@.len() > 0,
        ensures
            edit == old(self).tapped_edit(key, key_text@),
            final(self).timeout_ms() == old(self).timeout_ms(),
            key_text@.len() > 1 ==> final(self).pending() == Some(
                Pending {
                    key,
                    char: old(self).tapped_char(key, key_text@.len()),
                    timer: old(ctx).issued_token(),
                },
            ) && final(ctx).is_with_timer(*old(ctx), old(self).timeout_ms()),
            key_text@.len() == 1 ==> final(self).pending() is None && final(ctx).is_with_paint_if(
                *old(ctx),
                false,
            ),
    {
        proof {
            use_type_invariant(&*self);
        }
        let (repeat, char): (bool, usize) = match &self.pending {
            Some(pending) if pending.key == key => (true, (pending.char + 1) % key_text.len()),
            _ => (false, 0),
        };
        let unit = key_text[char];
        self.pending = if key_text.len() > 1 {
            Some(Pending { key, char, timer: ctx.request_timer(self.timeout) })
        } else {
            None
        };
        if repeat {
            TextEdit::ReplaceLast(unit)
        } else {
            TextEdit::Append(unit)
        }
    }
}

/// A tap on `key`, whose symbols are `key_text`, leads from the state `before`
/// with the text `text` to the state `after` with the text `text_after`.
pub open spec fn is_tap(
    before: MultiTapKeyboard,
    text: Seq<u8>,
    key: usize,
    key_text: Seq<u8>,
    after: MultiTapKeyboard,
    text_after: Seq<u8>,
) -> bool {
    &&& text_after == edited(text, before.tapped_edit(key, key_text))
    &&& key_text.len() > 1 ==> (after.pending() matches Some(pending) && pending.key == key
        && pending.char == before.tapped_char(key, key_text.len()))
    &&& key_text.len() == 1 ==> after.pending() is None
}

/// Stepping on from the position of tap `taps` gives the position of the tap
/// after it.
proof fn lemma_next_in_cycle(taps: int, len: nat)
    requires
        taps >= 1,
        0 < len <= usize::MAX,
    ensures
        next_in_cycle(((taps - 1) % (len as int)) as usize, len) == taps % (len as int),
{
    let l = len as int;
    let r = (taps - 1) % l;
    assert(0 <= r < l) by (nonlinear_arith)
        requires
            r == (taps - 1) % l,
            l > 0,
    ;
    assert((r + 1) % l == taps % l) by (nonlinear_arith)
        requires
            r == (taps - 1) % l,
            l > 0,
            taps >= 1,
    ;
}

/// Taps in a row on one key cycle through its symbols in place. Let a run of
/// taps on `key` start where `key` is not pending and the text has room. After
/// tap number `taps` of the run, counted from one, the text is the text from
/// before the run with the symbol at index `(taps - 1) mod key_text.len()`
/// behind it: the first tap appends, and each later tap replaces what the tap
/// before it put there, so the text grows at the first tap only.
pub proof fn lemma_taps_cycle(
    states: Seq<MultiTapKeyboard>,
    texts: Seq<Seq<u8>>,
    key: usize,
    key_text: Seq<u8>,
    taps: int,
)
    requires
        1 < key_text.len() <= usize::MAX,
        states.len() == texts.len(),
        1 <= taps < states.len(),
        !states[0].is_repeat(key),
        texts[0].len() < MAX_LENGTH,
        forall|i: int|
            0 <= i < states.len() - 1 ==> is_tap(
                #[trigger] states[i],
                texts[i],
                key,
                key_text,
                states[i + 1],
                texts[i + 1],
            ),
    ensures
        texts[taps] == texts[0].push(key_text[(taps - 1) % (key_text.len() as int)]),
        (states[taps].pending() matches Some(pending) && pending.key == key && pending.char == (taps
            - 1) % (key_text.len() as int)),
    decreases taps,
{
    let len = key_text.len() as int;
    assert(is_tap(
        states[taps - 1],
        texts[taps - 1],
        key,
        key_text,
        states[taps - 1 + 1],
        texts[taps - 1 + 1],
    ));
    if taps == 1 {
        assert(0int % len == 0) by (nonlinear_arith)
            requires
                len > 1,
        ;
    } else {
        lemma_taps_cycle(states, texts, key, key_text, taps - 1);
        lemma_next_in_cycle(taps - 1, key_text.len());
        let before = texts[0].push(key_text[(taps - 2) % len]);
        assert(before.drop_last() =~= texts[0]);
    }
}

} // verus!
