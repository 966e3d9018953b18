//! The keyboard for words of the alphabetic wordlist: nine keys of letters,
//! completion of the entered prefix by a dictionary, and keys that stay
//! enabled only while the dictionary can follow.

use crate::button::{Button, ButtonContent, ButtonMsg, ButtonStyle, Icon, Label};
use crate::common::{array_map_enumerate, BACK_ID, INPUT_ID, MNEMONIC_KEY_COUNT};
use crate::component::{Component, Event, EventCtx, TimerRequest, TimerToken};
use crate::maybe::Maybe;
use crate::multi_tap::{MultiTapKeyboard, Pending, MULTI_TAP_TIMEOUT_MS};
use crate::paint::InputPaint;
use crate::textbox::{
    bytes_equal, edit_shows, edited, replaced, without_last, TextBox, MAX_LENGTH,
};
use vstd::prelude::*;
use vstd::slice::{slice_subrange, slice_to_vec};

verus! {

/// What the keyboard reports to its host.
#[derive(Clone, Copy, Debug, PartialEq, Eq, Structural)]
pub enum Bip39KeyboardMsg {
    /// The entered word was confirmed.
    Confirmed,
    /// The entry was given up.
    Cancelled,
}

/// Number of letter keys.
pub const KEY_COUNT: usize = MNEMONIC_KEY_COUNT;

/// The longest word of the wordlist.
pub const MAX_WORD_LEN: usize = MAX_LENGTH;

/// The mask with every letter in it.
pub const ALL_LETTERS: u32 = 0x3ff_ffff;

const KEY_ABC: [u8; 3] = [97, 98, 99];

const KEY_DEF: [u8; 3] = [100, 101, 102];

const KEY_GHI: [u8; 3] = [103, 104, 105];

const KEY_JKL: [u8; 3] = [106, 107, 108];

const KEY_MNO: [u8; 3] = [109, 110, 111];

const KEY_PQR: [u8; 3] = [112, 113, 114];

const KEY_STU: [u8; 3] = [115, 116, 117];

const KEY_VWX: [u8; 3] = [118, 119, 120];

const KEY_YZ: [u8; 2] = [121, 122];

/// Whether `byte` is a lower-case letter.
pub open spec fn is_letter(byte: u8) -> bool {
    97 <= byte <= 122
}

/// The letters on key `key`: three in alphabetic order on each key, and the
/// last two letters of the alphabet on the last key.
pub open spec fn key_letters(key: int) -> Seq<u8> {
    Seq::new(
        if key == KEY_COUNT - 1 {
            2
        } else {
            3
        },
        |i: int| (97 + 3 * key + i) as u8,
    )
}

/// The letters on key `key`.
pub fn key_text(key: usize) -> (text: &'static [u8])
    requires
        key < KEY_COUNT,
    ensures
        text@ == key_letters(key as int),
{
    let text: &'static [u8] = match key {
        0 => &KEY_ABC,
        1 => &KEY_DEF,
        2 => &KEY_GHI,
        3 => &KEY_JKL,
        4 => &KEY_MNO,
        5 => &KEY_PQR,
        6 => &KEY_STU,
        7 => &KEY_VWX,
        _ => &KEY_YZ,
    };
    assert(text@ =~= key_letters(key as int));
    text
}

/// The bit that stands for `letter` in a letter mask: the lowest bit for `a`,
/// the next for `b`, and so on.
pub open spec fn letter_bit(letter: u8) -> u32 {
    1u32 << ((letter - 97) as u32)
}

/// Whether `mask` has `letter` in it.
pub open spec fn mask_has(mask: u32, letter: u8) -> bool {
    mask & letter_bit(letter) != 0
}

/// The mask of the letters in `text`.
pub open spec fn letters_mask(text: Seq<u8>) -> u32
    decreases text.len(),
{
    if text.len() == 0 {
        0
    } else {
        letters_mask(text.drop_last()) | letter_bit(text.last())
    }
}

/// The mask of the letters on key `key`.
pub open spec fn key_mask(key: int) -> u32 {
    letters_mask(key_letters(key))
}

/// A mask of letters has exactly the letters of its text in it.
pub proof fn lemma_letters_mask_has(text: Seq<u8>, letter: u8)
    requires
        forall|i: int| 0 <= i < text.len() ==> is_letter(#[trigger] text[i]),
        is_letter(letter),
    ensures
        mask_has(letters_mask(text), letter) == text.contains(letter),
    decreases text.len(),
{
    if text.len() > 0 {
        let front = text.drop_last();
        let last = text.last();
        lemma_letters_mask_has(front, letter);
        let mask = letters_mask(front);
        let m = (last - 97) as u32;
        let n = (letter - 97) as u32;
        assert(((mask | (1u32 << m)) & (1u32 << n) != 0) == ((mask & (1u32 << n) != 0) || m == n))
            by (bit_vector)
            requires
                m < 26,
                n < 26,
        ;
        if front.contains(letter) {
            let i = choose|i: int| 0 <= i < front.len() && front[i] == letter;
            assert(text[i] == letter);
        }
        if text.contains(letter) && last != letter {
            let i = choose|i: int| 0 <= i < text.len() && text[i] == letter;
            assert(front[i] == letter);
        }
    } else {
        assert(0u32 & letter_bit(letter) == 0) by (bit_vector);
    }
}

/// Compute the mask of the letters in `key_text`: the lowest bit stands for
/// `a`, the next for `b`, and so on.
pub fn compute_mask(key_text: &[u8]) -> (mask: u32)
    requires
        forall|i: int| 0 <= i < key_text@.len() ==> is_letter(#[trigger] key_text@[i]),
    ensures
        mask == letters_mask(key_text@),
{
    let mut mask: u32 = 0;
    let mut index: usize = 0;
    while index < key_text.len()
        invariant
            index <= key_text@.len(),
            forall|i: int| 0 <= i < key_text@.len() ==> is_letter(#[trigger] key_text@[i]),
            mask == letters_mask(key_text@.take(index as int)),
        decreases key_text@.len() - index,
    {
        let letter = key_text[index];
        assert(is_letter(key_text@[index as int]));
        assert(key_text@.take(index + 1).drop_last() =~= key_text@.take(index as int));
        mask = mask | (1u32 << ((letter - 97) as u32));
        index += 1;
    }
    assert(key_text@.take(index as int) =~= key_text@);
    mask
}

/// `button` is key `key` as it starts out: enabled, in the default style, with
/// the index of the key as identifier and its letters as text.
pub open spec fn is_letter_key(button: Button, key: int) -> bool {
    &&& button.id() == key
    &&& button.enabled()
    &&& button.style() == ButtonStyle::Default
    &&& button.content() matches ButtonContent::Text(text) && text@ == key_letters(key)
}

/// Whether key `key` is to take clicks: the pending key always does, so that
/// a started cycle can be finished; any other key does if one of its letters
/// can follow, as `mask` has it.
pub open spec fn key_enabled(pending: Option<Pending>, mask: u32, key: int) -> bool {
    (pending matches Some(pending) && pending.key == key) || key_mask(key) & mask != 0
}

/// The part of a suggested word that lies behind the first `typed` letters;
/// nothing if there is no word or the word is shorter.
pub open spec fn suggested_rest(word: Option<&'static [u8]>, typed: nat) -> Seq<u8> {
    match word {
        Some(word) if word@.len() >= typed => word@.skip(typed as int),
        _ => Seq::<u8>::empty(),
    }
}

/// What the input area reports to the keyboard.
#[derive(Clone, Copy, Debug, PartialEq, Eq, Structural)]
pub enum Bip39InputMsg {
    /// The area was clicked.
    Button(ButtonMsg),
    /// The timer of the pending key fired.
    TimedOut,
}

/// The input area: the entered prefix, the pending key, and what the
/// dictionary made of the prefix. It doubles as the confirm button.
///
/// `word_oracle` answers a non-empty prefix with the word that the prefix
/// completes to, if there is one. `mask_oracle` answers a non-empty prefix
/// with the mask of the letters that can follow it.
pub struct Bip39Input<C, M> {
    button: Button,
    textbox: TextBox,
    multi_tap: MultiTapKeyboard,
    completed_word: Option<&'static [u8]>,
    mask: u32,
    word_oracle: C,
    mask_oracle: M,
}

impl<C: Fn(&[u8]) -> Option<&'static [u8]>, M: Fn(&[u8]) -> u32> Bip39Input<C, M> {
    /// The button that the area doubles as.
    pub closed spec fn button(&self) -> Button {
        self.button
    }

    /// The entered prefix.
    pub closed spec fn text(&self) -> Seq<u8> {
        self.textbox@
    }

    /// The multi-tap state.
    pub closed spec fn multi_tap(&self) -> MultiTapKeyboard {
        self.multi_tap
    }

    /// The pending key, if any.
    pub open spec fn pending(&self) -> Option<Pending> {
        self.multi_tap().pending()
    }

    /// The time after which a pending key is given up, in milliseconds.
    pub open spec fn timeout_ms(&self) -> u32 {
        self.multi_tap().timeout_ms()
    }

    /// The word that the dictionary suggested, if any.
    pub closed spec fn completed_word(&self) -> Option<&'static [u8]> {
        self.completed_word
    }

    /// The mask of the letters that can follow, as the dictionary gave it.
    pub closed spec fn mask(&self) -> u32 {
        self.mask
    }

    /// The dictionary's word completion.
    pub closed spec fn word_oracle(&self) -> C {
        self.word_oracle
    }

    /// The dictionary's mask of following letters.
    pub closed spec fn mask_oracle(&self) -> M {
        self.mask_oracle
    }

    /// `word_oracle` answers every prefix that the area can hold, the empty
    /// one apart.
    pub open spec fn word_oracle_is_total(word_oracle: C) -> bool {
        forall|prefix: &[u8]|
            0 < prefix@.len() <= MAX_LENGTH ==> #[trigger] call_requires(word_oracle, (prefix,))
    }

    /// `mask_oracle` answers every prefix that the area can hold, the empty
    /// one apart.
    pub open spec fn mask_oracle_is_total(mask_oracle: M) -> bool {
        forall|prefix: &[u8]|
            0 < prefix@.len() <= MAX_LENGTH ==> #[trigger] call_requires(mask_oracle, (prefix,))
    }

    /// Both parts of the dictionary answer every prefix that the area can
    /// hold, the empty one apart.
    pub open spec fn oracles_total(&self) -> bool {
        Self::word_oracle_is_total(self.word_oracle()) && Self::mask_oracle_is_total(
            self.mask_oracle(),
        )
    }

    /// `word` is what the dictionary may suggest for the prefix `text`: no
    /// word for the empty prefix, which the dictionary is not asked about.
    pub open spec fn is_completion_of(&self, word: Option<&'static [u8]>, text: Seq<u8>) -> bool {
        if text.len() == 0 {
            word is None
        } else {
            exists|prefix: &[u8]|
                prefix@ == text && #[trigger] call_ensures(self.word_oracle(), (prefix,), word)
        }
    }

    /// `mask` is what the dictionary may give as the letters that can follow
    /// the prefix `text`: every letter for the empty prefix, which the
    /// dictionary is not asked about.
    pub open spec fn is_mask_of(&self, mask: u32, text: Seq<u8>) -> bool {
        if text.len() == 0 {
            mask == ALL_LETTERS
        } else {
            exists|prefix: &[u8]|
                prefix@ == text && #[trigger] call_ensures(self.mask_oracle(), (prefix,), mask)
        }
    }

    /// Whether `event` is the timer of the pending key. The timer of a key
    /// that is pending no longer is none.
    pub open spec fn is_timeout(&self, event: Event) -> bool {
        event matches Event::Timer(fired) && self.pending() matches Some(pending) && pending.timer
            == fired
    }

    /// The area is ready for use: its dictionary answers every prefix, its
    /// button answers the identifier of the input area, a pending key is
    /// given up after one second, and the prefix is one that the area can
    /// hold.
    pub open spec fn is_valid(&self) -> bool {
        &&& self.oracles_total()
        &&& self.text().len() <= MAX_LENGTH
        &&& self.button().id() == INPUT_ID
        &&& self.button().enabled()
        &&& self.timeout_ms() == MULTI_TAP_TIMEOUT_MS
    }

    /// Whether the suggested word is entered in full.
    pub open spec fn is_complete(&self) -> bool {
        self.completed_word() matches Some(word) && word@ == self.text()
    }

    /// What is entered after a click on the area: nothing if the suggested
    /// word was entered in full, the suggested word if it was not, and what
    /// was entered before if no word is suggested or the suggested word does
    /// not fit.
    pub open spec fn accepted_text(&self) -> Seq<u8> {
        match self.completed_word() {
            Some(word) => if word@ == self.text() {
                Seq::<u8>::empty()
            } else {
                replaced(self.text(), word@)
            },
            None => self.text(),
        }
    }

    /// The pending key after a click on the area: none once the word is
    /// confirmed, and the key that was pending otherwise.
    pub open spec fn accepted_pending(&self) -> Option<Pending> {
        if self.is_complete() {
            None
        } else {
            self.pending()
        }
    }

    /// Whether a click on the area changes what the area shows.
    pub open spec fn accept_shows(&self) -> bool {
        match self.completed_word() {
            Some(word) => if word@ == self.text() {
                self.text().len() > 0 || self.pending() is Some
            } else {
                word@.len() <= MAX_LENGTH
            },
            None => false,
        }
    }

    /// Handling `event` leads from `self` under `ctx` to `after` under
    /// `ctx_after` with the message `msg`. The timer of the pending key is
    /// answered with `TimedOut`; any other timer is passed over. A click on
    /// the area is passed on. The area itself changes nothing.
    pub open spec fn answers(
        &self,
        ctx: EventCtx,
        event: Event,
        after: Self,
        ctx_after: EventCtx,
        msg: Option<Bip39InputMsg>,
    ) -> bool {
        &&& after == *self
        &&& ctx_after == ctx
        &&& msg == if self.is_timeout(event) {
            Some(Bip39InputMsg::TimedOut)
        } else if self.button().is_clicked_by(event) {
            Some(Bip39InputMsg::Button(ButtonMsg::Clicked))
        } else {
            None
        }
    }

    /// `paint` is what the area shows: the entered prefix, behind it the rest
    /// of the suggested word, and the pending marker under the last letter
    /// while a key is pending.
    pub open spec fn is_shown_as(&self, paint: InputPaint) -> bool {
        &&& paint.text@ == self.text()
        &&& paint.completion@ == suggested_rest(self.completed_word(), self.text().len())
        &&& paint.pending_marker == (self.pending() is Some && self.text().len() > 0)
        &&& paint.button == self.button()
    }

    /// `self` and `other` have the same button, timeout and dictionary.
    pub open spec fn same_setup(&self, other: &Self) -> bool {
        &&& self.button() == other.button()
        &&& self.timeout_ms() == other.timeout_ms()
        &&& self.word_oracle() == other.word_oracle()
        &&& self.mask_oracle() == other.mask_oracle()
    }

    /// An empty input area over the given dictionary.
    pub fn new(word_oracle: C, mask_oracle: M) -> (input: Self)
        ensures
            input.button().is_plain(INPUT_ID, ButtonContent::Empty),
            input.text() == Seq::<u8>::empty(),
            input.pending() is None,
            input.completed_word() is None,
            input.mask() == ALL_LETTERS,
            input.timeout_ms() == MULTI_TAP_TIMEOUT_MS,
            input.word_oracle() == word_oracle,
            input.mask_oracle() == mask_oracle,
    {
        Bip39Input {
            button: Button::empty(INPUT_ID),
            textbox: TextBox::empty(),
            multi_tap: MultiTapKeyboard::new(),
            completed_word: None,
            mask: ALL_LETTERS,
            word_oracle,
            mask_oracle,
        }
    }

    /// Ask the dictionary for the word that the entered prefix completes to,
    /// and keep the answer. An empty prefix has no completion and is not
    /// asked about.
    pub fn complete_word_from_dictionary(&mut self)
        requires
            old(self).oracles_total(),
        ensures
            final(self).is_completion_of(final(self).completed_word(), old(self).text()),
            final(self).text() == old(self).text(),
            final(self).pending() == old(self).pending(),
            final(self).mask() == old(self).mask(),
            final(self).same_setup(old(self)),
    {
        let prefix = self.textbox.content();
        if prefix.len() == 0 {
            self.completed_word = None;
        } else {
            assert(call_requires(self.word_oracle(), (prefix,)));
            self.completed_word = (self.word_oracle)(prefix);
            assert(call_ensures(self.word_oracle(), (prefix,), self.completed_word()));
        }
    }

    /// Ask the dictionary for the letters that can follow the entered prefix,
    /// keep the answer and return it. After an empty prefix every letter can
    /// follow, and the dictionary is not asked.
    pub fn completion_mask(&mut self) -> (mask: u32)
        requires
            old(self).oracles_total(),
        ensures
            final(self).is_mask_of(mask, old(self).text()),
            final(self).mask() == mask,
            final(self).text() == old(self).text(),
            final(self).pending() == old(self).pending(),
            final(self).completed_word() == old(self).completed_word(),
            final(self).same_setup(old(self)),
    {
        let prefix = self.textbox.content();
        if prefix.len() == 0 {
            self.mask = ALL_LETTERS;
        } else {
            assert(call_requires(self.mask_oracle(), (prefix,)));
            self.mask = (self.mask_oracle)(prefix);
            assert(call_ensures(self.mask_oracle(), (prefix,), self.mask()));
        }
        self.mask
    }
}

impl<C: Fn(&[u8]) -> Option<&'static [u8]>, M: Fn(&[u8]) -> u32> Bip39Input<C, M> {
    /// Key `key` was clicked: let the multi-tap engine edit the prefix, and ask
    /// the dictionary for the word of the result.
    fn click(&mut self, ctx: &mut EventCtx, key: usize)
        requires
            old(self).oracles_total(),
            key < KEY_COUNT,
        ensures
            final(self).text() == edited(
                old(self).text(),
                old(self).multi_tap().tapped_edit(key, key_letters(key as int)),
            ),
            final(self).pending() == Some(
                Pending {
                    key,
                    char: old(self).multi_tap().tapped_char(key, key_letters(key as int).len()),
                    timer: old(ctx).issued_token(),
                },
            ),
            final(self).is_completion_of(final(self).completed_word(), final(self).text()),
            final(self).mask() == old(self).mask(),
            final(self).same_setup(old(self)),
            final(ctx).has_one_more_timer(*old(ctx), old(self).timeout_ms()),
            final(ctx).paint_requested() == (old(ctx).paint_requested() || edit_shows(
                old(self).text(),
                old(self).multi_tap().tapped_edit(key, key_letters(key as int)),
            )),
    {
        proof {
            lemma_key_letters(key as int);
        }
        let edit = self.multi_tap.click_key(ctx, key, key_text(key));
        self.textbox.apply(ctx, edit);
        assert(self.word_oracle() == old(self).word_oracle());
        assert(self.mask_oracle() == old(self).mask_oracle());
        self.complete_word_from_dictionary();
    }

    /// The backspace button was clicked: drop the last letter and the pending
    /// key, and ask the dictionary for the word of the result.
    fn backspace(&mut self, ctx: &mut EventCtx)
        requires
            old(self).oracles_total(),
        ensures
            final(self).text() == without_last(old(self).text()),
            final(self).pending() is None,
            final(self).is_completion_of(final(self).completed_word(), final(self).text()),
            final(self).mask() == old(self).mask(),
            final(self).same_setup(old(self)),
            final(ctx).is_with_paint_if(
                *old(ctx),
                old(self).text().len() > 0 || old(self).pending() is Some,
            ),
    {
        self.textbox.delete_last(ctx);
        self.multi_tap.clear_pending_state(ctx);
        assert(self.word_oracle() == old(self).word_oracle());
        assert(self.mask_oracle() == old(self).mask_oracle());
        self.complete_word_from_dictionary();
    }

    /// The input area was clicked. If the suggested word is entered in full,
    /// clear the prefix and the pending key, and report that the word is
    /// confirmed. If it is not, fill the word in.
    fn accept(&mut self, ctx: &mut EventCtx) -> (confirmed: bool)
        ensures
            confirmed == old(self).is_complete(),
            final(self).text() == old(self).accepted_text(),
            final(self).pending() == old(self).accepted_pending(),
            final(self).completed_word() == old(self).completed_word(),
            final(self).mask() == old(self).mask(),
            final(self).same_setup(old(self)),
            final(ctx).is_with_paint_if(*old(ctx), old(self).accept_shows()),
    {
        match self.completed_word {
            Some(word) => {
                if bytes_equal(word, self.textbox.content()) {
                    self.textbox.clear(ctx);
                    self.multi_tap.clear_pending_state(ctx);
                    true
                } else {
                    self.textbox.replace(ctx, word);
                    false
                }
            },
            None => false,
        }
    }

    /// The timer of the pending key fired: drop the pending key, and with it
    /// the last letter if the dictionary had no word for the prefix.
    fn time_out(&mut self, ctx: &mut EventCtx)
        ensures
            final(self).text() == if old(self).completed_word() is None {
                without_last(old(self).text())
            } else {
                old(self).text()
            },
            final(self).pending() is None,
            final(self).completed_word() == old(self).completed_word(),
            final(self).mask() == old(self).mask(),
            final(self).same_setup(old(self)),
            final(ctx).is_with_paint_if(
                *old(ctx),
                (old(self).completed_word() is None && old(self).text().len() > 0) || old(
                    self,
                ).pending() is Some,
            ),
    {
        if self.completed_word.is_none() {
            self.textbox.delete_last(ctx);
        }
        self.multi_tap.clear_pending_state(ctx);
    }
}

impl<C: Fn(&[u8]) -> Option<&'static [u8]>, M: Fn(&[u8]) -> u32> Component for Bip39Input<C, M> {
    type Msg = Bip39InputMsg;

    type Paint = InputPaint;

    open spec fn inv(&self) -> bool {
        self.is_valid()
    }

    open spec fn handles(
        &self,
        ctx: EventCtx,
        event: Event,
        after: Self,
        ctx_after: EventCtx,
        msg: Option<Bip39InputMsg>,
    ) -> bool {
        self.answers(ctx, event, after, ctx_after, msg)
    }

    open spec fn paints(&self, paint: InputPaint) -> bool {
        self.is_shown_as(paint)
    }

    fn event(&mut self, ctx: &mut EventCtx, event: Event) -> (msg: Option<Bip39InputMsg>)
        ensures
            final(self).is_valid(),
            old(self).answers(*old(ctx), event, *final(self), *final(ctx), msg),
    {
        let timed_out = match (event, self.multi_tap.pending_timer()) {
            (Event::Timer(fired), Some(pending)) => fired == pending,
            _ => false,
        };
        if timed_out {
            Some(Bip39InputMsg::TimedOut)
        } else {
            match self.button.event(ctx, event) {
                Some(msg) => Some(Bip39InputMsg::Button(msg)),
                None => None,
            }
        }
    }

    fn paint(&self) -> (paint: InputPaint)
        ensures
            self.is_shown_as(paint),
    {
        let text = self.textbox.content();
        let completion = match self.completed_word {
            Some(word) if word.len() >= text.len() => {
                assert(word@.subrange(text@.len() as int, word@.len() as int) =~= word@.skip(
                    text@.len() as int,
                ));
                slice_to_vec(slice_subrange(word, text.len(), word.len()))
            },
            _ => Vec::new(),
        };
        InputPaint {
            text: slice_to_vec(text),
            completion,
            pending_marker: self.multi_tap.pending_key().is_some() && text.len() > 0,
            button: self.button,
        }
    }
}

/// The letters of all keys, by key index.
pub fn key_texts() -> (texts: [&'static [u8]; KEY_COUNT])
    ensures
        forall|key: int| 0 <= key < KEY_COUNT ==> (#[trigger] texts@[key])@ == key_letters(key),
{
    [
        key_text(0),
        key_text(1),
        key_text(2),
        key_text(3),
        key_text(4),
        key_text(5),
        key_text(6),
        key_text(7),
        key_text(8),
    ]
}

/// Every key carries letters only.
pub proof fn lemma_key_letters(key: int)
    requires
        0 <= key < KEY_COUNT,
    ensures
        key_letters(key).len() >= 2,
        forall|i: int| 0 <= i < key_letters(key).len() ==> is_letter(#[trigger] key_letters(key)[i]),
{
}

/// While every letter can follow, every key can be clicked.
pub proof fn lemma_all_letters_enable(key: int)
    requires
        0 <= key < KEY_COUNT,
    ensures
        key_mask(key) & ALL_LETTERS != 0,
{
    lemma_key_letters(key);
    let first = key_letters(key)[0];
    lemma_letters_mask_has(key_letters(key), first);
    let mask = key_mask(key);
    let n = (first - 97) as u32;
    assert(mask & 0x3ff_ffffu32 != 0) by (bit_vector)
        requires
            mask & (1u32 << n) != 0,
            n < 26,
    ;
}

/// What the keyboard hands to the renderer.
pub struct Bip39KeyboardPaint {
    /// The prompt, while it is shown.
    pub prompt: Option<&'static [u8]>,
    /// The input area, while it is shown.
    pub input: Option<InputPaint>,
    /// The backspace button, while it is shown.
    pub back: Option<Button>,
    /// The letter keys.
    pub keys: [Button; KEY_COUNT],
}

/// The keyboard: a prompt that is shown while nothing is entered, the input
/// area and the backspace button that take its place once something is, and
/// the nine letter keys.
pub struct Bip39Keyboard<C, M> {
    prompt: Maybe<Label>,
    back: Maybe<Button>,
    input: Maybe<Bip39Input<C, M>>,
    keys: [Button; KEY_COUNT],
}

impl<C: Fn(&[u8]) -> Option<&'static [u8]>, M: Fn(&[u8]) -> u32> Bip39Keyboard<C, M> {
    /// The prompt.
    pub closed spec fn prompt(&self) -> Maybe<Label> {
        self.prompt
    }

    /// The backspace button.
    pub closed spec fn back(&self) -> Maybe<Button> {
        self.back
    }

    /// The input area.
    pub closed spec fn input(&self) -> Maybe<Bip39Input<C, M>> {
        self.input
    }

    /// The letter keys, by key index.
    pub closed spec fn keys(&self) -> Seq<Button> {
        self.keys@
    }

    /// The state of the entry: prefix, pending key and dictionary answers.
    pub open spec fn entry(&self) -> &Bip39Input<C, M> {
        self.input().held()
    }

    /// The entered prefix.
    pub open spec fn text(&self) -> Seq<u8> {
        self.entry().text()
    }

    /// Whether key `key` takes clicks.
    pub open spec fn key_is_enabled(&self, key: int) -> bool {
        self.keys()[key].enabled()
    }

    /// The controls are wired as `new` wires them: each control answers its
    /// own identifier, the backspace button and the input area take clicks
    /// while they are shown, and the dictionary answers every prefix.
    pub open spec fn is_wired(&self) -> bool {
        &&& self.entry().is_valid()
        &&& self.back().held().id() == BACK_ID
        &&& self.back().held().enabled()
        &&& self.keys().len() == KEY_COUNT
        &&& forall|key: int| 0 <= key < KEY_COUNT ==> (#[trigger] self.keys()[key]).id() == key
    }

    /// Each key takes clicks exactly if it is the pending key or one of its
    /// letters can follow the entered prefix, as the dictionary last said.
    pub open spec fn keys_follow_mask(&self) -> bool {
        &&& self.entry().is_mask_of(self.entry().mask(), self.text())
        &&& forall|key: int|
            0 <= key < KEY_COUNT ==> #[trigger] self.key_is_enabled(key) == key_enabled(
                self.entry().pending(),
                self.entry().mask(),
                key,
            )
    }

    /// The prompt is shown exactly while nothing is entered; the input area
    /// and the backspace button are shown exactly while something is.
    pub open spec fn shows_prompt_or_input(&self) -> bool {
        &&& self.prompt().is_shown() == (self.text().len() == 0)
        &&& self.input().is_shown() == (self.text().len() > 0)
        &&& self.back().is_shown() == (self.text().len() > 0)
    }

    /// `self` is `before` but for the entry, for which controls are shown and
    /// for which keys take clicks.
    pub open spec fn has_frame_of(&self, before: &Self) -> bool {
        &&& self.prompt().held() == before.prompt().held()
        &&& self.back().held() == before.back().held()
        &&& self.entry().same_setup(before.entry())
        &&& self.keys().len() == before.keys().len()
        &&& forall|key: int|
            0 <= key < KEY_COUNT ==> (#[trigger] self.keys()[key]).is_with_enabled(
                before.keys()[key],
                self.keys()[key].enabled(),
            )
    }

    /// Whether a key takes clicks in one of `self` and `after` only.
    pub open spec fn keys_differ(&self, after: &Self) -> bool {
        exists|key: int|
            0 <= key < KEY_COUNT && #[trigger] self.key_is_enabled(key) != after.key_is_enabled(key)
    }

    /// Whether a control is shown in one of `self` and `after` only.
    pub open spec fn shown_differs(&self, after: &Self) -> bool {
        ||| self.prompt().is_shown() != after.prompt().is_shown()
        ||| self.input().is_shown() != after.input().is_shown()
        ||| self.back().is_shown() != after.back().is_shown()
    }

    /// Whether `self` and `after` differ in which controls are shown or in
    /// which keys take clicks.
    pub open spec fn controls_differ(&self, after: &Self) -> bool {
        self.keys_differ(after) || self.shown_differs(after)
    }

    /// `after` and `ctx_after` are what stands after the work that every
    /// handler ends with: the controls follow the entry, nothing else of the
    /// frame has changed, and a repaint is requested if it was before, if
    /// `shown` holds, or if a control changed.
    pub open spec fn is_settled_into(
        &self,
        ctx: EventCtx,
        after: &Self,
        ctx_after: EventCtx,
        shown: bool,
    ) -> bool {
        &&& after.has_frame_of(self)
        &&& after.keys_follow_mask()
        &&& after.shows_prompt_or_input()
        &&& ctx_after.paint_requested() == (ctx.paint_requested() || shown || self.controls_differ(
            after,
        ))
    }

    /// A click on key `key` leads from `self` under `ctx` to `after` under
    /// `ctx_after`: the multi-tap engine edits the prefix by one letter and
    /// makes `key` the pending key with a fresh timer, and the dictionary is
    /// asked about the new prefix.
    pub open spec fn key_clicked(
        &self,
        ctx: EventCtx,
        key: usize,
        after: &Self,
        ctx_after: EventCtx,
    ) -> bool {
        let letters = key_letters(key as int);
        let edit = self.entry().multi_tap().tapped_edit(key, letters);
        &&& after.text() == edited(self.text(), edit)
        &&& after.entry().pending() == Some(
            Pending {
                key,
                char: self.entry().multi_tap().tapped_char(key, letters.len()),
                timer: ctx.issued_token(),
            },
        )
        &&& after.entry().is_completion_of(after.entry().completed_word(), after.text())
        &&& ctx_after.has_one_more_timer(ctx, self.entry().timeout_ms())
        &&& self.is_settled_into(ctx, after, ctx_after, edit_shows(self.text(), edit))
    }

    /// A click on the backspace button leads from `self` under `ctx` to
    /// `after` under `ctx_after`: the last letter and the pending key are
    /// dropped, and the dictionary is asked about the new prefix.
    pub open spec fn backspace_clicked(&self, ctx: EventCtx, after: &Self, ctx_after: EventCtx) -> bool {
        &&& after.text() == without_last(self.text())
        &&& after.entry().pending() is None
        &&& after.entry().is_completion_of(after.entry().completed_word(), after.text())
        &&& ctx_after.has_same_timers(ctx)
        &&& self.is_settled_into(
            ctx,
            after,
            ctx_after,
            self.text().len() > 0 || self.entry().pending() is Some,
        )
    }

    /// Whether the suggested word is entered in full.
    pub open spec fn is_complete(&self) -> bool {
        self.entry().is_complete()
    }

    /// A click on the input area leads from `self` under `ctx` to `after`
    /// under `ctx_after` with the message `msg`: a suggested word that is
    /// entered in full is confirmed, and the prefix and the pending key are
    /// cleared; any other suggested word is filled in, without a message;
    /// without a suggestion, or with one that does not fit, nothing is
    /// entered or reported.
    pub open spec fn input_clicked(
        &self,
        ctx: EventCtx,
        after: &Self,
        ctx_after: EventCtx,
        msg: Option<Bip39KeyboardMsg>,
    ) -> bool {
        &&& after.text() == self.entry().accepted_text()
        &&& msg == if self.is_complete() {
            Some(Bip39KeyboardMsg::Confirmed)
        } else {
            None
        }
        &&& after.entry().pending() == self.entry().accepted_pending()
        &&& after.entry().completed_word() == self.entry().completed_word()
        &&& ctx_after.has_same_timers(ctx)
        &&& self.is_settled_into(ctx, after, ctx_after, self.entry().accept_shows())
    }

    /// The timer of the pending key leads from `self` under `ctx` to `after`
    /// under `ctx_after`: the pending key is dropped, and with it the last
    /// letter if the dictionary had no word for the prefix.
    pub open spec fn timed_out(&self, ctx: EventCtx, after: &Self, ctx_after: EventCtx) -> bool {
        &&& after.text() == if self.entry().completed_word() is None {
            without_last(self.text())
        } else {
            self.text()
        }
        &&& after.entry().pending() is None
        &&& after.entry().completed_word() == self.entry().completed_word()
        &&& ctx_after.has_same_timers(ctx)
        &&& self.is_settled_into(
            ctx,
            after,
            ctx_after,
            (self.entry().completed_word() is None && self.text().len() > 0)
                || self.entry().pending() is Some,
        )
    }
}

impl<C: Fn(&[u8]) -> Option<&'static [u8]>, M: Fn(&[u8]) -> u32> Bip39Keyboard<C, M> {
    /// A keyboard with nothing entered: it shows `prompt`, hides the input
    /// area and the backspace button, and has every key enabled.
    pub fn new(prompt: &'static [u8], word_oracle: C, mask_oracle: M) -> (keyboard: Self)
        requires
            Bip39Input::<C, M>::word_oracle_is_total(word_oracle),
            Bip39Input::<C, M>::mask_oracle_is_total(mask_oracle),
        ensures
            keyboard.inv(),
            keyboard.is_valid(),
            keyboard.entry().timeout_ms() == MULTI_TAP_TIMEOUT_MS,
            forall|key: int|
                0 <= key < KEY_COUNT ==> is_letter_key(#[trigger] keyboard.keys()[key], key),
            keyboard.text() == Seq::<u8>::empty(),
            keyboard.entry().pending() is None,
            keyboard.entry().completed_word() is None,
            keyboard.entry().word_oracle() == word_oracle,
            keyboard.entry().mask_oracle() == mask_oracle,
            keyboard.prompt().held().text() == prompt,
            keyboard.back().held().is_made(
                BACK_ID,
                ButtonContent::Icon(Icon::Back),
                ButtonStyle::Clear,
            ),
    {
        let keyboard = Bip39Keyboard {
            prompt: Maybe::visible(Label::new(prompt)),
            back: Maybe::hidden(
                Button::with_icon(BACK_ID, Icon::Back).styled(ButtonStyle::Clear),
            ),
            input: Maybe::hidden(Bip39Input::new(word_oracle, mask_oracle)),
            keys: Self::key_buttons(),
        };
        proof {
            assert forall|key: int| 0 <= key < KEY_COUNT implies #[trigger] keyboard.key_is_enabled(
                key,
            ) == key_enabled(keyboard.entry().pending(), keyboard.entry().mask(), key) by {
                lemma_all_letters_enable(key);
                assert(is_letter_key(keyboard.keys()[key], key));
            }
        }
        keyboard
    }

    /// The letter keys as they start out: enabled, each with its index as
    /// identifier and its letters as text.
    fn key_buttons() -> (keys: [Button; KEY_COUNT])
        ensures
            forall|key: int| 0 <= key < KEY_COUNT ==> is_letter_key(#[trigger] keys@[key], key),
    {
        let texts = key_texts();
        let keys = array_map_enumerate(
            texts,
            (|index: usize, text: &'static [u8]| -> (button: Button)
                ensures
                    button.is_plain(index, ButtonContent::Text(text)),
                { Button::with_text(index, text) }),
        );
        assert forall|key: int| 0 <= key < KEY_COUNT implies is_letter_key(
            #[trigger] keys@[key],
            key,
        ) by {
            let index = key as usize;
            assert(keys@[index as int].is_plain(index, ButtonContent::Text(texts@[index as int])));
        }
        keys
    }
}

impl<C: Fn(&[u8]) -> Option<&'static [u8]>, M: Fn(&[u8]) -> u32> Bip39Keyboard<C, M> {
    /// The keyboard is ready for use: its controls are wired, and they follow
    /// the entry.
    pub open spec fn is_valid(&self) -> bool {
        &&& self.is_wired()
        &&& self.keys_follow_mask()
        &&& self.shows_prompt_or_input()
    }

    /// Handling `event` leads from `self` under `ctx` to `after` under
    /// `ctx_after` with the message `msg`. The timer of the pending key times
    /// the key out; any other timer is passed over. A click goes to the
    /// control that it names, if that control is shown and enabled, and is
    /// passed over if not. What is passed over changes nothing.
    pub open spec fn answers(
        &self,
        ctx: EventCtx,
        event: Event,
        after: Self,
        ctx_after: EventCtx,
        msg: Option<Bip39KeyboardMsg>,
    ) -> bool {
        match event {
            Event::Timer(_) => if self.input().is_shown() && self.entry().is_timeout(event) {
                self.timed_out(ctx, &after, ctx_after) && msg is None
            } else {
                after == *self && ctx_after == ctx && msg is None
            },
            Event::Click(id) => if id == INPUT_ID && self.input().is_shown()
                && self.entry().button().enabled() {
                self.input_clicked(ctx, &after, ctx_after, msg)
            } else if id == BACK_ID && self.back().is_shown() && self.back().held().enabled() {
                self.backspace_clicked(ctx, &after, ctx_after) && msg is None
            } else if id < KEY_COUNT && self.key_is_enabled(id as int) {
                self.key_clicked(ctx, id, &after, ctx_after) && msg is None
            } else {
                after == *self && ctx_after == ctx && msg is None
            },
        }
    }

    /// `paint` is what the keyboard shows: each control as it paints itself.
    pub open spec fn is_shown_as(&self, paint: Bip39KeyboardPaint) -> bool {
        &&& self.prompt().paints(paint.prompt)
        &&& self.input().paints(paint.input)
        &&& self.back().paints(paint.back)
        &&& paint.keys@ == self.keys()
    }

    /// `self` is `before` in all but which keys take clicks and what the
    /// dictionary last gave as mask.
    pub open spec fn has_entry_of(&self, before: &Self) -> bool {
        &&& self.prompt() == before.prompt()
        &&& self.back() == before.back()
        &&& self.input().is_shown() == before.input().is_shown()
        &&& self.text() == before.text()
        &&& self.entry().pending() == before.entry().pending()
        &&& self.entry().completed_word() == before.entry().completed_word()
    }

    /// Ask the dictionary which letters can follow, and enable each key that
    /// is pending or has one of these letters, and no other.
    #[verifier::loop_isolation(false)]
    fn toggle_key_buttons(&mut self, ctx: &mut EventCtx)
        requires
            old(self).is_wired(),
        ensures
            final(self).is_wired(),
            final(self).has_frame_of(old(self)),
            final(self).has_entry_of(old(self)),
            final(self).keys_follow_mask(),
            final(ctx).is_with_paint_if(*old(ctx), old(self).keys_differ(final(self))),
    {
        let pending_key = self.input.inner().multi_tap.pending_key();
        let mask = self.input.inner_mut().completion_mask();
        let ghost start = *self;
        let ghost ctx_start = *ctx;
        let ghost pending = self.entry().pending();
        let ghost mut toggled = false;
        let mut key: usize = 0;
        while key < KEY_COUNT
            invariant
                key <= KEY_COUNT,
                self.prompt == start.prompt,
                self.back == start.back,
                self.input == start.input,
                self.keys@.len() == KEY_COUNT,
                forall|j: int|
                    0 <= j < key ==> (#[trigger] self.keys@[j]).is_with_enabled(
                        start.keys@[j],
                        key_enabled(pending, mask, j),
                    ),
                forall|j: int| key <= j < KEY_COUNT ==> #[trigger] self.keys@[j] == start.keys@[j],
                ctx.is_with_paint_if(ctx_start, toggled),
                toggled == exists|j: int|
                    0 <= j < key && #[trigger] start.key_is_enabled(j) != key_enabled(
                        pending,
                        mask,
                        j,
                    ),
            decreases KEY_COUNT - key,
        {
            let key_is_pending = match pending_key {
                Some(pending_key) => pending_key == key,
                None => false,
            };
            proof {
                lemma_key_letters(key as int);
            }
            let key_matches_mask = compute_mask(key_text(key)) & mask != 0;
            let ghost enabled = key_is_pending || key_matches_mask;
            assert(enabled == key_enabled(pending, mask, key as int));
            self.keys[key].enable_if(ctx, key_is_pending || key_matches_mask);
            proof {
                let changed = start.key_is_enabled(key as int) != enabled;
                if toggled || changed {
                    let j = if toggled {
                        choose|j: int|
                            0 <= j < key && #[trigger] start.key_is_enabled(j) != key_enabled(
                                pending,
                                mask,
                                j,
                            )
                    } else {
                        key as int
                    };
                    assert(0 <= j < key + 1 && start.key_is_enabled(j) != key_enabled(
                        pending,
                        mask,
                        j,
                    ));
                }
                toggled = toggled || changed;
            }
            key += 1;
        }
        proof {
            assert forall|j: int| 0 <= j < KEY_COUNT implies #[trigger] self.key_is_enabled(j)
                == key_enabled(pending, mask, j) by {
                assert(self.keys@[j].is_with_enabled(start.keys@[j], key_enabled(pending, mask, j)));
            }
            if old(self).keys_differ(self) {
                let j = choose|j: int|
                    0 <= j < KEY_COUNT && #[trigger] old(self).key_is_enabled(j)
                        != self.key_is_enabled(j);
                assert(start.key_is_enabled(j) != key_enabled(pending, mask, j));
            }
            if toggled {
                let j = choose|j: int|
                    0 <= j < KEY_COUNT && #[trigger] start.key_is_enabled(j) != key_enabled(
                        pending,
                        mask,
                        j,
                    );
                assert(old(self).key_is_enabled(j) != self.key_is_enabled(j));
            }
        }
    }

    /// Show the prompt if nothing is entered, and the input area and the
    /// backspace button if something is.
    fn toggle_prompt_or_input(&mut self, ctx: &mut EventCtx)
        ensures
            final(self).prompt().held() == old(self).prompt().held(),
            final(self).back().held() == old(self).back().held(),
            final(self).input().held() == old(self).input().held(),
            final(self).keys() == old(self).keys(),
            final(self).shows_prompt_or_input(),
            final(ctx).is_with_paint_if(*old(ctx), old(self).shown_differs(final(self))),
    {
        let prompt_visible = self.input.inner().textbox.is_empty();
        self.prompt.show_if(ctx, prompt_visible);
        self.input.show_if(ctx, !prompt_visible);
        self.back.show_if(ctx, !prompt_visible);
    }

    /// Let the controls follow the entry: the work that every handler ends
    /// with.
    fn settle(&mut self, ctx: &mut EventCtx)
        requires
            old(self).is_wired(),
        ensures
            final(self).is_wired(),
            final(self).text() == old(self).text(),
            final(self).entry().pending() == old(self).entry().pending(),
            final(self).entry().completed_word() == old(self).entry().completed_word(),
            final(ctx).has_same_timers(*old(ctx)),
            old(self).is_settled_into(*old(ctx), final(self), *final(ctx), false),
    {
        let ghost before = *self;
        self.toggle_key_buttons(ctx);
        let ghost between = *self;
        self.toggle_prompt_or_input(ctx);
        proof {
            assert(between.keys() == self.keys());
            assert(before.keys_differ(&between) == before.keys_differ(self)) by {
                if before.keys_differ(&between) {
                    let j = choose|j: int|
                        0 <= j < KEY_COUNT && #[trigger] before.key_is_enabled(j)
                            != between.key_is_enabled(j);
                    assert(before.key_is_enabled(j) != self.key_is_enabled(j));
                }
                if before.keys_differ(self) {
                    let j = choose|j: int|
                        0 <= j < KEY_COUNT && #[trigger] before.key_is_enabled(j)
                            != self.key_is_enabled(j);
                    assert(before.key_is_enabled(j) != between.key_is_enabled(j));
                }
            }
            assert forall|key: int| 0 <= key < KEY_COUNT implies #[trigger] self.key_is_enabled(key)
                == key_enabled(self.entry().pending(), self.entry().mask(), key) by {
                assert(between.key_is_enabled(key) == key_enabled(
                    between.entry().pending(),
                    between.entry().mask(),
                    key,
                ));
            }
        }
    }

    /// Whether controls differ from those of `after` depends on the controls
    /// only.
    proof fn lemma_same_controls(a: &Self, b: &Self, after: &Self)
        requires
            a.keys() == b.keys(),
            a.prompt().is_shown() == b.prompt().is_shown(),
            a.input().is_shown() == b.input().is_shown(),
            a.back().is_shown() == b.back().is_shown(),
        ensures
            a.controls_differ(after) == b.controls_differ(after),
    {
        if a.keys_differ(after) {
            let j = choose|j: int|
                0 <= j < KEY_COUNT && #[trigger] a.key_is_enabled(j) != after.key_is_enabled(j);
            assert(b.key_is_enabled(j) != after.key_is_enabled(j));
        }
        if b.keys_differ(after) {
            let j = choose|j: int|
                0 <= j < KEY_COUNT && #[trigger] b.key_is_enabled(j) != after.key_is_enabled(j);
            assert(a.key_is_enabled(j) != after.key_is_enabled(j));
        }
    }

    /// A key was clicked: let the multi-tap engine edit the prefix, and ask
    /// the dictionary about the result.
    pub fn on_key_click(&mut self, ctx: &mut EventCtx, clicked_key: usize)
        requires
            old(self).is_valid(),
            clicked_key < KEY_COUNT,
        ensures
            final(self).is_valid(),
            final(self).inv(),
            old(self).key_clicked(*old(ctx), clicked_key, final(self), *final(ctx)),
    {
        let ghost before = *self;
        self.input.inner_mut().click(ctx, clicked_key);
        let ghost between = *self;
        self.settle(ctx);
        proof {
            Self::lemma_same_controls(&before, &between, self);
        }
    }

    /// The backspace button was clicked: drop the last letter and the pending
    /// key, and ask the dictionary about the result.
    pub fn on_backspace_click(&mut self, ctx: &mut EventCtx)
        requires
            old(self).is_valid(),
        ensures
            final(self).is_valid(),
            final(self).inv(),
            old(self).backspace_clicked(*old(ctx), final(self), *final(ctx)),
    {
        let ghost before = *self;
        self.input.inner_mut().backspace(ctx);
        let ghost between = *self;
        self.settle(ctx);
        proof {
            Self::lemma_same_controls(&before, &between, self);
        }
    }

    /// The input area was clicked: confirm the suggested word if it is entered
    /// in full, and fill it in if it is not.
    pub fn on_input_click(&mut self, ctx: &mut EventCtx) -> (msg: Option<Bip39KeyboardMsg>)
        requires
            old(self).is_valid(),
        ensures
            final(self).is_valid(),
            final(self).inv(),
            old(self).input_clicked(*old(ctx), final(self), *final(ctx), msg),
    {
        let ghost before = *self;
        let confirmed = self.input.inner_mut().accept(ctx);
        let ghost between = *self;
        self.settle(ctx);
        proof {
            Self::lemma_same_controls(&before, &between, self);
        }
        if confirmed {
            Some(Bip39KeyboardMsg::Confirmed)
        } else {
            None
        }
    }

    /// The timer of the pending key fired: drop the pending key, and with it
    /// the last letter if the dictionary had no word for the prefix.
    pub fn on_timeout(&mut self, ctx: &mut EventCtx)
        requires
            old(self).is_valid(),
        ensures
            final(self).is_valid(),
            final(self).inv(),
            old(self).timed_out(*old(ctx), final(self), *final(ctx)),
    {
        let ghost before = *self;
        self.input.inner_mut().time_out(ctx);
        let ghost between = *self;
        self.settle(ctx);
        proof {
            Self::lemma_same_controls(&before, &between, self);
        }
    }
}

impl<C: Fn(&[u8]) -> Option<&'static [u8]>, M: Fn(&[u8]) -> u32> Component for Bip39Keyboard<C, M> {
    type Msg = Bip39KeyboardMsg;

    type Paint = Bip39KeyboardPaint;

    open spec fn inv(&self) -> bool {
        self.is_valid()
    }

    open spec fn handles(
        &self,
        ctx: EventCtx,
        event: Event,
        after: Self,
        ctx_after: EventCtx,
        msg: Option<Bip39KeyboardMsg>,
    ) -> bool {
        self.answers(ctx, event, after, ctx_after, msg)
    }

    open spec fn paints(&self, paint: Bip39KeyboardPaint) -> bool {
        self.is_shown_as(paint)
    }

    #[verifier::loop_isolation(false)]
    fn event(&mut self, ctx: &mut EventCtx, event: Event) -> (msg: Option<Bip39KeyboardMsg>)
        ensures
            final(self).is_valid(),
            old(self).answers(*old(ctx), event, *final(self), *final(ctx), msg),
    {
        let ghost before = *self;
        let ghost ctx_before = *ctx;
        let input_msg = self.input.event(ctx, event);
        proof {
            Maybe::lemma_ext_equal(self.input, before.input);
        }
        let ghost mut handled = false;
        match input_msg {
            Some(Bip39InputMsg::Button(ButtonMsg::Clicked)) => {
                if let Some(msg) = self.on_input_click(ctx) {
                    return Some(msg);
                }
                proof {
                    handled = true;
                }
            },
            Some(Bip39InputMsg::TimedOut) => {
                self.on_timeout(ctx);
                proof {
                    handled = true;
                }
            },
            _ => {},
        }
        let ghost handled_state = *self;
        let ghost handled_ctx = *ctx;
        let back_msg = self.back.event(ctx, event);
        proof {
            Maybe::lemma_ext_equal(self.back, handled_state.back);
        }
        if let Some(ButtonMsg::Clicked) = back_msg {
            self.on_backspace_click(ctx);
            return None;
        }
        let mut key: usize = 0;
        while key < KEY_COUNT
            invariant
                key <= KEY_COUNT,
                *self == handled_state,
                *ctx == handled_ctx,
                forall|j: int| 0 <= j < key ==> !(#[trigger] self.keys()[j]).is_clicked_by(event),
            decreases KEY_COUNT - key,
        {
            let key_msg = self.keys[key].event(ctx, event);
            assert(self.keys =~= handled_state.keys);
            if let Some(ButtonMsg::Clicked) = key_msg {
                self.on_key_click(ctx, key);
                return None;
            }
            key += 1;
        }
        proof {
            if let Event::Click(id) = event {
                if id < KEY_COUNT {
                    assert(!self.keys()[id as int].is_clicked_by(event));
                }
            }
        }
        None
    }

    fn paint(&self) -> (paint: Bip39KeyboardPaint)
        ensures
            self.is_shown_as(paint),
    {
        Bip39KeyboardPaint {
            prompt: self.prompt.paint(),
            input: self.input.paint(),
            back: self.back.paint(),
            keys: self.keys,
        }
    }
}

impl<C: Fn(&[u8]) -> Option<&'static [u8]>, M: Fn(&[u8]) -> u32> Bip39Keyboard<C, M> {
    /// Either the prompt is shown, or the input area and the backspace button
    /// are, never both and never neither.
    pub proof fn lemma_prompt_or_input(keyboard: Self)
        requires
            keyboard.is_valid(),
        ensures
            keyboard.prompt().is_shown() != keyboard.input().is_shown(),
            keyboard.back().is_shown() == keyboard.input().is_shown(),
    {
    }

    /// A click on the input area while the suggested word is entered in full
    /// confirms the word and clears the entry.
    pub proof fn lemma_full_word_is_confirmed(
        keyboard: Self,
        ctx: EventCtx,
        after: Self,
        ctx_after: EventCtx,
        msg: Option<Bip39KeyboardMsg>,
    )
        requires
            keyboard.is_valid(),
            keyboard.text().len() > 0,
            keyboard.is_complete(),
            keyboard.answers(ctx, Event::Click(INPUT_ID), after, ctx_after, msg),
        ensures
            after.text() == Seq::<u8>::empty(),
            after.entry().pending() is None,
            after.prompt().is_shown(),
            !after.input().is_shown(),
            !after.back().is_shown(),
            msg == Some(Bip39KeyboardMsg::Confirmed),
            after.is_valid(),
    {
    }

    /// A click on the input area while the suggested word is too long for the
    /// input area enters nothing and reports nothing.
    pub proof fn lemma_word_that_does_not_fit_is_dropped(
        keyboard: Self,
        word: &'static [u8],
        ctx: EventCtx,
        after: Self,
        ctx_after: EventCtx,
        msg: Option<Bip39KeyboardMsg>,
    )
        requires
            keyboard.is_valid(),
            keyboard.text().len() > 0,
            keyboard.entry().completed_word() == Some(word),
            word@.len() > MAX_LENGTH,
            keyboard.answers(ctx, Event::Click(INPUT_ID), after, ctx_after, msg),
        ensures
            after.text() == keyboard.text(),
            after.entry().pending() == keyboard.entry().pending(),
            msg is None,
    {
    }

    /// A click on the backspace button, which is shown while something is
    /// entered, takes the last letter and the pending key away.
    pub proof fn lemma_backspace_deletes(
        keyboard: Self,
        ctx: EventCtx,
        after: Self,
        ctx_after: EventCtx,
        msg: Option<Bip39KeyboardMsg>,
    )
        requires
            keyboard.is_valid(),
            keyboard.text().len() > 0,
            keyboard.answers(ctx, Event::Click(BACK_ID), after, ctx_after, msg),
        ensures
            after.text() == keyboard.text().drop_last(),
            after.entry().pending() is None,
            msg is None,
    {
    }

    /// A click on an enabled key asks for one timer of one second, under the
    /// token that the context hands out next, and makes the key the pending
    /// key with that timer.
    pub proof fn lemma_key_click_arms_timer(
        keyboard: Self,
        ctx: EventCtx,
        key: usize,
        after: Self,
        ctx_after: EventCtx,
        msg: Option<Bip39KeyboardMsg>,
    )
        requires
            keyboard.is_valid(),
            key < KEY_COUNT,
            keyboard.key_is_enabled(key as int),
            keyboard.answers(ctx, Event::Click(key), after, ctx_after, msg),
        ensures
            ctx_after.timers() == ctx.timers().push(
                TimerRequest { token: ctx.issued_token(), delay_ms: MULTI_TAP_TIMEOUT_MS },
            ),
            after.entry().pending() matches Some(pending) && pending.key == key && pending.timer
                == ctx.issued_token(),
            msg is None,
    {
    }

    /// A click on the input area while the suggested word `word` is not yet
    /// entered in full fills the word in and reports nothing; a second click
    /// then confirms the word and clears the entry. The word is one that the
    /// input area can hold.
    pub proof fn lemma_word_is_filled_in_then_confirmed(
        keyboard: Self,
        word: &'static [u8],
        ctx: EventCtx,
        filled: Self,
        ctx_filled: EventCtx,
        msg_filled: Option<Bip39KeyboardMsg>,
        confirmed: Self,
        ctx_confirmed: EventCtx,
        msg_confirmed: Option<Bip39KeyboardMsg>,
    )
        requires
            keyboard.is_valid(),
            keyboard.text().len() > 0,
            keyboard.entry().completed_word() == Some(word),
            word@ != keyboard.text(),
            0 < word@.len() <= MAX_LENGTH,
            keyboard.answers(ctx, Event::Click(INPUT_ID), filled, ctx_filled, msg_filled),
            filled.answers(
                ctx_filled,
                Event::Click(INPUT_ID),
                confirmed,
                ctx_confirmed,
                msg_confirmed,
            ),
        ensures
            filled.text() == word@,
            msg_filled is None,
            confirmed.text() == Seq::<u8>::empty(),
            confirmed.entry().pending() is None,
            msg_confirmed == Some(Bip39KeyboardMsg::Confirmed),
    {
    }

    /// When the timer of the pending key fires while the dictionary has no
    /// word for the entered prefix, the last letter is taken back and no key
    /// is pending any more.
    pub proof fn lemma_timeout_takes_back(
        keyboard: Self,
        ctx: EventCtx,
        fired: TimerToken,
        after: Self,
        ctx_after: EventCtx,
        msg: Option<Bip39KeyboardMsg>,
    )
        requires
            keyboard.is_valid(),
            keyboard.text().len() > 0,
            keyboard.entry().completed_word() is None,
            keyboard.entry().pending() matches Some(pending) && pending.timer == fired,
            keyboard.answers(ctx, Event::Timer(fired), after, ctx_after, msg),
        ensures
            after.text() == keyboard.text().drop_last(),
            after.entry().pending() is None,
            msg is None,
    {
    }

    /// When the timer of the pending key fires while the dictionary has a
    /// word for the entered prefix, the prefix stays as it is and no key is
    /// pending any more.
    pub proof fn lemma_timeout_keeps_suggested(
        keyboard: Self,
        ctx: EventCtx,
        fired: TimerToken,
        after: Self,
        ctx_after: EventCtx,
        msg: Option<Bip39KeyboardMsg>,
    )
        requires
            keyboard.is_valid(),
            keyboard.text().len() > 0,
            keyboard.entry().completed_word() is Some,
            keyboard.entry().pending() matches Some(pending) && pending.timer == fired,
            keyboard.answers(ctx, Event::Timer(fired), after, ctx_after, msg),
        ensures
            after.text() == keyboard.text(),
            after.entry().pending() is None,
            after.entry().completed_word() == keyboard.entry().completed_word(),
            msg is None,
    {
    }

    /// A timer that is not the timer of the pending key changes nothing: not
    /// the entry, not the controls, not what is requested of the host.
    pub proof fn lemma_stale_timer_is_ignored(
        keyboard: Self,
        ctx: EventCtx,
        fired: TimerToken,
        after: Self,
        ctx_after: EventCtx,
        msg: Option<Bip39KeyboardMsg>,
    )
        requires
            keyboard.is_valid(),
            !(keyboard.entry().pending() matches Some(pending) && pending.timer == fired),
            keyboard.answers(ctx, Event::Timer(fired), after, ctx_after, msg),
        ensures
            after == keyboard,
            ctx_after == ctx,
            msg is None,
    {
    }

    /// A click on a key enters one letter at most: the entry grows by one
    /// letter on a key that is not pending, and keeps its length on the
    /// pending key.
    pub proof fn lemma_key_click_edits_one_letter(
        keyboard: Self,
        ctx: EventCtx,
        key: usize,
        after: Self,
        ctx_after: EventCtx,
    )
        requires
            keyboard.is_valid(),
            key < KEY_COUNT,
            keyboard.key_clicked(ctx, key, &after, ctx_after),
        ensures
            keyboard.entry().multi_tap().is_repeat(key) && keyboard.text().len() > 0
                ==> after.text().len() == keyboard.text().len() && after.text().drop_last()
                == keyboard.text().drop_last(),
            !keyboard.entry().multi_tap().is_repeat(key) && keyboard.text().len() < MAX_LENGTH
                ==> after.text() == keyboard.text().push(key_letters(key as int)[0]),
    {
        lemma_key_letters(key as int);
    }
}

} // verus!
