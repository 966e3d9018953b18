//! The input area for words of the numeric encoding: each of nine keys stands
//! for one decimal digit, the entered digits form a number, and a dictionary
//! says which keys can follow the number and which word it resolves to.

use crate::button::{Button, ButtonContent, ButtonMsg, ButtonStyle, Icon};
use crate::common::{INPUT_ID, MNEMONIC_KEY_COUNT};
use crate::component::{Component, Event, EventCtx, TimerRequest, TimerToken};
use crate::multi_tap::{MultiTapKeyboard, Pending, MULTI_TAP_TIMEOUT_MS};
use crate::paint::InputPaint;
use crate::textbox::{
    buffer_as_slice, buffer_bytes, buffer_extend_from_slice, buffer_new, buffer_pop, buffer_push,
    replaced, with_appended, with_last_replaced, without_last, TextBox, TextEdit, MAX_LENGTH,
};
use vstd::arithmetic::power::{lemma_pow0, lemma_pow1, lemma_pow_adds, pow};
use vstd::prelude::*;
use vstd::slice::slice_to_vec;

verus! {

/// What the input area reports to the keyboard.
#[derive(Clone, Copy, Debug, PartialEq, Eq, Structural)]
pub enum MnemonicInputMsg {
    /// The entered word was confirmed.
    Confirmed,
    /// The timer of the pending key fired.
    TimedOut,
}

/// The smallest number that the dictionary is asked about.
pub const MIN_SEQUENCE: u16 = 1;

/// The largest number that the dictionary is asked about.
pub const MAX_SEQUENCE: u16 = 9999;

/// The mask with every key in it.
pub const ALL_KEYS: u16 = 0x1ff;

/// The character that stands for an entered digit while the word is open.
pub const PLACEHOLDER: u8 = 42;

const KEY_AB: [u8; 2] = [97, 98];

const KEY_CD: [u8; 2] = [99, 100];

const KEY_EF: [u8; 2] = [101, 102];

const KEY_GHIJ: [u8; 4] = [103, 104, 105, 106];

const KEY_KLM: [u8; 3] = [107, 108, 109];

const KEY_NOPQ: [u8; 4] = [110, 111, 112, 113];

const KEY_RS: [u8; 2] = [114, 115];

const KEY_TUV: [u8; 3] = [116, 117, 118];

const KEY_XYZ: [u8; 3] = [120, 121, 122];

/// The symbols that key `key` cycles through. They are shown only; what a
/// key enters is its digit.
pub open spec fn key_symbols(key: int) -> Seq<u8> {
    if key == 0 {
        seq![97u8, 98u8]
    } else if key == 1 {
        seq![99u8, 100u8]
    } else if key == 2 {
        seq![101u8, 102u8]
    } else if key == 3 {
        seq![103u8, 104u8, 105u8, 106u8]
    } else if key == 4 {
        seq![107u8, 108u8, 109u8]
    } else if key == 5 {
        seq![110u8, 111u8, 112u8, 113u8]
    } else if key == 6 {
        seq![114u8, 115u8]
    } else if key == 7 {
        seq![116u8, 117u8, 118u8]
    } else {
        seq![120u8, 121u8, 122u8]
    }
}

/// The symbols that key `key` cycles through.
pub fn key_text(key: usize) -> (text: &'static [u8])
    requires
        key < MNEMONIC_KEY_COUNT,
    ensures
        text@ == key_symbols(key as int),
        text@.len() >= 2,
{
    let text: &'static [u8] = match key {
        0 => &KEY_AB,
        1 => &KEY_CD,
        2 => &KEY_EF,
        3 => &KEY_GHIJ,
        4 => &KEY_KLM,
        5 => &KEY_NOPQ,
        6 => &KEY_RS,
        7 => &KEY_TUV,
        _ => &KEY_XYZ,
    };
    assert(text@ =~= key_symbols(key as int));
    text
}

/// Whether `byte` is a decimal digit.
pub open spec fn is_digit(byte: u8) -> bool {
    48 <= byte <= 57
}

/// Whether `text` is made of decimal digits.
pub open spec fn is_digits(text: Seq<u8>) -> bool {
    forall|i: int| 0 <= i < text.len() ==> is_digit(#[trigger] text[i])
}

/// The number that the decimal digits `text` stand for; 0 for no digits.
pub open spec fn digits_value(text: Seq<u8>) -> int
    decreases text.len(),
{
    if text.len() == 0 {
        0
    } else {
        10 * digits_value(text.drop_last()) + (text.last() - 48)
    }
}

/// The number that `text` is parsed as: the value of its digits, if `text`
/// is not empty, holds digits only and the value fits.
pub open spec fn sequence_of(text: Seq<u8>) -> Option<u16> {
    if text.len() > 0 && is_digits(text) && digits_value(text) <= u16::MAX {
        Some(digits_value(text) as u16)
    } else {
        None
    }
}

/// Whether the dictionary can be asked about `sequence`.
pub open spec fn in_range(sequence: Option<u16>) -> bool {
    sequence matches Some(number) && MIN_SEQUENCE <= number <= MAX_SEQUENCE
}

/// The digit that key `key` enters: `1` for the first key, `2` for the
/// second, and so on.
pub open spec fn digit_of(key: int) -> u8 {
    (49 + key) as u8
}

/// The value of decimal digits never drops when digits follow.
pub proof fn lemma_digits_value_grows(text: Seq<u8>, len: int)
    requires
        is_digits(text),
        0 <= len <= text.len(),
    ensures
        0 <= digits_value(text.take(len)) <= digits_value(text),
    decreases text.len() - len,
{
    if len == text.len() {
        assert(text.take(len) =~= text);
        lemma_digits_value_nonnegative(text);
    } else {
        lemma_digits_value_grows(text, len + 1);
        assert(text.take(len + 1).drop_last() =~= text.take(len));
        assert(is_digit(text[len]));
    }
}

/// The value of decimal digits is not negative.
pub proof fn lemma_digits_value_nonnegative(text: Seq<u8>)
    requires
        is_digits(text),
    ensures
        0 <= digits_value(text),
    decreases text.len(),
{
    if text.len() > 0 {
        assert(is_digit(text[text.len() - 1]));
        lemma_digits_value_nonnegative(text.drop_last());
    }
}

/// Entering the digit of one more key multiplies the number by ten and adds
/// the digit of the key: its index and one.
pub proof fn lemma_digit_entered(text: Seq<u8>, key: int)
    requires
        0 <= key < MNEMONIC_KEY_COUNT,
    ensures
        digits_value(text.push(digit_of(key))) == 10 * digits_value(text) + key + 1,
        is_digits(text) ==> is_digits(text.push(digit_of(key))),
{
    assert(text.push(digit_of(key)).drop_last() =~= text);
}

/// The text that the presses of the keys `keys`, in this order, enter.
pub open spec fn digits_of(keys: Seq<int>) -> Seq<u8> {
    Seq::new(keys.len(), |i: int| digit_of(keys[i]))
}

/// The sum of the digits of the keys `keys`, each weighted by its place: the
/// first key by ten to the number of keys behind it, the last key by one.
pub open spec fn place_value_sum(keys: Seq<int>) -> int
    decreases keys.len(),
{
    if keys.len() == 0 {
        0
    } else {
        (keys[0] + 1) * pow(10, (keys.len() - 1) as nat) + place_value_sum(keys.drop_first())
    }
}

/// The place values of all keys but the last are ten times what they are
/// without the last key.
proof fn lemma_place_value_sum_last(keys: Seq<int>)
    requires
        keys.len() > 0,
    ensures
        place_value_sum(keys) == 10 * place_value_sum(keys.drop_last()) + keys.last() + 1,
    decreases keys.len(),
{
    if keys.len() == 1 {
        lemma_pow0(10);
        assert(place_value_sum(keys.drop_first()) == 0);
        assert(place_value_sum(keys.drop_last()) == 0);
        assert(place_value_sum(keys) == (keys[0] + 1) * pow(10, 0) + place_value_sum(
            keys.drop_first(),
        ));
    } else {
        let rest = keys.drop_first();
        lemma_place_value_sum_last(rest);
        assert(rest.drop_last() =~= keys.drop_last().drop_first());
        assert(keys.drop_last()[0] == keys[0]);
        let n = (keys.len() - 2) as nat;
        lemma_pow_adds(10, 1, n);
        lemma_pow1(10);
        assert(pow(10, (keys.len() - 1) as nat) == 10 * pow(10, n));
        let lead = keys[0] + 1;
        let high = pow(10, n);
        assert(lead * (10 * high) == 10 * (lead * high)) by (nonlinear_arith);
        let front = keys.drop_last();
        assert(rest.last() == keys.last());
        assert(place_value_sum(keys) == lead * (10 * high) + place_value_sum(rest));
        assert(front.len() - 1 == n);
        assert(place_value_sum(front) == lead * high + place_value_sum(front.drop_first()));
        assert(front.drop_first() =~= rest.drop_last());
        assert(place_value_sum(rest) == 10 * place_value_sum(rest.drop_last()) + keys.last() + 1);
        assert(place_value_sum(keys) == 10 * (lead * high) + 10 * place_value_sum(
            rest.drop_last(),
        ) + keys.last() + 1);
    }
}

/// The keys pressed one after the other enter the number in which each key
/// stands, with its index and one as digit, at its decimal place: the sum of
/// `(keys[i] + 1) * 10^(k - 1 - i)` over the `k` keys.
pub proof fn lemma_keys_enter_place_values(keys: Seq<int>)
    requires
        forall|i: int| 0 <= i < keys.len() ==> 0 <= #[trigger] keys[i] < MNEMONIC_KEY_COUNT,
    ensures
        is_digits(digits_of(keys)),
        digits_value(digits_of(keys)) == place_value_sum(keys),
    decreases keys.len(),
{
    if keys.len() > 0 {
        let front = keys.drop_last();
        lemma_keys_enter_place_values(front);
        assert(digits_of(keys) =~= digits_of(front).push(digit_of(keys.last())));
        lemma_digit_entered(digits_of(front), keys.last());
        lemma_place_value_sum_last(keys);
    }
}

/// Parse `digits` as a number: the value of the digits, if there is at least
/// one, all are decimal digits and the value fits.
pub fn parse_sequence(digits: &[u8]) -> (sequence: Option<u16>)
    ensures
        sequence == sequence_of(digits@),
{
    if digits.len() == 0 {
        return None;
    }
    let mut value: u32 = 0;
    let mut index: usize = 0;
    while index < digits.len()
        invariant
            index <= digits@.len(),
            is_digits(digits@.take(index as int)),
            value == digits_value(digits@.take(index as int)),
            value <= u16::MAX,
        decreases digits@.len() - index,
    {
        let digit = digits[index];
        if digit < 48 || digit > 57 {
            assert(!is_digit(digits@[index as int]));
            return None;
        }
        assert(digits@.take(index + 1).drop_last() =~= digits@.take(index as int));
        value = value * 10 + (digit - 48) as u32;
        assert(is_digits(digits@.take(index + 1))) by {
            assert forall|i: int| 0 <= i < index + 1 implies is_digit(
                #[trigger] digits@.take(index + 1)[i],
            ) by {
                if i < index {
                    assert(digits@.take(index as int)[i] == digits@.take(index + 1)[i]);
                }
            }
        }
        if value > 65535 {
            proof {
                if is_digits(digits@) {
                    lemma_digits_value_grows(digits@, index + 1);
                }
            }
            return None;
        }
        index += 1;
    }
    assert(digits@.take(index as int) =~= digits@);
    Some(value as u16)
}

/// Whether key `key` is in the mask `bits`: the lowest bit stands for the
/// first key.
pub open spec fn mask_has_key(bits: u16, key: int) -> bool {
    0 <= key < 16 && bits & (1u16 << (key as u16)) != 0
}

/// Whether at most one key is in the mask `bits`.
pub open spec fn mask_is_final(bits: u16) -> bool {
    bits == 0 || exists|key: u16| key < 16 && bits == 1u16 << key
}

/// The keys that can follow the entered digits.
#[derive(Clone, Copy, Debug, PartialEq, Eq, Structural)]
pub struct Slip39Mask(pub u16);

impl Slip39Mask {
    /// The mask with all keys in it.
    pub fn full() -> (mask: Self)
        ensures
            mask.0 == ALL_KEYS,
    {
        Slip39Mask(ALL_KEYS)
    }

    /// Whether `key` can follow.
    pub fn contains_key(&self, key: usize) -> (contained: bool)
        requires
            key < 16,
        ensures
            contained == mask_has_key(self.0, key as int),
    {
        self.0 & (1u16 << (key as u16)) != 0
    }

    /// Whether at most one key can follow: the entered digits leave one word
    /// at most.
    pub fn is_final(&self) -> (is_final: bool)
        ensures
            is_final == mask_is_final(self.0),
    {
        let bits = self.0;
        if bits == 0 {
            return true;
        }
        let below: u16 = bits - 1;
        let is_final = bits & below == 0;
        proof {
            if is_final {
                assert(bits == 1 || bits == 2 || bits == 4 || bits == 8 || bits == 16 || bits == 32
                    || bits == 64 || bits == 128 || bits == 256 || bits == 512 || bits == 1024
                    || bits == 2048 || bits == 4096 || bits == 8192 || bits == 16384 || bits
                    == 32768) by (bit_vector)
                    requires
                        bits != 0,
                        below == bits - 1,
                        bits & below == 0,
                ;
                let key: u16 = if bits == 1 {
                    0
                } else if bits == 2 {
                    1
                } else if bits == 4 {
                    2
                } else if bits == 8 {
                    3
                } else if bits == 16 {
                    4
                } else if bits == 32 {
                    5
                } else if bits == 64 {
                    6
                } else if bits == 128 {
                    7
                } else if bits == 256 {
                    8
                } else if bits == 512 {
                    9
                } else if bits == 1024 {
                    10
                } else if bits == 2048 {
                    11
                } else if bits == 4096 {
                    12
                } else if bits == 8192 {
                    13
                } else if bits == 16384 {
                    14
                } else {
                    15
                };
                assert(key < 16 && bits == 1u16 << key) by (bit_vector)
                    requires
                        (bits == 1 && key == 0) || (bits == 2 && key == 1) || (bits == 4 && key
                            == 2) || (bits == 8 && key == 3) || (bits == 16 && key == 4) || (bits
                            == 32 && key == 5) || (bits == 64 && key == 6) || (bits == 128 && key
                            == 7) || (bits == 256 && key == 8) || (bits == 512 && key == 9) || (
                        bits == 1024 && key == 10) || (bits == 2048 && key == 11) || (bits == 4096
                            && key == 12) || (bits == 8192 && key == 13) || (bits == 16384 && key
                            == 14) || (bits == 32768 && key == 15),
                ;
            }
            if mask_is_final(bits) {
                let key = choose|key: u16| key < 16 && bits == 1u16 << key;
                assert(bits & below == 0) by (bit_vector)
                    requires
                        key < 16,
                        bits == 1u16 << key,
                        below == bits - 1,
                ;
            }
        }
        is_final
    }
}

/// The symbols of all keys, by key index.
pub fn keys() -> (texts: [&'static [u8]; MNEMONIC_KEY_COUNT])
    ensures
        forall|key: int|
            0 <= key < MNEMONIC_KEY_COUNT ==> (#[trigger] texts@[key])@ == key_symbols(key),
{
    [
        key_text(0),
        key_text(1),
        key_text(2),
        key_text(3),
        key_text(4),
        key_text(5),
        key_text(6),
        key_text(7),
        key_text(8),
    ]
}

/// The digit that key `key` enters: `1` for the first key, `2` for the
/// second, and so on.
pub fn key_digit(key: usize) -> (digit: u8)
    requires
        key < MNEMONIC_KEY_COUNT,
    ensures
        digit == digit_of(key as int),
        is_digit(digit),
{
    49 + key as u8
}

/// What is shown for `digits` entered digits while the word is open: a
/// placeholder for each digit.
pub open spec fn placeholders(digits: nat) -> Seq<u8> {
    Seq::new(digits, |i: int| PLACEHOLDER)
}

/// The symbol that is shown for the pending key `pending`.
pub open spec fn pending_symbol(pending: Pending) -> u8 {
    let symbols = key_symbols(pending.key as int);
    symbols[(pending.char as int) % (symbols.len() as int)]
}

/// The input area: the entered digits, the pending key, and what the
/// dictionary made of the digits. It doubles as the confirm button.
///
/// `word_oracle` answers a number from `MIN_SEQUENCE` to `MAX_SEQUENCE` with
/// the word that it resolves to, if it resolves to one. `mask_oracle` answers
/// such a number with the mask of the keys that can follow it.
pub struct Slip39Input<W, M> {
    button: Button,
    textbox: TextBox,
    multi_tap: MultiTapKeyboard,
    final_word: Option<&'static [u8]>,
    input_mask: Slip39Mask,
    word_oracle: W,
    mask_oracle: M,
}

impl<W: Fn(u16) -> Option<&'static [u8]>, M: Fn(u16) -> u16> Slip39Input<W, M> {
    /// The button that the area doubles as.
    pub closed spec fn button(&self) -> Button {
        self.button
    }

    /// The entered digits.
    pub closed spec fn text(&self) -> Seq<u8> {
        self.textbox@
    }

    /// The multi-tap state.
    pub closed spec fn multi_tap(&self) -> MultiTapKeyboard {
        self.multi_tap
    }

    /// The pending key, if any.
    pub open spec fn pending(&self) -> Option<Pending> {
        self.multi_tap().pending()
    }

    /// The word that the entered digits resolve to, if the dictionary gave
    /// one.
    pub closed spec fn final_word(&self) -> Option<&'static [u8]> {
        self.final_word
    }

    /// The mask of the keys that can follow, as the dictionary gave it.
    pub closed spec fn input_mask(&self) -> Slip39Mask {
        self.input_mask
    }

    /// The dictionary's word of a number.
    pub closed spec fn word_oracle(&self) -> W {
        self.word_oracle
    }

    /// The dictionary's mask of following keys.
    pub closed spec fn mask_oracle(&self) -> M {
        self.mask_oracle
    }

    /// Both parts of the dictionary answer every number that they are asked
    /// about.
    pub open spec fn oracles_total(&self) -> bool {
        &&& forall|number: u16|
            MIN_SEQUENCE <= number <= MAX_SEQUENCE ==> #[trigger] call_requires(
                self.word_oracle(),
                (number,),
            )
        &&& forall|number: u16|
            MIN_SEQUENCE <= number <= MAX_SEQUENCE ==> #[trigger] call_requires(
                self.mask_oracle(),
                (number,),
            )
    }

    /// `word` is what the dictionary may resolve the digits `text` to: no
    /// word for digits that form no number the dictionary is asked about.
    pub open spec fn is_word_of(&self, word: Option<&'static [u8]>, text: Seq<u8>) -> bool {
        match sequence_of(text) {
            Some(number) if in_range(Some(number)) => call_ensures(
                self.word_oracle(),
                (number,),
                word,
            ),
            _ => word is None,
        }
    }

    /// `mask` is what the dictionary may give as the keys that can follow the
    /// digits `text`: every key for digits that form no number the dictionary
    /// is asked about.
    pub open spec fn is_mask_of(&self, mask: Slip39Mask, text: Seq<u8>) -> bool {
        match sequence_of(text) {
            Some(number) if in_range(Some(number)) => call_ensures(
                self.mask_oracle(),
                (number,),
                mask.0,
            ),
            _ => mask.0 == ALL_KEYS,
        }
    }

    /// Whether at most one word is left: the mask of following keys has at
    /// most one key in it.
    pub open spec fn is_final(&self) -> bool {
        mask_is_final(self.input_mask().0)
    }

    /// The button shows whether the word can be confirmed: it is enabled and
    /// carries the confirm icon exactly if at most one word is left.
    pub open spec fn button_follows_mask(&self) -> bool {
        &&& self.button().id() == INPUT_ID
        &&& self.button().enabled() == self.is_final()
        &&& self.button().style() == if self.is_final() {
            ButtonStyle::Confirm
        } else {
            ButtonStyle::Default
        }
        &&& self.button().content() == if self.is_final() {
            ButtonContent::Icon(Icon::Confirm)
        } else {
            ButtonContent::Empty
        }
    }

    /// Whether the button of `self` differs from that of `after` in what it
    /// shows or in whether it takes clicks.
    pub open spec fn button_differs(&self, after: &Self) -> bool {
        ||| self.button().enabled() != after.button().enabled()
        ||| self.button().style() != after.button().style()
        ||| self.button().content() != after.button().content()
    }

    /// Whether `event` is the timer of the pending key. The timer of a key
    /// that is pending no longer is none.
    pub open spec fn is_timeout(&self, event: Event) -> bool {
        event matches Event::Timer(fired) && self.pending() matches Some(pending) && pending.timer
            == fired
    }

    /// `self` has the timeout and the dictionary of `other`.
    pub open spec fn same_setup(&self, other: &Self) -> bool {
        &&& self.multi_tap().timeout_ms() == other.multi_tap().timeout_ms()
        &&& self.word_oracle() == other.word_oracle()
        &&& self.mask_oracle() == other.mask_oracle()
    }

    /// The area is ready for use: its dictionary answers every number that it
    /// is asked about, its button answers the identifier of the input area, a
    /// pending key is given up after one second, and the digits are no more
    /// than the area can hold.
    pub open spec fn is_valid(&self) -> bool {
        &&& self.oracles_total()
        &&& self.button().id() == INPUT_ID
        &&& self.text().len() <= MAX_LENGTH
        &&& self.multi_tap().timeout_ms() == MULTI_TAP_TIMEOUT_MS
    }

    /// Handling `event` leads from `self` under `ctx` to `after` under
    /// `ctx_after` with the message `msg`. The timer of the pending key drops
    /// the pending key and is answered with `TimedOut`; the digit of the key
    /// stays. Any other timer is passed over. A click on the area confirms
    /// the word if at most one word is left, and is passed over if not. What
    /// is passed over changes nothing.
    pub open spec fn answers(
        &self,
        ctx: EventCtx,
        event: Event,
        after: Self,
        ctx_after: EventCtx,
        msg: Option<MnemonicInputMsg>,
    ) -> bool {
        if self.is_timeout(event) {
            &&& after.pending() is None
            &&& after.text() == self.text()
            &&& after.final_word() == self.final_word()
            &&& after.input_mask() == self.input_mask()
            &&& after.button() == self.button()
            &&& after.same_setup(self)
            &&& ctx_after.is_with_paint(ctx)
            &&& msg == Some(MnemonicInputMsg::TimedOut)
        } else {
            &&& after == *self
            &&& ctx_after == ctx
            &&& msg == if self.button().is_clicked_by(event) && self.is_final() {
                Some(MnemonicInputMsg::Confirmed)
            } else {
                None
            }
        }
    }

    /// The word that is shown in place of the digits: the word that the
    /// dictionary resolved the digits to, once at most one word is left.
    pub open spec fn shown_word(&self) -> Option<&'static [u8]> {
        if self.is_final() {
            self.final_word()
        } else {
            None
        }
    }

    /// `paint` is what the area shows. Once at most one word is left, the
    /// word that the digits resolve to is shown. Before that, a placeholder
    /// is shown for each digit; while a key is pending, its current symbol is
    /// shown in place of the last placeholder, with the pending marker under
    /// it.
    pub open spec fn is_shown_as(&self, paint: InputPaint) -> bool {
        &&& paint.text@ == match self.shown_word() {
            Some(word) => replaced(Seq::<u8>::empty(), word@),
            None => match self.pending() {
                Some(pending) if pending.key < MNEMONIC_KEY_COUNT => with_last_replaced(
                    placeholders(self.text().len()),
                    pending_symbol(pending),
                ),
                _ => placeholders(self.text().len()),
            },
        }
        &&& paint.completion@ == Seq::<u8>::empty()
        &&& paint.pending_marker == (self.pending() is Some && self.shown_word() is None
            && paint.text@.len() > 0)
        &&& paint.button == self.button()
    }

    /// `after` and `ctx_after` are what stands after the dictionary was asked
    /// about the digits of `after`: word and mask are the dictionary's, the
    /// button follows the mask, and a repaint is requested if it was before,
    /// if `shown` holds, or if the button changed.
    pub open spec fn is_completed_into(
        &self,
        ctx: EventCtx,
        after: &Self,
        ctx_after: EventCtx,
        shown: bool,
    ) -> bool {
        &&& after.same_setup(self)
        &&& after.is_word_of(after.final_word(), after.text())
        &&& after.is_mask_of(after.input_mask(), after.text())
        &&& after.button_follows_mask()
        &&& ctx_after.paint_requested() == (ctx.paint_requested() || shown || self.button_differs(
            after,
        ))
    }

    /// A click on key `key` leads from `self` under `ctx` to `after` under
    /// `ctx_after`: a key that is not pending enters its digit; either way
    /// the key becomes the pending key with a fresh timer, and the dictionary
    /// is asked about the digits.
    pub open spec fn key_clicked(
        &self,
        ctx: EventCtx,
        key: usize,
        after: &Self,
        ctx_after: EventCtx,
    ) -> bool {
        let symbols = key_symbols(key as int);
        let repeat = self.multi_tap().is_repeat(key);
        &&& after.text() == if repeat {
            self.text()
        } else {
            with_appended(self.text(), digit_of(key as int))
        }
        &&& after.pending() == Some(
            Pending {
                key,
                char: self.multi_tap().tapped_char(key, symbols.len()),
                timer: ctx.issued_token(),
            },
        )
        &&& ctx_after.has_one_more_timer(ctx, self.multi_tap().timeout_ms())
        &&& self.is_completed_into(
            ctx,
            after,
            ctx_after,
            !repeat && self.text().len() < MAX_LENGTH,
        )
    }

    /// A click on the backspace button leads from `self` under `ctx` to
    /// `after` under `ctx_after`: the pending key and the last digit are
    /// dropped, and the dictionary is asked about the digits.
    pub open spec fn backspace_clicked(&self, ctx: EventCtx, after: &Self, ctx_after: EventCtx) -> bool {
        &&& after.text() == without_last(self.text())
        &&& after.pending() is None
        &&& ctx_after.has_same_timers(ctx)
        &&& self.is_completed_into(
            ctx,
            after,
            ctx_after,
            self.text().len() > 0 || self.pending() is Some,
        )
    }

    /// An empty input area over the given dictionary: every key can follow.
    pub fn new(word_oracle: W, mask_oracle: M) -> (input: Self)
        requires
            forall|number: u16|
                MIN_SEQUENCE <= number <= MAX_SEQUENCE ==> #[trigger] call_requires(
                    word_oracle,
                    (number,),
                ),
            forall|number: u16|
                MIN_SEQUENCE <= number <= MAX_SEQUENCE ==> #[trigger] call_requires(
                    mask_oracle,
                    (number,),
                ),
        ensures
            input.inv(),
            input.is_valid(),
            input.button().is_plain(INPUT_ID, ButtonContent::Empty),
            input.text() == Seq::<u8>::empty(),
            input.pending() is None,
            input.final_word() is None,
            input.input_mask().0 == ALL_KEYS,
            input.multi_tap().timeout_ms() == MULTI_TAP_TIMEOUT_MS,
            input.word_oracle() == word_oracle,
            input.mask_oracle() == mask_oracle,
    {
        Slip39Input {
            button: Button::empty(INPUT_ID),
            textbox: TextBox::empty(),
            multi_tap: MultiTapKeyboard::new(),
            final_word: None,
            input_mask: Slip39Mask::full(),
            word_oracle,
            mask_oracle,
        }
    }

    /// Whether a press on key `key` can lead to a word: the pending key
    /// always can, so that a started cycle can be finished; any other key can
    /// if the dictionary has it among the keys that can follow.
    pub fn can_key_press_lead_to_a_valid_word(&self, key: usize) -> (can: bool)
        requires
            key < MNEMONIC_KEY_COUNT,
        ensures
            can == (self.multi_tap().is_repeat(key) || mask_has_key(
                self.input_mask().0,
                key as int,
            )),
    {
        let key_is_pending = match self.multi_tap.pending_key() {
            Some(pending_key) => pending_key == key,
            None => false,
        };
        key_is_pending || self.input_mask.contains_key(key)
    }

    /// Whether no digit is entered.
    pub fn is_empty(&self) -> (empty: bool)
        ensures
            empty == (self.text().len() == 0),
    {
        self.textbox.is_empty()
    }

    /// The number that the entered digits form, if they form one.
    pub fn input_sequence(&self) -> (sequence: Option<u16>)
        ensures
            sequence == sequence_of(self.text()),
    {
        parse_sequence(self.textbox.content())
    }

    /// Ask the dictionary about the entered digits, keep its answers, and let
    /// the button show whether the word can be confirmed.
    pub fn complete_word_from_dictionary(&mut self, ctx: &mut EventCtx)
        requires
            old(self).is_valid(),
        ensures
            final(self).is_valid(),
            final(self).inv(),
            final(self).text() == old(self).text(),
            final(self).multi_tap() == old(self).multi_tap(),
            final(ctx).has_same_timers(*old(ctx)),
            old(self).is_completed_into(*old(ctx), final(self), *final(ctx), false),
    {
        let sequence = match self.input_sequence() {
            Some(number) if MIN_SEQUENCE <= number && number <= MAX_SEQUENCE => Some(number),
            _ => None,
        };
        match sequence {
            Some(number) => {
                assert(call_requires(self.word_oracle(), (number,)));
                assert(call_requires(self.mask_oracle(), (number,)));
                self.final_word = (self.word_oracle)(number);
                self.input_mask = Slip39Mask((self.mask_oracle)(number));
            },
            None => {
                self.final_word = None;
                self.input_mask = Slip39Mask::full();
            },
        }
        if self.input_mask.is_final() {
            self.button.enable(ctx);
            self.button.set_stylesheet(ctx, ButtonStyle::Confirm);
            self.button.set_content(ctx, ButtonContent::Icon(Icon::Confirm));
        } else {
            self.button.disable(ctx);
            self.button.set_stylesheet(ctx, ButtonStyle::Default);
            self.button.set_content(ctx, ButtonContent::Empty);
        }
        assert(self.word_oracle() == old(self).word_oracle());
        assert(self.mask_oracle() == old(self).mask_oracle());
    }

    /// Key `key` was clicked. A key that is not pending enters its digit; a
    /// pending key only steps to its next symbol, which is shown and enters
    /// nothing. Then the dictionary is asked about the digits.
    pub fn on_key_click(&mut self, ctx: &mut EventCtx, key: usize)
        requires
            old(self).is_valid(),
            key < MNEMONIC_KEY_COUNT,
        ensures
            final(self).is_valid(),
            final(self).inv(),
            old(self).key_clicked(*old(ctx), key, final(self), *final(ctx)),
    {
        let edit = self.multi_tap.click_key(ctx, key, key_text(key));
        if let TextEdit::Append(_) = edit {
            self.textbox.append(ctx, key_digit(key));
        }
        assert(self.word_oracle() == old(self).word_oracle());
        assert(self.mask_oracle() == old(self).mask_oracle());
        self.complete_word_from_dictionary(ctx);
    }

    /// The backspace button was clicked: drop the pending key and the last
    /// digit, and ask the dictionary about the digits.
    pub fn on_backspace_click(&mut self, ctx: &mut EventCtx)
        requires
            old(self).is_valid(),
        ensures
            final(self).is_valid(),
            final(self).inv(),
            old(self).backspace_clicked(*old(ctx), final(self), *final(ctx)),
    {
        self.multi_tap.clear_pending_state(ctx);
        self.textbox.delete_last(ctx);
        assert(self.word_oracle() == old(self).word_oracle());
        assert(self.mask_oracle() == old(self).mask_oracle());
        self.complete_word_from_dictionary(ctx);
    }
}

impl<W: Fn(u16) -> Option<&'static [u8]>, M: Fn(u16) -> u16> Component for Slip39Input<W, M> {
    type Msg = MnemonicInputMsg;

    type Paint = InputPaint;

    open spec fn inv(&self) -> bool {
        self.is_valid()
    }

    open spec fn handles(
        &self,
        ctx: EventCtx,
        event: Event,
        after: Self,
        ctx_after: EventCtx,
        msg: Option<MnemonicInputMsg>,
    ) -> bool {
        self.answers(ctx, event, after, ctx_after, msg)
    }

    open spec fn paints(&self, paint: InputPaint) -> bool {
        self.is_shown_as(paint)
    }

    fn event(&mut self, ctx: &mut EventCtx, event: Event) -> (msg: Option<MnemonicInputMsg>)
        ensures
            final(self).is_valid(),
            old(self).answers(*old(ctx), event, *final(self), *final(ctx), msg),
    {
        let timed_out = match (event, self.multi_tap.pending_timer()) {
            (Event::Timer(fired), Some(pending)) => fired == pending,
            _ => false,
        };
        if timed_out {
            self.multi_tap.clear_pending_state(ctx);
            assert(self.word_oracle() == old(self).word_oracle());
            assert(self.mask_oracle() == old(self).mask_oracle());
            return Some(MnemonicInputMsg::TimedOut);
        }
        if let Some(ButtonMsg::Clicked) = self.button.event(ctx, event) {
            if self.input_mask.is_final() {
                return Some(MnemonicInputMsg::Confirmed);
            }
        }
        None
    }

    fn paint(&self) -> (paint: InputPaint)
        ensures
            self.is_shown_as(paint),
    {
        let shown_word = if self.input_mask.is_final() {
            self.final_word
        } else {
            None
        };
        let mut text = buffer_new();
        match shown_word {
            Some(word) => {
                let _ = buffer_extend_from_slice(&mut text, word);
                assert(Seq::<u8>::empty() + word@ =~= word@);
            },
            None => {
                let digits = self.textbox.content().len();
                let mut index: usize = 0;
                while index < digits
                    invariant
                        index <= digits <= MAX_LENGTH,
                        buffer_bytes(text) == placeholders(index as nat),
                    decreases digits - index,
                {
                    let _ = buffer_push(&mut text, PLACEHOLDER);
                    assert(buffer_bytes(text) =~= placeholders((index + 1) as nat));
                    index += 1;
                }
                match (self.multi_tap.pending_key(), self.multi_tap.pending_char()) {
                    (Some(key), Some(char)) => {
                        if key < MNEMONIC_KEY_COUNT {
                            let symbols = key_text(key);
                            let symbol = symbols[char % symbols.len()];
                            let ghost stars = buffer_bytes(text);
                            let _ = buffer_pop(&mut text);
                            let _ = buffer_push(&mut text, symbol);
                            assert(symbol == pending_symbol(self.pending()->0));
                            assert(buffer_bytes(text) =~= with_last_replaced(stars, symbol));
                        }
                    },
                    _ => {},
                }
            },
        }
        let text = slice_to_vec(buffer_as_slice(&text));
        let pending_marker = self.multi_tap.pending_key().is_some() && shown_word.is_none()
            && text.len() > 0;
        InputPaint { text, completion: Vec::new(), pending_marker, button: self.button }
    }
}

impl<W: Fn(u16) -> Option<&'static [u8]>, M: Fn(u16) -> u16> Slip39Input<W, M> {
    /// A word is confirmed only while at most one word is left: while the
    /// mask of following keys has at most one key in it.
    pub proof fn lemma_confirmed_only_when_final(
        input: Self,
        ctx: EventCtx,
        event: Event,
        after: Self,
        ctx_after: EventCtx,
        msg: Option<MnemonicInputMsg>,
    )
        requires
            input.answers(ctx, event, after, ctx_after, msg),
        ensures
            msg == Some(MnemonicInputMsg::Confirmed) <==> !input.is_timeout(event)
                && input.button().is_clicked_by(event) && input.is_final(),
            msg == Some(MnemonicInputMsg::Confirmed) ==> after == input && ctx_after == ctx,
    {
    }

    /// The timer of the pending key drops the pending key and leaves the
    /// entered digits as they are.
    pub proof fn lemma_timeout_keeps_digits(
        input: Self,
        ctx: EventCtx,
        fired: TimerToken,
        after: Self,
        ctx_after: EventCtx,
        msg: Option<MnemonicInputMsg>,
    )
        requires
            input.pending() matches Some(pending) && pending.timer == fired,
            input.answers(ctx, Event::Timer(fired), after, ctx_after, msg),
        ensures
            after.text() == input.text(),
            after.pending() is None,
            msg == Some(MnemonicInputMsg::TimedOut),
    {
    }

    /// A timer that is not the timer of the pending key changes nothing.
    pub proof fn lemma_stale_timer_is_ignored(
        input: Self,
        ctx: EventCtx,
        fired: TimerToken,
        after: Self,
        ctx_after: EventCtx,
        msg: Option<MnemonicInputMsg>,
    )
        requires
            !(input.pending() matches Some(pending) && pending.timer == fired),
            input.answers(ctx, Event::Timer(fired), after, ctx_after, msg),
        ensures
            after == input,
            ctx_after == ctx,
            msg is None,
    {
    }

    /// While more than one word is left, no word is shown, whatever the
    /// dictionary gave: each digit shows as a placeholder, but for the
    /// symbol of the pending key.
    pub proof fn lemma_word_is_shown_only_when_final(input: Self, paint: InputPaint)
        requires
            input.is_valid(),
            !input.is_final(),
            input.is_shown_as(paint),
        ensures
            paint.text@ == match input.pending() {
                Some(pending) if pending.key < MNEMONIC_KEY_COUNT => with_last_replaced(
                    placeholders(input.text().len()),
                    pending_symbol(pending),
                ),
                _ => placeholders(input.text().len()),
            },
    {
    }

    /// A click on a key asks for one timer of one second, under the token
    /// that the context hands out next, and makes the key the pending key
    /// with that timer.
    pub proof fn lemma_key_click_arms_timer(
        input: Self,
        ctx: EventCtx,
        key: usize,
        after: Self,
        ctx_after: EventCtx,
    )
        requires
            input.is_valid(),
            key < MNEMONIC_KEY_COUNT,
            input.key_clicked(ctx, key, &after, ctx_after),
        ensures
            ctx_after.timers() == ctx.timers().push(
                TimerRequest { token: ctx.issued_token(), delay_ms: MULTI_TAP_TIMEOUT_MS },
            ),
            after.pending() matches Some(pending) && pending.key == key && pending.timer
                == ctx.issued_token(),
    {
    }

    /// A click on a key that is not pending multiplies the entered number by
    /// ten and adds the digit of the key, its index and one; a click on the
    /// pending key leaves the number as it is.
    pub proof fn lemma_key_click_enters_digit(
        input: Self,
        ctx: EventCtx,
        key: usize,
        after: Self,
        ctx_after: EventCtx,
    )
        requires
            key < MNEMONIC_KEY_COUNT,
            input.text().len() < MAX_LENGTH,
            input.key_clicked(ctx, key, &after, ctx_after),
        ensures
            digits_value(after.text()) == if input.multi_tap().is_repeat(key) {
                digits_value(input.text())
            } else {
                10 * digits_value(input.text()) + key + 1
            },
    {
        lemma_digit_entered(input.text(), key as int);
    }
}

} // verus!
