//! The bounded text buffer that collects raw input units.

use crate::component::EventCtx;
use vstd::prelude::*;

verus! {

/// The most units a `TextBox` holds: the length of the longest word or digit
/// sequence that can be entered.
pub const MAX_LENGTH: usize = 8;

/// `heapless::Vec`, the fixed-capacity vector that backs the text box. Its
/// fields stay hidden.
#[verifier::external_type_specification]
#[verifier::external_body]
#[verifier::reject_recursive_types(T)]
pub struct ExHeaplessVec<T, const N: usize>(heapless::Vec<T, N>);

/// The bytes that a buffer holds, first to last.
pub uninterp spec fn buffer_bytes(buffer: heapless::Vec<u8, MAX_LENGTH>) -> Seq<u8>;

/// `heapless::Vec::new`: a buffer that holds nothing.
#[verifier::external_body]
pub(crate) fn buffer_new() -> (buffer: heapless::Vec<u8, MAX_LENGTH>)
    ensures
        buffer_bytes(buffer) == Seq::<u8>::empty(),
{
    heapless::Vec::new()
}

/// `heapless::Vec::as_slice`: the held bytes as a slice. A buffer never holds
/// more than its capacity.
#[verifier::external_body]
pub(crate) fn buffer_as_slice(buffer: &heapless::Vec<u8, MAX_LENGTH>) -> (bytes: &[u8])
    ensures
        bytes@ == buffer_bytes(*buffer),
        bytes@.len() <= MAX_LENGTH,
{
    buffer.as_slice()
}

/// `heapless::Vec::is_empty`: whether the buffer holds no byte.
#[verifier::external_body]
fn buffer_is_empty(buffer: &heapless::Vec<u8, MAX_LENGTH>) -> (empty: bool)
    ensures
        empty == (buffer_bytes(*buffer).len() == 0),
{
    buffer.is_empty()
}

/// `heapless::Vec::push`: appends `byte` while there is room; a full buffer is
/// left as it is and hands the byte back.
#[verifier::external_body]
pub(crate) fn buffer_push(
    buffer: &mut heapless::Vec<u8, MAX_LENGTH>,
    byte: u8,
) -> (rejected: Option<u8>)
    ensures
        rejected is None == (buffer_bytes(*old(buffer)).len() < MAX_LENGTH),
        rejected is None ==> buffer_bytes(*final(buffer)) == buffer_bytes(*old(buffer)).push(byte),
        rejected is Some ==> rejected == Some(byte) && buffer_bytes(*final(buffer)) == buffer_bytes(
            *old(buffer),
        ),
    no_unwind
{
    buffer.push(byte).err()
}

/// `heapless::Vec::pop`: removes and returns the last byte; `None` on an empty
/// buffer, which stays empty.
#[verifier::external_body]
pub(crate) fn buffer_pop(buffer: &mut heapless::Vec<u8, MAX_LENGTH>) -> (popped: Option<u8>)
    ensures
        buffer_bytes(*old(buffer)).len() == 0 ==> popped is None && buffer_bytes(*final(buffer))
            == buffer_bytes(*old(buffer)),
        buffer_bytes(*old(buffer)).len() > 0 ==> popped == Some(buffer_bytes(*old(buffer)).last())
            && buffer_bytes(*final(buffer)) == buffer_bytes(*old(buffer)).drop_last(),
    no_unwind
{
    buffer.pop()
}

/// `heapless::Vec::clear`: removes every byte.
#[verifier::external_body]
fn buffer_clear(buffer: &mut heapless::Vec<u8, MAX_LENGTH>)
    ensures
        buffer_bytes(*final(buffer)) == Seq::<u8>::empty(),
    no_unwind
{
    buffer.clear()
}

/// `heapless::Vec::extend_from_slice`: appends all of `bytes` if they fit
/// beside what is held; otherwise changes nothing and reports an error.
#[verifier::external_body]
pub(crate) fn buffer_extend_from_slice(
    buffer: &mut heapless::Vec<u8, MAX_LENGTH>,
    bytes: &[u8],
) -> (extended: bool)
    ensures
        extended == (buffer_bytes(*old(buffer)).len() + bytes@.len() <= MAX_LENGTH),
        extended ==> buffer_bytes(*final(buffer)) == buffer_bytes(*old(buffer)) + bytes@,
        !extended ==> buffer_bytes(*final(buffer)) == buffer_bytes(*old(buffer)),
    no_unwind
{
    buffer.extend_from_slice(bytes).is_ok()
}

/// Whether two byte strings are the same.
pub fn bytes_equal(left: &[u8], right: &[u8]) -> (equal: bool)
    ensures
        equal == (left@ == right@),
{
    if left.len() != right.len() {
        return false;
    }
    let mut index: usize = 0;
    while index < left.len()
        invariant
            left@.len() == right@.len(),
            index <= left@.len(),
            forall|i: int| 0 <= i < index ==> left@[i] == right@[i],
        decreases left@.len() - index,
    {
        if left[index] != right[index] {
            return false;
        }
        index += 1;
    }
    assert(left@ =~= right@);
    true
}

/// One edit of a text box: a single unit, put at the end or in place of the
/// last one.
#[derive(Clone, Copy, Debug, PartialEq, Eq, Structural)]
pub enum TextEdit {
    /// Put the unit in place of the last one.
    ReplaceLast(u8),
    /// Put the unit behind the last one.
    Append(u8),
}

/// What `text` becomes when its last unit gives way to `unit`; an empty text
/// takes the unit as its first.
pub open spec fn with_last_replaced(text: Seq<u8>, unit: u8) -> Seq<u8> {
    if text.len() > 0 {
        text.drop_last().push(unit)
    } else {
        seq![unit]
    }
}

/// What `text` becomes when `unit` is appended: a full text drops the unit.
pub open spec fn with_appended(text: Seq<u8>, unit: u8) -> Seq<u8> {
    if text.len() < MAX_LENGTH {
        text.push(unit)
    } else {
        text
    }
}

/// What `text` becomes without its last unit.
pub open spec fn without_last(text: Seq<u8>) -> Seq<u8> {
    if text.len() > 0 {
        text.drop_last()
    } else {
        text
    }
}

/// What a text box that holds `held` holds after it was asked to hold `text`
/// instead: a text that does not fit is dropped, and the content stays.
pub open spec fn replaced(held: Seq<u8>, text: Seq<u8>) -> Seq<u8> {
    if text.len() <= MAX_LENGTH {
        text
    } else {
        held
    }
}

/// What `text` becomes under `edit`.
pub open spec fn edited(text: Seq<u8>, edit: TextEdit) -> Seq<u8> {
    match edit {
        TextEdit::ReplaceLast(unit) => with_last_replaced(text, unit),
        TextEdit::Append(unit) => with_appended(text, unit),
    }
}

/// Whether `edit` changes what is shown for `text`. Appending counts while
/// there is room for the unit, replacing when the unit differs.
pub open spec fn edit_shows(text: Seq<u8>, edit: TextEdit) -> bool {
    match edit {
        TextEdit::ReplaceLast(unit) => text.len() == 0 || text.last() != unit,
        TextEdit::Append(_) => text.len() < MAX_LENGTH,
    }
}

/// A buffer of at most `MAX_LENGTH` input units with editing operations. Each
/// operation that changes what is shown asks for a repaint.
pub struct TextBox {
    text: heapless::Vec<u8, MAX_LENGTH>,
}

impl View for TextBox {
    type V = Seq<u8>;

    closed spec fn view(&self) -> Seq<u8> {
        buffer_bytes(self.text)
    }
}

impl TextBox {
    /// The content never exceeds the capacity.
    #[verifier::type_invariant]
    spec fn fits(&self) -> bool {
        buffer_bytes(self.text).len() <= MAX_LENGTH
    }

    /// A text box that holds what `text` holds.
    pub fn new(text: heapless::Vec<u8, MAX_LENGTH>) -> (textbox: Self)
        ensures
            textbox@ == buffer_bytes(text),
    {
        let _ = buffer_as_slice(&text);
        TextBox { text }
    }

    /// An empty text box.
    pub fn empty() -> (textbox: Self)
        ensures
            textbox@ == Seq::<u8>::empty(),
    {
        TextBox { text: buffer_new() }
    }

    /// The units held, first to last. Never more than `MAX_LENGTH`.
    pub fn content(&self) -> (content: &[u8])
        ensures
            content@ == self@,
            content@.len() <= MAX_LENGTH,
    {
        buffer_as_slice(&self.text)
    }

    /// Whether nothing is held.
    pub fn is_empty(&self) -> (empty: bool)
        ensures
            empty == (self@.len() == 0),
    {
        buffer_is_empty(&self.text)
    }

    /// Delete the last unit, if there is one. Asks for a repaint if there was.
    pub fn delete_last(&mut self, ctx: &mut EventCtx)
        ensures
            final(self)@ == without_last(old(self)@),
            final(ctx).is_with_paint_if(*old(ctx), old(self)@.len() > 0),
    {
        proof {
            use_type_invariant(&*self);
        }
        let changed = buffer_pop(&mut self.text).is_some();
        if changed {
            ctx.request_paint();
        }
    }

    /// Put `unit` in place of the last unit; an empty box takes it as its
    /// first. Asks for a repaint if the content changed.
    pub fn replace_last(&mut self, ctx: &mut EventCtx, unit: u8)
        ensures
            final(self)@ == with_last_replaced(old(self)@, unit),
            final(ctx).is_with_paint_if(
                *old(ctx),
                edit_shows(old(self)@, TextEdit::ReplaceLast(unit)),
            ),
    {
        proof {
            use_type_invariant(&*self);
        }
        let previous = buffer_pop(&mut self.text);
        let _ = buffer_push(&mut self.text, unit);
        let changed = match previous {
            Some(last) => last != unit,
            None => true,
        };
        if changed {
            ctx.request_paint();
        }
    }

    /// Put `unit` behind the last unit, and ask for a repaint. A full box
    /// drops the unit, and nothing happens.
    pub fn append(&mut self, ctx: &mut EventCtx, unit: u8)
        ensures
            final(self)@ == with_appended(old(self)@, unit),
            final(ctx).is_with_paint_if(*old(ctx), old(self)@.len() < MAX_LENGTH),
    {
        proof {
            use_type_invariant(&*self);
        }
        if buffer_push(&mut self.text, unit).is_none() {
            ctx.request_paint();
        }
    }

    /// Hold `text` in place of the current content, and ask for a repaint if
    /// that is a change. A text longer than `MAX_LENGTH` is dropped, and
    /// nothing happens.
    pub fn replace(&mut self, ctx: &mut EventCtx, text: &[u8])
        ensures
            final(self)@ == replaced(old(self)@, text@),
            final(ctx).is_with_paint_if(
                *old(ctx),
                text@.len() <= MAX_LENGTH && old(self)@ != text@,
            ),
    {
        if text.len() <= MAX_LENGTH && !bytes_equal(buffer_as_slice(&self.text), text) {
            buffer_clear(&mut self.text);
            let _ = buffer_extend_from_slice(&mut self.text, text);
            assert(Seq::<u8>::empty() + text@ =~= text@);
            ctx.request_paint();
        }
    }

    /// Drop the whole content. Asks for a repaint if there was any.
    pub fn clear(&mut self, ctx: &mut EventCtx)
        ensures
            final(self)@ == Seq::<u8>::empty(),
            final(ctx).is_with_paint_if(*old(ctx), old(self)@.len() > 0),
    {
        let nothing: [u8; 0] = [];
        assert(nothing@ =~= Seq::<u8>::empty());
        assert(old(self)@.len() == 0 ==> old(self)@ =~= nothing@);
        self.replace(ctx, nothing.as_slice());
    }

    /// Carry out one edit.
    pub fn apply(&mut self, ctx: &mut EventCtx, edit: TextEdit)
        ensures
            final(self)@ == edited(old(self)@, edit),
            final(ctx).is_with_paint_if(*old(ctx), edit_shows(old(self)@, edit)),
    {
        match edit {
            TextEdit::ReplaceLast(unit) => self.replace_last(ctx, unit),
            TextEdit::Append(unit) => self.append(ctx, unit),
        }
    }
}

} // verus!
