use mnemonic_keyboard::component::{EventCtx, TimerToken};
use mnemonic_keyboard::multi_tap::{MultiTapKeyboard, MULTI_TAP_TIMEOUT_MS};
use mnemonic_keyboard::textbox::{bytes_equal, TextBox, TextEdit, MAX_LENGTH};

fn textbox(content: &[u8]) -> TextBox {
    TextBox::new(heapless::Vec::from_slice(content).unwrap())
}

#[test]
fn timer_tokens_differ() {
    let mut ctx = EventCtx::new();
    let a = ctx.request_timer(1000);
    let b = ctx.request_timer(1000);
    assert_ne!(a, b);
    assert_eq!(a, TimerToken::from_raw(a.into_raw()));
    assert_eq!(b.into_raw(), a.into_raw() + 1);
}

#[test]
fn event_ctx_keeps_requests_until_taken() {
    let mut ctx = EventCtx::new();
    assert!(!ctx.is_paint_requested());
    assert!(ctx.pop_timer().is_none());
    ctx.request_paint();
    ctx.request_paint();
    assert!(ctx.is_paint_requested());
    let first = ctx.request_timer(10);
    let second = ctx.request_timer(20);
    let taken = ctx.pop_timer().unwrap();
    assert_eq!(taken.token, second);
    assert_eq!(taken.delay_ms, 20);
    let taken = ctx.pop_timer().unwrap();
    assert_eq!(taken.token, first);
    assert_eq!(taken.delay_ms, 10);
    assert!(ctx.pop_timer().is_none());
    assert!(ctx.is_paint_requested());
    ctx.clear_paint_requests();
    assert!(!ctx.is_paint_requested());
}

#[test]
fn textbox_starts_empty() {
    let empty = TextBox::empty();
    assert!(empty.is_empty());
    assert_eq!(empty.content(), b"");
    assert_eq!(MAX_LENGTH, 8);
}

#[test]
fn textbox_new_holds_the_given_text() {
    let full = textbox(b"abcdefgh");
    assert!(!full.is_empty());
    assert_eq!(full.content(), b"abcdefgh");
}

#[test]
fn append_adds_one_unit_and_asks_for_repaint() {
    let mut ctx = EventCtx::new();
    let mut text = TextBox::empty();
    text.append(&mut ctx, b'a');
    assert_eq!(text.content(), b"a");
    assert!(ctx.is_paint_requested());
    text.append(&mut ctx, b'b');
    assert_eq!(text.content(), b"ab");
}

#[test]
fn append_to_a_full_textbox_is_dropped() {
    let mut ctx = EventCtx::new();
    let mut text = textbox(b"abcdefgh");
    text.append(&mut ctx, b'i');
    assert_eq!(text.content(), b"abcdefgh");
    assert!(!ctx.is_paint_requested());
}

#[test]
fn replace_last_replaces_or_appends() {
    let mut ctx = EventCtx::new();
    let mut text = TextBox::empty();
    text.replace_last(&mut ctx, b'x');
    assert_eq!(text.content(), b"x");
    assert!(ctx.is_paint_requested());
    ctx.clear_paint_requests();
    text.replace_last(&mut ctx, b'x');
    assert_eq!(text.content(), b"x");
    assert!(!ctx.is_paint_requested());
    text.replace_last(&mut ctx, b'y');
    assert_eq!(text.content(), b"y");
    assert!(ctx.is_paint_requested());
    let mut full = textbox(b"abcdefgh");
    full.replace_last(&mut ctx, b'z');
    assert_eq!(full.content(), b"abcdefgz");
}

#[test]
fn delete_last_removes_one_unit() {
    let mut ctx = EventCtx::new();
    let mut text = textbox(b"ab");
    text.delete_last(&mut ctx);
    assert_eq!(text.content(), b"a");
    assert!(ctx.is_paint_requested());
    text.delete_last(&mut ctx);
    assert!(text.is_empty());
    ctx.clear_paint_requests();
    text.delete_last(&mut ctx);
    assert!(text.is_empty());
    assert!(!ctx.is_paint_requested());
}

#[test]
fn replace_changes_only_what_differs() {
    let mut ctx = EventCtx::new();
    let mut text = textbox(b"am");
    text.replace(&mut ctx, b"am");
    assert_eq!(text.content(), b"am");
    assert!(!ctx.is_paint_requested());
    text.replace(&mut ctx, b"amount");
    assert_eq!(text.content(), b"amount");
    assert!(ctx.is_paint_requested());
}

#[test]
fn replace_with_a_text_that_does_not_fit_changes_nothing() {
    let mut ctx = EventCtx::new();
    let mut text = textbox(b"am");
    text.replace(&mut ctx, b"amountabc");
    assert_eq!(text.content(), b"am");
    assert!(!ctx.is_paint_requested());
    let mut empty = TextBox::empty();
    empty.replace(&mut ctx, b"amountabc");
    assert_eq!(empty.content(), b"");
    assert!(!ctx.is_paint_requested());
}

#[test]
fn replace_takes_a_text_of_full_length() {
    let mut ctx = EventCtx::new();
    let mut text = textbox(b"am");
    text.replace(&mut ctx, b"abcdefgh");
    assert_eq!(text.content(), b"abcdefgh");
    assert!(ctx.is_paint_requested());
}

#[test]
fn clear_empties_the_box() {
    let mut ctx = EventCtx::new();
    let mut text = textbox(b"am");
    text.clear(&mut ctx);
    assert!(text.is_empty());
    assert!(ctx.is_paint_requested());
    ctx.clear_paint_requests();
    text.clear(&mut ctx);
    assert!(!ctx.is_paint_requested());
}

#[test]
fn apply_carries_out_the_edit() {
    let mut ctx = EventCtx::new();
    let mut text = TextBox::empty();
    text.apply(&mut ctx, TextEdit::Append(b'a'));
    text.apply(&mut ctx, TextEdit::Append(b'b'));
    text.apply(&mut ctx, TextEdit::ReplaceLast(b'c'));
    assert_eq!(text.content(), b"ac");
}

#[test]
fn bytes_equal_compares_contents() {
    assert!(bytes_equal(b"", b""));
    assert!(bytes_equal(b"abc", b"abc"));
    assert!(!bytes_equal(b"abc", b"abd"));
    assert!(!bytes_equal(b"abc", b"ab"));
}

#[test]
fn multi_tap_starts_without_pending_key() {
    let multi_tap = MultiTapKeyboard::new();
    assert_eq!(multi_tap.pending_key(), None);
    assert_eq!(multi_tap.pending_char(), None);
    assert_eq!(multi_tap.pending_timer(), None);
}

#[test]
fn first_tap_appends_and_arms_a_timer() {
    let mut ctx = EventCtx::new();
    let mut multi_tap = MultiTapKeyboard::new();
    let edit = multi_tap.click_key(&mut ctx, 4, b"mno");
    assert_eq!(edit, TextEdit::Append(b'm'));
    assert_eq!(multi_tap.pending_key(), Some(4));
    assert_eq!(multi_tap.pending_char(), Some(0));
    let request = ctx.pop_timer().unwrap();
    assert_eq!(multi_tap.pending_timer(), Some(request.token));
    assert_eq!(request.delay_ms, MULTI_TAP_TIMEOUT_MS);
    assert_eq!(request.delay_ms, 1000);
    assert!(!ctx.is_paint_requested());
}

#[test]
fn repeated_taps_cycle_through_the_key() {
    let mut ctx = EventCtx::new();
    let mut multi_tap = MultiTapKeyboard::new();
    let mut text = TextBox::empty();
    let expected: [&[u8]; 7] = [b"a", b"b", b"c", b"a", b"b", b"c", b"a"];
    for content in expected {
        let edit = multi_tap.click_key(&mut ctx, 0, b"abc");
        text.apply(&mut ctx, edit);
        assert_eq!(text.content(), content);
    }
    assert_eq!(multi_tap.pending_char(), Some(0));
}

#[test]
fn a_tap_on_another_key_appends() {
    let mut ctx = EventCtx::new();
    let mut multi_tap = MultiTapKeyboard::new();
    assert_eq!(multi_tap.click_key(&mut ctx, 0, b"abc"), TextEdit::Append(b'a'));
    assert_eq!(multi_tap.click_key(&mut ctx, 0, b"abc"), TextEdit::ReplaceLast(b'b'));
    assert_eq!(multi_tap.click_key(&mut ctx, 1, b"def"), TextEdit::Append(b'd'));
    assert_eq!(multi_tap.pending_key(), Some(1));
    assert_eq!(multi_tap.pending_char(), Some(0));
}

#[test]
fn each_tap_asks_for_a_new_timer() {
    let mut ctx = EventCtx::new();
    let mut multi_tap = MultiTapKeyboard::new();
    multi_tap.click_key(&mut ctx, 0, b"abc");
    let first = multi_tap.pending_timer().unwrap();
    multi_tap.click_key(&mut ctx, 0, b"abc");
    let second = multi_tap.pending_timer().unwrap();
    assert_ne!(first, second);
    assert_eq!(ctx.pop_timer().unwrap().token, second);
    assert_eq!(ctx.pop_timer().unwrap().token, first);
}

#[test]
fn a_key_with_one_symbol_is_never_pending() {
    let mut ctx = EventCtx::new();
    let mut multi_tap = MultiTapKeyboard::new();
    assert_eq!(multi_tap.click_key(&mut ctx, 2, b"x"), TextEdit::Append(b'x'));
    assert_eq!(multi_tap.pending_key(), None);
    assert!(ctx.pop_timer().is_none());
    assert_eq!(multi_tap.click_key(&mut ctx, 2, b"x"), TextEdit::Append(b'x'));
    // It also ends the cycle of another key.
    multi_tap.click_key(&mut ctx, 0, b"abc");
    multi_tap.click_key(&mut ctx, 2, b"x");
    assert_eq!(multi_tap.pending_key(), None);
}

#[test]
fn clear_pending_state_twice_is_clearing_once() {
    let mut ctx = EventCtx::new();
    let mut multi_tap = MultiTapKeyboard::new();
    multi_tap.click_key(&mut ctx, 0, b"abc");
    assert!(!ctx.is_paint_requested());
    multi_tap.clear_pending_state(&mut ctx);
    assert_eq!(multi_tap.pending_key(), None);
    assert!(ctx.is_paint_requested());
    ctx.clear_paint_requests();
    multi_tap.clear_pending_state(&mut ctx);
    assert_eq!(multi_tap.pending_key(), None);
    assert_eq!(multi_tap.pending_timer(), None);
    assert!(!ctx.is_paint_requested());
}
