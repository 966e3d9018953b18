use mnemonic_keyboard::bip39::{
    compute_mask, key_text, key_texts, Bip39Keyboard, Bip39KeyboardMsg, Bip39KeyboardPaint,
    ALL_LETTERS, KEY_COUNT, MAX_WORD_LEN,
};
use mnemonic_keyboard::button::{ButtonContent, ButtonStyle, Icon};
use mnemonic_keyboard::common::{array_map_enumerate, BACK_ID, INPUT_ID};
use mnemonic_keyboard::component::{Component, Event, EventCtx, TimerToken};
use mnemonic_keyboard::multi_tap::MULTI_TAP_TIMEOUT_MS;

const WORDS: [&[u8]; 6] = [b"abandon", b"able", b"amount", b"cat", b"cattle", b"zoo"];

fn complete_word(prefix: &[u8]) -> Option<&'static [u8]> {
    WORDS.iter().copied().find(|word| word.starts_with(prefix))
}

fn word_completion_mask(prefix: &[u8]) -> u32 {
    let mut mask = 0;
    for word in WORDS {
        if word.starts_with(prefix) && word.len() > prefix.len() {
            mask |= 1 << (word[prefix.len()] - b'a');
        }
    }
    mask
}

type Keyboard = Bip39Keyboard<fn(&[u8]) -> Option<&'static [u8]>, fn(&[u8]) -> u32>;

fn keyboard() -> Keyboard {
    Bip39Keyboard::new(
        b"Type word",
        complete_word as fn(&[u8]) -> Option<&'static [u8]>,
        word_completion_mask as fn(&[u8]) -> u32,
    )
}

fn text(paint: &Bip39KeyboardPaint) -> Vec<u8> {
    match &paint.input {
        Some(input) => input.text.clone(),
        None => Vec::new(),
    }
}

fn enabled(paint: &Bip39KeyboardPaint) -> Vec<bool> {
    paint.keys.iter().map(|key| key.is_enabled()).collect()
}

fn last_timer(ctx: &mut EventCtx) -> TimerToken {
    ctx.pop_timer().unwrap().token
}

fn click_key(keyboard: &mut Keyboard, ctx: &mut EventCtx, key: usize) {
    assert_eq!(keyboard.event(ctx, Event::Click(key)), None);
}

#[test]
fn key_layout_has_nine_keys_of_letters() {
    assert_eq!(KEY_COUNT, 9);
    assert_eq!(MAX_WORD_LEN, 8);
    let expected: [&[u8]; 9] = [
        b"abc", b"def", b"ghi", b"jkl", b"mno", b"pqr", b"stu", b"vwx", b"yz",
    ];
    assert_eq!(key_texts(), expected);
    for (key, letters) in expected.iter().enumerate() {
        assert_eq!(key_text(key), *letters);
    }
}

#[test]
fn compute_mask_sets_one_bit_per_letter() {
    assert_eq!(compute_mask(b""), 0);
    assert_eq!(compute_mask(b"a"), 1);
    assert_eq!(compute_mask(b"abc"), 0b111);
    assert_eq!(compute_mask(b"def"), 0b111000);
    assert_eq!(compute_mask(b"yz"), 0b11 << 24);
    assert_eq!(compute_mask(b"aa"), 1);
    assert_eq!(compute_mask(b"abcdefghijklmnopqrstuvwxyz"), ALL_LETTERS);
    assert_eq!(ALL_LETTERS, 0x3ff_ffff);
}

#[test]
fn array_map_enumerate_hands_index_and_element() {
    let mapped = array_map_enumerate([10u32, 20, 30], |index, element| {
        index as u32 + element
    });
    assert_eq!(mapped, [10, 21, 32]);
    let none: [u8; 0] = array_map_enumerate([0u8; 0], |_, element| element);
    assert_eq!(none, []);
}

#[test]
fn new_keyboard_shows_the_prompt_and_all_keys() {
    let keyboard = keyboard();
    let paint = keyboard.paint();
    assert_eq!(paint.prompt, Some(&b"Type word"[..]));
    assert!(paint.input.is_none());
    assert!(paint.back.is_none());
    assert_eq!(enabled(&paint), vec![true; 9]);
    for (key, button) in paint.keys.iter().enumerate() {
        assert!(matches!(button.shown_content(), ButtonContent::Text(text) if text == key_text(key)));
    }
}

#[test]
fn first_click_enters_the_first_letter_of_the_key() {
    let mut keyboard = keyboard();
    let mut ctx = EventCtx::new();
    click_key(&mut keyboard, &mut ctx, 0);
    assert!(ctx.is_paint_requested());
    let paint = keyboard.paint();
    // The prompt gives way to the input area and the backspace button.
    assert!(paint.prompt.is_none());
    let back = paint.back.unwrap();
    assert!(matches!(back.shown_content(), ButtonContent::Icon(Icon::Back)));
    assert_eq!(back.shown_style(), ButtonStyle::Clear);
    let input = paint.input.unwrap();
    assert_eq!(input.text, b"a");
    assert_eq!(input.completion, b"bandon");
    assert!(input.pending_marker);
    assert!(input.button.is_enabled());
}

#[test]
fn keys_follow_the_dictionary_and_the_pending_key() {
    let mut keyboard = keyboard();
    let mut ctx = EventCtx::new();
    click_key(&mut keyboard, &mut ctx, 0);
    // After "a" come "b" and "m": keys abc and mno. Key abc is pending, too.
    assert_eq!(
        enabled(&keyboard.paint()),
        vec![true, false, false, false, true, false, false, false, false]
    );
    click_key(&mut keyboard, &mut ctx, 4);
    // After "am" comes "o": key mno, which is pending as well.
    assert_eq!(text(&keyboard.paint()), b"am");
    assert_eq!(
        enabled(&keyboard.paint()),
        vec![false, false, false, false, true, false, false, false, false]
    );
}

#[test]
fn pending_key_stays_enabled_without_dictionary_support() {
    let mut keyboard = keyboard();
    let mut ctx = EventCtx::new();
    // "z", then "zo" through key mno: m, n, o.
    click_key(&mut keyboard, &mut ctx, 8);
    click_key(&mut keyboard, &mut ctx, 8);
    assert_eq!(text(&keyboard.paint()), b"z");
    click_key(&mut keyboard, &mut ctx, 4);
    assert_eq!(text(&keyboard.paint()), b"zm");
    // Nothing follows "zm", yet the pending key can still be cycled.
    assert_eq!(
        enabled(&keyboard.paint()),
        vec![false, false, false, false, true, false, false, false, false]
    );
    click_key(&mut keyboard, &mut ctx, 4);
    click_key(&mut keyboard, &mut ctx, 4);
    assert_eq!(text(&keyboard.paint()), b"zo");
}

#[test]
fn click_on_a_disabled_key_is_passed_over() {
    let mut keyboard = keyboard();
    let mut ctx = EventCtx::new();
    click_key(&mut keyboard, &mut ctx, 0);
    let _ = last_timer(&mut ctx);
    ctx.clear_paint_requests();
    click_key(&mut keyboard, &mut ctx, 1);
    assert_eq!(text(&keyboard.paint()), b"a");
    assert!(!ctx.is_paint_requested());
    assert!(ctx.pop_timer().is_none());
}

#[test]
fn same_key_taps_cycle_in_place() {
    let mut keyboard = keyboard();
    let mut ctx = EventCtx::new();
    let expected: [&[u8]; 5] = [b"a", b"b", b"c", b"a", b"b"];
    for content in expected {
        click_key(&mut keyboard, &mut ctx, 0);
        assert_eq!(text(&keyboard.paint()), content);
    }
}

#[test]
fn end_to_end_amount() {
    let mut keyboard = keyboard();
    let mut ctx = EventCtx::new();
    click_key(&mut keyboard, &mut ctx, 0);
    assert_eq!(text(&keyboard.paint()), b"a");
    click_key(&mut keyboard, &mut ctx, 4);
    assert_eq!(text(&keyboard.paint()), b"am");
    assert_eq!(keyboard.paint().input.unwrap().completion, b"ount");
    // The first activation fills the word in and reports nothing.
    assert_eq!(keyboard.event(&mut ctx, Event::Click(INPUT_ID)), None);
    let paint = keyboard.paint();
    assert_eq!(text(&paint), b"amount");
    assert_eq!(paint.input.unwrap().completion, b"");
    // The second activation confirms and clears.
    assert_eq!(
        keyboard.event(&mut ctx, Event::Click(INPUT_ID)),
        Some(Bip39KeyboardMsg::Confirmed)
    );
    let paint = keyboard.paint();
    assert_eq!(text(&paint), b"");
    assert_eq!(paint.prompt, Some(&b"Type word"[..]));
    assert!(paint.input.is_none());
    assert!(paint.back.is_none());
    assert_eq!(enabled(&paint), vec![true; 9]);
}

#[test]
fn full_word_is_confirmed_at_once() {
    let mut keyboard = keyboard();
    let mut ctx = EventCtx::new();
    // "cat": c is the third tap on abc, a the first, t the second on stu.
    for key in [0, 0, 0] {
        click_key(&mut keyboard, &mut ctx, key);
    }
    let timer = last_timer(&mut ctx);
    assert_eq!(keyboard.event(&mut ctx, Event::Timer(timer)), None);
    click_key(&mut keyboard, &mut ctx, 0);
    click_key(&mut keyboard, &mut ctx, 6);
    click_key(&mut keyboard, &mut ctx, 6);
    assert_eq!(text(&keyboard.paint()), b"cat");
    assert_eq!(keyboard.paint().input.unwrap().completion, b"");
    assert_eq!(
        keyboard.event(&mut ctx, Event::Click(INPUT_ID)),
        Some(Bip39KeyboardMsg::Confirmed)
    );
    assert_eq!(text(&keyboard.paint()), b"");
}

#[test]
fn activation_without_suggestion_does_nothing() {
    let mut keyboard = keyboard();
    let mut ctx = EventCtx::new();
    click_key(&mut keyboard, &mut ctx, 0);
    click_key(&mut keyboard, &mut ctx, 0);
    // No word starts with "b".
    assert_eq!(text(&keyboard.paint()), b"b");
    ctx.clear_paint_requests();
    assert_eq!(keyboard.event(&mut ctx, Event::Click(INPUT_ID)), None);
    assert_eq!(text(&keyboard.paint()), b"b");
    assert!(!ctx.is_paint_requested());
}

#[test]
fn timeout_without_completion_takes_the_letter_back() {
    let mut keyboard = keyboard();
    let mut ctx = EventCtx::new();
    click_key(&mut keyboard, &mut ctx, 0);
    click_key(&mut keyboard, &mut ctx, 4);
    click_key(&mut keyboard, &mut ctx, 4);
    // No word starts with "an".
    assert_eq!(text(&keyboard.paint()), b"an");
    let timer = last_timer(&mut ctx);
    assert_eq!(keyboard.event(&mut ctx, Event::Timer(timer)), None);
    let paint = keyboard.paint();
    assert_eq!(text(&paint), b"a");
    assert!(!paint.input.unwrap().pending_marker);
}

#[test]
fn timeout_with_completion_keeps_the_letter() {
    let mut keyboard = keyboard();
    let mut ctx = EventCtx::new();
    click_key(&mut keyboard, &mut ctx, 0);
    let timer = last_timer(&mut ctx);
    ctx.clear_paint_requests();
    assert_eq!(keyboard.event(&mut ctx, Event::Timer(timer)), None);
    let paint = keyboard.paint();
    assert_eq!(text(&paint), b"a");
    assert!(!paint.input.unwrap().pending_marker);
    assert!(ctx.is_paint_requested());
    // Key abc is pending no longer: it stays enabled for "b" only.
    click_key(&mut keyboard, &mut ctx, 0);
    assert_eq!(text(&keyboard.paint()), b"aa");
}

#[test]
fn stale_timer_changes_nothing() {
    let mut keyboard = keyboard();
    let mut ctx = EventCtx::new();
    click_key(&mut keyboard, &mut ctx, 0);
    let stale = last_timer(&mut ctx);
    click_key(&mut keyboard, &mut ctx, 0);
    assert_eq!(text(&keyboard.paint()), b"b");
    ctx.clear_paint_requests();
    assert_eq!(keyboard.event(&mut ctx, Event::Timer(stale)), None);
    let paint = keyboard.paint();
    assert_eq!(text(&paint), b"b");
    assert!(paint.input.unwrap().pending_marker);
    assert!(!ctx.is_paint_requested());
    // A timer on an empty keyboard is passed over as well.
    let mut empty = self::keyboard();
    assert_eq!(empty.event(&mut ctx, Event::Timer(stale)), None);
    assert!(!ctx.is_paint_requested());
}

#[test]
fn backspace_deletes_and_asks_the_dictionary_again() {
    let mut keyboard = keyboard();
    let mut ctx = EventCtx::new();
    click_key(&mut keyboard, &mut ctx, 0);
    click_key(&mut keyboard, &mut ctx, 4);
    assert_eq!(keyboard.event(&mut ctx, Event::Click(BACK_ID)), None);
    let paint = keyboard.paint();
    assert_eq!(text(&paint), b"a");
    let input = paint.input.unwrap();
    assert!(!input.pending_marker);
    assert_eq!(input.completion, b"bandon");
    assert_eq!(keyboard.event(&mut ctx, Event::Click(BACK_ID)), None);
    let paint = keyboard.paint();
    assert_eq!(text(&paint), b"");
    assert_eq!(paint.prompt, Some(&b"Type word"[..]));
    assert_eq!(enabled(&paint), vec![true; 9]);
}

#[test]
fn hidden_controls_take_no_clicks() {
    let mut keyboard = keyboard();
    let mut ctx = EventCtx::new();
    assert_eq!(keyboard.event(&mut ctx, Event::Click(BACK_ID)), None);
    assert_eq!(keyboard.event(&mut ctx, Event::Click(INPUT_ID)), None);
    assert_eq!(keyboard.event(&mut ctx, Event::Click(77)), None);
    assert!(!ctx.is_paint_requested());
    assert_eq!(keyboard.paint().prompt, Some(&b"Type word"[..]));
}

#[test]
fn oracle_word_that_does_not_fit_is_not_filled_in() {
    fn long_word(_prefix: &[u8]) -> Option<&'static [u8]> {
        Some(b"abcdefghi")
    }
    fn any_letter(_prefix: &[u8]) -> u32 {
        ALL_LETTERS
    }
    let mut keyboard = Bip39Keyboard::new(b"?", long_word, any_letter);
    let mut ctx = EventCtx::new();
    assert_eq!(keyboard.event(&mut ctx, Event::Click(0)), None);
    ctx.clear_paint_requests();
    assert_eq!(keyboard.event(&mut ctx, Event::Click(INPUT_ID)), None);
    assert!(!ctx.is_paint_requested());
    let paint = keyboard.paint();
    assert_eq!(text(&paint), b"a");
    assert_eq!(paint.prompt, None);
    // A second click finds the same, and still confirms nothing.
    assert_eq!(keyboard.event(&mut ctx, Event::Click(INPUT_ID)), None);
    assert_eq!(text(&keyboard.paint()), b"a");
}

#[test]
fn confirm_clears_the_pending_key() {
    let mut keyboard = keyboard();
    let mut ctx = EventCtx::new();
    // "cat", with the key of t still pending.
    for key in [0, 0, 0] {
        click_key(&mut keyboard, &mut ctx, key);
    }
    let timer = last_timer(&mut ctx);
    assert_eq!(keyboard.event(&mut ctx, Event::Timer(timer)), None);
    click_key(&mut keyboard, &mut ctx, 0);
    click_key(&mut keyboard, &mut ctx, 6);
    click_key(&mut keyboard, &mut ctx, 6);
    assert!(keyboard.paint().input.unwrap().pending_marker);
    let pending_timer = last_timer(&mut ctx);
    assert_eq!(
        keyboard.event(&mut ctx, Event::Click(INPUT_ID)),
        Some(Bip39KeyboardMsg::Confirmed)
    );
    // The timer of the confirmed word's last key is nobody's any more.
    ctx.clear_paint_requests();
    assert_eq!(keyboard.event(&mut ctx, Event::Timer(pending_timer)), None);
    assert!(!ctx.is_paint_requested());
    // The next word starts with the first letter of its key.
    click_key(&mut keyboard, &mut ctx, 6);
    assert_eq!(text(&keyboard.paint()), b"s");
}

#[test]
fn key_click_asks_for_a_timer_of_one_second() {
    let mut keyboard = keyboard();
    let mut ctx = EventCtx::new();
    click_key(&mut keyboard, &mut ctx, 0);
    let request = ctx.pop_timer().unwrap();
    assert_eq!(request.delay_ms, 1000);
    assert_eq!(request.delay_ms, MULTI_TAP_TIMEOUT_MS);
    assert_eq!(ctx.pop_timer(), None);
}

#[test]
fn handlers_can_be_called_directly() {
    let mut keyboard = keyboard();
    let mut ctx = EventCtx::new();
    keyboard.on_key_click(&mut ctx, 0);
    keyboard.on_key_click(&mut ctx, 4);
    assert_eq!(text(&keyboard.paint()), b"am");
    assert_eq!(keyboard.on_input_click(&mut ctx), None);
    assert_eq!(text(&keyboard.paint()), b"amount");
    keyboard.on_backspace_click(&mut ctx);
    assert_eq!(text(&keyboard.paint()), b"amoun");
    keyboard.on_key_click(&mut ctx, 6);
    assert_eq!(text(&keyboard.paint()), b"amouns");
    // No word starts like this: the timeout takes the letter back.
    keyboard.on_timeout(&mut ctx);
    assert_eq!(text(&keyboard.paint()), b"amoun");
    assert!(!keyboard.paint().input.unwrap().pending_marker);
    keyboard.on_key_click(&mut ctx, 6);
    keyboard.on_key_click(&mut ctx, 6);
    assert_eq!(text(&keyboard.paint()), b"amount");
    assert_eq!(
        keyboard.on_input_click(&mut ctx),
        Some(Bip39KeyboardMsg::Confirmed)
    );
    let paint = keyboard.paint();
    assert!(paint.input.is_none());
    assert!(paint.back.is_none());
    assert_eq!(paint.prompt, Some(&b"Type word"[..]));
}
