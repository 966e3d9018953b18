use mnemonic_keyboard::button::{ButtonContent, ButtonStyle, Icon};
use mnemonic_keyboard::common::{INPUT_ID, MNEMONIC_KEY_COUNT};
use mnemonic_keyboard::component::{Component, Event, EventCtx};
use mnemonic_keyboard::slip39::{
    key_digit, key_text, keys, parse_sequence, MnemonicInputMsg, Slip39Input, Slip39Mask, ALL_KEYS,
};

fn button_sequence_to_word(sequence: u16) -> Option<&'static [u8]> {
    assert!((1..=9999).contains(&sequence));
    match sequence {
        111 => Some(b"academic"),
        15 => Some(b"acid"),
        _ => None,
    }
}

fn word_completion_mask(sequence: u16) -> u16 {
    assert!((1..=9999).contains(&sequence));
    match sequence {
        1 => 0b1_0001,
        11 => 0b101,
        111 => 0,
        15 => 0b1000,
        _ => 0b11,
    }
}

type Input = Slip39Input<fn(u16) -> Option<&'static [u8]>, fn(u16) -> u16>;

fn input() -> Input {
    Slip39Input::new(
        button_sequence_to_word as fn(u16) -> Option<&'static [u8]>,
        word_completion_mask as fn(u16) -> u16,
    )
}

fn time_out(input: &mut Input, ctx: &mut EventCtx) {
    let timer = ctx.pop_timer().unwrap().token;
    assert_eq!(input.event(ctx, Event::Timer(timer)), Some(MnemonicInputMsg::TimedOut));
}

#[test]
fn mask_full_has_nine_keys() {
    let mask = Slip39Mask::full();
    assert_eq!(mask.0, 0x1FF);
    assert_eq!(ALL_KEYS, 0x1FF);
    for key in 0..9 {
        assert!(mask.contains_key(key));
    }
    assert!(!mask.contains_key(9));
    assert!(!mask.contains_key(15));
    assert!(!mask.is_final());
}

#[test]
fn mask_contains_key_reads_one_bit() {
    let mask = Slip39Mask(0b1_1000_0110);
    let contained: Vec<bool> = (0..9).map(|key| mask.contains_key(key)).collect();
    assert_eq!(
        contained,
        vec![false, true, true, false, false, false, false, true, true]
    );
}

#[test]
fn mask_is_final_with_at_most_one_bit() {
    assert!(Slip39Mask(0).is_final());
    for key in 0..16 {
        assert!(Slip39Mask(1 << key).is_final());
    }
    assert!(!Slip39Mask(0b11).is_final());
    assert!(!Slip39Mask(0b1000_0000_0000_0001).is_final());
    assert!(!Slip39Mask(0xFFFF).is_final());
    assert!(!Slip39Mask(0b110).is_final());
}

#[test]
fn key_digits_count_from_one() {
    assert_eq!(MNEMONIC_KEY_COUNT, 9);
    assert_eq!(key_digit(0), b'1');
    assert_eq!(key_digit(1), b'2');
    assert_eq!(key_digit(8), b'9');
}

#[test]
fn keys_carry_their_symbols() {
    let expected: [&[u8]; 9] = [
        b"ab", b"cd", b"ef", b"ghij", b"klm", b"nopq", b"rs", b"tuv", b"xyz",
    ];
    assert_eq!(keys(), expected);
    for (key, symbols) in expected.iter().enumerate() {
        assert_eq!(key_text(key), *symbols);
    }
}

#[test]
fn parse_sequence_reads_decimal_digits() {
    assert_eq!(parse_sequence(b"15"), Some(15));
    assert_eq!(parse_sequence(b"1"), Some(1));
    assert_eq!(parse_sequence(b"0"), Some(0));
    assert_eq!(parse_sequence(b"007"), Some(7));
    assert_eq!(parse_sequence(b"9999"), Some(9999));
    assert_eq!(parse_sequence(b"65535"), Some(65535));
    assert_eq!(parse_sequence(b"00065535"), Some(65535));
}

#[test]
fn parse_sequence_refuses_what_is_no_number() {
    assert_eq!(parse_sequence(b""), None);
    assert_eq!(parse_sequence(b"65536"), None);
    assert_eq!(parse_sequence(b"11111111"), None);
    assert_eq!(parse_sequence(b"99999999"), None);
    assert_eq!(parse_sequence(b"1a"), None);
    assert_eq!(parse_sequence(b"a1"), None);
    assert_eq!(parse_sequence(b"+1"), None);
    assert_eq!(parse_sequence(b"655360z"), None);
}

#[test]
fn new_input_is_empty_with_all_keys() {
    let input = input();
    assert!(input.is_empty());
    assert_eq!(input.input_sequence(), None);
    for key in 0..9 {
        assert!(input.can_key_press_lead_to_a_valid_word(key));
    }
    let paint = input.paint();
    assert_eq!(paint.text, b"");
    assert!(!paint.pending_marker);
}

#[test]
fn pushed_groups_form_the_decimal_number() {
    let mut input = input();
    let mut ctx = EventCtx::new();
    input.on_key_click(&mut ctx, 0);
    assert_eq!(input.input_sequence(), Some(1));
    input.on_key_click(&mut ctx, 4);
    assert_eq!(input.input_sequence(), Some(15));
    input.on_key_click(&mut ctx, 8);
    assert_eq!(input.input_sequence(), Some(159));
    assert!(!input.is_empty());
}

#[test]
fn repeated_tap_enters_no_digit() {
    let mut input = input();
    let mut ctx = EventCtx::new();
    input.on_key_click(&mut ctx, 3);
    input.on_key_click(&mut ctx, 3);
    input.on_key_click(&mut ctx, 3);
    assert_eq!(input.input_sequence(), Some(4));
    // The symbol of the pending key is shown in place of the placeholder.
    let paint = input.paint();
    assert_eq!(paint.text, b"i");
    assert!(paint.pending_marker);
    input.on_key_click(&mut ctx, 3);
    input.on_key_click(&mut ctx, 3);
    assert_eq!(input.paint().text, b"g");
}

#[test]
fn placeholders_hide_the_digits() {
    let mut input = input();
    let mut ctx = EventCtx::new();
    input.on_key_click(&mut ctx, 1);
    input.on_key_click(&mut ctx, 2);
    input.on_key_click(&mut ctx, 5);
    input.on_key_click(&mut ctx, 5);
    assert_eq!(input.input_sequence(), Some(236));
    let paint = input.paint();
    assert_eq!(paint.text, b"**o");
    assert_eq!(paint.completion, b"");
    assert!(paint.pending_marker);
    time_out(&mut input, &mut ctx);
    let paint = input.paint();
    assert_eq!(paint.text, b"***");
    assert!(!paint.pending_marker);
}

#[test]
fn keys_follow_the_mask_and_the_pending_key() {
    let mut input = input();
    let mut ctx = EventCtx::new();
    input.on_key_click(&mut ctx, 0);
    // The mask of 1 has keys 0 and 4; key 0 is pending as well.
    let can: Vec<bool> = (0..9)
        .map(|key| input.can_key_press_lead_to_a_valid_word(key))
        .collect();
    assert_eq!(
        can,
        vec![true, false, false, false, true, false, false, false, false]
    );
    input.on_key_click(&mut ctx, 4);
    // The mask of 15 has key 3 only; key 4 is pending.
    let can: Vec<bool> = (0..9)
        .map(|key| input.can_key_press_lead_to_a_valid_word(key))
        .collect();
    assert_eq!(
        can,
        vec![false, false, false, true, true, false, false, false, false]
    );
}

#[test]
fn end_to_end_academic() {
    let mut input = input();
    let mut ctx = EventCtx::new();
    input.on_key_click(&mut ctx, 0);
    time_out(&mut input, &mut ctx);
    input.on_key_click(&mut ctx, 0);
    time_out(&mut input, &mut ctx);
    // Not final yet: the input area takes no clicks.
    assert_eq!(input.input_sequence(), Some(11));
    let paint = input.paint();
    assert!(!paint.button.is_enabled());
    assert!(matches!(paint.button.shown_content(), ButtonContent::Empty));
    assert_eq!(paint.button.shown_style(), ButtonStyle::Default);
    assert_eq!(input.event(&mut ctx, Event::Click(INPUT_ID)), None);
    input.on_key_click(&mut ctx, 0);
    assert_eq!(input.input_sequence(), Some(111));
    // Final: the resolved word is shown, and the area confirms.
    let paint = input.paint();
    assert_eq!(paint.text, b"academic");
    assert!(!paint.pending_marker);
    assert!(paint.button.is_enabled());
    assert!(matches!(
        paint.button.shown_content(),
        ButtonContent::Icon(Icon::Confirm)
    ));
    assert_eq!(paint.button.shown_style(), ButtonStyle::Confirm);
    assert_eq!(
        input.event(&mut ctx, Event::Click(INPUT_ID)),
        Some(MnemonicInputMsg::Confirmed)
    );
}

#[test]
fn confirm_needs_a_final_mask() {
    let mut input = input();
    let mut ctx = EventCtx::new();
    assert_eq!(input.event(&mut ctx, Event::Click(INPUT_ID)), None);
    input.on_key_click(&mut ctx, 0);
    assert_eq!(input.event(&mut ctx, Event::Click(INPUT_ID)), None);
    input.on_key_click(&mut ctx, 4);
    // 15 leaves one key: final.
    assert_eq!(
        input.event(&mut ctx, Event::Click(INPUT_ID)),
        Some(MnemonicInputMsg::Confirmed)
    );
    assert_eq!(input.event(&mut ctx, Event::Click(INPUT_ID + 1)), None);
}

#[test]
fn timeout_keeps_the_digit() {
    let mut input = input();
    let mut ctx = EventCtx::new();
    input.on_key_click(&mut ctx, 2);
    ctx.clear_paint_requests();
    time_out(&mut input, &mut ctx);
    assert_eq!(input.input_sequence(), Some(3));
    assert!(ctx.is_paint_requested());
    // The key is pending no longer: the next tap enters a digit.
    input.on_key_click(&mut ctx, 2);
    assert_eq!(input.input_sequence(), Some(33));
}

#[test]
fn stale_timer_is_passed_over() {
    let mut input = input();
    let mut ctx = EventCtx::new();
    input.on_key_click(&mut ctx, 2);
    let stale = ctx.pop_timer().unwrap().token;
    input.on_key_click(&mut ctx, 2);
    ctx.clear_paint_requests();
    assert_eq!(input.event(&mut ctx, Event::Timer(stale)), None);
    assert!(input.paint().pending_marker);
    assert!(!ctx.is_paint_requested());
}

#[test]
fn backspace_drops_digit_and_pending_key() {
    let mut input = input();
    let mut ctx = EventCtx::new();
    input.on_key_click(&mut ctx, 0);
    input.on_key_click(&mut ctx, 4);
    input.on_backspace_click(&mut ctx);
    assert_eq!(input.input_sequence(), Some(1));
    assert!(!input.paint().pending_marker);
    input.on_backspace_click(&mut ctx);
    assert!(input.is_empty());
    assert_eq!(input.input_sequence(), None);
    for key in 0..9 {
        assert!(input.can_key_press_lead_to_a_valid_word(key));
    }
    input.on_backspace_click(&mut ctx);
    assert!(input.is_empty());
}

#[test]
fn numbers_out_of_range_are_not_asked_about() {
    let mut input = input();
    let mut ctx = EventCtx::new();
    // Five digits: 99999 is no number for the dictionary, and the oracles
    // of this test refuse to be asked about it.
    for _ in 0..5 {
        input.on_key_click(&mut ctx, 8);
        time_out(&mut input, &mut ctx);
    }
    assert_eq!(input.input_sequence(), None);
    for key in 0..9 {
        assert!(input.can_key_press_lead_to_a_valid_word(key));
    }
    assert_eq!(input.paint().text, b"*****");
    // Eight digits fill the buffer; a ninth is dropped.
    for _ in 0..4 {
        input.on_key_click(&mut ctx, 8);
        time_out(&mut input, &mut ctx);
    }
    assert_eq!(input.paint().text, b"********");
}

#[test]
fn word_is_shown_only_when_final() {
    fn first_word(_sequence: u16) -> Option<&'static [u8]> {
        Some(b"academic")
    }
    fn narrowing(sequence: u16) -> u16 {
        if sequence >= 100 {
            0b1
        } else {
            0b11
        }
    }
    let mut input: Input = Slip39Input::new(
        first_word as fn(u16) -> Option<&'static [u8]>,
        narrowing as fn(u16) -> u16,
    );
    let mut ctx = EventCtx::new();
    input.on_key_click(&mut ctx, 0);
    time_out(&mut input, &mut ctx);
    input.on_key_click(&mut ctx, 1);
    time_out(&mut input, &mut ctx);
    // Two keys can follow 12: the word that the dictionary gives is not
    // shown yet.
    let paint = input.paint();
    assert_eq!(paint.text, b"**");
    assert!(!paint.button.is_enabled());
    assert_eq!(input.event(&mut ctx, Event::Click(INPUT_ID)), None);
    input.on_key_click(&mut ctx, 2);
    let paint = input.paint();
    assert_eq!(paint.text, b"academic");
    assert!(paint.button.is_enabled());
    assert_eq!(
        input.event(&mut ctx, Event::Click(INPUT_ID)),
        Some(MnemonicInputMsg::Confirmed)
    );
}

#[test]
fn key_click_asks_for_a_timer_of_one_second_each() {
    let mut input = input();
    let mut ctx = EventCtx::new();
    input.on_key_click(&mut ctx, 3);
    let request = ctx.pop_timer().unwrap();
    assert_eq!(request.delay_ms, 1000);
    assert_eq!(ctx.pop_timer(), None);
}

#[test]
fn ninth_digit_is_dropped() {
    let mut input = input();
    let mut ctx = EventCtx::new();
    for key in [0, 1, 0, 1, 0, 1, 0, 1] {
        input.on_key_click(&mut ctx, key);
    }
    time_out(&mut input, &mut ctx);
    assert_eq!(input.paint().text, b"********");
    ctx.clear_paint_requests();
    input.on_key_click(&mut ctx, 2);
    time_out(&mut input, &mut ctx);
    assert_eq!(input.paint().text, b"********");
    // Eight digits are more than any number of the dictionary.
    assert_eq!(input.input_sequence(), None);
}
