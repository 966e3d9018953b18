use mnemonic_keyboard::button::{Button, ButtonContent, ButtonMsg, Icon, Label};
use mnemonic_keyboard::component::{Component, Event, EventCtx};
use mnemonic_keyboard::dialog::{Dialog, DialogLayout, DialogMsg};
use mnemonic_keyboard::geometry::{Font, Rect};
use mnemonic_keyboard::text::{break_line, layout, FormattedText};
use mnemonic_keyboard::title::Title;
use mnemonic_keyboard::trace::Trace;

fn screen() -> Rect {
    Rect::new(0, 0, 240, 240)
}

fn trace(val: &impl Trace) -> String {
    let mut t = Vec::new();
    val.trace(&mut t);
    String::from_utf8(t).unwrap()
}

#[test]
fn trace_example_layout() {
    let font = Font::fixed(9, 16);
    let layout = Dialog::new(
        screen(),
        |area| {
            FormattedText::new(
                area,
                b"Testing text layout, with some text, and some more text. And {param}",
                font,
            )
            .with(b"param", b"parameters!")
        },
        |_area| Button::with_text(0, b"Left"),
        |_area| Button::with_text(1, b"Right"),
    );
    assert_eq!(
        trace(&layout),
        "<Dialog content:<Text content:Testing text layout, with\nsome text, and some more\ntext. And parameters! > left:<Button text:Left > right:<Button text:Right > >",
    )
}

#[test]
fn button_traces_text_icon_and_nothing() {
    assert_eq!(trace(&Button::with_text(3, b"OK")), "<Button text:OK >");
    assert_eq!(trace(&Button::with_icon(3, Icon::Back)), "<Button icon>");
    assert_eq!(trace(&Button::empty(3)), "<Button >");
}

#[test]
fn title_traces_title_and_content() {
    let font = Font::fixed(8, 11);
    let titled = Title::new(screen(), Label::new(b"Recovery"), &font, |_area| {
        Button::with_text(1, b"Next")
    });
    assert_eq!(
        trace(&titled),
        "<Title title:Recovery content:<Button text:Next > >"
    );
}

#[test]
fn title_areas_leave_room_under_the_title_line() {
    let (header, content) = Title::<Button, Label>::areas(Rect::new(10, 20, 110, 220), 11);
    assert_eq!(header, Rect::new(10, 20, 110, 31));
    assert_eq!(content, Rect::new(10, 35, 110, 220));
}

#[test]
fn title_areas_stay_inside_a_small_area() {
    let (header, content) = Title::<Button, Label>::areas(Rect::new(0, 0, 50, 12), 11);
    assert_eq!(header, Rect::new(0, 0, 50, 11));
    assert_eq!(content, Rect::new(0, 12, 50, 12));
}

#[test]
fn title_forwards_events_to_its_content() {
    let font = Font::fixed(8, 11);
    let mut titled = Title::new(screen(), Label::new(b"Title"), &font, |_area| {
        Button::with_text(7, b"Go")
    });
    let mut ctx = EventCtx::new();
    assert_eq!(titled.event(&mut ctx, Event::Click(7)), Some(ButtonMsg::Clicked));
    assert_eq!(titled.event(&mut ctx, Event::Click(8)), None);
    assert!(!ctx.is_paint_requested());
}

#[test]
fn rect_splits_are_clamped() {
    let area = Rect::new(0, 0, 100, 50);
    assert_eq!(area.width(), 100);
    assert_eq!(area.height(), 50);
    assert_eq!(
        area.split_top(20),
        (Rect::new(0, 0, 100, 20), Rect::new(0, 20, 100, 50))
    );
    assert_eq!(
        area.split_top(70),
        (Rect::new(0, 0, 100, 50), Rect::new(0, 50, 100, 50))
    );
    assert_eq!(
        area.split_top(-5),
        (Rect::new(0, 0, 100, 0), Rect::new(0, 0, 100, 50))
    );
    assert_eq!(
        area.split_bottom(10),
        (Rect::new(0, 0, 100, 40), Rect::new(0, 40, 100, 50))
    );
    assert_eq!(
        area.split_left(30),
        (Rect::new(0, 0, 30, 50), Rect::new(30, 0, 100, 50))
    );
    assert_eq!(Rect::new(5, 5, 1, 1).width(), 0);
    assert_eq!(Rect::new(5, 5, 1, 1).height(), 0);
}

#[test]
fn dialog_layout_puts_controls_in_the_lowest_fifth() {
    let layout = DialogLayout::middle(screen());
    assert_eq!(layout.content, Rect::new(0, 0, 240, 192));
    assert_eq!(layout.left, Rect::new(0, 192, 120, 240));
    assert_eq!(layout.right, Rect::new(120, 192, 240, 240));
}

#[test]
fn dialog_asks_content_then_left_then_right() {
    let mut dialog = Dialog::new(
        screen(),
        |_area| Button::with_text(1, b"Content"),
        |_area| Button::with_text(1, b"Left"),
        |_area| Button::with_text(2, b"Right"),
    );
    let mut ctx = EventCtx::new();
    // The content and the left control both answer to 1: the content wins.
    assert!(matches!(
        dialog.event(&mut ctx, Event::Click(1)),
        Some(DialogMsg::Content(ButtonMsg::Clicked))
    ));
    assert!(matches!(
        dialog.event(&mut ctx, Event::Click(2)),
        Some(DialogMsg::Right(ButtonMsg::Clicked))
    ));
    assert!(dialog.event(&mut ctx, Event::Click(3)).is_none());
}

#[test]
fn dialog_reaches_left_when_content_passes() {
    let font = Font::fixed(9, 16);
    let mut dialog = Dialog::new(
        screen(),
        |area| FormattedText::new(area, b"Sure?", font),
        |_area| Button::with_text(1, b"No"),
        |_area| Button::with_text(2, b"Yes"),
    );
    let mut ctx = EventCtx::new();
    assert!(matches!(
        dialog.event(&mut ctx, Event::Click(1)),
        Some(DialogMsg::Left(ButtonMsg::Clicked))
    ));
    let paint = dialog.paint();
    assert_eq!(paint.content.lines, b"Sure?".to_vec());
    assert_eq!(paint.content.area, Rect::new(0, 0, 240, 192));
    assert!(paint.left.is_enabled());
    assert!(matches!(paint.right.shown_content(), ButtonContent::Text(b"Yes")));
}

#[test]
fn format_replaces_known_parameters_and_drops_unknown_ones() {
    let font = Font::fixed(1, 1);
    let text = FormattedText::new(screen(), b"a {x} b {y} c {x}", font)
        .with(b"x", b"1")
        .with(b"x", b"22");
    assert_eq!(text.format_content(), b"a 22 b  c 22".to_vec());
}

#[test]
fn format_keeps_an_unclosed_brace() {
    let font = Font::fixed(1, 1);
    let text = FormattedText::new(screen(), b"a {x", font).with(b"x", b"1");
    assert_eq!(text.format_content(), b"a {x".to_vec());
    let empty = FormattedText::new(screen(), b"{}", font).with(b"", b"E");
    assert_eq!(empty.format_content(), b"E".to_vec());
}

#[test]
fn layout_breaks_at_the_last_space_that_fits() {
    let font = Font::fixed(10, 10);
    assert_eq!(layout(&font, b"ab cd ef", 50), b"ab cd\nef".to_vec());
    assert_eq!(layout(&font, b"ab cd ef", 59), b"ab cd\nef".to_vec());
    assert_eq!(layout(&font, b"ab cd ef", 60), b"ab cd\nef".to_vec());
    assert_eq!(layout(&font, b"ab cd ef", 80), b"ab cd ef".to_vec());
    assert_eq!(layout(&font, b"", 80), b"".to_vec());
}

#[test]
fn layout_breaks_a_word_that_is_too_long() {
    let font = Font::fixed(10, 10);
    assert_eq!(layout(&font, b"abcdefg", 30), b"abc\ndef\ng".to_vec());
    // Not even one glyph fits: one byte a line.
    assert_eq!(layout(&font, b"abc", 5), b"a\nb\nc".to_vec());
    assert_eq!(layout(&font, b"abc", -1), b"a\nb\nc".to_vec());
}

#[test]
fn layout_keeps_newlines() {
    let font = Font::fixed(10, 10);
    assert_eq!(layout(&font, b"ab\ncd", 100), b"ab\ncd".to_vec());
    assert_eq!(layout(&font, b"ab\n", 100), b"ab".to_vec());
}

#[test]
fn break_line_reports_length_and_taken_bytes() {
    let font = Font::fixed(10, 10);
    assert_eq!(break_line(&font, b"ab cd ef", 50), (5, 1));
    assert_eq!(break_line(&font, b"ab cd", 50), (5, 0));
    assert_eq!(break_line(&font, b"abcdef", 30), (3, 0));
    assert_eq!(break_line(&font, b"ab\ncd", 50), (2, 1));
}

#[test]
fn proportional_font_measures_each_glyph() {
    let mut advances = [5u8; 256];
    advances[b'W' as usize] = 12;
    let font = Font::new(advances, 14);
    assert_eq!(font.char_width(b'W'), 12);
    assert_eq!(font.char_width(b'i'), 5);
    assert_eq!(font.line_height(), 14);
    // "WW" is 24 wide, "ii ii" is 25 wide.
    assert_eq!(layout(&font, b"WW WW", 30), b"WW\nWW".to_vec());
    assert_eq!(layout(&font, b"ii ii", 30), b"ii ii".to_vec());
}

#[test]
fn title_line_has_the_height_of_the_font() {
    let font = Font::fixed(6, 255);
    assert_eq!(font.line_height(), 255);
    let (header, content) = Title::<Button, Label>::areas(screen(), font.line_height());
    assert_eq!(header, Rect::new(0, 0, 240, 240));
    assert_eq!(content, Rect::new(0, 240, 240, 240));
    let font = Font::fixed(6, 0);
    let (header, content) = Title::<Button, Label>::areas(screen(), font.line_height());
    assert_eq!(header, Rect::new(0, 0, 240, 0));
    assert_eq!(content, Rect::new(0, 4, 240, 240));
}
