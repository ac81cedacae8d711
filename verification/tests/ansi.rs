use newbbs::ui::ansi::{art_summary, looks_like_stripped_escapes, parse};
use newbbs::ui::style::{Color, Style};

#[test]
fn plain_art_takes_the_given_style() {
    let art = parse("hello\nthere", Style::new().fg(Color::Indexed(1)));
    assert!(!art.colored);
    assert_eq!(art.width, 5);
    assert_eq!(art.lines.len(), 2);
    assert_eq!(art.lines[0].spans[0].style.fg, Some(Color::Indexed(1)));
}

#[test]
fn colours_are_passed_through_as_authored() {
    let art = parse("\u{1b}[0;96m##\u{1b}[0m", Style::new());
    assert!(art.colored);
    assert_eq!(art.width, 2);
    let span = &art.lines[0].spans[0];
    assert_eq!(span.content, "##");
    assert_eq!(span.style.fg, Some(Color::Indexed(14)));
}

#[test]
fn background_and_256_and_rgb() {
    let art = parse("\u{1b}[47mA\u{1b}[48;5;33mB\u{1b}[38;2;1;2;3mC", Style::new());
    let spans = &art.lines[0].spans;
    assert_eq!(spans[0].style.bg, Some(Color::Indexed(7)));
    assert_eq!(spans[1].style.bg, Some(Color::Indexed(33)));
    assert_eq!(spans[2].style.fg, Some(Color::Rgb(1, 2, 3)));
}

/// Escape sequences must not count toward the width, or centring would shove
/// the art off to the left.
#[test]
fn width_ignores_escapes() {
    let plain = parse("▓▓ ▒▒", Style::new());
    let colored =
        parse("\u{1b}[0;97;47m▓▓\u{1b}[0;37m \u{1b}[0;96;47m▒▒\u{1b}[0m", Style::new());
    assert_eq!(plain.width, colored.width);
}

#[test]
fn cursor_movement_is_skipped_not_drawn() {
    let art = parse("\u{1b}[5CX", Style::new());
    assert_eq!(art.lines[0].spans.len(), 1);
    assert_eq!(art.lines[0].spans[0].content, "X");
}

#[test]
fn spots_art_whose_escapes_were_eaten() {
    assert!(looks_like_stripped_escapes("[0;37m##[0;96m▀▄[0;37m  [0;97m█▄"));
    assert!(!looks_like_stripped_escapes("plain ascii [art] here"));
    assert!(!looks_like_stripped_escapes("\u{1b}[0;37m real escapes"));
}

#[test]
fn coloured_art_ignores_the_plain_style() {
    let text = "\u{1b}[31mred\u{1b}[0m plain";
    let a = parse(text, Style::new());
    let b = parse(text, Style::new().fg(Color::Indexed(3)));
    assert_eq!(a.lines, b.lines);
    assert_eq!(a.width, 9);
}

#[test]
fn wide_characters_take_two_columns() {
    assert_eq!(parse("日本", Style::new()).width, 4);
}

#[test]
fn a_summary_of_art() {
    assert_eq!(art_summary("##\n####"), (4, false, false));
    assert_eq!(art_summary("\u{1b}[31m##"), (2, true, false));
    assert_eq!(art_summary("[0;37m#[0;96m#[0;37m"), (20, false, true));
}
