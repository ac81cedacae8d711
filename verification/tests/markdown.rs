use newbbs::ui::markdown::{
    cut, hard_wrap, mark_up, render, split_keeping_spaces, wrap, Measured, Wrapper,
};
use newbbs::ui::style::{Color, Line, Span, Style, Switch};
use newbbs::ui::theme::{Depth, Theme};

fn text(line: &Line) -> String {
    line.spans.iter().map(|s| s.content.as_str()).collect()
}

fn texts(body: &str, width: usize) -> Vec<String> {
    let theme = Theme::new(Depth::Truecolor);
    render(body, width, &theme).iter().map(text).collect()
}

#[test]
fn plain_text_is_wrapped() {
    assert_eq!(texts("hello there world", 11), vec!["hello there", "world"]);
    assert_eq!(texts("one\n\ntwo", 20), vec!["one", "", "two"]);
    assert_eq!(texts("", 20), vec![""]);
    // Never narrower than eight columns.
    assert_eq!(texts("12345678", 2), vec!["12345678"]);
}

#[test]
fn long_words_are_broken() {
    assert_eq!(texts("abcdefghijkl", 8), vec!["abcdefgh", "ijkl"]);
    assert_eq!(hard_wrap("abcdef", 4), vec!["abcd", "ef"]);
    assert_eq!(hard_wrap("日本語", 4), vec!["日本", "語"]);
    assert_eq!(split_keeping_spaces("a  b"), vec!["a", "  ", "b"]);
}

#[test]
fn markup_sets_styles() {
    let spans = newbbs::ui::markdown::inline("a **b** *c* ~~d~~ `e`", Style::new(), Style::new());
    let find = |what: &str| spans.iter().find(|s| s.content == what).unwrap();
    assert_eq!(find("b").style.bold, Switch::On);
    assert_eq!(find("c").style.italic, Switch::On);
    assert_eq!(find("d").style.crossed_out, Switch::On);
    assert!(spans.iter().any(|s| s.content == "e"));
}

#[test]
fn quotes_and_code() {
    assert_eq!(texts("> said", 20), vec!["\u{2502} said"]);
    let block = texts("```\nlet x;\n```", 40);
    assert_eq!(block, vec!["\u{2500}".repeat(24), "  let x;".to_string(), "\u{2500}".repeat(24)]);
    // Markup means nothing inside a block.
    assert_eq!(texts("```\n**x**\n```", 40)[1], "  **x**");
}

#[test]
fn texts_are_cut_by_width() {
    let chars: Vec<char> = "abcd".chars().collect();
    assert_eq!(cut(&chars, &vec![1, 2, 1, 3], 3), vec!["ab", "c", "d"]);
    // A character that is wider than everything stands on its own.
    assert_eq!(cut(&chars, &vec![9, 9, 0, 1], 3), vec!["a", "b", "cd"]);
    assert_eq!(cut(&vec![], &vec![], 0), vec![""]);
}

/// A single wide character is all that passes the width.
#[test]
fn wide_characters_stand_alone() {
    let spans = vec![Span::raw("\u{6f22}\u{5b57}ab".to_string())];
    let lines: Vec<String> = wrap(&spans, 1).iter().map(text).collect();
    assert_eq!(lines, vec!["\u{6f22}", "\u{5b57}", "a", "b"]);
    let lines: Vec<String> = wrap(&spans, 3).iter().map(text).collect();
    assert_eq!(lines, vec!["\u{6f22}", "\u{5b57}a", "b"]);
}

#[test]
fn words_are_laid_out_by_width() {
    let piece = |text: &str, width| Measured { text: text.to_string(), width };
    let mut state = Wrapper { lines: vec![], current: vec![], used: 0 };
    state.lay(piece("one", 3), vec![], Style::new(), 6);
    state.lay(piece("  ", 2), vec![], Style::new(), 6);
    assert_eq!(state.used, 5);
    // It does not fit, and starts a new line.
    state.lay(piece("two", 3), vec![], Style::new(), 6);
    assert_eq!((state.lines.len(), state.used), (1, 3));
    // A gap that does not fit is dropped.
    state.lay(piece("    ", 4), vec![], Style::new(), 6);
    assert_eq!(state.used, 3);
    // Too long for any line.
    let parts = vec![piece("abcdef", 6), piece("gh", 2)];
    state.lay(piece("abcdefgh", 8), parts, Style::new(), 6);
    assert_eq!((state.lines.len(), state.used), (3, 2));
    assert_eq!(text(&state.lines[0]), "one  ");
    assert_eq!(text(&state.lines[1]), "two");
    assert_eq!(text(&state.lines[2]), "abcdef");
}

/// Nothing but gaps is lost, and no line is too wide.
#[test]
fn wrapping_keeps_the_text() {
    let spans = vec![Span::raw("alpha beta  gamma".to_string()), Span::raw("delta".to_string())];
    for width in 1..30 {
        let lines = wrap(&spans, width);
        let all: String = lines.iter().map(text).collect();
        assert_eq!(all.replace(' ', ""), "alphabetagammadelta");
        assert!(lines.iter().all(|l| text(l).chars().count() <= width));
    }
}

/// A star or an underscore is emphasis only where it hugs a word.
#[test]
fn emphasis_goes_by_words() {
    let marked = |text: &str, words: Vec<bool>| -> Vec<(String, bool)> {
        let chars: Vec<char> = text.chars().collect();
        let spans = mark_up(&chars, &words, Style::new(), Style::new());
        spans.into_iter().map(|s| (s.content, s.style.italic == Switch::On)).collect()
    };
    let text = |s: &str, italic| (s.to_string(), italic);
    assert_eq!(marked("x_y", vec![true, false, true]), vec![text("x_y", false)]);
    // What is no part of a word does not hold emphasis back.
    assert_eq!(marked("x_y", vec![false; 3]), vec![text("x", false), text("y", true)]);
    let names = newbbs::ui::markdown::inline("snake_case_names 3 * 4", Style::new(), Style::new());
    assert_eq!(names.len(), 1);
    assert_eq!(names[0].content, "snake_case_names 3 * 4");
}

/// Every piece keeps the style of its span, and no line starts with a gap.
#[test]
fn wrapping_keeps_the_styles() {
    let red = Style::new().fg(Color::Indexed(1));
    let blue = Style::new().fg(Color::Indexed(4));
    let spans = vec![
        Span::styled("  one two ".to_string(), red),
        Span::styled("three  abcdefghij".to_string(), blue),
    ];
    for width in 1..25 {
        let mut seen = Vec::new();
        for line in wrap(&spans, width) {
            if let Some(first) = line.spans.first() {
                assert!(!first.content.starts_with([' ', '\t']));
            }
            for span in &line.spans {
                for c in span.content.chars().filter(|c| *c != ' ') {
                    seen.push((c, span.style));
                }
            }
        }
        let mut want: Vec<(char, Style)> = "onetwo".chars().map(|c| (c, red)).collect();
        want.extend("threeabcdefghij".chars().map(|c| (c, blue)));
        assert_eq!(seen, want);
    }
}
