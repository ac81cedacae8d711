//! What meets a visitor before the board: art with a message underneath.
use vstd::prelude::*;

use crate::text::{lines, lines_of, repeat, repeated, utf8_text};
use crate::ui::ansi::{art_line, parse, widest};
use crate::ui::render::overlays::{accent_style, text_style};
use crate::ui::render::panes::{left_over, run};
use crate::ui::style::{display_width, plain, width_of, Line, Run, Span, Style};
use crate::ui::theme::Theme;

verus! {

/// The text of a setting: what is stored, if that is text, or else the
/// built-in.
pub open spec fn text_or(stored: Option<Seq<u8>>, fallback: Seq<char>) -> Seq<char> {
    match stored {
        Some(bytes) => if vstd::utf8::valid_utf8(bytes) {
            vstd::utf8::decode_utf8(bytes)
        } else {
            fallback
        },
        None => fallback,
    }
}

pub open spec fn bytes_in(stored: Option<Vec<u8>>) -> Option<Seq<u8>> {
    match stored {
        Some(bytes) => Some(bytes@),
        None => None,
    }
}

pub fn setting_text(stored: Option<Vec<u8>>, fallback: &str) -> (r: String)
    ensures
        r@ == text_or(bytes_in(stored), fallback@),
{
    match stored {
        Some(bytes) => match utf8_text(bytes) {
            Some(text) => text,
            None => fallback.to_owned(),
        },
        None => fallback.to_owned(),
    }
}

/// A line moved in so that what is `used` wide stands in the middle of `width`
/// columns.
pub open spec fn moved_in(line: Seq<Run>, used: nat, width: nat) -> Seq<Run> {
    seq![run(repeated(' ', left_over(width as int, used as int) / 2), plain())] + line
}

/// Whether art fits. Art wider than the terminal is dropped, leaving the
/// message on its own.
pub open spec fn fits(art: Seq<char>, width: nat, theme: Theme) -> bool {
    art_width(art, theme) <= width
}

pub open spec fn art_width(art: Seq<char>, theme: Theme) -> int {
    widest(
        lines_of(art),
        lines_of(art).len() as int,
        art.contains('\u{1b}'),
        accent_style(theme),
    ) as int
}

/// The art, as a block in the middle. Plain art is drawn in the accent colour,
/// coloured art keeps its own.
pub open spec fn art_block(art: Seq<char>, width: nat, theme: Theme) -> Seq<Seq<Run>> {
    let source = lines_of(art);
    Seq::new(
        source.len(),
        |i: int|
            moved_in(
                art_line(source[i], art.contains('\u{1b}'), accent_style(theme)).0,
                art_width(art, theme) as nat,
                width,
            ),
    )
}

/// The message, each line in the middle.
pub open spec fn message_block(motd: Seq<char>, width: nat, theme: Theme) -> Seq<Seq<Run>> {
    lines_of(motd).map_values(
        |line: Seq<char>|
            moved_in(
                seq![run(line, text_style(theme))],
                display_width(line) as nat,
                width,
            ),
    )
}

pub open spec fn blank_lines(count: nat) -> Seq<Seq<Run>> {
    Seq::new(count, |i: int| seq![])
}

/// The art with the message underneath.
pub open spec fn splash_block(
    art: Seq<char>,
    motd: Seq<char>,
    width: nat,
    theme: Theme,
) -> Seq<Seq<Run>> {
    if fits(art, width, theme) {
        art_block(art, width, theme) + blank_lines(1) + message_block(motd, width, theme)
    } else {
        message_block(motd, width, theme)
    }
}

/// The splash, in the middle of the screen.
pub open spec fn splash_of(
    art: Seq<char>,
    motd: Seq<char>,
    width: nat,
    height: nat,
    theme: Theme,
) -> Seq<Seq<Run>> {
    let block = splash_block(art, motd, width, theme);
    blank_lines(left_over(height as int, block.len() as int) / 2) + block
}

/// Move a line in so that what is `used` wide stands in the middle of `width`
/// columns.
pub fn move_in(line: Line, used: usize, width: usize) -> (r: Line)
    ensures
        r.deep_view() == moved_in(line.deep_view(), used as nat, width as nat),
{
    let ghost text = line.deep_view();
    let indent: usize = width.saturating_sub(used) / 2;
    let mut spans: Vec<Span> = Vec::new();
    spans.push(Span::raw(repeat(' ', indent)));
    let ghost left = spans@;
    let mut rest = line.spans;
    let ghost right = rest@;
    spans.append(&mut rest);
    proof {
        assert(spans@ =~= left + right);
        assert(spans.deep_view() =~= moved_in(text, used as nat, width as nat));
    }
    Line { spans }
}

fn put_art(out: &mut Vec<Line>, art: &str, width: usize, theme: &Theme) -> (r: bool)
    ensures
        r == fits(art@, width as nat, *theme),
        final(out).deep_view() == if r {
            old(out).deep_view() + art_block(art@, width as nat, *theme)
        } else {
            old(out).deep_view()
        },
{
    let style = Style::new().fg(theme.accent());
    let parsed = parse(art, style);
    if parsed.width > width {
        return false;
    }
    let wide = parsed.width;
    let drawn = parsed.lines;
    let ghost before = out.deep_view();
    let ghost block = art_block(art@, width as nat, *theme);
    assert(before + block.take(0) =~= before);
    let mut i: usize = 0;
    for line in it: drawn
        invariant
            it.seq() == drawn@,
            i == it.index(),
            i <= drawn.len(),
            drawn.len() == block.len(),
            wide == art_width(art@, *theme),
            block == art_block(art@, width as nat, *theme),
            forall|k: int|
                0 <= k < drawn.len() ==> (#[trigger] drawn[k]).deep_view() == art_line(
                    lines_of(art@)[k],
                    art@.contains('\u{1b}'),
                    accent_style(*theme),
                ).0,
            out.deep_view() == before + block.take(i as int),
    {
        let ghost so_far = out.deep_view();
        assert(line == drawn[i as int]);
        let moved = move_in(line, wide, width);
        assert(moved.deep_view() == block[i as int]);
        out.push(moved);
        proof {
            assert(out.deep_view() =~= so_far.push(moved.deep_view()));
            assert(block.take(i + 1) =~= block.take(i as int).push(block[i as int]));
            assert(before + block.take(i + 1) =~= (before + block.take(i as int)).push(
                block[i as int],
            ));
        }
        i += 1;
    }
    assert(block.take(i as int) =~= block);
    true
}

fn put_message(out: &mut Vec<Line>, motd: &str, width: usize, theme: &Theme)
    ensures
        final(out).deep_view() == old(out).deep_view() + message_block(
            motd@,
            width as nat,
            *theme,
        ),
{
    let source = lines(motd);
    let ghost before = out.deep_view();
    let ghost block = message_block(motd@, width as nat, *theme);
    assert(before + block.take(0) =~= before);
    let mut i: usize = 0;
    while i < source.len()
        invariant
            i <= source.len(),
            source.deep_view() == lines_of(motd@),
            block == message_block(motd@, width as nat, *theme),
            out.deep_view() == before + block.take(i as int),
        decreases source.len() - i,
    {
        let ghost so_far = out.deep_view();
        let text = source[i].as_str();
        assert(text@ == lines_of(motd@)[i as int]);
        let used = width_of(text);
        let line = Line::of(Span::styled(text.to_owned(), Style::new().fg(theme.fg())));
        assert(line.deep_view() =~= seq![run(text@, text_style(*theme))]);
        let moved = move_in(line, used, width);
        assert(moved.deep_view() == block[i as int]);
        out.push(moved);
        proof {
            assert(out.deep_view() =~= so_far.push(moved.deep_view()));
            assert(block.take(i + 1) =~= block.take(i as int).push(block[i as int]));
            assert(before + block.take(i + 1) =~= (before + block.take(i as int)).push(
                block[i as int],
            ));
        }
        i += 1;
    }
    assert(block.take(i as int) =~= block);
}

/// The splash, in the middle of a screen of this size.
pub fn splash(art: &str, motd: &str, width: u16, height: u16, theme: &Theme) -> (r: Vec<Line>)
    ensures
        r.deep_view() == splash_of(art@, motd@, width as nat, height as nat, *theme),
{
    let width = width as usize;
    let mut block: Vec<Line> = Vec::new();
    assert(block.deep_view() =~= seq![]);
    if put_art(&mut block, art, width, theme) {
        let ghost drawn = block.deep_view();
        let gap = Line::blank();
        block.push(gap);
        assert(block.deep_view() =~= drawn + blank_lines(1));
        assert(drawn =~= art_block(art@, width as nat, *theme));
    }
    put_message(&mut block, motd, width, theme);
    assert(block.deep_view() =~= splash_block(art@, motd@, width as nat, *theme));
    let ghost below = block.deep_view();
    let top: usize = (height as usize).saturating_sub(block.len()) / 2;
    let mut out: Vec<Line> = Vec::new();
    assert(out.deep_view() =~= seq![]);
    while out.len() < top
        invariant
            out.len() <= top,
            out.deep_view() == blank_lines(out@.len()),
        decreases top - out.len(),
    {
        let ghost before = out.deep_view();
        let line = Line::blank();
        out.push(line);
        assert(out.deep_view() =~= before.push(line.deep_view()));
        assert(out.deep_view() =~= blank_lines(out@.len()));
    }
    let ghost above = out.deep_view();
    let ghost left = out@;
    let ghost right = block@;
    let mut rest = block;
    out.append(&mut rest);
    proof {
        assert(out@ =~= left + right);
        assert(out.deep_view() =~= above + below);
    }
    out
}

/// Art that is too wide leaves the message exactly as it is on its own.
pub proof fn wide_art_is_dropped(
    art: Seq<char>,
    other: Seq<char>,
    motd: Seq<char>,
    width: nat,
    height: nat,
    theme: Theme,
)
    requires
        !fits(art, width, theme),
        !fits(other, width, theme),
    ensures
        splash_of(art, motd, width, height, theme) == splash_of(other, motd, width, height, theme),
{
}

/// What was stored as text is shown as it was stored; where nothing was, or
/// something that is no text, the built-in stands in for it.
pub proof fn settings_are_shown_as_stored(text: Seq<char>, bytes: Seq<u8>, fallback: Seq<char>)
    ensures
        text_or(Some(vstd::utf8::encode_utf8(text)), fallback) == text,
        text_or(None, fallback) == fallback,
        !vstd::utf8::valid_utf8(bytes) ==> text_or(Some(bytes), fallback) == fallback,
{
    vstd::utf8::encode_utf8_valid_utf8(text);
    vstd::utf8::encode_utf8_decode_utf8(text);
}

/// A line that is moved in has blanks before it and nothing else changed, and
/// as much room on either side of it, but for one column.
pub proof fn lines_are_moved_to_the_middle(line: Seq<Run>, used: nat, width: nat)
    ensures
        ({
            let r = moved_in(line, used, width);
            let left = r[0].text.len();
            &&& r.len() == line.len() + 1
            &&& r.skip(1) == line
            &&& forall|i: int| 0 <= i < left ==> #[trigger] r[0].text[i] == ' '
            &&& used <= width ==> 0 <= width - used - left - left <= 1
            &&& used > width ==> left == 0
        }),
{
    assert(moved_in(line, used, width).skip(1) =~= line);
}

/// The splash is the art with the message below it, a blank line between them,
/// and as many blank lines above it as below, but for one.
pub proof fn the_message_stands_below_the_art(
    art: Seq<char>,
    motd: Seq<char>,
    width: nat,
    height: nat,
    theme: Theme,
)
    ensures
        ({
            let all = splash_of(art, motd, width, height, theme);
            let block = splash_block(art, motd, width, theme);
            let top = all.len() - block.len();
            let words = message_block(motd, width, theme);
            &&& all.skip(top) == block
            &&& block.skip(block.len() - words.len()) == words
            &&& fits(art, width, theme) ==> block.len() == lines_of(art).len() + 1
                + words.len() && block.take(lines_of(art).len() as int) == art_block(
                art,
                width,
                theme,
            )
            &&& !fits(art, width, theme) ==> block == words
            &&& forall|i: int| 0 <= i < top ==> (#[trigger] all[i]).len() == 0
            &&& block.len() <= height ==> 0 <= height - block.len() - top - top <= 1
            &&& words.len() == lines_of(motd).len()
        }),
{
    let all = splash_of(art, motd, width, height, theme);
    let block = splash_block(art, motd, width, theme);
    let words = message_block(motd, width, theme);
    assert(all.skip(all.len() - block.len()) =~= block);
    assert(block.skip(block.len() - words.len()) =~= words);
    if fits(art, width, theme) {
        assert(block.take(lines_of(art).len() as int) =~= art_block(art, width, theme));
    }
}

} // verus!
