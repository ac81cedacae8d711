//! Reading ANSI art: SGR colour codes into styled lines.
//!
//! Art brings its own palette, so unlike the rest of the UI these colours are
//! passed through exactly as authored rather than degraded through the theme
//! -- the file says colour 96, the terminal gets colour 96.
//!
//! Only SGR (`ESC[...m`) is understood. Cursor-movement codes, which classic
//! CP437 `.ANS` files use for positioning, are skipped rather than drawn; that
//! format needs transcoding anyway and is a separate piece of work.
use vstd::prelude::*;

use crate::number::{decimal_nat, is_digit, numbers_are_read_back, parse_unsigned, unsigned_value};
use crate::text::{
    chars_of, contains_char, find, find_from, lemma_find, lines, lines_of, pieces,
    pieces_lie_between_separators, slice_of, split,
};
use crate::ui::style::{
    char_width, display_width, lemma_text_of_push, plain, switched, text_of, width_of,
    width_of_char, with, Color, Line, Modifier, Run, Span, Style, Switch,
};

verus! {

#[derive(Debug)]
pub struct Art {
    pub lines: Vec<Line>,
    /// Display width of the widest line, ignoring escape sequences.
    pub width: usize,
    /// Whether the source actually carried colour codes.
    pub colored: bool,
}

// ---------------------------------------------------------------------------
// colour codes
// ---------------------------------------------------------------------------

/// One parameter of a code; anything that is not a 16-bit number counts as
/// zero.
pub open spec fn code_value(text: Seq<char>) -> u16 {
    match unsigned_value(text, 0xffff) {
        Some(n) => n as u16,
        None => 0,
    }
}

/// The numbers in the parameters of a code; no parameters are a single zero.
pub open spec fn code_values(params: Seq<char>) -> Seq<u16> {
    if params.len() == 0 {
        seq![0u16]
    } else {
        let parts = pieces(params, ';');
        Seq::new(parts.len(), |i: int| code_value(parts[i]))
    }
}

/// `style` with its foreground or its background replaced.
pub open spec fn painted(style: Style, foreground: bool, color: Option<Color>) -> Style {
    if foreground {
        Style { fg: color, ..style }
    } else {
        Style { bg: color, ..style }
    }
}

/// An extended colour (`38` or `48`): the style after it and the numbers it
/// takes up. `5;n` is the palette entry `n`, `2;r;g;b` is a colour; one that
/// is cut short still takes up its place.
pub open spec fn extended(style: Style, codes: Seq<u16>, i: int, foreground: bool) -> (Style, int) {
    if i + 1 < codes.len() && codes[i + 1] == 5 {
        (
            if i + 2 < codes.len() {
                painted(style, foreground, Some(Color::Indexed((codes[i + 2] % 256) as u8)))
            } else {
                style
            },
            3,
        )
    } else if i + 1 < codes.len() && codes[i + 1] == 2 {
        (
            if i + 4 < codes.len() {
                painted(
                    style,
                    foreground,
                    Some(
                        Color::Rgb(
                            (codes[i + 2] % 256) as u8,
                            (codes[i + 3] % 256) as u8,
                            (codes[i + 4] % 256) as u8,
                        ),
                    ),
                )
            } else {
                style
            },
            5,
        )
    } else {
        (style, 1)
    }
}

/// What the number at `i` does to the style, and how many numbers it takes up.
pub open spec fn code_applied(style: Style, codes: Seq<u16>, i: int) -> (Style, int) {
    let n = codes[i];
    if n == 38 || n == 48 {
        extended(style, codes, i, n == 38)
    } else {
        (
            if n == 0 {
                plain()
            } else if n == 1 {
                with(style, Modifier::Bold)
            } else if n == 2 {
                with(style, Modifier::Dim)
            } else if n == 3 {
                with(style, Modifier::Italic)
            } else if n == 4 {
                with(style, Modifier::Underlined)
            } else if n == 7 {
                with(style, Modifier::Reversed)
            } else if n == 22 {
                switched(switched(style, Modifier::Bold, Switch::Off), Modifier::Dim, Switch::Off)
            } else if n == 23 {
                switched(style, Modifier::Italic, Switch::Off)
            } else if n == 24 {
                switched(style, Modifier::Underlined, Switch::Off)
            } else if n == 27 {
                switched(style, Modifier::Reversed, Switch::Off)
            } else if 30 <= n <= 37 {
                painted(style, true, Some(Color::Indexed((n - 30) as u8)))
            } else if 90 <= n <= 97 {
                painted(style, true, Some(Color::Indexed((n - 90 + 8) as u8)))
            } else if n == 39 {
                painted(style, true, None)
            } else if 40 <= n <= 47 {
                painted(style, false, Some(Color::Indexed((n - 40) as u8)))
            } else if 100 <= n <= 107 {
                painted(style, false, Some(Color::Indexed((n - 100 + 8) as u8)))
            } else if n == 49 {
                painted(style, false, None)
            } else {
                style
            },
            1,
        )
    }
}

/// The style after the numbers from `i` on.
pub open spec fn codes_applied(style: Style, codes: Seq<u16>, i: int) -> Style
    decreases
            (if i < codes.len() {
                codes.len() - i
            } else {
                0
            }),
{
    if i < 0 || i >= codes.len() {
        style
    } else {
        let (next, used) = code_applied(style, codes, i);
        codes_applied(next, codes, i + used)
    }
}

fn read_codes(params: &str) -> (r: Vec<u16>)
    ensures
        r@ == code_values(params@),
{
    let mut out: Vec<u16> = Vec::new();
    if params.is_empty() {
        out.push(0);
        return out;
    }
    let parts = split(params, ';');
    let ghost all = pieces(params@, ';');
    let mut i: usize = 0;
    while i < parts.len()
        invariant
            i <= parts.len(),
            parts.deep_view() == all,
            out@.len() == i,
            forall|j: int| 0 <= j < i ==> out@[j] == code_value(#[trigger] all[j]),
        decreases parts.len() - i,
    {
        assert(all[i as int] == parts[i as int]@);
        let n: u16 = match parse_unsigned(parts[i].as_str(), 0xffff) {
            Some(n) => n as u16,
            None => 0,
        };
        out.push(n);
        i += 1;
    }
    assert(out@ =~= code_values(params@));
    out
}

fn paint(style: Style, foreground: bool, color: Option<Color>) -> (r: Style)
    ensures
        r == painted(style, foreground, color),
{
    let mut out = style;
    if foreground {
        out.fg = color;
    } else {
        out.bg = color;
    }
    out
}

fn low_byte(n: u16) -> (r: u8)
    ensures
        r == n % 256,
{
    (n % 256) as u8
}

fn apply_extended(style: Style, codes: &Vec<u16>, i: usize, foreground: bool) -> (r: (
    Style,
    usize,
))
    requires
        i < codes.len(),
    ensures
        (r.0, r.1 as int) == extended(style, codes@, i as int, foreground),
{
    if codes.len() - i > 1 && codes[i + 1] == 5 {
        if codes.len() - i > 2 {
            let color = Color::Indexed(low_byte(codes[i + 2]));
            return (paint(style, foreground, Some(color)), 3);
        }
        return (style, 3);
    }
    if codes.len() - i > 1 && codes[i + 1] == 2 {
        if codes.len() - i > 4 {
            let color = Color::Rgb(
                low_byte(codes[i + 2]),
                low_byte(codes[i + 3]),
                low_byte(codes[i + 4]),
            );
            return (paint(style, foreground, Some(color)), 5);
        }
        return (style, 5);
    }
    (style, 1)
}

fn apply_code(style: Style, codes: &Vec<u16>, i: usize) -> (r: (Style, usize))
    requires
        i < codes.len(),
    ensures
        (r.0, r.1 as int) == code_applied(style, codes@, i as int),
{
    let n = codes[i];
    if n == 38 || n == 48 {
        return apply_extended(style, codes, i, n == 38);
    }
    let next = if n == 0 {
        Style::new()
    } else if n == 1 {
        style.add_modifier(Modifier::Bold)
    } else if n == 2 {
        style.add_modifier(Modifier::Dim)
    } else if n == 3 {
        style.add_modifier(Modifier::Italic)
    } else if n == 4 {
        style.add_modifier(Modifier::Underlined)
    } else if n == 7 {
        style.add_modifier(Modifier::Reversed)
    } else if n == 22 {
        style.remove_modifier(Modifier::Bold).remove_modifier(Modifier::Dim)
    } else if n == 23 {
        style.remove_modifier(Modifier::Italic)
    } else if n == 24 {
        style.remove_modifier(Modifier::Underlined)
    } else if n == 27 {
        style.remove_modifier(Modifier::Reversed)
    } else if n >= 30 && n <= 37 {
        paint(style, true, Some(Color::Indexed((n - 30) as u8)))
    } else if n >= 90 && n <= 97 {
        paint(style, true, Some(Color::Indexed((n - 90 + 8) as u8)))
    } else if n == 39 {
        paint(style, true, None)
    } else if n >= 40 && n <= 47 {
        paint(style, false, Some(Color::Indexed((n - 40) as u8)))
    } else if n >= 100 && n <= 107 {
        paint(style, false, Some(Color::Indexed((n - 100 + 8) as u8)))
    } else if n == 49 {
        paint(style, false, None)
    } else {
        style
    };
    (next, 1)
}

/// Fold the parameters of one `ESC[...m` into the style.
pub fn apply_sgr(style: &mut Style, params: &str)
    ensures
        *final(style) == codes_applied(*old(style), code_values(params@), 0),
{
    let codes = read_codes(params);
    let mut now = *style;
    let mut i: usize = 0;
    while i < codes.len()
        invariant
            i <= codes.len(),
            codes@ == code_values(params@),
            codes_applied(now, codes@, i as int) == codes_applied(*style, codes@, 0),
        decreases codes.len() - i,
    {
        let (next, used) = apply_code(now, &codes, i);
        now = next;
        if used < codes.len() - i {
            i += used;
        } else {
            assert(codes_applied(next, codes@, i + used) == next);
            i = codes.len();
        }
    }
    *style = now;
}

// ---------------------------------------------------------------------------
// lines
// ---------------------------------------------------------------------------

/// Where a control sequence whose parameters start at `i` ends: at its final
/// byte, or at the end of the text if that is missing.
pub open spec fn sequence_end(s: Seq<char>, i: int) -> int
    decreases s.len() - i,
{
    if i < 0 || i >= s.len() || '\u{40}' <= s[i] && s[i] <= '\u{7e}' {
        i
    } else {
        sequence_end(s, i + 1)
    }
}

/// The run that a finished piece of text makes: none if it is empty.
pub open spec fn run_of(text: Seq<char>, style: Style) -> Seq<Run> {
    if text.len() == 0 {
        seq![]
    } else {
        seq![Run { text, style }]
    }
}

/// The runs that the text from `i` on adds, where `buf` is drawn already and
/// not yet part of a run. An escape ends the run, whatever it turns out to
/// be; only a colour code changes the style, and a sequence that is cut off
/// ends the line.
pub open spec fn art_from(s: Seq<char>, i: int, style: Style, buf: Seq<char>) -> Seq<Run>
    decreases
            (if i < s.len() {
                s.len() - i
            } else {
                0
            }),
    via art_from_decreases
{
    if i < 0 || i >= s.len() {
        run_of(buf, style)
    } else if s[i] != '\u{1b}' {
        art_from(s, i + 1, style, buf.push(s[i]))
    } else if i + 1 < s.len() && s[i + 1] == '[' {
        let end = sequence_end(s, i + 2);
        if end >= s.len() {
            run_of(buf, style)
        } else if s[end] == 'm' {
            run_of(buf, style) + art_from(
                s,
                end + 1,
                codes_applied(style, code_values(s.subrange(i + 2, end)), 0),
                seq![],
            )
        } else {
            run_of(buf, style) + art_from(s, end + 1, style, seq![])
        }
    } else {
        run_of(buf, style) + art_from(s, i + 2, style, seq![])
    }
}

#[via_fn]
proof fn art_from_decreases(s: Seq<char>, i: int, style: Style, buf: Seq<char>) {
    if 0 <= i && i + 2 <= s.len() {
        lemma_sequence_end_bounds(s, i + 2);
    }
}

proof fn lemma_sequence_end_bounds(s: Seq<char>, i: int)
    requires
        0 <= i <= s.len(),
    ensures
        i <= sequence_end(s, i) <= s.len(),
    decreases s.len() - i,
{
    if i < s.len() && !('\u{40}' <= s[i] && s[i] <= '\u{7e}') {
        lemma_sequence_end_bounds(s, i + 1);
    }
}

/// The columns of characters drawn one after the other.
pub open spec fn total_width(s: Seq<char>) -> nat
    decreases s.len(),
{
    if s.len() == 0 {
        0
    } else {
        total_width(s.drop_last()) + char_width(s.last()) as nat
    }
}

/// A count of columns as a machine integer holds it.
pub open spec fn capped(n: nat) -> usize {
    if n <= usize::MAX {
        n as usize
    } else {
        usize::MAX
    }
}

fn find_end(chars: &Vec<char>, from: usize) -> (r: usize)
    requires
        from <= chars.len(),
    ensures
        r == sequence_end(chars@, from as int),
        from <= r <= chars.len(),
{
    let mut end: usize = from;
    while end < chars.len() && !(chars[end] >= '\u{40}' && chars[end] <= '\u{7e}')
        invariant
            from <= end <= chars.len(),
            sequence_end(chars@, end as int) == sequence_end(chars@, from as int),
        decreases chars.len() - end,
    {
        end += 1;
    }
    end
}

fn flush(out: &mut Vec<Span>, buf: &mut String, style: Style)
    ensures
        final(out).deep_view() == old(out).deep_view() + run_of(old(buf)@, style),
        final(buf)@ == Seq::<char>::empty(),
        text_of(final(out).deep_view()) == text_of(old(out).deep_view()) + old(buf)@,
{
    if !buf.as_str().is_empty() {
        let text = buf.clone();
        *buf = String::new();
        out.push(Span::styled(text, style));
        proof {
            lemma_text_of_push(old(out).deep_view(), Run { text: old(buf)@, style });
            assert(out.deep_view() =~= old(out).deep_view().push(Run { text: old(buf)@, style }));
        }
    } else {
        assert(old(buf)@ == Seq::<char>::empty());
        assert(text_of(old(out).deep_view()) + old(buf)@ == text_of(old(out).deep_view()));
    }
    assert(out.deep_view() =~= old(out).deep_view() + run_of(old(buf)@, style));
}

/// One line of coloured art: its runs, and the columns of what they draw.
pub fn parse_line(raw: &str) -> (r: (Vec<Span>, usize))
    ensures
        r.0.deep_view() == art_from(raw@, 0, plain(), seq![]),
        r.1 == capped(total_width(text_of(r.0.deep_view()))),
{
    let mut spans: Vec<Span> = Vec::new();
    let mut style = Style::new();
    let mut buf = String::new();
    let mut width: usize = 0;
    let chars = chars_of(raw);
    let mut i: usize = 0;
    let ghost whole = art_from(raw@, 0, plain(), seq![]);
    assert(spans.deep_view() =~= Seq::<Run>::empty());
    assert(spans.deep_view() + whole == whole);
    assert(text_of(spans.deep_view()) + buf@ == Seq::<char>::empty());
    while i < chars.len()
        invariant
            i <= chars.len(),
            chars@ == raw@,
            whole == art_from(raw@, 0, plain(), seq![]),
            spans.deep_view() + art_from(chars@, i as int, style, buf@) == whole,
            width == capped(total_width(text_of(spans.deep_view()) + buf@)),
        decreases chars.len() - i,
    {
        if chars[i] != '\u{1b}' {
            let w = width_of_char(chars[i]);
            proof {
                let s = text_of(spans.deep_view()) + buf@.push(chars@[i as int]);
                assert(s.drop_last() == text_of(spans.deep_view()) + buf@);
                assert(s.last() == chars@[i as int]);
            }
            width = width.saturating_add(w);
            buf.push(chars[i]);
            i += 1;
            continue;
        }
        let ghost before = spans.deep_view();
        let ghost at = i as int;
        let ghost drawing = style;
        let ghost pending = run_of(buf@, style);
        assert(before + (pending + Seq::<Run>::empty()) == before + pending);
        let ghost drawn = text_of(before) + buf@;
        flush(&mut spans, &mut buf, style);
        assert(drawn + buf@ == drawn);
        if chars.len() - i > 1 && chars[i + 1] == '[' {
            let end = find_end(&chars, i + 2);
            if end >= chars.len() {
                // Truncated sequence: nothing sensible left to draw.
                return (spans, width);
            }
            if chars[end] == 'm' {
                let params = slice_of(&chars, i + 2, end);
                apply_sgr(&mut style, params.as_str());
            }
            // Anything else (cursor moves, erases) is skipped.
            i = end + 1;
        } else if chars.len() - i > 1 {
            // An escape introducing something we do not read.
            i += 2;
        } else {
            assert(art_from(chars@, at + 2, drawing, seq![]) == Seq::<Run>::empty());
            i = chars.len();
            assert(art_from(chars@, i as int, drawing, seq![]) == Seq::<Run>::empty());
        }
        assert(before + (pending + art_from(chars@, i as int, style, seq![])) == before + pending
            + art_from(chars@, i as int, style, seq![]));
    }
    flush(&mut spans, &mut buf, style);
    (spans, width)
}

/// What a line of art draws: its runs and its width.
pub open spec fn art_line(raw: Seq<char>, colored: bool, style: Style) -> (Seq<Run>, usize) {
    if colored {
        let runs = art_from(raw, 0, plain(), seq![]);
        (runs, capped(total_width(text_of(runs))))
    } else {
        (seq![Run { text: raw, style }], display_width(raw))
    }
}

/// The widest of the first `n` lines.
pub open spec fn widest(raws: Seq<Seq<char>>, n: int, colored: bool, style: Style) -> usize
    decreases n,
{
    if n <= 0 {
        0
    } else {
        let before = widest(raws, n - 1, colored, style);
        let w = art_line(raws[n - 1], colored, style).1;
        if w > before {
            w
        } else {
            before
        }
    }
}

/// Parse art. A file with no escape codes is plain art and takes `style`, so
/// an uncoloured banner still follows the theme.
pub fn parse(text: &str, style: Style) -> (r: Art)
    ensures
        r.colored == text@.contains('\u{1b}'),
        r.lines.len() == lines_of(text@).len(),
        forall|i: int|
            0 <= i < r.lines.len() ==> (#[trigger] r.lines[i]).deep_view() == art_line(
                lines_of(text@)[i],
                r.colored,
                style,
            ).0,
        r.width == widest(
            lines_of(text@),
            lines_of(text@).len() as int,
            r.colored,
            style,
        ),
{
    let colored = contains_char(text, '\u{1b}');
    let raws = lines(text);
    let ghost all = lines_of(text@);
    let mut out: Vec<Line> = Vec::new();
    let mut width: usize = 0;
    let mut i: usize = 0;
    while i < raws.len()
        invariant
            i <= raws.len(),
            raws.deep_view() == all,
            out.len() == i,
            forall|j: int|
                0 <= j < i ==> (#[trigger] out[j]).deep_view() == art_line(
                    all[j],
                    colored,
                    style,
                ).0,
            width == widest(all, i as int, colored, style),
        decreases raws.len() - i,
    {
        assert(all[i as int] == raws[i as int]@);
        let (spans, line_width) = if colored {
            parse_line(raws[i].as_str())
        } else {
            let mut spans: Vec<Span> = Vec::new();
            spans.push(Span::styled(raws[i].clone(), style));
            assert(spans.deep_view() =~= seq![Run { text: raws[i as int]@, style }]);
            (spans, width_of(raws[i].as_str()))
        };
        if line_width > width {
            width = line_width;
        }
        out.push(Line { spans });
        i += 1;
    }
    Art { lines: out, width, colored }
}

/// Coloured art has no say in what an uncoloured line looks like: the style
/// given for plain art never shows in it.
pub proof fn colored_art_ignores_the_plain_style(raw: Seq<char>, a: Style, b: Style)
    ensures
        art_line(raw, true, a) == art_line(raw, true, b),
{
}

/// Escape sequences never count toward the width: a line is as wide as the
/// characters it draws.
pub proof fn width_ignores_escape_sequences(raw: Seq<char>, style: Style)
    ensures
        art_line(raw, true, style).1 == capped(
            total_width(text_of(art_line(raw, true, style).0)),
        ),
{
}

// ---------------------------------------------------------------------------
// damaged art
// ---------------------------------------------------------------------------

/// Whether `s` holds at `at` what a colour code leaves behind when its escape
/// character is gone: a bracket, one to twelve digits and semicolons, an `m`.
pub open spec fn bare_code_at(s: Seq<char>, at: int) -> bool {
    let rest = s.skip(at + 1);
    let end = find(rest, 'm');
    &&& s[at] == '['
    &&& 0 < end <= 12
    &&& end < rest.len()
    &&& forall|j: int| 0 <= j < end ==> is_digit(#[trigger] rest[j]) || rest[j] == ';'
}

/// How many of the first `n` characters start a bare code.
pub open spec fn bare_codes(s: Seq<char>, n: int) -> nat
    decreases n,
{
    if n <= 0 {
        0
    } else {
        bare_codes(s, n - 1) + if bare_code_at(s, n - 1) {
            1nat
        } else {
            0nat
        }
    }
}

fn starts_bare_code(chars: &Vec<char>, at: usize) -> (r: bool)
    requires
        at < chars.len(),
    ensures
        r == bare_code_at(chars@, at as int),
{
    if chars[at] != '[' {
        return false;
    }
    let ghost rest = chars@.skip(at + 1);
    let end = find_from(chars, at + 1, 'm');
    if end == chars.len() || end == at + 1 || end - at - 1 > 12 {
        return false;
    }
    let mut j: usize = at + 1;
    while j < end
        invariant
            at < j <= end < chars.len(),
            rest == chars@.skip(at + 1),
            end - at - 1 == find(rest, 'm'),
            forall|k: int| 0 <= k < j - at - 1 ==> is_digit(#[trigger] rest[k]) || rest[k] == ';',
        decreases end - j,
    {
        let c = chars[j];
        assert(rest[j - at - 1] == c);
        if !((c >= '0' && c <= '9') || c == ';') {
            return false;
        }
        j += 1;
    }
    true
}

/// Art pasted through something that ate the escape characters leaves the
/// parameters behind as literal text. Worth telling someone about rather than
/// silently drawing `[0;37m` across their splash.
pub fn looks_like_stripped_escapes(text: &str) -> (r: bool)
    ensures
        r == (!text@.contains('\u{1b}') && bare_codes(text@, text@.len() as int) >= 3),
{
    if contains_char(text, '\u{1b}') {
        return false;
    }
    let chars = chars_of(text);
    let mut count: usize = 0;
    let mut i: usize = 0;
    while i < chars.len()
        invariant
            i <= chars.len(),
            chars@ == text@,
            count <= i,
            count == bare_codes(text@, i as int),
        decreases chars.len() - i,
    {
        if starts_bare_code(&chars, i) {
            count += 1;
        }
        i += 1;
    }
    count >= 3
}

/// (width, coloured, escapes-look-stripped) -- for `newbbs art` to report.
pub fn art_summary(art: &str) -> (r: (usize, bool, bool))
    ensures
        r.0 == widest(
            lines_of(art@),
            lines_of(art@).len() as int,
            art@.contains('\u{1b}'),
            plain(),
        ),
        r.1 == art@.contains('\u{1b}'),
        r.2 == (!art@.contains('\u{1b}') && bare_codes(art@, art@.len() as int) >= 3),
{
    let parsed = parse(art, Style::new());
    (parsed.width, parsed.colored, looks_like_stripped_escapes(art))
}

// ---------------------------------------------------------------------------
// what the codes do
// ---------------------------------------------------------------------------

/// The codes for modifiers: each switches its own on or off and nothing else;
/// zero resets everything.
pub proof fn modifier_codes_switch_their_modifier(style: Style, rest: Seq<u16>)
    ensures
        codes_applied(style, seq![0u16] + rest, 0) == codes_applied(plain(), rest, 0),
        codes_applied(style, seq![1u16] + rest, 0) == codes_applied(
            Style { bold: Switch::On, ..style },
            rest,
            0,
        ),
        codes_applied(style, seq![2u16] + rest, 0) == codes_applied(
            Style { dim: Switch::On, ..style },
            rest,
            0,
        ),
        codes_applied(style, seq![3u16] + rest, 0) == codes_applied(
            Style { italic: Switch::On, ..style },
            rest,
            0,
        ),
        codes_applied(style, seq![4u16] + rest, 0) == codes_applied(
            Style { underlined: Switch::On, ..style },
            rest,
            0,
        ),
        codes_applied(style, seq![7u16] + rest, 0) == codes_applied(
            Style { reversed: Switch::On, ..style },
            rest,
            0,
        ),
        codes_applied(style, seq![22u16] + rest, 0) == codes_applied(
            Style { bold: Switch::Off, dim: Switch::Off, ..style },
            rest,
            0,
        ),
        codes_applied(style, seq![23u16] + rest, 0) == codes_applied(
            Style { italic: Switch::Off, ..style },
            rest,
            0,
        ),
        codes_applied(style, seq![24u16] + rest, 0) == codes_applied(
            Style { underlined: Switch::Off, ..style },
            rest,
            0,
        ),
        codes_applied(style, seq![27u16] + rest, 0) == codes_applied(
            Style { reversed: Switch::Off, ..style },
            rest,
            0,
        ),
        codes_applied(style, Seq::<u16>::empty(), 0) == style,
{
    lemma_one_code(style, 0, rest);
    lemma_one_code(style, 1, rest);
    lemma_one_code(style, 2, rest);
    lemma_one_code(style, 3, rest);
    lemma_one_code(style, 4, rest);
    lemma_one_code(style, 7, rest);
    lemma_one_code(style, 22, rest);
    lemma_one_code(style, 23, rest);
    lemma_one_code(style, 24, rest);
    lemma_one_code(style, 27, rest);
}

/// The codes for colours: the eight dark and the eight bright ones of the
/// palette, for the text and for what is behind it, and the way back to the
/// terminal's own.
pub proof fn color_codes_paint(style: Style, k: u16, rest: Seq<u16>)
    requires
        k < 8,
    ensures
        codes_applied(style, seq![(30 + k) as u16] + rest, 0) == codes_applied(
            Style { fg: Some(Color::Indexed(k as u8)), ..style },
            rest,
            0,
        ),
        codes_applied(style, seq![(90 + k) as u16] + rest, 0) == codes_applied(
            Style { fg: Some(Color::Indexed((8 + k) as u8)), ..style },
            rest,
            0,
        ),
        codes_applied(style, seq![(40 + k) as u16] + rest, 0) == codes_applied(
            Style { bg: Some(Color::Indexed(k as u8)), ..style },
            rest,
            0,
        ),
        codes_applied(style, seq![(100 + k) as u16] + rest, 0) == codes_applied(
            Style { bg: Some(Color::Indexed((8 + k) as u8)), ..style },
            rest,
            0,
        ),
        codes_applied(style, seq![39u16] + rest, 0) == codes_applied(
            Style { fg: None, ..style },
            rest,
            0,
        ),
        codes_applied(style, seq![49u16] + rest, 0) == codes_applied(
            Style { bg: None, ..style },
            rest,
            0,
        ),
{
    lemma_one_code(style, (30 + k) as u16, rest);
    lemma_one_code(style, (90 + k) as u16, rest);
    lemma_one_code(style, (40 + k) as u16, rest);
    lemma_one_code(style, (100 + k) as u16, rest);
    lemma_one_code(style, 39, rest);
    lemma_one_code(style, 49, rest);
}

/// A palette entry and a colour by its three channels are passed through as
/// they are written, for the text and for what is behind it.
pub proof fn extended_colors_are_passed_through(
    style: Style,
    n: u8,
    r: u8,
    g: u8,
    b: u8,
    rest: Seq<u16>,
)
    ensures
        codes_applied(style, seq![38u16, 5, n as u16] + rest, 0) == codes_applied(
            Style { fg: Some(Color::Indexed(n)), ..style },
            rest,
            0,
        ),
        codes_applied(style, seq![48u16, 5, n as u16] + rest, 0) == codes_applied(
            Style { bg: Some(Color::Indexed(n)), ..style },
            rest,
            0,
        ),
        codes_applied(style, seq![38u16, 2, r as u16, g as u16, b as u16] + rest, 0)
            == codes_applied(Style { fg: Some(Color::Rgb(r, g, b)), ..style }, rest, 0),
        codes_applied(style, seq![48u16, 2, r as u16, g as u16, b as u16] + rest, 0)
            == codes_applied(Style { bg: Some(Color::Rgb(r, g, b)), ..style }, rest, 0),
{
    let a = seq![38u16, 5, n as u16];
    let c = seq![48u16, 5, n as u16];
    let d = seq![38u16, 2, r as u16, g as u16, b as u16];
    let e = seq![48u16, 2, r as u16, g as u16, b as u16];
    assert(code_applied(style, a + rest, 0) == (
        Style { fg: Some(Color::Indexed(n)), ..style },
        3int,
    ));
    assert(code_applied(style, c + rest, 0) == (
        Style { bg: Some(Color::Indexed(n)), ..style },
        3int,
    ));
    assert(code_applied(style, d + rest, 0) == (
        Style { fg: Some(Color::Rgb(r, g, b)), ..style },
        5int,
    ));
    assert(code_applied(style, e + rest, 0) == (
        Style { bg: Some(Color::Rgb(r, g, b)), ..style },
        5int,
    ));
    lemma_codes_shift(Style { fg: Some(Color::Indexed(n)), ..style }, a, rest, 0);
    lemma_codes_shift(Style { bg: Some(Color::Indexed(n)), ..style }, c, rest, 0);
    lemma_codes_shift(Style { fg: Some(Color::Rgb(r, g, b)), ..style }, d, rest, 0);
    lemma_codes_shift(Style { bg: Some(Color::Rgb(r, g, b)), ..style }, e, rest, 0);
}

/// A number that means nothing changes nothing.
pub proof fn unknown_codes_change_nothing(style: Style, n: u16, rest: Seq<u16>)
    requires
        n == 5 || n == 6 || 8 <= n <= 21 || n == 25 || n == 26 || n == 28 || n == 29 || 50 <= n <= 89
            || 98 <= n <= 99 || n >= 108,
    ensures
        codes_applied(style, seq![n] + rest, 0) == codes_applied(style, rest, 0),
{
    lemma_one_code(style, n, rest);
}

proof fn lemma_one_code(style: Style, n: u16, rest: Seq<u16>)
    requires
        n != 38 && n != 48,
    ensures
        codes_applied(style, seq![n] + rest, 0) == codes_applied(
            code_applied(style, seq![n], 0).0,
            rest,
            0,
        ),
        code_applied(style, seq![n] + rest, 0).0 == code_applied(style, seq![n], 0).0,
{
    let all = seq![n] + rest;
    assert(all[0] == n);
    assert(seq![n][0] == n);
    let next = code_applied(style, all, 0).0;
    lemma_codes_shift(next, seq![n], rest, 0);
}

/// What is behind some numbers is applied as if it stood alone.
proof fn lemma_codes_shift(style: Style, front: Seq<u16>, rest: Seq<u16>, i: int)
    requires
        0 <= i,
    ensures
        codes_applied(style, front + rest, front.len() + i) == codes_applied(style, rest, i),
    decreases
            (if i < rest.len() {
                rest.len() - i
            } else {
                0
            }),
{
    let all = front + rest;
    let at = front.len() + i;
    if i < rest.len() {
        assert(all[at] == rest[i]);
        assert(i + 1 < rest.len() ==> all[at + 1] == rest[i + 1]);
        assert(i + 2 < rest.len() ==> all[at + 2] == rest[i + 2]);
        assert(i + 3 < rest.len() ==> all[at + 3] == rest[i + 3]);
        assert(i + 4 < rest.len() ==> all[at + 4] == rest[i + 4]);
        assert(code_applied(style, all, at) == code_applied(style, rest, i));
        let (next, used) = code_applied(style, rest, i);
        lemma_codes_shift(next, front, rest, i + used);
    }
}

/// The numbers of a code are written in decimal, with semicolons between them;
/// a code without any is a reset.
pub proof fn codes_are_written_in_decimal(n: u16, rest: Seq<char>)
    ensures
        code_values(decimal_nat(n as nat)) == seq![n],
        rest.len() > 0 ==> code_values(decimal_nat(n as nat) + seq![';'] + rest) == seq![n]
            + code_values(rest),
        code_values(Seq::<char>::empty()) == seq![0u16],
{
    let w = decimal_nat(n as nat);
    numbers_are_read_back(n as nat, 0xffff, w, 0);
    lemma_decimal_digits(n as nat);
    assert(!w.contains(';')) by {
        if w.contains(';') {
            let i = choose|i: int| 0 <= i < w.len() && w[i] == ';';
            assert(is_digit(w[i]));
        }
    }
    pieces_lie_between_separators(w, rest, ';');
    assert(code_values(w) =~= seq![n]);
    if rest.len() > 0 {
        let all = w + seq![';'] + rest;
        assert(code_values(all) =~= seq![n] + code_values(rest));
    }
}

proof fn lemma_decimal_digits(n: nat)
    ensures
        decimal_nat(n).len() > 0,
        forall|i: int| 0 <= i < decimal_nat(n).len() ==> is_digit(#[trigger] decimal_nat(n)[i]),
    decreases n,
{
    if n >= 10 {
        lemma_decimal_digits(n / 10);
        let head = decimal_nat(n / 10);
        assert forall|i: int| 0 <= i < decimal_nat(n).len() implies is_digit(
            #[trigger] decimal_nat(n)[i],
        ) by {
            if i < head.len() {
                assert(decimal_nat(n)[i] == head[i]);
            }
        }
    }
}

proof fn lemma_art_plain(s: Seq<char>, i: int, a: Seq<char>, style: Style, buf: Seq<char>)
    requires
        0 <= i,
        i + a.len() <= s.len(),
        s.subrange(i, i + a.len()) == a,
        !a.contains('\u{1b}'),
    ensures
        art_from(s, i, style, buf) == art_from(s, i + a.len(), style, buf + a),
    decreases a.len(),
{
    if a.len() == 0 {
        assert(buf + a =~= buf);
    } else {
        let t = a.drop_first();
        assert(s.subrange(i, i + a.len())[0] == s[i]);
        assert(a.contains(a[0]));
        assert(s.subrange(i + 1, i + 1 + t.len()) =~= t) by {
            assert(s.subrange(i, i + a.len()).drop_first() =~= s.subrange(i + 1, i + a.len()));
        }
        if t.contains('\u{1b}') {
            let k = choose|k: int| 0 <= k < t.len() && t[k] == '\u{1b}';
            assert(a[k + 1] == '\u{1b}');
        }
        lemma_art_plain(s, i + 1, t, style, buf.push(a[0]));
        assert(buf.push(a[0]) + t =~= buf + a);
    }
}

proof fn lemma_sequence_end_at(s: Seq<char>, i: int, end: int)
    requires
        0 <= i <= end < s.len(),
        forall|k: int| i <= k < end ==> !('\u{40}' <= #[trigger] s[k] && s[k] <= '\u{7e}'),
        '\u{40}' <= s[end] && s[end] <= '\u{7e}',
    ensures
        sequence_end(s, i) == end,
    decreases end - i,
{
    if i < end {
        assert(!('\u{40}' <= s[i] && s[i] <= '\u{7e}'));
        lemma_sequence_end_at(s, i + 1, end);
    }
}

/// What stands before a code is drawn as it was, and what stands behind it as
/// the code says; the code itself is not drawn. A sequence that is no colour
/// code is not drawn either, and changes nothing.
pub proof fn a_code_colors_what_follows(
    a: Seq<char>,
    params: Seq<char>,
    last: char,
    b: Seq<char>,
    style: Style,
)
    requires
        !a.contains('\u{1b}'),
        !b.contains('\u{1b}'),
        a.len() > 0 && b.len() > 0,
        forall|k: int| 0 <= k < params.len() ==> ('0' <= #[trigger] params[k] && params[k] <= ';'),
        '\u{40}' <= last && last <= '\u{7e}',
    ensures
        art_line(a + seq!['\u{1b}', '['] + params + seq![last] + b, true, style).0 == seq![
            Run { text: a, style: plain() },
            Run {
                text: b,
                style: if last == 'm' {
                    codes_applied(plain(), code_values(params), 0)
                } else {
                    plain()
                },
            },
        ],
{
    let s = a + seq!['\u{1b}', '['] + params + seq![last] + b;
    let none = Seq::<char>::empty();
    let n = a.len() as int;
    let end = n + 2 + params.len();
    assert(s.subrange(0, n) =~= a);
    lemma_art_plain(s, 0, a, plain(), none);
    assert(none + a =~= a);
    assert(s[n] == '\u{1b}' && s[n + 1] == '[' && s[end] == last);
    assert forall|k: int| n + 2 <= k < end implies !('\u{40}' <= #[trigger] s[k] && s[k]
        <= '\u{7e}') by {
        assert(s[k] == params[k - n - 2]);
    }
    lemma_sequence_end_at(s, n + 2, end);
    assert(s.subrange(n + 2, end) =~= params);
    let next = if last == 'm' {
        codes_applied(plain(), code_values(params), 0)
    } else {
        plain()
    };
    assert(s.subrange(end + 1, end + 1 + b.len()) =~= b);
    lemma_art_plain(s, end + 1, b, next, none);
    assert(none + b =~= b);
    let x = Run { text: a, style: plain() };
    let y = Run { text: b, style: next };
    assert(art_from(s, end + 1, next, none) == seq![y]);
    assert(art_from(s, n, plain(), a) == seq![x] + seq![y]);
    assert(seq![x] + seq![y] =~= seq![x, y]);
}

/// Art is as wide as its widest line.
pub proof fn art_is_as_wide_as_its_widest_line(
    raws: Seq<Seq<char>>,
    n: int,
    colored: bool,
    style: Style,
    i: int,
)
    requires
        0 <= i < n <= raws.len(),
    ensures
        art_line(raws[i], colored, style).1 <= widest(raws, n, colored, style),
        exists|k: int|
            0 <= k < n && art_line(#[trigger] raws[k], colored, style).1 == widest(
                raws,
                n,
                colored,
                style,
            ),
    decreases n,
{
    if n > 1 {
        art_is_as_wide_as_its_widest_line(
            raws,
            n - 1,
            colored,
            style,
            if i < n - 1 {
                i
            } else {
                0
            },
        );
        let k = choose|k: int|
            0 <= k < n - 1 && art_line(#[trigger] raws[k], colored, style).1 == widest(
                raws,
                n - 1,
                colored,
                style,
            );
        assert(art_line(raws[n - 1], colored, style).1 == widest(raws, n, colored, style)
            || art_line(raws[k], colored, style).1 == widest(raws, n, colored, style));
    } else {
        assert(widest(raws, 0, colored, style) == 0);
        assert(art_line(raws[0], colored, style).1 == widest(raws, n, colored, style));
    }
}

/// What a colour code leaves behind without its escape character is told from
/// text by its shape: a bracket, up to twelve digits and semicolons, an `m`.
pub proof fn damaged_codes_are_recognised(a: Seq<char>, params: Seq<char>, b: Seq<char>)
    requires
        forall|k: int|
            0 <= k < params.len() ==> (('0' <= #[trigger] params[k] && params[k] <= '9')
                || params[k] == ';'),
    ensures
        bare_code_at(a + seq!['['] + params + seq!['m'] + b, a.len() as int) <==> 1 <= params.len()
            <= 12,
{
    let s = a + seq!['['] + params + seq!['m'] + b;
    let rest = s.skip(a.len() as int + 1);
    assert(rest =~= params + seq!['m'] + b);
    let n = params.len() as int;
    assert forall|j: int| 0 <= j < n implies rest[j] != 'm' by {
        assert(rest[j] == params[j]);
    }
    assert(rest[n] == 'm');
    lemma_find(rest, 'm', n);
    assert(s[a.len() as int] == '[');
    assert forall|j: int| 0 <= j < n implies is_digit(#[trigger] rest[j]) || rest[j] == ';' by {
        assert(rest[j] == params[j]);
    }
}

/// They are counted wherever they stand.
pub proof fn damaged_codes_are_counted(s: Seq<char>, n: int)
    requires
        0 < n <= s.len(),
    ensures
        bare_codes(s, n) == bare_codes(s, n - 1) + (if bare_code_at(s, n - 1) {
            1nat
        } else {
            0nat
        }),
        bare_codes(s, 0) == 0,
{
}

/// Art without colors is drawn line by line as it is written, in the style it
/// is given.
pub proof fn plain_art_is_drawn_as_written(raw: Seq<char>, style: Style)
    ensures
        art_line(raw, false, style).0.len() == 1,
        art_line(raw, false, style).0[0].text == raw,
        art_line(raw, false, style).0[0].style == style,
        art_line(raw, false, style).1 == display_width(raw),
{
}

} // verus!
