//! The markdown subset: bold, italic, strikethrough, inline code, fenced code
//! blocks and quotes. Deliberately no images, no tables, no embeds -- it all
//! has to render on a plain tty.
use vstd::prelude::*;

use crate::text::{
    chars_of, is_space, joining_undoes_splitting, lemma_trimmed_end, lemma_trimmed_start, occurs_at,
    pieces, pieces_lie_between_separators, repeat, repeated, slice_of, space, split, starts_with,
    trim, trim_end, trim_start, trimmed, trimmed_end, trimmed_start,
};
use crate::ui::style::{
    char_width, display_width, fg, plain, text_of, with, width_of, width_of_char, Line, Modifier,
    Run, Span, Style, Switch,
};
use crate::ui::theme::Theme;

verus! {

// ---------------------------------------------------------------------------
// inline markup
// ---------------------------------------------------------------------------

/// Whether Unicode counts a character as alphabetic or numeric.
pub uninterp spec fn alphanumeric(c: char) -> bool;

/// Whether a character is an ASCII letter or digit.
pub open spec fn ascii_word(c: char) -> bool {
    'a' <= c && c <= 'z' || 'A' <= c && c <= 'Z' || '0' <= c && c <= '9'
}

/// `char::is_alphanumeric`, which depends on the character alone; of the
/// ASCII characters it holds of exactly the letters and the digits.
#[verifier::external_body]
fn is_alphanumeric(c: char) -> (r: bool)
    ensures
        r == alphanumeric(c),
        (c as u32) < 128 ==> r == ascii_word(c),
{
    c.is_alphanumeric()
}

/// The markup in force at some point of a line.
#[derive(Debug, Clone, Copy, PartialEq, Eq, Structural)]
pub struct Marks {
    pub bold: bool,
    pub italic: bool,
    pub strike: bool,
    pub code: bool,
}

pub open spec fn no_marks() -> Marks {
    Marks { bold: false, italic: false, strike: false, code: false }
}

/// The style of text under the given marks. Code has a style of its own that
/// replaces the base.
pub open spec fn marked(marks: Marks, base: Style, code: Style) -> Style {
    let s0 = if marks.code {
        code
    } else {
        base
    };
    let s1 = if marks.bold {
        with(s0, Modifier::Bold)
    } else {
        s0
    };
    let s2 = if marks.italic {
        with(s1, Modifier::Italic)
    } else {
        s1
    };
    if marks.strike {
        with(s2, Modifier::CrossedOut)
    } else {
        s2
    }
}

fn style_for(marks: Marks, base: Style, code: Style) -> (r: Style)
    ensures
        r == marked(marks, base, code),
{
    let mut style = if marks.code {
        code
    } else {
        base
    };
    if marks.bold {
        style = style.add_modifier(Modifier::Bold);
    }
    if marks.italic {
        style = style.add_modifier(Modifier::Italic);
    }
    if marks.strike {
        style = style.add_modifier(Modifier::CrossedOut);
    }
    style
}

/// Whether the `*` or `_` at `i` turns italics on or off, where `words` says
/// which characters belong to words. It counts as emphasis only when it hugs a
/// word, so snake_case_names and "3 * 4" survive intact.
pub open spec fn emphasis(s: Seq<char>, words: Seq<bool>, i: int, italic: bool) -> bool {
    let opens = i + 1 < s.len() && !is_space(s[i + 1]) && (i == 0 || !words[i - 1]);
    let closes = italic && i > 0 && !is_space(s[i - 1]) && (i + 1 >= s.len() || !words[i + 1]);
    opens || closes
}

/// What the text at `i` means: how many characters it takes up, the marks
/// after it, and the literal character it stands for, if any. A toggle stands
/// for none and ends the run.
pub open spec fn token(s: Seq<char>, words: Seq<bool>, i: int, marks: Marks) -> (
    int,
    Marks,
    Option<char>,
) {
    let c = s[i];
    let has_next = i + 1 < s.len();
    if c == '\\' && has_next && !marks.code {
        (2, marks, Some(s[i + 1]))
    } else if c == '`' {
        (1, Marks { code: !marks.code, ..marks }, None)
    } else if marks.code {
        (1, marks, Some(c))
    } else if c == '*' && has_next && s[i + 1] == '*' {
        (2, Marks { bold: !marks.bold, ..marks }, None)
    } else if c == '~' && has_next && s[i + 1] == '~' {
        (2, Marks { strike: !marks.strike, ..marks }, None)
    } else if (c == '*' || c == '_') && emphasis(s, words, i, marks.italic) {
        (1, Marks { italic: !marks.italic, ..marks }, None)
    } else {
        (1, marks, Some(c))
    }
}

/// The run that a finished piece of text makes: none if it is empty.
pub open spec fn run_of(text: Seq<char>, style: Style) -> Seq<Run> {
    if text.len() == 0 {
        seq![]
    } else {
        seq![Run { text, style }]
    }
}

/// The runs that the text from `i` on adds, where `buf` is already read and
/// not yet part of a run.
pub open spec fn inline_from(
    s: Seq<char>,
    words: Seq<bool>,
    i: int,
    marks: Marks,
    buf: Seq<char>,
    base: Style,
    code: Style,
) -> Seq<Run>
    decreases s.len() - i,
{
    if i < 0 || i >= s.len() {
        run_of(buf, marked(marks, base, code))
    } else {
        let (used, after, literal) = token(s, words, i, marks);
        match literal {
            Some(c) => inline_from(s, words, i + used, after, buf.push(c), base, code),
            None => run_of(buf, marked(marks, base, code)) + inline_from(
                s,
                words,
                i + used,
                after,
                seq![],
                base,
                code,
            ),
        }
    }
}

/// Which characters of a text belong to words.
pub open spec fn words_of(s: Seq<char>) -> Seq<bool> {
    s.map_values(|c: char| alphanumeric(c))
}

/// A single source line as styled runs.
pub open spec fn inline_runs(s: Seq<char>, base: Style, code: Style) -> Seq<Run> {
    marked_up(s, words_of(s), base, code)
}

/// A single source line as styled runs, where `words` says which of its
/// characters belong to words.
pub open spec fn marked_up(s: Seq<char>, words: Seq<bool>, base: Style, code: Style) -> Seq<Run> {
    let runs = inline_from(s, words, 0, no_marks(), seq![], base, code);
    if runs.len() == 0 {
        seq![Run { text: seq![], style: base }]
    } else {
        runs
    }
}

/// Move what is in `buf` into a run of its own, unless it is empty.
fn flush(out: &mut Vec<Span>, buf: &mut String, style: Style)
    ensures
        final(out).deep_view() == old(out).deep_view() + run_of(old(buf)@, style),
        final(buf)@ == Seq::<char>::empty(),
{
    if !buf.as_str().is_empty() {
        let text = buf.clone();
        *buf = String::new();
        out.push(Span::styled(text, style));
    }
    assert(out.deep_view() =~= old(out).deep_view() + run_of(old(buf)@, style));
}

fn emphasizes(chars: &Vec<char>, words: &Vec<bool>, i: usize, italic: bool) -> (r: bool)
    requires
        i < chars.len(),
        words.len() == chars.len(),
    ensures
        r == emphasis(chars@, words@, i as int, italic),
{
    let next_space = i + 1 < chars.len() && space(chars[i + 1]);
    let next_word = i + 1 < chars.len() && words[i + 1];
    let prev_space = i > 0 && space(chars[i - 1]);
    let prev_word = i > 0 && words[i - 1];
    let opens = i + 1 < chars.len() && !next_space && !prev_word;
    let closes = italic && i > 0 && !prev_space && !next_word;
    opens || closes
}

/// Split a single source line into styled runs. Inside backticks nothing else
/// is markup, which is the whole point of inline code.
///
/// What belongs to a word is up to Unicode; of ASCII, the letters and digits.
pub fn inline(text: &str, base: Style, code: Style) -> (r: Vec<Span>)
    ensures
        r.deep_view() == inline_runs(text@, base, code),
        forall|i: int|
            0 <= i < text@.len() && (text@[i] as u32) < 128 ==> #[trigger] words_of(text@)[i]
                == ascii_word(text@[i]),
{
    let chars = chars_of(text);
    let mut words: Vec<bool> = Vec::new();
    let mut i: usize = 0;
    while i < chars.len()
        invariant
            i <= chars.len(),
            words.len() == i,
            forall|j: int|
                0 <= j < i ==> #[trigger] words@[j] == alphanumeric(chars@[j]) && ((
                chars@[j] as u32) < 128 ==> words@[j] == ascii_word(chars@[j])),
        decreases chars.len() - i,
    {
        words.push(is_alphanumeric(chars[i]));
        i += 1;
    }
    assert(words@ =~= words_of(text@));
    mark_up(&chars, &words, base, code)
}

/// Split the characters of a single source line into styled runs, where `words`
/// says which of them belong to words.
pub fn mark_up(chars: &Vec<char>, words: &Vec<bool>, base: Style, code: Style) -> (r: Vec<Span>)
    requires
        words.len() == chars.len(),
    ensures
        r.deep_view() == marked_up(chars@, words@, base, code),
{
    let mut spans: Vec<Span> = Vec::new();
    let mut buf = String::new();
    let mut marks = Marks { bold: false, italic: false, strike: false, code: false };
    let mut i: usize = 0;
    let ghost whole = inline_from(chars@, words@, 0, no_marks(), seq![], base, code);
    assert(spans.deep_view() + whole == whole);
    while i < chars.len()
        invariant
            i <= chars.len(),
            words.len() == chars.len(),
            spans.deep_view() + inline_from(chars@, words@, i as int, marks, buf@, base, code) == whole,
        decreases chars.len() - i,
    {
        let c = chars[i];
        let has_next = i + 1 < chars.len();
        let ghost before = spans.deep_view();
        let ghost pending = run_of(buf@, marked(marks, base, code));
        if c == '\\' && has_next && !marks.code {
            // Escaped punctuation is literal.
            buf.push(chars[i + 1]);
            i += 2;
        } else if c == '`' {
            flush(&mut spans, &mut buf, style_for(marks, base, code));
            marks.code = !marks.code;
            i += 1;
            let ghost later = inline_from(chars@, words@, i as int, marks, seq![], base, code);
            assert(before + (pending + later) == before + pending + later);
        } else if marks.code {
            buf.push(c);
            i += 1;
        } else if c == '*' && has_next && chars[i + 1] == '*' {
            flush(&mut spans, &mut buf, style_for(marks, base, code));
            marks.bold = !marks.bold;
            i += 2;
            let ghost later = inline_from(chars@, words@, i as int, marks, seq![], base, code);
            assert(before + (pending + later) == before + pending + later);
        } else if c == '~' && has_next && chars[i + 1] == '~' {
            flush(&mut spans, &mut buf, style_for(marks, base, code));
            marks.strike = !marks.strike;
            i += 2;
            let ghost later = inline_from(chars@, words@, i as int, marks, seq![], base, code);
            assert(before + (pending + later) == before + pending + later);
        } else if (c == '*' || c == '_') && emphasizes(chars, words, i, marks.italic) {
            flush(&mut spans, &mut buf, style_for(marks, base, code));
            marks.italic = !marks.italic;
            i += 1;
            let ghost later = inline_from(chars@, words@, i as int, marks, seq![], base, code);
            assert(before + (pending + later) == before + pending + later);
        } else {
            buf.push(c);
            i += 1;
        }
    }
    flush(&mut spans, &mut buf, style_for(marks, base, code));
    if spans.is_empty() {
        spans.push(Span::styled(String::new(), base));
        assert(spans.deep_view() =~= seq![Run { text: seq![], style: base }]);
    }
    spans
}

/// Whether a line holds no markup at all: no backtick, no escape, no doubled
/// star or tilde, and no star or underscore that could open italics.
pub open spec fn unmarked(s: Seq<char>) -> bool {
    forall|i: int|
        0 <= i < s.len() ==> {
            &&& #[trigger] s[i] != '`'
            &&& s[i] == '\\' ==> i + 1 >= s.len()
            &&& (s[i] == '*' || s[i] == '~') ==> i + 1 >= s.len() || s[i + 1] != s[i]
            &&& (s[i] == '*' || s[i] == '_') ==> i + 1 >= s.len() || is_space(s[i + 1]) || (i > 0
                && alphanumeric(s[i - 1]))
        }
}

proof fn lemma_unmarked_from(s: Seq<char>, i: int, buf: Seq<char>, base: Style, code: Style)
    requires
        unmarked(s),
        0 <= i <= s.len(),
    ensures
        inline_from(s, words_of(s), i, no_marks(), buf, base, code) == run_of(
            buf + s.skip(i),
            base,
        ),
    decreases s.len() - i,
{
    if i == s.len() {
        assert(buf + s.skip(i) == buf);
    } else {
        assert(s[i] != '`');
        assert(!emphasis(s, words_of(s), i, false) || !(s[i] == '*' || s[i] == '_'));
        lemma_unmarked_from(s, i + 1, buf.push(s[i]), base, code);
        assert(buf.push(s[i]) + s.skip(i + 1) == buf + s.skip(i));
    }
}

/// A line without markup survives intact, in one run of the base style.
pub proof fn unmarked_text_survives(s: Seq<char>, base: Style, code: Style)
    requires
        unmarked(s),
    ensures
        inline_runs(s, base, code) == seq![Run { text: s, style: base }],
{
    lemma_unmarked_from(s, 0, seq![], base, code);
    assert(Seq::<char>::empty() + s.skip(0) == s);
    if s.len() == 0 {
        assert(s == Seq::<char>::empty());
    }
}

/// Between a pair of backticks everything is literal, whatever it would mean
/// outside them.
pub proof fn code_is_literal(s: Seq<char>, base: Style, code: Style)
    requires
        !s.contains('`'),
        s.len() > 0,
    ensures
        inline_runs(seq!['`'] + s + seq!['`'], base, code) == seq![Run { text: s, style: code }],
{
    let t = seq!['`'] + s + seq!['`'];
    let in_code = Marks { code: true, ..no_marks() };
    let words = words_of(t);
    assert(token(t, words, 0, no_marks()) == (1int, in_code, None::<char>));
    assert(s.take(0) == Seq::<char>::empty());
    lemma_code_from(t, s, 1, seq![], base, code);
    let rest = inline_from(t, words, 1, in_code, seq![], base, code);
    assert(Seq::<Run>::empty() + rest == rest);
}

proof fn lemma_code_from(
    t: Seq<char>,
    s: Seq<char>,
    i: int,
    buf: Seq<char>,
    base: Style,
    code: Style,
)
    requires
        t == seq!['`'] + s + seq!['`'],
        !s.contains('`'),
        s.len() > 0,
        1 <= i <= s.len() + 1,
        buf == s.take(i - 1),
    ensures
        inline_from(t, words_of(t), i, Marks { code: true, ..no_marks() }, buf, base, code) == seq![
            Run { text: s, style: code },
        ],
    decreases s.len() + 1 - i,
{
    let in_code = Marks { code: true, ..no_marks() };
    if i == s.len() + 1 {
        assert(t[i] == '`');
        assert(buf == s);
        assert(inline_from(t, words_of(t), i + 1, no_marks(), seq![], base, code) == Seq::<
            Run,
        >::empty());
        assert(run_of(s, code) + Seq::<Run>::empty() == seq![Run { text: s, style: code }]);
    } else {
        assert(t[i] == s[i - 1]);
        assert(s.contains(s[i - 1]));
        assert(buf.push(s[i - 1]) == s.take(i));
        lemma_code_from(t, s, i + 1, buf.push(s[i - 1]), base, code);
    }
}

// ---------------------------------------------------------------------------
// wrapping
// ---------------------------------------------------------------------------

pub open spec fn is_gap(c: char) -> bool {
    c == ' ' || c == '\t'
}

/// How far the run of gaps, or of non-gaps, reaches from the start.
pub open spec fn stretch(s: Seq<char>) -> nat
    decreases s.len(),
{
    if s.len() == 0 {
        0
    } else if s.len() == 1 || is_gap(s[1]) != is_gap(s[0]) {
        1
    } else {
        1 + stretch(s.drop_first())
    }
}

proof fn lemma_stretch(s: Seq<char>, k: int)
    requires
        0 < k <= s.len(),
        forall|j: int| 0 <= j < k ==> is_gap(#[trigger] s[j]) == is_gap(s[0]),
        k == s.len() || is_gap(s[k]) != is_gap(s[0]),
    ensures
        stretch(s) == k,
    decreases s.len(),
{
    if k > 1 {
        let t = s.drop_first();
        assert(is_gap(s[1]) == is_gap(s[0]));
        assert forall|j: int| 0 <= j < k - 1 implies is_gap(#[trigger] t[j]) == is_gap(t[0]) by {
            assert(t[j] == s[j + 1]);
            assert(t[0] == s[1]);
        }
        lemma_stretch(t, k - 1);
    }
}

proof fn lemma_stretch_bounds(s: Seq<char>)
    ensures
        stretch(s) <= s.len(),
        s.len() > 0 ==> stretch(s) > 0,
    decreases s.len(),
{
    if s.len() > 1 {
        lemma_stretch_bounds(s.drop_first());
    }
}

/// Words and the gaps between them, as separate pieces that make up the text.
pub open spec fn words_and_gaps(s: Seq<char>) -> Seq<Seq<char>>
    decreases s.len(),
    via words_and_gaps_decreases
{
    if s.len() == 0 {
        seq![]
    } else {
        let k = stretch(s) as int;
        seq![s.take(k)] + words_and_gaps(s.skip(k))
    }
}

#[via_fn]
proof fn words_and_gaps_decreases(s: Seq<char>) {
    lemma_stretch_bounds(s);
}

/// Words and the whitespace between them, as separate pieces.
pub fn split_keeping_spaces(text: &str) -> (r: Vec<String>)
    ensures
        r.deep_view() == words_and_gaps(text@),
{
    let chars = chars_of(text);
    let mut out: Vec<String> = Vec::new();
    let mut at: usize = 0;
    assert(chars@.skip(0) == chars@);
    assert(out.deep_view() + words_and_gaps(chars@) == words_and_gaps(chars@));
    while at < chars.len()
        invariant
            at <= chars.len(),
            chars@ == text@,
            out.deep_view() + words_and_gaps(chars@.skip(at as int)) == words_and_gaps(text@),
        decreases chars.len() - at,
    {
        let gap = chars[at] == ' ' || chars[at] == '\t';
        let mut end: usize = at + 1;
        while end < chars.len() && (chars[end] == ' ' || chars[end] == '\t') == gap
            invariant
                at < end <= chars.len(),
                gap == is_gap(chars@[at as int]),
                forall|j: int| at <= j < end ==> is_gap(#[trigger] chars@[j]) == gap,
            decreases chars.len() - end,
        {
            end += 1;
        }
        let ghost rest = chars@.skip(at as int);
        let ghost before = out.deep_view();
        let piece = slice_of(&chars, at, end);
        out.push(piece);
        proof {
            assert forall|j: int| 0 <= j < end - at implies is_gap(#[trigger] rest[j]) == is_gap(
                rest[0],
            ) by {
                assert(rest[j] == chars@[at + j]);
                assert(rest[0] == chars@[at as int]);
            }
            lemma_stretch(rest, end - at);
            assert(piece@ == rest.take(end - at));
            assert(rest.skip(end - at) == chars@.skip(end as int));
            assert(out.deep_view() == before.push(piece@));
            assert(before.push(piece@) + words_and_gaps(chars@.skip(end as int)) == before + (
            seq![piece@] + words_and_gaps(chars@.skip(end as int))));
        }
        at = end;
    }
    assert(chars@.skip(at as int).len() == 0);
    assert(out.deep_view() + Seq::<Seq<char>>::empty() == out.deep_view());
    out
}

/// The pieces of a text that is cut wherever the next character would pass
/// `width`, where `buf` is read already and takes up `used` columns.
pub open spec fn chunks_from(
    s: Seq<char>,
    i: int,
    buf: Seq<char>,
    used: int,
    width: int,
) -> Seq<Seq<char>>
    decreases s.len() - i,
{
    if i < 0 || i >= s.len() {
        if buf.len() == 0 {
            seq![]
        } else {
            seq![buf]
        }
    } else {
        let w = char_width(s[i]) as int;
        if used + w > width && buf.len() > 0 {
            seq![buf] + chunks_from(s, i + 1, seq![s[i]], w, width)
        } else {
            chunks_from(s, i + 1, buf.push(s[i]), used + w, width)
        }
    }
}

/// The pieces of a text cut to `width` columns; an empty text is one piece.
pub open spec fn chunks(s: Seq<char>, width: int) -> Seq<Seq<char>> {
    let limit = if width < 1 {
        1
    } else {
        width
    };
    let all = chunks_from(s, 0, seq![], 0, limit);
    if all.len() == 0 {
        seq![Seq::<char>::empty()]
    } else {
        all
    }
}

/// Whether `w` more columns fit after `used` of `width`.
fn fits(used: usize, w: usize, width: usize) -> (r: bool)
    ensures
        r == (used + w <= width),
{
    used <= width && w <= width - used
}

/// The pieces of `s` from position `i` on, after `buf` with `used` columns,
/// where each character takes up as many columns as `widths` says.
pub open spec fn cut_from(
    s: Seq<char>,
    widths: Seq<usize>,
    i: int,
    buf: Seq<char>,
    used: int,
    width: int,
) -> Seq<Seq<char>>
    decreases s.len() - i,
{
    if i < 0 || i >= s.len() {
        if buf.len() == 0 {
            seq![]
        } else {
            seq![buf]
        }
    } else if used + widths[i] > width && buf.len() > 0 {
        seq![buf] + cut_from(s, widths, i + 1, seq![s[i]], widths[i] as int, width)
    } else {
        cut_from(s, widths, i + 1, buf.push(s[i]), used + widths[i], width)
    }
}

/// The pieces of a text of such characters cut to `width` columns; an empty
/// text is one piece.
pub open spec fn cut_up(s: Seq<char>, widths: Seq<usize>, width: int) -> Seq<Seq<char>> {
    let limit = if width < 1 {
        1
    } else {
        width
    };
    let all = cut_from(s, widths, 0, seq![], 0, limit);
    if all.len() == 0 {
        seq![Seq::<char>::empty()]
    } else {
        all
    }
}

proof fn lemma_cut_measured(
    s: Seq<char>,
    widths: Seq<usize>,
    i: int,
    buf: Seq<char>,
    used: int,
    width: int,
)
    requires
        widths.len() == s.len(),
        forall|k: int| 0 <= k < s.len() ==> #[trigger] widths[k] == char_width(s[k]),
    ensures
        cut_from(s, widths, i, buf, used, width) == chunks_from(s, i, buf, used, width),
    decreases s.len() - i,
{
    if 0 <= i < s.len() {
        lemma_cut_measured(s, widths, i + 1, seq![s[i]], widths[i] as int, width);
        lemma_cut_measured(s, widths, i + 1, buf.push(s[i]), used + widths[i], width);
    }
}

/// Cut a text into pieces of at most `width` columns, where each character
/// takes up as many columns as `widths` says.
pub fn cut(chars: &Vec<char>, widths: &Vec<usize>, width: usize) -> (r: Vec<String>)
    requires
        chars.len() == widths.len(),
    ensures
        r.deep_view() == cut_up(chars@, widths@, width as int),
{
    let limit: usize = if width < 1 {
        1
    } else {
        width
    };
    let mut out: Vec<String> = Vec::new();
    let mut buf = String::new();
    let mut used: usize = 0;
    let mut i: usize = 0;
    let ghost whole = cut_from(chars@, widths@, 0, seq![], 0, limit as int);
    assert(out.deep_view() + whole == whole);
    while i < chars.len()
        invariant
            i <= chars.len(),
            chars.len() == widths.len(),
            buf@.len() == 0 ==> used == 0,
            out.deep_view() + cut_from(
                chars@,
                widths@,
                i as int,
                buf@,
                used as int,
                limit as int,
            ) == whole,
        decreases chars.len() - i,
    {
        let w = widths[i];
        let ghost before = out.deep_view();
        let ghost piece = buf@;
        if !fits(used, w, limit) && !buf.as_str().is_empty() {
            out.push(buf);
            buf = String::new();
            used = 0;
            proof {
                let rest = cut_from(
                    chars@,
                    widths@,
                    i + 1,
                    seq![chars@[i as int]],
                    w as int,
                    limit as int,
                );
                assert(out.deep_view() == before.push(piece));
                assert(before + (seq![piece] + rest) == before.push(piece) + rest);
                assert(buf@.push(chars@[i as int]) == seq![chars@[i as int]]);
            }
        }
        buf.push(chars[i]);
        used = used + w;
        i += 1;
    }
    let ghost before = out.deep_view();
    if !buf.as_str().is_empty() || out.is_empty() {
        let ghost last = buf@;
        out.push(buf);
        proof {
            assert(out.deep_view() == before.push(last));
            assert(before + seq![last] == before.push(last));
            if last.len() == 0 {
                assert(before + Seq::<Seq<char>>::empty() == before);
                assert(last == Seq::<char>::empty());
                assert(out.deep_view() == seq![Seq::<char>::empty()]);
            }
        }
    } else {
        assert(before + Seq::<Seq<char>>::empty() == before);
    }
    out
}

/// Split on display width, for words that cannot fit on one line.
pub fn hard_wrap(text: &str, width: usize) -> (r: Vec<String>)
    ensures
        r.deep_view() == chunks(text@, width as int),
{
    let chars = chars_of(text);
    let mut widths: Vec<usize> = Vec::new();
    while widths.len() < chars.len()
        invariant
            widths.len() <= chars.len(),
            forall|k: int| 0 <= k < widths.len() ==> #[trigger] widths[k] == char_width(chars[k]),
        decreases chars.len() - widths.len(),
    {
        widths.push(width_of_char(chars[widths.len()]));
    }
    proof {
        let limit = if width < 1 {
            1
        } else {
            width as int
        };
        lemma_cut_measured(text@, widths@, 0, seq![], 0, limit);
    }
    cut(&chars, &widths, width)
}

/// Wrapping in progress: the finished lines, the line being filled, and the
/// columns it takes up.
pub struct Flow {
    pub lines: Seq<Seq<Run>>,
    pub current: Seq<Run>,
    pub used: int,
}

/// The line being filled is finished, unless nothing is on it.
pub open spec fn broken(f: Flow) -> Flow {
    if f.used > 0 {
        Flow { lines: f.lines.push(f.current), current: seq![], used: 0 }
    } else {
        f
    }
}

pub open spec fn put(f: Flow, text: Seq<char>, style: Style) -> Flow {
    Flow {
        current: f.current.push(Run { text, style }),
        used: f.used + display_width(text),
        ..f
    }
}

pub open spec fn put_chunks(f: Flow, parts: Seq<Seq<char>>, style: Style) -> Flow
    decreases parts.len(),
{
    if parts.len() == 0 {
        f
    } else {
        put(broken(put_chunks(f, parts.drop_last(), style)), parts.last(), style)
    }
}

/// One word or gap laid out. A gap never starts a line; a word that does not
/// fit starts a new one; a word wider than a whole line is cut up.
pub open spec fn put_word(f: Flow, word: Seq<char>, style: Style, width: int) -> Flow {
    let w = display_width(word) as int;
    if trimmed(word).len() == 0 {
        if f.used > 0 && f.used + w <= width {
            put(f, word, style)
        } else {
            f
        }
    } else if f.used + w <= width {
        put(f, word, style)
    } else if w > width {
        put_chunks(broken(f), chunks(word, width), style)
    } else {
        put(broken(f), word, style)
    }
}

pub open spec fn put_words(f: Flow, words: Seq<Seq<char>>, style: Style, width: int) -> Flow
    decreases words.len(),
{
    if words.len() == 0 {
        f
    } else {
        put_word(put_words(f, words.drop_last(), style, width), words.last(), style, width)
    }
}

pub open spec fn put_runs(f: Flow, runs: Seq<Run>, width: int) -> Flow
    decreases runs.len(),
{
    if runs.len() == 0 {
        f
    } else {
        put_words(
            put_runs(f, runs.drop_last(), width),
            words_and_gaps(runs.last().text),
            runs.last().style,
            width,
        )
    }
}

pub open spec fn empty_flow() -> Flow {
    Flow { lines: seq![], current: seq![], used: 0 }
}

/// Everything laid out, the last line with the rest; at least one line.
pub open spec fn finished(f: Flow) -> Seq<Seq<Run>> {
    let lines = if f.current.len() > 0 {
        f.lines.push(f.current)
    } else {
        f.lines
    };
    if lines.len() == 0 {
        seq![Seq::<Run>::empty()]
    } else {
        lines
    }
}

/// Runs word-wrapped to `width` columns.
pub open spec fn wrapped(runs: Seq<Run>, width: int) -> Seq<Seq<Run>> {
    finished(
        put_runs(
            empty_flow(),
            runs,
            if width < 1 {
                1
            } else {
                width
            },
        ),
    )
}

/// A piece of text, and the columns that it takes up.
#[derive(Debug)]
pub struct Measured {
    pub text: String,
    pub width: usize,
}

#[verifier::ext_equal]
pub ghost struct MeasuredData {
    pub text: Seq<char>,
    pub width: usize,
}

impl DeepView for Measured {
    type V = MeasuredData;

    open spec fn deep_view(&self) -> MeasuredData {
        MeasuredData { text: self.text@, width: self.width }
    }
}

pub open spec fn lay_piece(f: Flow, piece: MeasuredData, style: Style) -> Flow {
    Flow {
        current: f.current.push(Run { text: piece.text, style }),
        used: f.used + piece.width,
        ..f
    }
}

pub open spec fn lay_pieces(f: Flow, parts: Seq<MeasuredData>, style: Style) -> Flow
    decreases parts.len(),
{
    if parts.len() == 0 {
        f
    } else {
        lay_piece(broken(lay_pieces(f, parts.drop_last(), style)), parts.last(), style)
    }
}

/// One word or gap laid out, of which `parts` are the pieces that fit a line.
pub open spec fn laid(
    f: Flow,
    word: MeasuredData,
    parts: Seq<MeasuredData>,
    style: Style,
    width: int,
) -> Flow {
    if trimmed(word.text).len() == 0 {
        if f.used > 0 && f.used + word.width <= width {
            lay_piece(f, word, style)
        } else {
            f
        }
    } else if f.used + word.width <= width {
        lay_piece(f, word, style)
    } else if word.width > width {
        lay_pieces(broken(f), parts, style)
    } else {
        lay_piece(broken(f), word, style)
    }
}

/// A text with the columns that it takes up.
pub open spec fn measured(text: Seq<char>) -> MeasuredData {
    MeasuredData { text, width: display_width(text) }
}

proof fn lemma_pieces_measured(f: Flow, parts: Seq<Seq<char>>, style: Style)
    ensures
        lay_pieces(f, parts.map_values(|t: Seq<char>| measured(t)), style) == put_chunks(
            f,
            parts,
            style,
        ),
    decreases parts.len(),
{
    let all = parts.map_values(|t: Seq<char>| measured(t));
    if parts.len() > 0 {
        lemma_pieces_measured(f, parts.drop_last(), style);
        assert(all.drop_last() =~= parts.drop_last().map_values(|t: Seq<char>| measured(t)));
    }
}

/// Wrapping in progress.
pub struct Wrapper {
    pub lines: Vec<Line>,
    pub current: Vec<Span>,
    pub used: usize,
}

impl Wrapper {
    pub open spec fn flow(self) -> Flow {
        Flow {
            lines: self.lines.deep_view(),
            current: self.current.deep_view(),
            used: self.used as int,
        }
    }

    fn break_line(&mut self)
        ensures
            final(self).flow() == broken(old(self).flow()),
            final(self).used == 0,
    {
        if self.used > 0 {
            let mut spans: Vec<Span> = Vec::new();
            spans.append(&mut self.current);
            assert(spans@ == old(self).current@);
            assert(spans.deep_view() == old(self).current.deep_view());
            let line = Line { spans };
            self.lines.push(line);
            self.used = 0;
            assert(self.lines.deep_view() =~= old(self).lines.deep_view().push(
                old(self).current.deep_view(),
            ));
            assert(self.current.deep_view() =~= Seq::<Run>::empty());
        }
    }

    fn place(&mut self, piece: Measured, style: Style)
        requires
            old(self).used + piece.width <= usize::MAX,
        ensures
            final(self).flow() == lay_piece(old(self).flow(), piece.deep_view(), style),
    {
        let Measured { text, width } = piece;
        self.current.push(Span::styled(text, style));
        self.used = self.used + width;
        assert(self.current.deep_view() =~= old(self).current.deep_view().push(
            Run { text: text@, style },
        ));
    }

    /// Lay out one word or gap, of which `parts` are the pieces that fit a
    /// line.
    pub fn lay(&mut self, word: Measured, parts: Vec<Measured>, style: Style, width: usize)
        ensures
            final(self).flow() == laid(
                old(self).flow(),
                word.deep_view(),
                parts.deep_view(),
                style,
                width as int,
            ),
    {
        let bare = trim(word.text.as_str());
        if bare.as_str().is_empty() {
            // Never start a wrapped line with the space that caused the break.
            if self.used > 0 && fits(self.used, word.width, width) {
                self.place(word, style);
            }
            return;
        }
        if fits(self.used, word.width, width) {
            self.place(word, style);
            return;
        }
        self.break_line();
        if word.width <= width {
            self.place(word, style);
            return;
        }
        // A single word longer than the line gets split.
        let ghost all = parts.deep_view();
        let ghost start = self.flow();
        for piece in it: parts
            invariant
                it.seq() == parts@,
                all == parts.deep_view(),
                self.flow() == lay_pieces(start, all.take(it.index()), style),
        {
            proof {
                let next = all.take(it.index() + 1);
                assert(next.drop_last() == all.take(it.index()));
                assert(next.last() == piece.deep_view());
            }
            self.break_line();
            self.place(piece, style);
        }
        assert(all.take(all.len() as int) == all);
    }

    fn word(&mut self, word: String, style: Style, width: usize)
        ensures
            final(self).flow() == put_word(old(self).flow(), word@, style, width as int),
    {
        let w = width_of(word.as_str());
        let parts = if w > width {
            measure(hard_wrap(word.as_str(), width))
        } else {
            Vec::new()
        };
        proof {
            lemma_pieces_measured(broken(self.flow()), chunks(word@, width as int), style);
        }
        self.lay(Measured { text: word, width: w }, parts, style, width);
    }
}

fn measure(parts: Vec<String>) -> (r: Vec<Measured>)
    ensures
        r.deep_view() == parts.deep_view().map_values(|t: Seq<char>| measured(t)),
{
    let ghost all = parts.deep_view();
    let ghost want = all.map_values(|t: Seq<char>| measured(t));
    let mut out: Vec<Measured> = Vec::new();
    assert(out.deep_view() =~= want.take(0));
    for text in it: parts
        invariant
            it.seq() == parts@,
            all == parts.deep_view(),
            want == all.map_values(|t: Seq<char>| measured(t)),
            out.deep_view() == want.take(it.index()),
    {
        let ghost before = out.deep_view();
        let width = width_of(text.as_str());
        let piece = Measured { text, width };
        out.push(piece);
        proof {
            assert(all[it.index()] == text@);
            assert(out.deep_view() =~= before.push(piece.deep_view()));
            assert(want.take(it.index() + 1) =~= want.take(it.index()).push(want[it.index()]));
        }
    }
    assert(want.take(want.len() as int) =~= want);
    out
}

/// Word-wrap a run of styled spans, preserving styles across breaks.
pub fn wrap(spans: &Vec<Span>, width: usize) -> (r: Vec<Line>)
    ensures
        r.deep_view() == wrapped(spans.deep_view(), width as int),
{
    let limit: usize = if width < 1 {
        1
    } else {
        width
    };
    let mut state = Wrapper { lines: Vec::new(), current: Vec::new(), used: 0 };
    let ghost all = spans.deep_view();
    assert(state.flow().lines =~= empty_flow().lines);
    assert(state.flow().current =~= empty_flow().current);
    let mut i: usize = 0;
    while i < spans.len()
        invariant
            i <= spans.len(),
            all == spans.deep_view(),
            state.flow() == put_runs(empty_flow(), all.take(i as int), limit as int),
        decreases spans.len() - i,
    {
        let style = spans[i].style;
        let words = split_keeping_spaces(spans[i].content.as_str());
        let ghost start = state.flow();
        let ghost parts = words.deep_view();
        let mut k: usize = 0;
        while k < words.len()
            invariant
                k <= words.len(),
                parts == words.deep_view(),
                state.flow() == put_words(start, parts.take(k as int), style, limit as int),
            decreases words.len() - k,
        {
            state.word(words[k].clone(), style, limit);
            proof {
                let next = parts.take(k + 1);
                assert(next.drop_last() == parts.take(k as int));
                assert(next.last() == words[k as int]@);
            }
            k += 1;
        }
        proof {
            assert(parts.take(parts.len() as int) == parts);
            let next = all.take(i + 1);
            assert(next.drop_last() == all.take(i as int));
            assert(next.last() == spans[i as int].deep_view());
        }
        i += 1;
    }
    assert(all.take(all.len() as int) == all);
    let ghost f = state.flow();
    let Wrapper { mut lines, current, used } = state;
    if !current.is_empty() {
        lines.push(Line { spans: current });
        assert(lines.deep_view() =~= f.lines.push(f.current));
    }
    if lines.is_empty() {
        lines.push(Line::blank());
        assert(lines.deep_view() =~= seq![Seq::<Run>::empty()]);
    }
    lines
}

// ---------------------------------------------------------------------------
// what wrapping keeps
// ---------------------------------------------------------------------------

/// Pieces put back together.
pub open spec fn glued(parts: Seq<Seq<char>>) -> Seq<char>
    decreases parts.len(),
{
    if parts.len() == 0 {
        seq![]
    } else {
        parts[0] + glued(parts.drop_first())
    }
}

proof fn lemma_glued_cons(head: Seq<char>, tail: Seq<Seq<char>>)
    ensures
        glued(seq![head] + tail) == head + glued(tail),
{
    assert((seq![head] + tail).drop_first() == tail);
}

proof fn lemma_chunks_from_glued(s: Seq<char>, i: int, buf: Seq<char>, used: int, width: int)
    requires
        0 <= i <= s.len(),
    ensures
        glued(chunks_from(s, i, buf, used, width)) == buf + s.skip(i),
    decreases s.len() - i,
{
    if i == s.len() {
        assert(buf + s.skip(i) == buf);
        if buf.len() > 0 {
            lemma_glued_cons(buf, seq![]);
            assert(seq![buf] + Seq::<Seq<char>>::empty() == seq![buf]);
            assert(buf + Seq::<char>::empty() == buf);
        } else {
            assert(buf == Seq::<char>::empty());
        }
    } else {
        let w = char_width(s[i]) as int;
        if used + w > width && buf.len() > 0 {
            lemma_chunks_from_glued(s, i + 1, seq![s[i]], w, width);
            lemma_glued_cons(buf, chunks_from(s, i + 1, seq![s[i]], w, width));
            assert(buf + (seq![s[i]] + s.skip(i + 1)) == buf + s.skip(i));
        } else {
            lemma_chunks_from_glued(s, i + 1, buf.push(s[i]), used + w, width);
            assert(buf.push(s[i]) + s.skip(i + 1) == buf + s.skip(i));
        }
    }
}

/// Cutting a text up loses nothing: the pieces put together are the text.
pub proof fn chunks_make_up_the_text(s: Seq<char>, width: int)
    ensures
        glued(chunks(s, width)) == s,
{
    let limit = if width < 1 {
        1
    } else {
        width
    };
    lemma_chunks_from_glued(s, 0, seq![], 0, limit);
    assert(Seq::<char>::empty() + s.skip(0) == s);
    if chunks_from(s, 0, seq![], 0, limit).len() == 0 {
        lemma_glued_cons(seq![], seq![]);
        assert(seq![Seq::<char>::empty()] + Seq::<Seq<char>>::empty() == seq![
            Seq::<char>::empty(),
        ]);
        assert(s == Seq::<char>::empty());
    }
}

/// Words and gaps put together are the text.
pub proof fn words_and_gaps_make_up_the_text(s: Seq<char>)
    ensures
        glued(words_and_gaps(s)) == s,
    decreases s.len(),
{
    if s.len() == 0 {
        assert(s == Seq::<char>::empty());
    } else {
        lemma_stretch_bounds(s);
        let k = stretch(s) as int;
        words_and_gaps_make_up_the_text(s.skip(k));
        lemma_glued_cons(s.take(k), words_and_gaps(s.skip(k)));
        assert(s.take(k) + s.skip(k) == s);
    }
}

/// The characters of a text that are not whitespace.
pub open spec fn ink(s: Seq<char>) -> Seq<char>
    decreases s.len(),
{
    if s.len() == 0 {
        seq![]
    } else if is_space(s.last()) {
        ink(s.drop_last())
    } else {
        ink(s.drop_last()).push(s.last())
    }
}

proof fn lemma_ink_add(a: Seq<char>, b: Seq<char>)
    ensures
        ink(a + b) == ink(a) + ink(b),
    decreases b.len(),
{
    if b.len() == 0 {
        assert(a + b == a);
        assert(ink(a) + ink(b) == ink(a));
    } else {
        lemma_ink_add(a, b.drop_last());
        assert((a + b).drop_last() == a + b.drop_last());
        assert((a + b).last() == b.last());
        assert(ink(a) + ink(b.drop_last()).push(b.last()) == (ink(a) + ink(b.drop_last())).push(
            b.last(),
        ));
    }
}

proof fn lemma_blank_has_no_ink(s: Seq<char>)
    requires
        trimmed(s).len() == 0,
    ensures
        ink(s).len() == 0,
{
    crate::text::lemma_trimmed_start(s);
    let t = trimmed_start(s);
    lemma_trimmed_end_blank(t);
    if t.len() > 0 {
        assert(is_space(t[0]));
    }
    lemma_all_space_no_ink(s);
}

proof fn lemma_trimmed_end_blank(s: Seq<char>)
    requires
        trimmed_end(s).len() == 0,
    ensures
        forall|j: int| 0 <= j < s.len() ==> is_space(#[trigger] s[j]),
    decreases s.len(),
{
    if s.len() > 0 {
        lemma_trimmed_end_blank(s.drop_last());
        assert forall|j: int| 0 <= j < s.len() implies is_space(#[trigger] s[j]) by {
            if j < s.len() - 1 {
                assert(s.drop_last()[j] == s[j]);
            }
        }
    }
}

proof fn lemma_all_space_no_ink(s: Seq<char>)
    requires
        forall|j: int| 0 <= j < s.len() ==> is_space(#[trigger] s[j]),
    ensures
        ink(s).len() == 0,
    decreases s.len(),
{
    if s.len() > 0 {
        assert(is_space(s[s.len() - 1]));
        assert forall|j: int| 0 <= j < s.len() - 1 implies is_space(
            #[trigger] s.drop_last()[j],
        ) by {
            assert(s.drop_last()[j] == s[j]);
        }
        lemma_all_space_no_ink(s.drop_last());
    }
}

/// The visible characters on a sequence of lines, in reading order.
pub open spec fn lines_ink(lines: Seq<Seq<Run>>) -> Seq<char>
    decreases lines.len(),
{
    if lines.len() == 0 {
        seq![]
    } else {
        lines_ink(lines.drop_last()) + ink(text_of(lines.last()))
    }
}

proof fn lemma_lines_ink_push(lines: Seq<Seq<Run>>, line: Seq<Run>)
    ensures
        lines_ink(lines.push(line)) == lines_ink(lines) + ink(text_of(line)),
{
    assert(lines.push(line).drop_last() == lines);
}

spec fn flow_ink(f: Flow) -> Seq<char> {
    lines_ink(f.lines) + ink(text_of(f.current))
}

proof fn lemma_broken_ink(f: Flow)
    ensures
        flow_ink(broken(f)) == flow_ink(f),
{
    if f.used > 0 {
        lemma_lines_ink_push(f.lines, f.current);
        assert(ink(text_of(Seq::<Run>::empty())) == Seq::<char>::empty());
        assert(flow_ink(f) + Seq::<char>::empty() == flow_ink(f));
    }
}

proof fn lemma_put_ink(f: Flow, text: Seq<char>, style: Style)
    ensures
        flow_ink(put(f, text, style)) == flow_ink(f) + ink(text),
{
    crate::ui::style::lemma_text_of_push(f.current, Run { text, style });
    lemma_ink_add(text_of(f.current), text);
    assert(lines_ink(f.lines) + (ink(text_of(f.current)) + ink(text)) == flow_ink(f) + ink(text));
}

spec fn parts_ink(parts: Seq<Seq<char>>) -> Seq<char>
    decreases parts.len(),
{
    if parts.len() == 0 {
        seq![]
    } else {
        parts_ink(parts.drop_last()) + ink(parts.last())
    }
}

proof fn lemma_parts_ink_cons(head: Seq<char>, tail: Seq<Seq<char>>)
    ensures
        parts_ink(seq![head] + tail) == ink(head) + parts_ink(tail),
    decreases tail.len(),
{
    let all = seq![head] + tail;
    if tail.len() == 0 {
        assert(all.drop_last() == Seq::<Seq<char>>::empty());
        assert(all.last() == head);
        assert(parts_ink(all.drop_last()) == Seq::<char>::empty());
        assert(Seq::<char>::empty() + ink(head) == ink(head));
        assert(ink(head) + Seq::<char>::empty() == ink(head));
    } else {
        lemma_parts_ink_cons(head, tail.drop_last());
        assert(all.drop_last() == seq![head] + tail.drop_last());
        assert(all.last() == tail.last());
        assert(ink(head) + parts_ink(tail.drop_last()) + ink(tail.last()) == ink(head) + (
        parts_ink(tail.drop_last()) + ink(tail.last())));
    }
}

proof fn lemma_parts_ink_glued(parts: Seq<Seq<char>>)
    ensures
        parts_ink(parts) == ink(glued(parts)),
    decreases parts.len(),
{
    if parts.len() > 0 {
        let tail = parts.drop_first();
        lemma_parts_ink_glued(tail);
        assert(parts == seq![parts[0]] + tail);
        lemma_parts_ink_cons(parts[0], tail);
        lemma_ink_add(parts[0], glued(tail));
    }
}

proof fn lemma_put_chunks_ink(f: Flow, parts: Seq<Seq<char>>, style: Style)
    ensures
        flow_ink(put_chunks(f, parts, style)) == flow_ink(f) + parts_ink(parts),
    decreases parts.len(),
{
    if parts.len() == 0 {
        assert(flow_ink(f) + Seq::<char>::empty() == flow_ink(f));
    } else {
        let g = put_chunks(f, parts.drop_last(), style);
        lemma_put_chunks_ink(f, parts.drop_last(), style);
        lemma_broken_ink(g);
        lemma_put_ink(broken(g), parts.last(), style);
        assert(flow_ink(f) + parts_ink(parts.drop_last()) + ink(parts.last()) == flow_ink(f) + (
        parts_ink(parts.drop_last()) + ink(parts.last())));
    }
}

proof fn lemma_put_word_ink(f: Flow, word: Seq<char>, style: Style, width: int)
    ensures
        flow_ink(put_word(f, word, style, width)) == flow_ink(f) + ink(word),
{
    lemma_put_ink(f, word, style);
    lemma_broken_ink(f);
    lemma_put_ink(broken(f), word, style);
    if trimmed(word).len() == 0 {
        lemma_blank_has_no_ink(word);
        assert(flow_ink(f) + ink(word) == flow_ink(f));
    }
    lemma_put_chunks_ink(broken(f), chunks(word, width), style);
    lemma_parts_ink_glued(chunks(word, width));
    chunks_make_up_the_text(word, width);
}

proof fn lemma_put_words_ink(f: Flow, words: Seq<Seq<char>>, style: Style, width: int)
    ensures
        flow_ink(put_words(f, words, style, width)) == flow_ink(f) + parts_ink(words),
    decreases words.len(),
{
    if words.len() == 0 {
        assert(flow_ink(f) + Seq::<char>::empty() == flow_ink(f));
    } else {
        lemma_put_words_ink(f, words.drop_last(), style, width);
        lemma_put_word_ink(
            put_words(f, words.drop_last(), style, width),
            words.last(),
            style,
            width,
        );
        assert(flow_ink(f) + parts_ink(words.drop_last()) + ink(words.last()) == flow_ink(f) + (
        parts_ink(words.drop_last()) + ink(words.last())));
    }
}

proof fn lemma_put_runs_ink(f: Flow, runs: Seq<Run>, width: int)
    ensures
        flow_ink(put_runs(f, runs, width)) == flow_ink(f) + ink(text_of(runs)),
    decreases runs.len(),
{
    if runs.len() == 0 {
        assert(flow_ink(f) + Seq::<char>::empty() == flow_ink(f));
    } else {
        let head = runs.drop_last();
        lemma_put_runs_ink(f, head, width);
        let words = words_and_gaps(runs.last().text);
        lemma_put_words_ink(put_runs(f, head, width), words, runs.last().style, width);
        lemma_parts_ink_glued(words);
        words_and_gaps_make_up_the_text(runs.last().text);
        lemma_ink_add(text_of(head), runs.last().text);
        assert(flow_ink(f) + ink(text_of(head)) + ink(runs.last().text) == flow_ink(f) + (ink(
            text_of(head),
        ) + ink(runs.last().text)));
    }
}

/// Wrapping drops nothing but whitespace, and keeps the order of the rest.
pub proof fn wrapping_keeps_the_ink(runs: Seq<Run>, width: int)
    ensures
        lines_ink(wrapped(runs, width)) == ink(text_of(runs)),
{
    let limit = if width < 1 {
        1
    } else {
        width
    };
    let f = put_runs(empty_flow(), runs, limit);
    lemma_put_runs_ink(empty_flow(), runs, limit);
    assert(flow_ink(empty_flow()) == Seq::<char>::empty()) by {
        assert(ink(text_of(Seq::<Run>::empty())) == Seq::<char>::empty());
    }
    assert(Seq::<char>::empty() + ink(text_of(runs)) == ink(text_of(runs)));
    if f.current.len() > 0 {
        lemma_lines_ink_push(f.lines, f.current);
    } else {
        assert(f.current == Seq::<Run>::empty());
        assert(lines_ink(f.lines) + Seq::<char>::empty() == lines_ink(f.lines));
    }
    if f.current.len() == 0 && f.lines.len() == 0 {
        lemma_lines_ink_push(seq![], seq![]);
        assert(Seq::<Seq<Run>>::empty().push(Seq::<Run>::empty()) == seq![Seq::<Run>::empty()]);
        assert(ink(text_of(Seq::<Run>::empty())) == Seq::<char>::empty());
    }
}

/// The columns that a line takes up: those of its runs together.
pub open spec fn line_width(line: Seq<Run>) -> int
    decreases line.len(),
{
    if line.len() == 0 {
        0
    } else {
        line_width(line.drop_last()) + display_width(line.last().text)
    }
}

/// The columns that the characters of a text take up one by one.
pub open spec fn chars_width(s: Seq<char>) -> int
    decreases s.len(),
{
    if s.len() == 0 {
        0
    } else {
        chars_width(s.drop_last()) + char_width(s.last())
    }
}

/// Whether cutting a text up character by character leaves it whole: it is one
/// character, or its characters fit one by one.
pub open spec fn uncuttable(s: Seq<char>, width: int) -> bool {
    s.len() == 1 || chars_width(s) <= width
}

proof fn lemma_chunks_from_fit(
    s: Seq<char>,
    i: int,
    buf: Seq<char>,
    used: int,
    width: int,
    k: int,
)
    requires
        0 <= i <= s.len(),
        used == chars_width(buf),
        buf.len() > 0 ==> uncuttable(buf, width),
        0 <= k < chunks_from(s, i, buf, used, width).len(),
    ensures
        uncuttable(chunks_from(s, i, buf, used, width)[k], width),
    decreases s.len() - i,
{
    if i < s.len() {
        let w = char_width(s[i]) as int;
        let fresh = seq![s[i]];
        assert(fresh.drop_last() == Seq::<char>::empty());
        assert(chars_width(fresh.drop_last()) == 0);
        if used + w > width && buf.len() > 0 {
            if k > 0 {
                lemma_chunks_from_fit(s, i + 1, fresh, w, width, k - 1);
            }
        } else {
            assert(buf.push(s[i]).drop_last() == buf);
            lemma_chunks_from_fit(s, i + 1, buf.push(s[i]), used + w, width, k);
        }
    }
}

/// A piece of a text that is cut up passes the width, character by character,
/// only if it is a single character.
pub proof fn chunks_fit(s: Seq<char>, width: int, k: int)
    requires
        0 <= k < chunks(s, width).len(),
    ensures
        uncuttable(
            chunks(s, width)[k],
            if width < 1 {
                1
            } else {
                width
            },
        ),
{
    let limit = if width < 1 {
        1
    } else {
        width
    };
    if chunks_from(s, 0, seq![], 0, limit).len() > 0 {
        lemma_chunks_from_fit(s, 0, seq![], 0, limit, k);
    }
}

/// Whether a line fits, or passes the width only by a last piece that cannot be
/// cut up further and shares the line with nothing that takes up a column.
pub open spec fn fits_or_alone(line: Seq<Run>, width: int) -> bool {
    line_width(line) <= width || (line.len() > 0 && line_width(line.drop_last()) == 0
        && uncuttable(line.last().text, width))
}

spec fn flow_fits(f: Flow, width: int) -> bool {
    &&& f.used == line_width(f.current)
    &&& f.used >= 0
    &&& fits_or_alone(f.current, width)
    &&& forall|i: int| 0 <= i < f.lines.len() ==> fits_or_alone(#[trigger] f.lines[i], width)
}

proof fn lemma_broken_fits(f: Flow, width: int)
    requires
        flow_fits(f, width),
        width >= 1,
    ensures
        flow_fits(broken(f), width),
        broken(f).used == 0,
{
}

proof fn lemma_put_fits(f: Flow, text: Seq<char>, style: Style, width: int)
    requires
        flow_fits(f, width),
        f.used + display_width(text) <= width || (f.used == 0 && uncuttable(text, width)),
    ensures
        flow_fits(put(f, text, style), width),
{
    assert(put(f, text, style).current.drop_last() == f.current);
}

proof fn lemma_put_chunks_fits(f: Flow, parts: Seq<Seq<char>>, style: Style, width: int)
    requires
        flow_fits(f, width),
        width >= 1,
        forall|k: int| 0 <= k < parts.len() ==> uncuttable(#[trigger] parts[k], width),
    ensures
        flow_fits(put_chunks(f, parts, style), width),
    decreases parts.len(),
{
    if parts.len() > 0 {
        assert forall|k: int| 0 <= k < parts.drop_last().len() implies uncuttable(
            #[trigger] parts.drop_last()[k],
            width,
        ) by {
            assert(parts[k] == parts.drop_last()[k]);
        }
        lemma_put_chunks_fits(f, parts.drop_last(), style, width);
        let g = put_chunks(f, parts.drop_last(), style);
        lemma_broken_fits(g, width);
        lemma_put_fits(broken(g), parts.last(), style, width);
    }
}

proof fn lemma_put_words_fits(f: Flow, words: Seq<Seq<char>>, style: Style, width: int)
    requires
        flow_fits(f, width),
        width >= 1,
    ensures
        flow_fits(put_words(f, words, style, width), width),
    decreases words.len(),
{
    if words.len() > 0 {
        lemma_put_words_fits(f, words.drop_last(), style, width);
        let g = put_words(f, words.drop_last(), style, width);
        let word = words.last();
        lemma_broken_fits(g, width);
        assert forall|k: int| 0 <= k < chunks(word, width).len() implies uncuttable(
            #[trigger] chunks(word, width)[k],
            width,
        ) by {
            chunks_fit(word, width, k);
        }
        lemma_put_chunks_fits(broken(g), chunks(word, width), style, width);
        if display_width(word) <= width {
            lemma_put_fits(broken(g), word, style, width);
        }
        if g.used + display_width(word) <= width {
            lemma_put_fits(g, word, style, width);
        }
    }
}

proof fn lemma_put_runs_fits(f: Flow, runs: Seq<Run>, width: int)
    requires
        flow_fits(f, width),
        width >= 1,
    ensures
        flow_fits(put_runs(f, runs, width), width),
    decreases runs.len(),
{
    if runs.len() > 0 {
        lemma_put_runs_fits(f, runs.drop_last(), width);
        lemma_put_words_fits(
            put_runs(f, runs.drop_last(), width),
            words_and_gaps(runs.last().text),
            runs.last().style,
            width,
        );
    }
}

/// No wrapped line passes the width, except by a piece that has the line to
/// itself and cannot be cut up further: a single character, or a text whose
/// characters fit one by one.
pub proof fn wrapped_lines_fit(runs: Seq<Run>, width: int, i: int)
    requires
        0 <= i < wrapped(runs, width).len(),
    ensures
        fits_or_alone(
            wrapped(runs, width)[i],
            if width < 1 {
                1
            } else {
                width
            },
        ),
{
    let limit = if width < 1 {
        1
    } else {
        width
    };
    lemma_put_runs_fits(empty_flow(), runs, limit);
}

// ---------------------------------------------------------------------------
// what wrapping keeps of the styles
// ---------------------------------------------------------------------------

/// Characters in a style.
pub open spec fn tinted(s: Seq<char>, style: Style) -> Seq<(char, Style)> {
    s.map_values(|c: char| (c, style))
}

/// The visible characters of runs, each with its style, in order.
pub open spec fn tint(runs: Seq<Run>) -> Seq<(char, Style)>
    decreases runs.len(),
{
    if runs.len() == 0 {
        seq![]
    } else {
        tint(runs.drop_last()) + tinted(ink(runs.last().text), runs.last().style)
    }
}

/// The visible characters on a sequence of lines, each with its style.
pub open spec fn lines_tint(lines: Seq<Seq<Run>>) -> Seq<(char, Style)>
    decreases lines.len(),
{
    if lines.len() == 0 {
        seq![]
    } else {
        lines_tint(lines.drop_last()) + tint(lines.last())
    }
}

spec fn flow_tint(f: Flow) -> Seq<(char, Style)> {
    lines_tint(f.lines) + tint(f.current)
}

proof fn lemma_tinted_add(a: Seq<char>, b: Seq<char>, style: Style)
    ensures
        tinted(a + b, style) == tinted(a, style) + tinted(b, style),
{
    assert(tinted(a + b, style) =~= tinted(a, style) + tinted(b, style));
}

proof fn lemma_lines_tint_push(lines: Seq<Seq<Run>>, line: Seq<Run>)
    ensures
        lines_tint(lines.push(line)) == lines_tint(lines) + tint(line),
{
    assert(lines.push(line).drop_last() == lines);
}

proof fn lemma_broken_tint(f: Flow)
    ensures
        flow_tint(broken(f)) == flow_tint(f),
{
    if f.used > 0 {
        lemma_lines_tint_push(f.lines, f.current);
        assert(tint(Seq::<Run>::empty()) == Seq::<(char, Style)>::empty());
        assert(flow_tint(f) + Seq::<(char, Style)>::empty() == flow_tint(f));
    }
}

proof fn lemma_put_tint(f: Flow, text: Seq<char>, style: Style)
    ensures
        flow_tint(put(f, text, style)) == flow_tint(f) + tinted(ink(text), style),
{
    let more = tinted(ink(text), style);
    assert(put(f, text, style).current.drop_last() == f.current);
    assert(lines_tint(f.lines) + (tint(f.current) + more) == flow_tint(f) + more);
}

proof fn lemma_put_chunks_tint(f: Flow, parts: Seq<Seq<char>>, style: Style)
    ensures
        flow_tint(put_chunks(f, parts, style)) == flow_tint(f) + tinted(parts_ink(parts), style),
    decreases parts.len(),
{
    if parts.len() == 0 {
        assert(flow_tint(f) + tinted(parts_ink(parts), style) == flow_tint(f));
    } else {
        let head = parts.drop_last();
        let g = put_chunks(f, head, style);
        lemma_put_chunks_tint(f, head, style);
        lemma_broken_tint(g);
        lemma_put_tint(broken(g), parts.last(), style);
        lemma_tinted_add(parts_ink(head), ink(parts.last()), style);
        assert(flow_tint(f) + tinted(parts_ink(head), style) + tinted(ink(parts.last()), style)
            == flow_tint(f) + (tinted(parts_ink(head), style) + tinted(ink(parts.last()), style)));
    }
}

proof fn lemma_put_word_tint(f: Flow, word: Seq<char>, style: Style, width: int)
    ensures
        flow_tint(put_word(f, word, style, width)) == flow_tint(f) + tinted(ink(word), style),
{
    lemma_put_tint(f, word, style);
    lemma_broken_tint(f);
    lemma_put_tint(broken(f), word, style);
    if trimmed(word).len() == 0 {
        lemma_blank_has_no_ink(word);
        assert(flow_tint(f) + tinted(ink(word), style) == flow_tint(f));
    }
    lemma_put_chunks_tint(broken(f), chunks(word, width), style);
    lemma_parts_ink_glued(chunks(word, width));
    chunks_make_up_the_text(word, width);
}

proof fn lemma_put_words_tint(f: Flow, words: Seq<Seq<char>>, style: Style, width: int)
    ensures
        flow_tint(put_words(f, words, style, width)) == flow_tint(f) + tinted(
            parts_ink(words),
            style,
        ),
    decreases words.len(),
{
    if words.len() == 0 {
        assert(flow_tint(f) + tinted(parts_ink(words), style) == flow_tint(f));
    } else {
        let head = words.drop_last();
        lemma_put_words_tint(f, head, style, width);
        lemma_put_word_tint(put_words(f, head, style, width), words.last(), style, width);
        lemma_tinted_add(parts_ink(head), ink(words.last()), style);
        assert(flow_tint(f) + tinted(parts_ink(head), style) + tinted(ink(words.last()), style)
            == flow_tint(f) + (tinted(parts_ink(head), style) + tinted(ink(words.last()), style)));
    }
}

proof fn lemma_put_runs_tint(f: Flow, runs: Seq<Run>, width: int)
    ensures
        flow_tint(put_runs(f, runs, width)) == flow_tint(f) + tint(runs),
    decreases runs.len(),
{
    if runs.len() == 0 {
        assert(flow_tint(f) + tint(runs) == flow_tint(f));
    } else {
        let head = runs.drop_last();
        let last = runs.last();
        let words = words_and_gaps(last.text);
        lemma_put_runs_tint(f, head, width);
        lemma_put_words_tint(put_runs(f, head, width), words, last.style, width);
        lemma_parts_ink_glued(words);
        words_and_gaps_make_up_the_text(last.text);
        assert(flow_tint(f) + tint(head) + tinted(ink(last.text), last.style) == flow_tint(f) + (
        tint(head) + tinted(ink(last.text), last.style)));
    }
}

/// Wrapping preserves styles across breaks: every visible character comes out
/// in the style that it went in with, and in the same order.
pub proof fn wrapping_keeps_the_styles(runs: Seq<Run>, width: int)
    ensures
        lines_tint(wrapped(runs, width)) == tint(runs),
{
    let limit = if width < 1 {
        1
    } else {
        width
    };
    let none = Seq::<(char, Style)>::empty();
    let f = put_runs(empty_flow(), runs, limit);
    lemma_put_runs_tint(empty_flow(), runs, limit);
    assert(tint(Seq::<Run>::empty()) == none);
    assert(flow_tint(empty_flow()) == none);
    assert(none + tint(runs) == tint(runs));
    if f.current.len() > 0 {
        lemma_lines_tint_push(f.lines, f.current);
    } else {
        assert(f.current == Seq::<Run>::empty());
        assert(lines_tint(f.lines) + none == lines_tint(f.lines));
    }
    if f.current.len() == 0 && f.lines.len() == 0 {
        lemma_lines_tint_push(seq![], seq![]);
        assert(Seq::<Seq<Run>>::empty().push(Seq::<Run>::empty()) == seq![Seq::<Run>::empty()]);
        assert(none + none == none);
    }
}

// ---------------------------------------------------------------------------
// where wrapped lines come from, and how they start
// ---------------------------------------------------------------------------

/// Whether a run is a stretch of one of the others, in the style of that one.
pub open spec fn taken_from(piece: Run, runs: Seq<Run>) -> bool {
    exists|j: int, a: int, b: int|
        {
            &&& 0 <= j < runs.len()
            &&& 0 <= a <= b <= runs[j].text.len()
            &&& piece.style == runs[j].style
            &&& piece.text == #[trigger] runs[j].text.subrange(a, b)
        }
}

/// Whether a line starts with something other than a gap, if with anything.
pub open spec fn starts_with_a_word(line: Seq<Run>) -> bool {
    line.len() > 0 ==> line[0].text.len() > 0 && !is_gap(line[0].text[0])
}

/// Whether text `p` is a stretch of `s`.
spec fn stretch_of(p: Seq<char>, s: Seq<char>) -> bool {
    exists|a: int, b: int| 0 <= a <= b <= s.len() && p == #[trigger] s.subrange(a, b)
}

proof fn lemma_stretch_of_stretch(p: Seq<char>, q: Seq<char>, s: Seq<char>)
    requires
        stretch_of(p, q),
        stretch_of(q, s),
    ensures
        stretch_of(p, s),
{
    let (a, b) = choose|a: int, b: int|
        0 <= a <= b <= q.len() && p == #[trigger] q.subrange(a, b);
    let (c, d) = choose|c: int, d: int|
        0 <= c <= d <= s.len() && q == #[trigger] s.subrange(c, d);
    assert(p =~= s.subrange(c + a, c + b));
}

/// Whether a piece is not empty, and all gap or no gap at all.
spec fn uniform(p: Seq<char>) -> bool {
    p.len() > 0 && forall|i: int| 0 <= i < p.len() ==> is_gap(#[trigger] p[i]) == is_gap(p[0])
}

proof fn lemma_stretch_uniform(s: Seq<char>, i: int)
    requires
        0 <= i < stretch(s),
    ensures
        stretch(s) <= s.len(),
        is_gap(s[i]) == is_gap(s[0]),
    decreases s.len(),
{
    lemma_stretch_bounds(s);
    if i > 0 {
        lemma_stretch_uniform(s.drop_first(), i - 1);
        assert(s.drop_first()[i - 1] == s[i]);
        assert(s.drop_first()[0] == s[1]);
    }
}

proof fn lemma_words_and_gaps_pieces(s: Seq<char>, k: int)
    requires
        0 <= k < words_and_gaps(s).len(),
    ensures
        uniform(words_and_gaps(s)[k]),
        stretch_of(words_and_gaps(s)[k], s),
    decreases s.len(),
{
    if s.len() > 0 {
        let n = stretch(s) as int;
        lemma_stretch_bounds(s);
        let head = s.take(n);
        let rest = s.skip(n);
        if k == 0 {
            assert forall|i: int| 0 <= i < head.len() implies is_gap(#[trigger] head[i])
                == is_gap(head[0]) by {
                lemma_stretch_uniform(s, i);
            }
            assert(head =~= s.subrange(0, n));
        } else {
            lemma_words_and_gaps_pieces(rest, k - 1);
            assert(words_and_gaps(s)[k] == words_and_gaps(rest)[k - 1]);
            assert(rest =~= s.subrange(n, s.len() as int));
            lemma_stretch_of_stretch(words_and_gaps(s)[k], rest, s);
        }
    }
}

proof fn lemma_chunks_from_pieces(
    s: Seq<char>,
    i: int,
    buf: Seq<char>,
    used: int,
    width: int,
    k: int,
)
    requires
        0 <= buf.len() <= i <= s.len(),
        buf == s.subrange(i - buf.len(), i),
        0 <= k < chunks_from(s, i, buf, used, width).len(),
    ensures
        chunks_from(s, i, buf, used, width)[k].len() > 0,
        stretch_of(chunks_from(s, i, buf, used, width)[k], s),
    decreases s.len() - i,
{
    if i < s.len() {
        let w = char_width(s[i]) as int;
        if used + w > width && buf.len() > 0 {
            if k > 0 {
                assert(seq![s[i]] =~= s.subrange(i, i + 1));
                lemma_chunks_from_pieces(s, i + 1, seq![s[i]], w, width, k - 1);
            }
        } else {
            assert(buf.push(s[i]) =~= s.subrange(i - buf.len(), i + 1));
            lemma_chunks_from_pieces(s, i + 1, buf.push(s[i]), used + w, width, k);
        }
    }
}

proof fn lemma_chunks_pieces(s: Seq<char>, width: int, k: int)
    requires
        s.len() > 0,
        0 <= k < chunks(s, width).len(),
    ensures
        chunks(s, width)[k].len() > 0,
        stretch_of(chunks(s, width)[k], s),
{
    let limit = if width < 1 {
        1
    } else {
        width
    };
    assert(Seq::<char>::empty() =~= s.subrange(0, 0));
    if chunks_from(s, 0, seq![], 0, limit).len() == 0 {
        lemma_chunks_from_glued(s, 0, seq![], 0, limit);
        assert(Seq::<char>::empty() + s.skip(0) == s);
    } else {
        lemma_chunks_from_pieces(s, 0, seq![], 0, limit, k);
    }
}

proof fn lemma_gap_is_blank(s: Seq<char>)
    requires
        forall|i: int| 0 <= i < s.len() ==> is_gap(#[trigger] s[i]),
    ensures
        trimmed_start(s).len() == 0,
    decreases s.len(),
{
    if s.len() > 0 {
        assert(is_gap(s[0]));
        assert forall|i: int| 0 <= i < s.drop_first().len() implies is_gap(
            #[trigger] s.drop_first()[i],
        ) by {
            assert(s.drop_first()[i] == s[i + 1]);
        }
        lemma_gap_is_blank(s.drop_first());
    }
}

/// What holds of wrapping in progress: everything on it is taken from `runs`,
/// and no line starts with a gap.
spec fn flow_sound(f: Flow, runs: Seq<Run>) -> bool {
    &&& f.used > 0 ==> f.current.len() > 0
    &&& line_sound(f.current, runs)
    &&& forall|i: int| 0 <= i < f.lines.len() ==> line_sound(#[trigger] f.lines[i], runs)
}

spec fn line_sound(line: Seq<Run>, runs: Seq<Run>) -> bool {
    &&& starts_with_a_word(line)
    &&& forall|k: int| 0 <= k < line.len() ==> taken_from(#[trigger] line[k], runs)
}

proof fn lemma_put_sound(f: Flow, text: Seq<char>, style: Style, runs: Seq<Run>)
    requires
        flow_sound(f, runs),
        taken_from(Run { text, style }, runs),
        f.current.len() > 0 || (text.len() > 0 && !is_gap(text[0])),
    ensures
        flow_sound(put(f, text, style), runs),
{
    let line = put(f, text, style).current;
    assert forall|k: int| 0 <= k < line.len() implies taken_from(#[trigger] line[k], runs) by {
        if k < f.current.len() {
            assert(line[k] == f.current[k]);
        }
    }
    if f.current.len() > 0 {
        assert(line[0] == f.current[0]);
    }
}

proof fn lemma_put_chunks_sound(f: Flow, parts: Seq<Seq<char>>, style: Style, runs: Seq<Run>)
    requires
        flow_sound(f, runs),
        forall|k: int|
            0 <= k < parts.len() ==> (#[trigger] parts[k]).len() > 0 && !is_gap(parts[k][0])
                && taken_from(Run { text: parts[k], style }, runs),
    ensures
        flow_sound(put_chunks(f, parts, style), runs),
    decreases parts.len(),
{
    if parts.len() > 0 {
        let head = parts.drop_last();
        assert forall|k: int| 0 <= k < head.len() implies (#[trigger] head[k]).len() > 0 && !is_gap(
            head[k][0],
        ) && taken_from(Run { text: head[k], style }, runs) by {
            assert(parts[k] == head[k]);
        }
        lemma_put_chunks_sound(f, head, style, runs);
        let last = parts[parts.len() - 1];
        assert(last.len() > 0);
        lemma_put_sound(broken(put_chunks(f, head, style)), last, style, runs);
    }
}

proof fn lemma_put_word_sound(f: Flow, word: Seq<char>, j: int, width: int, runs: Seq<Run>)
    requires
        flow_sound(f, runs),
        0 <= j < runs.len(),
        uniform(word),
        stretch_of(word, runs[j].text),
    ensures
        flow_sound(put_word(f, word, runs[j].style, width), runs),
{
    let style = runs[j].style;
    lemma_taken(word, j, runs);
    if trimmed(word).len() == 0 {
        if f.used > 0 && f.used + display_width(word) <= width {
            lemma_put_sound(f, word, style, runs);
        }
    } else {
        if is_gap(word[0]) {
            lemma_gap_is_blank(word);
        }
        let parts = chunks(word, width);
        assert forall|k: int| 0 <= k < parts.len() implies (#[trigger] parts[k]).len() > 0
            && !is_gap(parts[k][0]) && taken_from(Run { text: parts[k], style }, runs) by {
            lemma_chunks_pieces(word, width, k);
            let (a, b) = choose|a: int, b: int|
                0 <= a <= b <= word.len() && parts[k] == #[trigger] word.subrange(a, b);
            assert(parts[k][0] == word[a]);
            lemma_stretch_of_stretch(parts[k], word, runs[j].text);
            lemma_taken(parts[k], j, runs);
        }
        lemma_put_chunks_sound(broken(f), parts, style, runs);
        lemma_put_sound(f, word, style, runs);
        lemma_put_sound(broken(f), word, style, runs);
    }
}

proof fn lemma_taken(p: Seq<char>, j: int, runs: Seq<Run>)
    requires
        0 <= j < runs.len(),
        stretch_of(p, runs[j].text),
    ensures
        taken_from(Run { text: p, style: runs[j].style }, runs),
{
    let (a, b) = choose|a: int, b: int|
        0 <= a <= b <= runs[j].text.len() && p == #[trigger] runs[j].text.subrange(a, b);
    assert(p == runs[j].text.subrange(a, b));
}

proof fn lemma_put_words_sound(
    f: Flow,
    words: Seq<Seq<char>>,
    j: int,
    width: int,
    runs: Seq<Run>,
)
    requires
        flow_sound(f, runs),
        0 <= j < runs.len(),
        forall|k: int|
            0 <= k < words.len() ==> uniform(#[trigger] words[k]) && stretch_of(
                words[k],
                runs[j].text,
            ),
    ensures
        flow_sound(put_words(f, words, runs[j].style, width), runs),
    decreases words.len(),
{
    if words.len() > 0 {
        let head = words.drop_last();
        assert forall|k: int| 0 <= k < head.len() implies uniform(#[trigger] head[k]) && stretch_of(
            head[k],
            runs[j].text,
        ) by {
            assert(words[k] == head[k]);
        }
        lemma_put_words_sound(f, head, j, width, runs);
        let last = words[words.len() - 1];
        assert(uniform(last));
        lemma_put_word_sound(put_words(f, head, runs[j].style, width), last, j, width, runs);
    }
}

proof fn lemma_put_runs_sound(f: Flow, runs: Seq<Run>, n: int, width: int)
    requires
        flow_sound(f, runs),
        0 <= n <= runs.len(),
    ensures
        flow_sound(put_runs(f, runs.take(n), width), runs),
    decreases n,
{
    if n > 0 {
        lemma_put_runs_sound(f, runs, n - 1, width);
        assert(runs.take(n).drop_last() == runs.take(n - 1));
        let words = words_and_gaps(runs[n - 1].text);
        assert forall|k: int| 0 <= k < words.len() implies uniform(#[trigger] words[k])
            && stretch_of(words[k], runs[n - 1].text) by {
            lemma_words_and_gaps_pieces(runs[n - 1].text, k);
        }
        lemma_put_words_sound(put_runs(f, runs.take(n - 1), width), words, n - 1, width, runs);
    }
}

proof fn lemma_wrapped_sound(runs: Seq<Run>, width: int, i: int)
    requires
        0 <= i < wrapped(runs, width).len(),
    ensures
        line_sound(wrapped(runs, width)[i], runs),
{
    let limit = if width < 1 {
        1
    } else {
        width
    };
    lemma_put_runs_sound(empty_flow(), runs, runs.len() as int, limit);
    assert(runs.take(runs.len() as int) == runs);
}

/// Everything on a wrapped line, gaps as well, is a stretch of what went in, in
/// the style of the span it comes from.
pub proof fn wrapped_pieces_keep_their_span(runs: Seq<Run>, width: int, i: int, k: int)
    requires
        0 <= i < wrapped(runs, width).len(),
        0 <= k < wrapped(runs, width)[i].len(),
    ensures
        taken_from(wrapped(runs, width)[i][k], runs),
{
    lemma_wrapped_sound(runs, width, i);
}

/// No wrapped line starts with a gap, so never with the space that caused the
/// break.
pub proof fn no_line_starts_with_a_gap(runs: Seq<Run>, width: int, i: int)
    requires
        0 <= i < wrapped(runs, width).len(),
    ensures
        starts_with_a_word(wrapped(runs, width)[i]),
{
    lemma_wrapped_sound(runs, width, i);
}

// ---------------------------------------------------------------------------
// whole messages
// ---------------------------------------------------------------------------

/// Whether a line opens or closes a fenced block.
pub open spec fn is_fence(line: Seq<char>) -> bool {
    occurs_at(trimmed_start(line), "```"@, 0)
}

/// What follows the mark of a quoted line, without the one space after it.
pub open spec fn quoted(line: Seq<char>) -> Seq<char> {
    let rest = line.drop_first();
    if rest.len() > 0 && rest[0] == ' ' {
        rest.drop_first()
    } else {
        rest
    }
}

pub open spec fn code_style(theme: Theme) -> Style {
    fg(theme.shows(theme.palette.code))
}

pub open spec fn quote_style(theme: Theme) -> Style {
    with(fg(theme.shows(theme.palette.quote)), Modifier::Italic)
}

/// A line of a fenced block: cut to the width, indented, never marked up.
pub open spec fn code_lines(line: Seq<char>, width: int, theme: Theme) -> Seq<Seq<Run>> {
    let parts = chunks(line, width - 2);
    Seq::new(
        parts.len(),
        |i: int|
            seq![
                Run { text: "  "@, style: plain() },
                Run { text: parts[i], style: code_style(theme) },
            ],
    )
}

/// A quoted line: wrapped, with a bar in front of every line.
pub open spec fn quote_lines(line: Seq<char>, width: int, theme: Theme) -> Seq<Seq<Run>> {
    let inner = wrapped(
        inline_runs(quoted(line), quote_style(theme), code_style(theme)),
        width - 2,
    );
    Seq::new(
        inner.len(),
        |i: int|
            seq![Run { text: "\u{2502} "@, style: fg(theme.shows(theme.palette.quote)) }] + inner[i],
    )
}

/// The fence itself renders as a thin rule so the block reads as one.
pub open spec fn rule_line(width: int, theme: Theme) -> Seq<Run> {
    seq![
        Run {
            text: repeated(
                '\u{2500}',
                (if width < 24 {
                    width
                } else {
                    24
                }) as nat,
            ),
            style: fg(theme.shows(theme.palette.dim)),
        },
    ]
}

/// What one source line, its end trimmed, renders as.
pub open spec fn line_rendered(line: Seq<char>, in_code: bool, width: int, theme: Theme) -> Seq<
    Seq<Run>,
> {
    if is_fence(line) {
        seq![rule_line(width, theme)]
    } else if in_code {
        code_lines(line, width, theme)
    } else if line.len() > 0 && line[0] == '>' {
        quote_lines(line, width, theme)
    } else if line.len() == 0 {
        seq![Seq::<Run>::empty()]
    } else {
        wrapped(
            inline_runs(line, fg(theme.shows(theme.palette.fg)), code_style(theme)),
            width,
        )
    }
}

/// The first `n` source lines rendered, and whether a fence is open after
/// them.
pub open spec fn rendered_lines(lines: Seq<Seq<char>>, n: int, width: int, theme: Theme) -> (
    Seq<Seq<Run>>,
    bool,
)
    decreases n,
{
    if n <= 0 {
        (seq![], false)
    } else {
        let (before, in_code) = rendered_lines(lines, n - 1, width, theme);
        let line = trimmed_end(lines[n - 1]);
        (before + line_rendered(line, in_code, width, theme), in_code != is_fence(line))
    }
}

/// A message body as styled lines, wrapped to `width` columns but to no fewer
/// than eight.
pub open spec fn rendered(body: Seq<char>, width: int, theme: Theme) -> Seq<Seq<Run>> {
    let lines = pieces(body, '\n');
    let out = rendered_lines(
        lines,
        lines.len() as int,
        if width < 8 {
            8
        } else {
            width
        },
        theme,
    ).0;
    if out.len() == 0 {
        seq![Seq::<Run>::empty()]
    } else {
        out
    }
}

fn render_code(line: &str, width: usize, theme: &Theme) -> (r: Vec<Line>)
    requires
        width >= 2,
    ensures
        r.deep_view() == code_lines(line@, width as int, *theme),
{
    let style = Style::new().fg(theme.color(theme.palette.code));
    let parts = hard_wrap(line, width - 2);
    let mut out: Vec<Line> = Vec::new();
    let ghost want = code_lines(line@, width as int, *theme);
    let mut i: usize = 0;
    while i < parts.len()
        invariant
            i <= parts.len(),
            want == code_lines(line@, width as int, *theme),
            parts.deep_view() == chunks(line@, width - 2),
            style == code_style(*theme),
            out.deep_view() == want.take(i as int),
        decreases parts.len() - i,
    {
        let mut spans: Vec<Span> = Vec::new();
        spans.push(Span::raw("  ".to_owned()));
        spans.push(Span::styled(parts[i].clone(), style));
        proof {
            assert(parts[i as int]@ == parts.deep_view()[i as int]);
            assert(spans.deep_view() =~= want[i as int]);
        }
        let ghost before = out.deep_view();
        out.push(Line { spans });
        assert(out.deep_view() =~= before.push(want[i as int]));
        assert(want.take(i + 1) =~= want.take(i as int).push(want[i as int]));
        i += 1;
    }
    assert(want.take(want.len() as int) == want);
    out
}

fn render_quote(line: &str, width: usize, theme: &Theme) -> (r: Vec<Line>)
    requires
        width >= 2,
        line@.len() > 0,
    ensures
        r.deep_view() == quote_lines(line@, width as int, *theme),
{
    let bar = Style::new().fg(theme.color(theme.palette.quote));
    let style = bar.add_modifier(Modifier::Italic);
    let code = Style::new().fg(theme.color(theme.palette.code));
    let chars = chars_of(line);
    let start: usize = if chars.len() > 1 && chars[1] == ' ' {
        2
    } else {
        1
    };
    let rest = slice_of(&chars, start, chars.len());
    assert(rest@ == quoted(line@));
    let inner = wrap(&inline(rest.as_str(), style, code), width - 2);
    let ghost inner_view = inner.deep_view();
    let ghost want = quote_lines(line@, width as int, *theme);
    let mut out: Vec<Line> = Vec::new();
    let mut i: usize = 0;
    while i < inner.len()
        invariant
            i <= inner.len(),
            inner_view == inner.deep_view(),
            want == quote_lines(line@, width as int, *theme),
            want.len() == inner.len(),
            forall|j: int|
                0 <= j < want.len() ==> #[trigger] want[j] == seq![
                    Run { text: "\u{2502} "@, style: bar },
                ] + inner_view[j],
            out.deep_view() == want.take(i as int),
        decreases inner.len() - i,
    {
        let mut spans: Vec<Span> = Vec::new();
        spans.push(Span::styled("\u{2502} ".to_owned(), bar));
        let mut k: usize = 0;
        while k < inner[i].spans.len()
            invariant
                i < inner.len(),
                k <= inner[i as int].spans.len(),
                spans.deep_view() == seq![Run { text: "\u{2502} "@, style: bar }]
                    + inner[i as int].deep_view().take(k as int),
            decreases inner[i as int].spans.len() - k,
        {
            let span = &inner[i].spans[k];
            let ghost before = spans.deep_view();
            spans.push(Span::styled(span.content.clone(), span.style));
            assert(spans.deep_view() =~= before.push(inner[i as int].deep_view()[k as int]));
            assert(inner[i as int].deep_view().take(k + 1) =~= inner[i as int].deep_view().take(
                k as int,
            ).push(inner[i as int].deep_view()[k as int]));
            k += 1;
        }
        proof {
            let whole = inner[i as int].deep_view();
            assert(whole.take(whole.len() as int) == whole);
            assert(inner_view[i as int] == whole);
            assert(spans.deep_view() =~= want[i as int]);
        }
        let ghost before = out.deep_view();
        out.push(Line { spans });
        assert(out.deep_view() =~= before.push(want[i as int]));
        assert(want.take(i + 1) =~= want.take(i as int).push(want[i as int]));
        i += 1;
    }
    assert(want.take(want.len() as int) == want);
    out
}

fn render_line(line: &str, in_code: bool, width: usize, theme: &Theme) -> (r: (Vec<Line>, bool))
    requires
        width >= 8,
    ensures
        r.0.deep_view() == line_rendered(line@, in_code, width as int, *theme),
        r.1 == (in_code != is_fence(line@)),
{
    let bare = trim_start(line);
    if starts_with(bare.as_str(), "```") {
        let count: usize = if width < 24 {
            width
        } else {
            24
        };
        let style = Style::new().fg(theme.dim());
        let mut out: Vec<Line> = Vec::new();
        out.push(Line::of(Span::styled(repeat('\u{2500}', count), style)));
        assert(out.deep_view() =~= seq![rule_line(width as int, *theme)]);
        return (out, !in_code);
    }
    if in_code {
        return (render_code(line, width, theme), true);
    }
    let chars = chars_of(line);
    if chars.len() > 0 && chars[0] == '>' {
        return (render_quote(line, width, theme), false);
    }
    if chars.len() == 0 {
        let mut out: Vec<Line> = Vec::new();
        out.push(Line::blank());
        assert(out.deep_view() =~= seq![Seq::<Run>::empty()]);
        return (out, false);
    }
    let base = Style::new().fg(theme.fg());
    let code = Style::new().fg(theme.color(theme.palette.code));
    (wrap(&inline(line, base, code), width), false)
}

/// Render a message body, wrapped to `width` columns.
pub fn render(body: &str, width: usize, theme: &Theme) -> (r: Vec<Line>)
    ensures
        r.deep_view() == rendered(body@, width as int, *theme),
{
    let limit: usize = if width < 8 {
        8
    } else {
        width
    };
    let source = split(body, '\n');
    let mut out: Vec<Line> = Vec::new();
    let mut in_code = false;
    let ghost lines = source.deep_view();
    let mut i: usize = 0;
    assert(out.deep_view() =~= Seq::<Seq<Run>>::empty());
    while i < source.len()
        invariant
            i <= source.len(),
            lines == source.deep_view(),
            limit >= 8,
            (out.deep_view(), in_code) == rendered_lines(lines, i as int, limit as int, *theme),
        decreases source.len() - i,
    {
        let line = trim_end(source[i].as_str());
        assert(lines[i as int] == source[i as int]@);
        let (mut more, after) = render_line(line.as_str(), in_code, limit, theme);
        let ghost before = out.deep_view();
        let ghost added = more.deep_view();
        let ghost out0 = out@;
        let ghost more0 = more@;
        out.append(&mut more);
        proof {
            assert(out@ == out0 + more0);
            assert(out.deep_view() =~= before + added);
        }
        in_code = after;
        i += 1;
    }
    if out.is_empty() {
        out.push(Line::blank());
        assert(out.deep_view() =~= seq![Seq::<Run>::empty()]);
    }
    out
}

// ---------------------------------------------------------------------------
// what marks do
// ---------------------------------------------------------------------------

/// Whether no character of a text has a meaning of its own.
pub open spec fn markless(s: Seq<char>) -> bool {
    forall|i: int|
        0 <= i < s.len() ==> #[trigger] s[i] != '`' && s[i] != '\\' && s[i] != '*' && s[i] != '~'
            && s[i] != '_'
}

/// Text without marks is read as it stands, whatever marks are in force.
proof fn lemma_plain_stretch(
    s: Seq<char>,
    words: Seq<bool>,
    i: int,
    a: Seq<char>,
    marks: Marks,
    buf: Seq<char>,
    base: Style,
    code: Style,
)
    requires
        0 <= i,
        i + a.len() <= s.len(),
        s.subrange(i, i + a.len()) == a,
        markless(a) || marks.code && !a.contains('`'),
    ensures
        inline_from(s, words, i, marks, buf, base, code) == inline_from(
            s,
            words,
            i + a.len(),
            marks,
            buf + a,
            base,
            code,
        ),
    decreases a.len(),
{
    if a.len() == 0 {
        assert(buf + a =~= buf);
    } else {
        let t = a.drop_first();
        assert(s.subrange(i, i + a.len())[0] == s[i]);
        assert(a.contains(a[0]));
        assert(token(s, words, i, marks) == (1int, marks, Some(s[i])));
        assert(s.subrange(i + 1, i + 1 + t.len()) =~= t) by {
            assert(s.subrange(i, i + a.len()).drop_first() =~= s.subrange(i + 1, i + a.len()));
        }
        assert forall|k: int| 0 <= k < t.len() implies #[trigger] t[k] == a[k + 1] by {}
        if t.contains('`') {
            let k = choose|k: int| 0 <= k < t.len() && t[k] == '`';
            assert(a[k + 1] == '`');
        }
        lemma_plain_stretch(s, words, i + 1, t, marks, buf.push(a[0]), base, code);
        assert(buf.push(a[0]) + t =~= buf + a);
    }
}

proof fn lemma_doubled(
    c: char,
    a: Seq<char>,
    b: Seq<char>,
    words: Seq<bool>,
    base: Style,
    code: Style,
)
    requires
        c == '*' || c == '~',
        markless(a),
        markless(b),
        a.len() > 0,
    ensures
        marked_up(seq![c, c] + a + seq![c, c] + b, words, base, code) == seq![
            Run {
                text: a,
                style: if c == '*' {
                    Style { bold: Switch::On, ..base }
                } else {
                    Style { crossed_out: Switch::On, ..base }
                },
            },
        ] + run_of(b, base),
{
    let s = seq![c, c] + a + seq![c, c] + b;
    let n = a.len() as int;
    let on = if c == '*' {
        Marks { bold: true, ..no_marks() }
    } else {
        Marks { strike: true, ..no_marks() }
    };
    assert(s[0] == c && s[1] == c);
    assert(token(s, words, 0, no_marks()) == (2int, on, None::<char>));
    assert(s.subrange(2, 2 + n) =~= a);
    lemma_plain_stretch(s, words, 2, a, on, seq![], base, code);
    assert(Seq::<char>::empty() + a =~= a);
    assert(s[2 + n] == c && s[3 + n] == c);
    assert(token(s, words, 2 + n, on) == (2int, no_marks(), None::<char>));
    assert(s.subrange(4 + n, 4 + n + b.len()) =~= b);
    lemma_plain_stretch(s, words, 4 + n, b, no_marks(), seq![], base, code);
    assert(Seq::<char>::empty() + b =~= b);
    let end = inline_from(s, words, 4 + n, no_marks(), seq![], base, code);
    assert(end == run_of(b, base));
    let mid = inline_from(s, words, 2 + n, on, a, base, code);
    assert(mid == run_of(a, marked(on, base, code)) + end);
    assert(inline_from(s, words, 0, no_marks(), seq![], base, code) =~= Seq::<Run>::empty() + mid);
    assert(Seq::<Run>::empty() + mid =~= mid);
}

/// A second pair of stars ends what the first began: what stands between them
/// is bold, and what follows is as it would be without them. A second pair of
/// tildes ends the strikethrough that the first began.
pub proof fn a_doubled_mark_ends_what_it_began(
    a: Seq<char>,
    b: Seq<char>,
    base: Style,
    code: Style,
)
    requires
        markless(a),
        markless(b),
        a.len() > 0,
        b.len() > 0,
    ensures
        inline_runs(seq!['*', '*'] + a + seq!['*', '*'] + b, base, code) == seq![
            Run { text: a, style: Style { bold: Switch::On, ..base } },
            Run { text: b, style: base },
        ],
        inline_runs(seq!['~', '~'] + a + seq!['~', '~'] + b, base, code) == seq![
            Run { text: a, style: Style { crossed_out: Switch::On, ..base } },
            Run { text: b, style: base },
        ],
        inline_runs(seq!['*', '*'] + a + seq!['*', '*'], base, code) == seq![
            Run { text: a, style: Style { bold: Switch::On, ..base } },
        ],
        inline_runs(seq!['~', '~'] + a + seq!['~', '~'], base, code) == seq![
            Run { text: a, style: Style { crossed_out: Switch::On, ..base } },
        ],
{
    let none = Seq::<char>::empty();
    let x = seq!['*', '*'] + a + seq!['*', '*'];
    let y = seq!['~', '~'] + a + seq!['~', '~'];
    assert(x + none =~= x);
    assert(y + none =~= y);
    lemma_doubled('*', a, b, words_of(x + b), base, code);
    lemma_doubled('~', a, b, words_of(y + b), base, code);
    lemma_doubled('*', a, none, words_of(x), base, code);
    lemma_doubled('~', a, none, words_of(y), base, code);
    let bold = Run { text: a, style: Style { bold: Switch::On, ..base } };
    let struck = Run { text: a, style: Style { crossed_out: Switch::On, ..base } };
    assert(seq![bold] + seq![Run { text: b, style: base }] =~= seq![
        bold,
        Run { text: b, style: base },
    ]);
    assert(seq![struck] + seq![Run { text: b, style: base }] =~= seq![
        struck,
        Run { text: b, style: base },
    ]);
    assert(seq![bold] + Seq::<Run>::empty() =~= seq![bold]);
    assert(seq![struck] + Seq::<Run>::empty() =~= seq![struck]);
}

/// A star or an underscore on either side of a word makes it italic, and ends
/// there: what follows is as it would be without them.
pub proof fn a_single_mark_ends_what_it_began(
    m: char,
    a: Seq<char>,
    b: Seq<char>,
    base: Style,
    code: Style,
)
    requires
        m == '*' || m == '_',
        markless(a),
        markless(b),
        a.len() > 0,
        !is_space(a[0]),
        !is_space(a.last()),
        b.len() > 0 ==> !alphanumeric(b[0]),
    ensures
        b.len() > 0 ==> inline_runs(seq![m] + a + seq![m] + b, base, code) == seq![
            Run { text: a, style: Style { italic: Switch::On, ..base } },
            Run { text: b, style: base },
        ],
        b.len() == 0 ==> inline_runs(seq![m] + a + seq![m] + b, base, code) == seq![
            Run { text: a, style: Style { italic: Switch::On, ..base } },
        ],
{
    let s = seq![m] + a + seq![m] + b;
    let words = words_of(s);
    let n = a.len() as int;
    let on = Marks { italic: true, ..no_marks() };
    assert(s[0] == m && s[1] == a[0]);
    assert(emphasis(s, words, 0, false));
    assert(token(s, words, 0, no_marks()) == (1int, on, None::<char>));
    assert(s.subrange(1, 1 + n) =~= a);
    lemma_plain_stretch(s, words, 1, a, on, seq![], base, code);
    assert(Seq::<char>::empty() + a =~= a);
    assert(s[1 + n] == m && s[n] == a.last());
    if b.len() > 0 {
        assert(s[2 + n] == b[0]);
        assert(words[2 + n] == alphanumeric(b[0]));
    }
    assert(emphasis(s, words, 1 + n, true));
    assert(token(s, words, 1 + n, on) == (1int, no_marks(), None::<char>));
    assert(s.subrange(2 + n, 2 + n + b.len()) =~= b);
    lemma_plain_stretch(s, words, 2 + n, b, no_marks(), seq![], base, code);
    assert(Seq::<char>::empty() + b =~= b);
    let end = inline_from(s, words, 2 + n, no_marks(), seq![], base, code);
    assert(end == run_of(b, base));
    let mid = inline_from(s, words, 1 + n, on, a, base, code);
    assert(mid == run_of(a, marked(on, base, code)) + end);
    assert(inline_from(s, words, 0, no_marks(), seq![], base, code) =~= Seq::<Run>::empty() + mid);
    assert(Seq::<Run>::empty() + mid =~= mid);
    let it = Run { text: a, style: Style { italic: Switch::On, ..base } };
    assert(seq![it] + seq![Run { text: b, style: base }] =~= seq![it, Run { text: b, style: base }]);
    assert(seq![it] + Seq::<Run>::empty() =~= seq![it]);
}

/// Bold and strikethrough do not get in each other's way: each lasts from its
/// own mark to its own mark, and where both do, the text is both.
pub proof fn marks_overlap(
    a: Seq<char>,
    b: Seq<char>,
    c: Seq<char>,
    d: Seq<char>,
    base: Style,
    code: Style,
)
    requires
        markless(a) && markless(b) && markless(c) && markless(d),
        a.len() > 0 && b.len() > 0 && c.len() > 0 && d.len() > 0,
    ensures
        inline_runs(
            seq!['*', '*'] + a + seq!['~', '~'] + b + seq!['*', '*'] + c + seq!['~', '~'] + d,
            base,
            code,
        ) == seq![
            Run { text: a, style: Style { bold: Switch::On, ..base } },
            Run { text: b, style: Style { bold: Switch::On, crossed_out: Switch::On, ..base } },
            Run { text: c, style: Style { crossed_out: Switch::On, ..base } },
            Run { text: d, style: base },
        ],
{
    let s = seq!['*', '*'] + a + seq!['~', '~'] + b + seq!['*', '*'] + c + seq!['~', '~'] + d;
    let words = words_of(s);
    let none = Seq::<char>::empty();
    let m0 = no_marks();
    let m1 = Marks { bold: true, ..m0 };
    let m2 = Marks { bold: true, strike: true, ..m0 };
    let m3 = Marks { strike: true, ..m0 };
    let p1 = 2int;
    let p2 = p1 + a.len() + 2;
    let p3 = p2 + b.len() + 2;
    let p4 = p3 + c.len() + 2;
    assert(s.subrange(p1, p1 + a.len()) =~= a);
    assert(s.subrange(p2, p2 + b.len()) =~= b);
    assert(s.subrange(p3, p3 + c.len()) =~= c);
    assert(s.subrange(p4, p4 + d.len()) =~= d);
    lemma_plain_stretch(s, words, p1, a, m1, none, base, code);
    lemma_plain_stretch(s, words, p2, b, m2, none, base, code);
    lemma_plain_stretch(s, words, p3, c, m3, none, base, code);
    lemma_plain_stretch(s, words, p4, d, m0, none, base, code);
    assert(none + a =~= a && none + b =~= b && none + c =~= c && none + d =~= d);
    assert(token(s, words, 0, m0) == (2int, m1, None::<char>));
    assert(token(s, words, p2 - 2, m1) == (2int, m2, None::<char>));
    assert(token(s, words, p3 - 2, m2) == (2int, m3, None::<char>));
    assert(token(s, words, p4 - 2, m3) == (2int, m0, None::<char>));
    let r1 = Run { text: a, style: Style { bold: Switch::On, ..base } };
    let r2 = Run {
        text: b,
        style: Style { bold: Switch::On, crossed_out: Switch::On, ..base },
    };
    let r3 = Run { text: c, style: Style { crossed_out: Switch::On, ..base } };
    let r4 = Run { text: d, style: base };
    assert(inline_from(s, words, p4, m0, none, base, code) == seq![r4]);
    assert(inline_from(s, words, p4 - 2, m3, c, base, code) == seq![r3] + seq![r4]);
    assert(inline_from(s, words, p3 - 2, m2, b, base, code) == seq![r2] + (seq![r3] + seq![r4]));
    assert(inline_from(s, words, p2 - 2, m1, a, base, code) == seq![r1] + (seq![r2] + (seq![r3]
        + seq![r4])));
    let all = seq![r1] + (seq![r2] + (seq![r3] + seq![r4]));
    assert(inline_from(s, words, 0, m0, none, base, code) =~= Seq::<Run>::empty() + all);
    assert(Seq::<Run>::empty() + all =~= seq![r1, r2, r3, r4]);
}

/// A character behind a backslash stands for itself, whatever it would mean
/// without it, and the backslash is not shown.
pub proof fn an_escaped_character_is_literal(
    a: Seq<char>,
    c: char,
    b: Seq<char>,
    base: Style,
    code: Style,
)
    requires
        markless(a),
        markless(b),
    ensures
        inline_runs(a + seq!['\\', c] + b, base, code) == seq![
            Run { text: a + seq![c] + b, style: base },
        ],
{
    let s = a + seq!['\\', c] + b;
    let words = words_of(s);
    let n = a.len() as int;
    let none = Seq::<char>::empty();
    assert(s.subrange(0, n) =~= a);
    lemma_plain_stretch(s, words, 0, a, no_marks(), none, base, code);
    assert(none + a =~= a);
    assert(s[n] == '\\' && s[n + 1] == c);
    assert(token(s, words, n, no_marks()) == (2int, no_marks(), Some(c)));
    assert(s.subrange(n + 2, n + 2 + b.len()) =~= b);
    lemma_plain_stretch(s, words, n + 2, b, no_marks(), a.push(c), base, code);
    assert(a.push(c) + b =~= a + seq![c] + b);
}

/// A second backtick ends the code that the first began: what stands between
/// them is literal and has the style of code, and what follows is as it would
/// be without them.
pub proof fn code_ends_at_its_backtick(a: Seq<char>, b: Seq<char>, base: Style, code: Style)
    requires
        !a.contains('`'),
        a.len() > 0,
        markless(b),
        b.len() > 0,
    ensures
        inline_runs(seq!['`'] + a + seq!['`'] + b, base, code) == seq![
            Run { text: a, style: code },
            Run { text: b, style: base },
        ],
{
    let s = seq!['`'] + a + seq!['`'] + b;
    let words = words_of(s);
    let n = a.len() as int;
    let none = Seq::<char>::empty();
    let on = Marks { code: true, ..no_marks() };
    assert(s[0] == '`');
    assert(token(s, words, 0, no_marks()) == (1int, on, None::<char>));
    assert(s.subrange(1, 1 + n) =~= a);
    lemma_plain_stretch(s, words, 1, a, on, none, base, code);
    assert(none + a =~= a);
    assert(s[1 + n] == '`');
    assert(token(s, words, 1 + n, on) == (1int, no_marks(), None::<char>));
    assert(s.subrange(2 + n, 2 + n + b.len()) =~= b);
    lemma_plain_stretch(s, words, 2 + n, b, no_marks(), none, base, code);
    assert(none + b =~= b);
    let x = Run { text: a, style: code };
    let y = Run { text: b, style: base };
    assert(inline_from(s, words, 2 + n, no_marks(), none, base, code) == seq![y]);
    assert(inline_from(s, words, 1 + n, on, a, base, code) == seq![x] + seq![y]);
    assert(inline_from(s, words, 0, no_marks(), none, base, code) =~= Seq::<Run>::empty() + (
    seq![x] + seq![y]));
    assert(Seq::<Run>::empty() + (seq![x] + seq![y]) =~= seq![x, y]);
}

// ---------------------------------------------------------------------------
// what lines do
// ---------------------------------------------------------------------------

proof fn lemma_has_rows(line: Seq<char>, in_code: bool, width: int, theme: Theme)
    ensures
        line_rendered(line, in_code, width, theme).len() > 0,
{
}

proof fn lemma_no_fence(line: Seq<char>)
    requires
        !line.contains('`'),
    ensures
        !is_fence(trimmed_end(line)),
{
    reveal_strlit("```");
    let t = trimmed_end(line);
    lemma_trimmed_end(line);
    lemma_trimmed_start(t);
    let u = trimmed_start(t);
    if is_fence(t) {
        assert(u.subrange(0, 3)[0] == '`');
        assert(u[0] == '`');
        let k = t.len() - u.len();
        assert(t.skip(k)[0] == t[k]);
        assert(line.take(t.len() as int)[k] == line[k]);
        assert(line[k] == '`');
    }
}

proof fn lemma_fence(rest: Seq<char>)
    ensures
        is_fence(trimmed_end(seq!['`', '`', '`'] + rest)),
{
    reveal_strlit("```");
    let line = seq!['`', '`', '`'] + rest;
    let t = trimmed_end(line);
    lemma_trimmed_end(line);
    if t.len() < 3 {
        assert(is_space(line[2]));
    }
    assert(t.subrange(0, 3) =~= "```"@) by {
        assert(t[0] == line[0] && t[1] == line[1] && t[2] == line[2]);
    }
    assert(!is_space(t[0]));
}

/// Rendering goes line by line: what is in front of a line only matters for
/// whether a fence is open.
proof fn lemma_rendered_front(
    head: Seq<char>,
    lines: Seq<Seq<char>>,
    n: int,
    width: int,
    theme: Theme,
)
    requires
        0 <= n <= lines.len(),
        !is_fence(trimmed_end(head)),
    ensures
        rendered_lines(seq![head] + lines, n + 1, width, theme).0 == line_rendered(
            trimmed_end(head),
            false,
            width,
            theme,
        ) + rendered_lines(lines, n, width, theme).0,
        rendered_lines(seq![head] + lines, n + 1, width, theme).1 == rendered_lines(
            lines,
            n,
            width,
            theme,
        ).1,
    decreases n,
{
    let all = seq![head] + lines;
    let rows = line_rendered(trimmed_end(head), false, width, theme);
    if n == 0 {
        reveal_with_fuel(rendered_lines, 3);
        assert(all[0] == head);
        assert(Seq::<Seq<Run>>::empty() + rows =~= rows);
        assert(rows + Seq::<Seq<Run>>::empty() =~= rows);
    } else {
        lemma_rendered_front(head, lines, n - 1, width, theme);
        assert(all[n] == lines[n - 1]);
        let (before, in_code) = rendered_lines(lines, n - 1, width, theme);
        let more = line_rendered(trimmed_end(lines[n - 1]), in_code, width, theme);
        assert(rows + before + more =~= rows + (before + more));
    }
}

/// Lines are rendered one below the other, each as it would be alone.
pub proof fn lines_are_rendered_one_by_one(a: Seq<char>, b: Seq<char>, width: int, theme: Theme)
    requires
        !a.contains('\n'),
        !a.contains('`'),
    ensures
        rendered(a + seq!['\n'] + b, width, theme) == rendered(a, width, theme) + rendered(
            b,
            width,
            theme,
        ),
{
    let w = if width < 8 {
        8
    } else {
        width
    };
    pieces_lie_between_separators(a, b, '\n');
    joining_undoes_splitting(b, '\n');
    lemma_no_fence(a);
    let lines = pieces(b, '\n');
    let rows = line_rendered(trimmed_end(a), false, w, theme);
    lemma_rendered_front(a, lines, lines.len() as int, w, theme);
    lemma_has_rows(trimmed_end(a), false, w, theme);
    let n = lines.len() as int;
    let (before, in_code) = rendered_lines(lines, n - 1, w, theme);
    lemma_has_rows(trimmed_end(lines[n - 1]), in_code, w, theme);
    reveal_with_fuel(rendered_lines, 3);
    assert(seq![a][0] == a);
    assert(Seq::<Seq<Run>>::empty() + rows =~= rows);
    assert(rendered_lines(seq![a], 1, w, theme).0 =~= rows);
}

/// Between two fences nothing is markup: every line is shown in the colour of
/// code, set in by two columns, and its rows put together are the line. The
/// fences themselves are rules, and what follows the second is text again.
pub proof fn a_fence_ends_what_it_began(
    lang: Seq<char>,
    line: Seq<char>,
    after: Seq<char>,
    width: int,
    theme: Theme,
)
    requires
        !lang.contains('\n'),
        !line.contains('\n') && !line.contains('`'),
        !after.contains('\n'),
    ensures
        ({
            let w = if width < 8 {
                8
            } else {
                width
            };
            let fence = seq!['`', '`', '`'];
            let nl = seq!['\n'];
            let body = fence + lang + nl + line + nl + fence + nl + after;
            let parts = chunks(trimmed_end(line), w - 2);
            let out = rendered(body, width, theme);
            let rule = seq![
                Run {
                    text: repeated('\u{2500}', (if w < 24 { w } else { 24 }) as nat),
                    style: fg(theme.shows(theme.palette.dim)),
                },
            ];
            &&& glued(parts) == trimmed_end(line)
            &&& out.len() > parts.len() + 2
            &&& out[0] == rule
            &&& forall|i: int|
                0 <= i < parts.len() ==> #[trigger] out[1 + i] == seq![
                    Run { text: "  "@, style: plain() },
                    Run { text: parts[i], style: fg(theme.shows(theme.palette.code)) },
                ]
            &&& out[1 + parts.len() as int] == rule
            &&& !is_fence(trimmed_end(after)) ==> out.skip(2 + parts.len() as int) == rendered(
                after,
                width,
                theme,
            )
        }),
{
    let w = if width < 8 {
        8
    } else {
        width
    };
    let fence = seq!['`', '`', '`'];
    let nl = seq!['\n'];
    let open = fence + lang;
    let tail2 = after;
    let tail1 = fence + nl + after;
    let tail0 = line + nl + tail1;
    let body = fence + lang + nl + line + nl + fence + nl + after;
    assert(body =~= open + nl + tail0);
    assert forall|i: int| 0 <= i < open.len() implies open[i] != '\n' by {
        if i >= 3 {
            assert(lang.contains(lang[i - 3]));
        }
    }
    pieces_lie_between_separators(open, tail0, '\n');
    pieces_lie_between_separators(line, tail1, '\n');
    pieces_lie_between_separators(fence, after, '\n');
    pieces_lie_between_separators(after, Seq::<char>::empty(), '\n');
    let lines = pieces(body, '\n');
    assert(lines =~= seq![open, line, fence, after]);
    lemma_fence(lang);
    lemma_fence(Seq::<char>::empty());
    assert(fence + Seq::<char>::empty() =~= fence);
    lemma_no_fence(line);
    let parts = chunks(trimmed_end(line), w - 2);
    chunks_make_up_the_text(trimmed_end(line), w - 2);
    reveal_with_fuel(rendered_lines, 5);
    let rule = seq![rule_line(w, theme)];
    let code = code_lines(trimmed_end(line), w, theme);
    let last = line_rendered(trimmed_end(after), false, w, theme);
    lemma_has_rows(trimmed_end(after), false, w, theme);
    let none = Seq::<Seq<Run>>::empty();
    assert(lines[0] == open && lines[1] == line && lines[2] == fence && lines[3] == after);
    assert(rendered_lines(lines, 1, w, theme) == (none + rule, true));
    assert(rendered_lines(lines, 2, w, theme) == (none + rule + code, true));
    assert(rendered_lines(lines, 3, w, theme) == (none + rule + code + rule, false));
    let out = rendered(body, width, theme);
    assert(out =~= rule + code + rule + last);
    assert(out.skip(2 + parts.len() as int) =~= last);
    if !is_fence(trimmed_end(after)) {
        assert(seq![after][0] == after);
        assert(rendered_lines(seq![after], 1, w, theme).0 =~= none + last);
        assert(none + last =~= last);
    }
}

/// A quoted line has a bar in front of every row, and behind the bars what is
/// quoted, wrapped to what is left of the width, in italics and in the colour
/// of quotes. The blank behind the mark is not part of it.
pub proof fn quotes_stand_behind_a_bar(t: Seq<char>, width: int, theme: Theme)
    requires
        t.len() > 0,
        !is_space(t.last()),
        !is_space(t[0]),
        !t.contains('\n'),
        !t.contains('`'),
    ensures
        ({
            let w = if width < 8 {
                8
            } else {
                width
            };
            let color = theme.shows(theme.palette.quote);
            let inner = wrapped(
                inline_runs(
                    t,
                    Style { fg: Some(color), italic: Switch::On, ..plain() },
                    fg(theme.shows(theme.palette.code)),
                ),
                w - 2,
            );
            let spaced = rendered(seq!['>', ' '] + t, width, theme);
            &&& spaced == rendered(seq!['>'] + t, width, theme)
            &&& spaced.len() == inner.len()
            &&& forall|i: int|
                0 <= i < inner.len() ==> #[trigger] spaced[i] == seq![
                    Run { text: seq!['\u{2502}', ' '], style: fg(color) },
                ] + inner[i]
        }),
{
    reveal_strlit("\u{2502} ");
    let w = if width < 8 {
        8
    } else {
        width
    };
    let x = seq!['>', ' '] + t;
    let y = seq!['>'] + t;
    assert(x.last() == t.last() && y.last() == t.last());
    assert forall|c: char| !t.contains(c) && c != '>' && c != ' ' implies !#[trigger] x.contains(c)
        && !y.contains(c) by {
        if x.contains(c) {
            let i = choose|i: int| 0 <= i < x.len() && x[i] == c;
            assert(t.contains(t[i - 2]));
        }
        if y.contains(c) {
            let i = choose|i: int| 0 <= i < y.len() && y[i] == c;
            assert(t.contains(t[i - 1]));
        }
    }
    assert(!x.contains('\n') && !x.contains('`'));
    assert(!y.contains('\n') && !y.contains('`'));
    pieces_lie_between_separators(x, t, '\n');
    pieces_lie_between_separators(y, t, '\n');
    lemma_no_fence(x);
    lemma_no_fence(y);
    assert(x.drop_first().drop_first() =~= t);
    assert(y.drop_first() =~= t);
    reveal_with_fuel(rendered_lines, 2);
    assert(seq![x][0] == x && seq![y][0] == y);
    let none = Seq::<Seq<Run>>::empty();
    let a = quote_lines(x, w, theme);
    let b = quote_lines(y, w, theme);
    assert(rendered_lines(seq![x], 1, w, theme).0 =~= none + a);
    assert(rendered_lines(seq![y], 1, w, theme).0 =~= none + b);
    assert(none + a =~= a && none + b =~= b);
    assert(a =~= b);
    assert("\u{2502} "@ =~= seq!['\u{2502}', ' ']);
}

/// A line of plain text is that text in the theme's own colour, wrapped; an
/// empty line is one empty row.
pub proof fn plain_lines_are_shown_as_text(t: Seq<char>, width: int, theme: Theme)
    requires
        t.len() > 0,
        t[0] != '>',
        !is_space(t.last()),
        markless(t),
        !t.contains('\n'),
    ensures
        rendered(t, width, theme) == wrapped(
            seq![Run { text: t, style: fg(theme.shows(theme.palette.fg)) }],
            if width < 8 {
                8
            } else {
                width
            },
        ),
        rendered(Seq::<char>::empty(), width, theme) == seq![Seq::<Run>::empty()],
{
    let w = if width < 8 {
        8
    } else {
        width
    };
    let none = Seq::<char>::empty();
    if t.contains('`') {
        let i = choose|i: int| 0 <= i < t.len() && t[i] == '`';
        assert(t[i] != '`');
    }
    pieces_lie_between_separators(t, none, '\n');
    pieces_lie_between_separators(none, none, '\n');
    lemma_no_fence(t);
    lemma_no_fence(none);
    assert(unmarked(t));
    unmarked_text_survives(t, fg(theme.shows(theme.palette.fg)), code_style(theme));
    reveal_with_fuel(rendered_lines, 2);
    assert(seq![t][0] == t && seq![none][0] == none);
    let a = line_rendered(t, false, w, theme);
    let b = line_rendered(none, false, w, theme);
    let nothing = Seq::<Seq<Run>>::empty();
    assert(rendered_lines(seq![t], 1, w, theme).0 =~= nothing + a);
    assert(rendered_lines(seq![none], 1, w, theme).0 =~= nothing + b);
    assert(nothing + a =~= a && nothing + b =~= b);
}

// ---------------------------------------------------------------------------
// where lines are broken
// ---------------------------------------------------------------------------

/// The columns that pieces of text take up together.
pub open spec fn parts_width(parts: Seq<Seq<char>>) -> int
    decreases parts.len(),
{
    if parts.len() == 0 {
        0
    } else {
        parts_width(parts.drop_last()) + display_width(parts.last())
    }
}

/// The columns that the words and gaps of runs take up together.
pub open spec fn runs_width(runs: Seq<Run>) -> int
    decreases runs.len(),
{
    if runs.len() == 0 {
        0
    } else {
        runs_width(runs.drop_last()) + parts_width(words_and_gaps(runs.last().text))
    }
}

/// Whether a text begins with a word that can be seen.
pub open spec fn opens_with_a_word(text: Seq<char>) -> bool {
    let parts = words_and_gaps(text);
    parts.len() > 0 && trimmed(parts[0]).len() > 0 && display_width(parts[0]) > 0
}

proof fn lemma_put_words_whole(f: Flow, words: Seq<Seq<char>>, style: Style, width: int)
    requires
        f.used >= 0,
        f.used + parts_width(words) <= width,
        f.used > 0 || (words.len() > 0 && trimmed(words[0]).len() > 0 && display_width(words[0])
            > 0),
    ensures
        put_words(f, words, style, width).lines == f.lines,
        put_words(f, words, style, width).used == f.used + parts_width(words),
        words.len() > 0 ==> put_words(f, words, style, width).used > 0,
        text_of(put_words(f, words, style, width).current) == text_of(f.current) + glued(words),
        words.len() > 0 ==> put_words(f, words, style, width).current.len() > 0,
        put_words(f, words, style, width).current.len() >= f.current.len(),
    decreases words.len(),
{
    if words.len() == 0 {
        assert(text_of(f.current) + glued(words) =~= text_of(f.current));
    } else {
        let rest = words.drop_last();
        let word = words.last();
        let g = put_words(f, rest, style, width);
        if rest.len() > 0 || f.used > 0 {
            if rest.len() > 0 {
                assert(rest[0] == words[0]);
            }
            lemma_put_words_whole(f, rest, style, width);
        } else {
            assert(text_of(f.current) + glued(rest) =~= text_of(f.current));
        }
        assert(put_word(g, word, style, width) == put(g, word, style));
        assert(put(g, word, style).current.drop_last() =~= g.current);
        lemma_glued_push(rest, word);
        assert(rest.push(word) =~= words);
        assert(text_of(f.current) + glued(rest) + word =~= text_of(f.current) + (glued(rest)
            + word));
    }
}

proof fn lemma_glued_push(parts: Seq<Seq<char>>, p: Seq<char>)
    ensures
        glued(parts.push(p)) == glued(parts) + p,
    decreases parts.len(),
{
    let all = parts.push(p);
    if parts.len() == 0 {
        assert(all.drop_first() =~= parts);
        assert(glued(parts) =~= Seq::<char>::empty());
        assert(p + Seq::<char>::empty() =~= Seq::<char>::empty() + p);
    } else {
        assert(all.drop_first() =~= parts.drop_first().push(p));
        lemma_glued_push(parts.drop_first(), p);
        assert(parts[0] + (glued(parts.drop_first()) + p) =~= parts[0] + glued(parts.drop_first())
            + p);
    }
}

proof fn lemma_parts_width_positive(parts: Seq<Seq<char>>)
    ensures
        parts_width(parts) >= 0,
    decreases parts.len(),
{
    if parts.len() > 0 {
        lemma_parts_width_positive(parts.drop_last());
    }
}

proof fn lemma_put_runs_whole(runs: Seq<Run>, width: int)
    requires
        runs.len() > 0,
        opens_with_a_word(runs[0].text),
        runs_width(runs) <= width,
    ensures
        put_runs(empty_flow(), runs, width).lines == Seq::<Seq<Run>>::empty(),
        put_runs(empty_flow(), runs, width).used == runs_width(runs),
        put_runs(empty_flow(), runs, width).used > 0,
        put_runs(empty_flow(), runs, width).current.len() > 0,
        text_of(put_runs(empty_flow(), runs, width).current) == text_of(runs),
    decreases runs.len(),
{
    let rest = runs.drop_last();
    let words = words_and_gaps(runs.last().text);
    lemma_parts_width_positive(words);
    words_and_gaps_make_up_the_text(runs.last().text);
    if rest.len() == 0 {
        assert(put_runs(empty_flow(), rest, width) == empty_flow());
        assert(runs_width(rest) == 0);
        lemma_put_words_whole(empty_flow(), words, runs.last().style, width);
        assert(text_of(rest) =~= Seq::<char>::empty());
        assert(Seq::<char>::empty() + runs.last().text =~= runs.last().text);
    } else {
        assert(rest[0] == runs[0]);
        lemma_put_runs_whole(rest, width);
        lemma_put_words_whole(
            put_runs(empty_flow(), rest, width),
            words,
            runs.last().style,
            width,
        );
    }
}

/// Text that fits is not broken: it is one line, with all its blanks.
pub proof fn text_that_fits_stays_on_one_line(runs: Seq<Run>, width: int)
    requires
        width >= 1,
        runs.len() > 0,
        opens_with_a_word(runs[0].text),
        runs_width(runs) <= width,
    ensures
        wrapped(runs, width).len() == 1,
        text_of(wrapped(runs, width)[0]) == text_of(runs),
{
    lemma_put_runs_whole(runs, width);
}

/// Whether the first piece of a line does not fit behind the line before it.
pub open spec fn overflows(line: Seq<Run>, next: Seq<Run>, width: int) -> bool {
    next.len() > 0 && line_width(line) + display_width(next[0].text) > width
}

spec fn flow_full(f: Flow, width: int) -> bool {
    &&& f.used == line_width(f.current)
    &&& f.used >= 0
    &&& forall|i: int, j: int|
        0 <= i && j == i + 1 && j < f.lines.len() ==> overflows(
            #[trigger] f.lines[i],
            #[trigger] f.lines[j],
            width,
        )
    &&& f.lines.len() > 0 ==> overflows(f.lines.last(), f.current, width)
}

proof fn lemma_put_words_full(f: Flow, words: Seq<Seq<char>>, style: Style, width: int)
    requires
        flow_full(f, width),
        forall|k: int| 0 <= k < words.len() ==> display_width(#[trigger] words[k]) <= width,
    ensures
        flow_full(put_words(f, words, style, width), width),
    decreases words.len(),
{
    if words.len() > 0 {
        let rest = words.drop_last();
        let word = words.last();
        assert forall|k: int| 0 <= k < rest.len() implies display_width(#[trigger] rest[k])
            <= width by {
            assert(rest[k] == words[k]);
        }
        lemma_put_words_full(f, rest, style, width);
        let g = put_words(f, rest, style, width);
        let h = put_word(g, word, style, width);
        assert(words[words.len() - 1] == word);
        assert(put(g, word, style).current.drop_last() =~= g.current);
        if h != g && !(g.used + display_width(word) <= width) {
            let b = broken(g);
            assert(g.used > 0);
            assert(h == put(b, word, style));
            assert(h.current =~= seq![Run { text: word, style }]);
            assert(h.current.drop_last() =~= Seq::<Run>::empty());
            assert(line_width(h.current.drop_last()) == 0);
            assert forall|i: int, j: int|
                0 <= i && j == i + 1 && j < h.lines.len() implies overflows(
                #[trigger] h.lines[i],
                #[trigger] h.lines[j],
                width,
            ) by {
                if j < g.lines.len() {
                    assert(overflows(g.lines[i], g.lines[j], width));
                }
            }
        }
    }
}

proof fn lemma_put_runs_full(runs: Seq<Run>, width: int)
    requires
        forall|i: int, k: int|
            0 <= i < runs.len() && 0 <= k < words_and_gaps(runs[i].text).len() ==> display_width(
                #[trigger] words_and_gaps(runs[i].text)[k],
            ) <= width,
    ensures
        flow_full(put_runs(empty_flow(), runs, width), width),
    decreases runs.len(),
{
    if runs.len() > 0 {
        let rest = runs.drop_last();
        assert forall|i: int, k: int|
            0 <= i < rest.len() && 0 <= k < words_and_gaps(rest[i].text).len() implies display_width(
            #[trigger] words_and_gaps(rest[i].text)[k],
        ) <= width by {
            assert(rest[i] == runs[i]);
        }
        lemma_put_runs_full(rest, width);
        let words = words_and_gaps(runs.last().text);
        assert forall|k: int| 0 <= k < words.len() implies display_width(#[trigger] words[k])
            <= width by {
            assert(words_and_gaps(runs[runs.len() - 1].text)[k] == words[k]);
        }
        lemma_put_words_full(
            put_runs(empty_flow(), rest, width),
            words,
            runs.last().style,
            width,
        );
    }
}

/// A line is broken only where the next word would not have fitted on it,
/// where no word is wider than a whole line.
pub proof fn lines_are_broken_only_where_they_must_be(runs: Seq<Run>, width: int, i: int)
    requires
        width >= 1,
        forall|j: int, k: int|
            0 <= j < runs.len() && 0 <= k < words_and_gaps(runs[j].text).len() ==> display_width(
                #[trigger] words_and_gaps(runs[j].text)[k],
            ) <= width,
        0 <= i,
        i + 1 < wrapped(runs, width).len(),
    ensures
        overflows(wrapped(runs, width)[i], wrapped(runs, width)[i + 1], width),
{
    lemma_put_runs_full(runs, width);
    let f = put_runs(empty_flow(), runs, width);
    let lines = wrapped(runs, width);
    if i + 1 < f.lines.len() {
        assert(overflows(f.lines[i], f.lines[i + 1], width));
    }
}

/// A text is cut up only where its next character would not have fitted.
pub proof fn chunks_are_cut_only_where_they_must_be(s: Seq<char>, width: int, k: int)
    requires
        width >= 1,
        0 <= k,
        k + 1 < chunks(s, width).len(),
    ensures
        chunks(s, width)[k + 1].len() > 0,
        chars_width(chunks(s, width)[k]) + char_width(chunks(s, width)[k + 1][0]) > width,
{
    lemma_chunks_full(s, 0, seq![], 0, width, k);
}

proof fn lemma_chunks_full(s: Seq<char>, i: int, buf: Seq<char>, used: int, width: int, k: int)
    requires
        0 <= i <= s.len(),
        used == chars_width(buf),
        0 <= k,
        k + 1 < chunks_from(s, i, buf, used, width).len(),
    ensures
        ({
            let all = chunks_from(s, i, buf, used, width);
            &&& all[k + 1].len() > 0
            &&& chars_width(all[k]) + char_width(all[k + 1][0]) > width
        }),
    decreases s.len() - i,
{
    if i < s.len() {
        let w = char_width(s[i]) as int;
        let fresh = seq![s[i]];
        assert(fresh.drop_last() =~= Seq::<char>::empty());
        assert(chars_width(fresh.drop_last()) == 0);
        if used + w > width && buf.len() > 0 {
            let later = chunks_from(s, i + 1, fresh, w, width);
            lemma_chunks_front(s, i + 1, fresh, w, width);
            if k > 0 {
                lemma_chunks_full(s, i + 1, fresh, w, width, k - 1);
            }
        } else {
            assert(buf.push(s[i]).drop_last() =~= buf);
            lemma_chunks_full(s, i + 1, buf.push(s[i]), used + w, width, k);
        }
    }
}

proof fn lemma_chunks_front(s: Seq<char>, i: int, buf: Seq<char>, used: int, width: int)
    requires
        0 <= i <= s.len(),
        buf.len() > 0,
    ensures
        chunks_from(s, i, buf, used, width).len() > 0,
        chunks_from(s, i, buf, used, width)[0].len() > 0,
        chunks_from(s, i, buf, used, width)[0][0] == buf[0],
    decreases s.len() - i,
{
    if i < s.len() {
        let w = char_width(s[i]) as int;
        if !(used + w > width) {
            lemma_chunks_front(s, i + 1, buf.push(s[i]), used + w, width);
        }
    }
}

/// A word reaches from one gap to the next, and a gap from one word to the
/// next: neither is taken apart. Gaps are made of blanks and tabs.
pub proof fn words_and_gaps_are_whole(a: Seq<char>, rest: Seq<char>)
    requires
        a.len() > 0,
        (forall|i: int| 0 <= i < a.len() ==> (#[trigger] a[i] == ' ' || a[i] == '\t')) || (forall|
            i: int,
        |
            0 <= i < a.len() ==> #[trigger] a[i] != ' ' && a[i] != '\t'),
        rest.len() > 0 ==> ((rest[0] == ' ' || rest[0] == '\t') <==> !(a[0] == ' ' || a[0]
            == '\t')),
    ensures
        words_and_gaps(a + rest) == seq![a] + words_and_gaps(rest),
{
    let s = a + rest;
    let n = a.len() as int;
    assert forall|j: int| 0 <= j < n implies is_gap(#[trigger] s[j]) == is_gap(s[0]) by {
        assert(s[j] == a[j]);
        assert(a[0] == s[0]);
    }
    if rest.len() > 0 {
        assert(s[n] == rest[0]);
    }
    lemma_stretch(s, n);
    assert(s.take(n) =~= a);
    assert(s.skip(n) =~= rest);
}

} // verus!
