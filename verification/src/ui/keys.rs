//! Modal key handling: Normal to move, Insert to talk, Command for verbs.
//!
//! The keymap is deliberately small -- `:help` fits on one screen.
use vstd::prelude::*;

use crate::key::{KeyCode, KeyEvent, KeyModifiers};
use crate::model::{EventKind, KindData, Millis};
use crate::text::{chars_of, is_space, space, string_of, trimmed};
use crate::ui::app::{taken, App, Mode, Overlay, OverlayData, Screen};
use crate::ui::switcher::{clamped, filtered, shown_labels, Switcher, SwitcherData};

verus! {

/// What a key asks for beyond the screen itself.
#[derive(Debug)]
pub enum Action {
    Nothing,
    /// Put this on the log.
    Commit(EventKind),
    /// Run this command line.
    Run(String),
    /// Switch to the conversation with this index.
    Select(usize),
    /// Load older history, and then scroll.
    Older(Follow),
}

/// How to scroll once older history is there.
#[derive(Debug, Clone, Copy, PartialEq, Eq, Structural)]
pub enum Follow {
    Top,
    Up(usize),
}

pub ghost enum ActionData {
    Nothing,
    Commit(KindData),
    Run(Seq<char>),
    Select(usize),
    Older(Follow),
}

impl View for Action {
    type V = ActionData;

    open spec fn view(&self) -> ActionData {
        match *self {
            Action::Nothing => ActionData::Nothing,
            Action::Commit(kind) => ActionData::Commit(kind.deep_view()),
            Action::Run(line) => ActionData::Run(line@),
            Action::Select(index) => ActionData::Select(index),
            Action::Older(follow) => ActionData::Older(follow),
        }
    }
}

// ---------------------------------------------------------------------------
// normal
// ---------------------------------------------------------------------------

/// One less, down to nothing.
pub open spec fn less(a: usize, b: usize) -> usize {
    if a > b {
        (a - b) as usize
    } else {
        0
    }
}

pub open spec fn more(a: usize, b: usize) -> usize {
    if a + b <= usize::MAX {
        (a + b) as usize
    } else {
        usize::MAX
    }
}

/// As many lines as a page moves by.
pub open spec fn page_of(s: Screen) -> usize {
    if s.view_height > 2 {
        (s.view_height - 1) as usize
    } else {
        1
    }
}

/// Scroll back, asking for older history when the view reaches the top of what
/// is in memory.
pub open spec fn scrolled_up(s: Screen, lines: usize) -> (Screen, ActionData) {
    if s.scroll + lines >= less(s.total_lines, s.view_height) {
        (s, ActionData::Older(Follow::Up(lines)))
    } else {
        (Screen { scroll: (s.scroll + lines) as usize, ..s }, ActionData::Nothing)
    }
}

/// The screen once older history was asked for and scrolled to.
pub open spec fn followed(s: Screen, follow: Follow) -> Screen {
    Screen {
        scroll: match follow {
            Follow::Top => usize::MAX,
            Follow::Up(lines) => more(s.scroll, lines),
        },
        ..s
    }
}

/// A key in Normal mode, but for the one that opens the switcher and the
/// second one of `gg`.
pub open spec fn normal_pressed(s: Screen, code: KeyCode) -> (Screen, ActionData) {
    match code {
        KeyCode::Char('i') => (Screen { mode: Mode::Insert, ..s }, ActionData::Nothing),
        KeyCode::Char('a') => (
            Screen { mode: Mode::Insert, cursor: s.input.len() as usize, ..s },
            ActionData::Nothing,
        ),
        KeyCode::Char(':') => (
            Screen { mode: Mode::Command, command: seq![], ..s },
            ActionData::Nothing,
        ),
        KeyCode::Char('g') => (Screen { pending: Some('g'), ..s }, ActionData::Nothing),
        KeyCode::Char('G') => (Screen { scroll: 0, ..s }, ActionData::Nothing),
        KeyCode::Char('j') => (Screen { scroll: less(s.scroll, 1), ..s }, ActionData::Nothing),
        KeyCode::Down => (Screen { scroll: less(s.scroll, 1), ..s }, ActionData::Nothing),
        KeyCode::Char('k') => scrolled_up(s, 1),
        KeyCode::Up => scrolled_up(s, 1),
        KeyCode::PageDown => (
            Screen { scroll: less(s.scroll, page_of(s)), ..s },
            ActionData::Nothing,
        ),
        KeyCode::PageUp => scrolled_up(s, page_of(s)),
        KeyCode::Esc => (Screen { pending: None, scroll: 0, ..s }, ActionData::Nothing),
        _ => (s, ActionData::Nothing),
    }
}

/// Whether `now` is the screen with a switcher opened on it.
pub open spec fn switcher_opened(s: Screen, now: Screen) -> bool {
    &&& now.overlay matches Some(OverlayData::Switcher(state))
    &&& state.query.len() == 0
    &&& state.selected == 0
    &&& filtered(shown_labels(s.convs, s.labels), seq![], state.matches)
    &&& now == Screen { overlay: now.overlay, ..s }
}

fn scroll_up(app: &mut App, lines: usize) -> (r: Action)
    ensures
        (final(app)@, r@) == scrolled_up(old(app)@, lines),
{
    let top = app.total_lines.saturating_sub(app.view_height);
    if lines >= top || app.scroll >= top - lines {
        return Action::Older(Follow::Up(lines));
    }
    app.scroll += lines;
    Action::Nothing
}

/// Scroll, now that older history is there. The renderer keeps the view on the
/// conversation.
pub fn follow(app: &mut App, follow: Follow)
    ensures
        final(app)@ == followed(old(app)@, follow),
{
    match follow {
        Follow::Top => {
            app.scroll = usize::MAX;
        },
        Follow::Up(lines) => {
            app.scroll = app.scroll.saturating_add(lines);
        },
    }
}

fn normal(app: &mut App, key: KeyEvent) -> (r: Action)
    ensures
        ({
            let s = old(app)@;
            let calm = Screen { pending: None, ..s };
            if s.pending == Some('g') && key.code == KeyCode::Char('g') {
                final(app)@ == calm && r@ == ActionData::Older(Follow::Top)
            } else {
                let base = if s.pending == Some('g') {
                    calm
                } else {
                    s
                };
                if key.code == KeyCode::Char('/') {
                    switcher_opened(base, final(app)@) && r@ == ActionData::Nothing
                } else {
                    (final(app)@, r@) == normal_pressed(base, key.code)
                }
            }
        }),
{
    // `gg` is the only two-key sequence in the map.
    if app.pending == Some('g') {
        app.pending = None;
        if key.code == KeyCode::Char('g') {
            // `gg` means the top of what is loaded; fetch more first so it
            // reaches the real beginning rather than the end of the buffer.
            return Action::Older(Follow::Top);
        }
    }
    let page: usize = if app.view_height > 2 {
        app.view_height - 1
    } else {
        1
    };
    match key.code {
        KeyCode::Char('i') => {
            app.mode = Mode::Insert;
        },
        KeyCode::Char('a') => {
            app.mode = Mode::Insert;
            let count = chars_of(app.input.as_str()).len();
            app.cursor = count;
        },
        KeyCode::Char(':') => {
            app.mode = Mode::Command;
            app.command = String::new();
            assert(app.command@ =~= seq![]);
        },
        KeyCode::Char('/') => {
            app.overlay = Some(Overlay::Switcher(Switcher::new(&app.convs, &app.labels)));
        },
        KeyCode::Char('g') => {
            app.pending = Some('g');
        },
        KeyCode::Char('G') => {
            app.scroll = 0;
        },
        KeyCode::Char('j') | KeyCode::Down => {
            app.scroll = app.scroll.saturating_sub(1);
        },
        KeyCode::Char('k') | KeyCode::Up => {
            return scroll_up(app, 1);
        },
        KeyCode::PageDown => {
            app.scroll = app.scroll.saturating_sub(page);
        },
        KeyCode::PageUp => {
            return scroll_up(app, page);
        },
        KeyCode::Esc => {
            app.pending = None;
            app.scroll = 0;
        },
        _ => {},
    }
    Action::Nothing
}

// ---------------------------------------------------------------------------
// insert
// ---------------------------------------------------------------------------

/// Where the caret stands: never behind the end of what is typed.
pub open spec fn caret(s: Screen) -> int {
    if s.cursor <= s.input.len() {
        s.cursor as int
    } else {
        s.input.len() as int
    }
}

pub open spec fn typed_in(s: Screen, c: char) -> Screen {
    Screen { input: s.input.insert(caret(s), c), cursor: more(s.cursor, 1), ..s }
}

/// Where a run of spaces that ends at `at` starts.
pub open spec fn before_spaces(s: Seq<char>, at: int) -> int
    decreases at,
{
    if 0 < at <= s.len() && is_space(s[at - 1]) {
        before_spaces(s, at - 1)
    } else {
        at
    }
}

/// Where a word that ends at `at` starts.
pub open spec fn before_word(s: Seq<char>, at: int) -> int
    decreases at,
{
    if 0 < at <= s.len() && !is_space(s[at - 1]) {
        before_word(s, at - 1)
    } else {
        at
    }
}

/// The word before the caret, and the space behind it, are gone.
pub open spec fn word_deleted(s: Screen) -> Screen {
    let start = before_word(s.input, before_spaces(s.input, caret(s)));
    Screen {
        input: s.input.take(start) + s.input.skip(caret(s)),
        cursor: start as usize,
        ..s
    }
}

pub open spec fn insert_pressed(s: Screen, key: KeyEvent, now: Millis) -> (Screen, ActionData) {
    match key.code {
        KeyCode::Esc => (Screen { mode: Mode::Normal, ..s }, ActionData::Nothing),
        KeyCode::Enter => {
            let (sent, kind) = taken(s, now);
            // Sending drops you back to Normal, so j/k work immediately.
            (
                Screen { mode: Mode::Normal, ..sent },
                match kind {
                    Some(kind) => ActionData::Commit(kind),
                    None => ActionData::Nothing,
                },
            )
        },
        KeyCode::Char(c) => (
            if key.modifiers.control && c == 'u' {
                Screen { input: seq![], cursor: 0, ..s }
            } else if key.modifiers.control && c == 'w' {
                word_deleted(s)
            } else {
                typed_in(s, c)
            },
            ActionData::Nothing,
        ),
        KeyCode::Backspace => (
            if s.cursor == 0 {
                s
            } else if s.cursor <= s.input.len() {
                Screen {
                    input: s.input.remove(s.cursor - 1),
                    cursor: (s.cursor - 1) as usize,
                    ..s
                }
            } else {
                Screen { cursor: (s.cursor - 1) as usize, ..s }
            },
            ActionData::Nothing,
        ),
        KeyCode::Delete => (
            if s.cursor < s.input.len() {
                Screen { input: s.input.remove(s.cursor as int), ..s }
            } else {
                s
            },
            ActionData::Nothing,
        ),
        KeyCode::Left => (Screen { cursor: less(s.cursor, 1), ..s }, ActionData::Nothing),
        KeyCode::Right => (
            Screen {
                cursor: if s.cursor < s.input.len() {
                    (s.cursor + 1) as usize
                } else {
                    s.input.len() as usize
                },
                ..s
            },
            ActionData::Nothing,
        ),
        KeyCode::Home => (Screen { cursor: 0, ..s }, ActionData::Nothing),
        KeyCode::End => (Screen { cursor: s.input.len() as usize, ..s }, ActionData::Nothing),
        _ => (s, ActionData::Nothing),
    }
}

fn delete_word(app: &mut App)
    ensures
        final(app)@ == word_deleted(old(app)@),
{
    let chars = chars_of(app.input.as_str());
    let end: usize = if app.cursor <= chars.len() {
        app.cursor
    } else {
        chars.len()
    };
    let mut at: usize = end;
    while at > 0 && space(chars[at - 1])
        invariant
            at <= end <= chars.len(),
            before_spaces(chars@, at as int) == before_spaces(chars@, end as int),
        decreases at,
    {
        at -= 1;
    }
    let ghost mid = at as int;
    assert(before_spaces(chars@, end as int) == mid);
    while at > 0 && !space(chars[at - 1])
        invariant
            at <= mid <= end <= chars.len(),
            before_word(chars@, at as int) == before_word(chars@, mid),
        decreases at,
    {
        at -= 1;
    }
    let mut kept: Vec<char> = Vec::new();
    let mut i: usize = 0;
    while i < chars.len()
        invariant
            at <= end <= chars.len(),
            i <= chars.len(),
            kept@ == if i <= at {
                chars@.take(i as int)
            } else if i <= end {
                chars@.take(at as int)
            } else {
                chars@.take(at as int) + chars@.subrange(end as int, i as int)
            },
        decreases chars.len() - i,
    {
        if i < at || i >= end {
            kept.push(chars[i]);
        }
        i += 1;
        proof {
            if i <= at {
                assert(kept@ =~= chars@.take(i as int));
            } else if i > end {
                assert(kept@ =~= chars@.take(at as int) + chars@.subrange(end as int, i as int));
            }
        }
    }
    assert(kept@ =~= chars@.take(at as int) + chars@.skip(end as int));
    app.input = string_of(&kept);
    app.cursor = at;
}

fn remove_char(app: &mut App, at: usize)
    requires
        at < old(app)@.input.len(),
    ensures
        final(app)@ == (Screen { input: old(app)@.input.remove(at as int), ..old(app)@ }),
{
    let mut chars = chars_of(app.input.as_str());
    chars.remove(at);
    app.input = string_of(&chars);
}

fn insert(app: &mut App, key: KeyEvent, now: Millis) -> (r: Action)
    ensures
        (final(app)@, r@) == insert_pressed(old(app)@, key, now),
{
    let count = chars_of(app.input.as_str()).len();
    match key.code {
        KeyCode::Esc => {
            app.mode = Mode::Normal;
        },
        KeyCode::Enter => {
            let sent = app.send_message(now);
            app.mode = Mode::Normal;
            if let Some(kind) = sent {
                return Action::Commit(kind);
            }
        },
        KeyCode::Char(c) => {
            if key.modifiers.control && c == 'u' {
                app.input = String::new();
                app.cursor = 0;
                assert(app.input@ =~= seq![]);
            } else if key.modifiers.control && c == 'w' {
                delete_word(app);
            } else {
                let mut chars = chars_of(app.input.as_str());
                let at: usize = if app.cursor <= count {
                    app.cursor
                } else {
                    count
                };
                chars.insert(at, c);
                app.input = string_of(&chars);
                app.cursor = app.cursor.saturating_add(1);
            }
        },
        KeyCode::Backspace => {
            if app.cursor > 0 {
                let at = app.cursor - 1;
                if at < count {
                    remove_char(app, at);
                }
                app.cursor = at;
            }
        },
        KeyCode::Delete => {
            if app.cursor < count {
                let at = app.cursor;
                remove_char(app, at);
            }
        },
        KeyCode::Left => {
            app.cursor = app.cursor.saturating_sub(1);
        },
        KeyCode::Right => {
            app.cursor =
            if app.cursor < count {
                app.cursor + 1
            } else {
                count
            };
        },
        KeyCode::Home => {
            app.cursor = 0;
        },
        KeyCode::End => {
            app.cursor = count;
        },
        _ => {},
    }
    Action::Nothing
}

// ---------------------------------------------------------------------------
// command line
// ---------------------------------------------------------------------------

pub open spec fn command_pressed(s: Screen, code: KeyCode) -> (Screen, ActionData) {
    match code {
        KeyCode::Esc => (
            Screen { mode: Mode::Normal, command: seq![], ..s },
            ActionData::Nothing,
        ),
        KeyCode::Enter => (
            Screen { mode: Mode::Normal, command: seq![], ..s },
            ActionData::Run(s.command),
        ),
        KeyCode::Backspace => (
            if s.command.len() == 0 {
                Screen { mode: Mode::Normal, ..s }
            } else {
                Screen { command: s.command.drop_last(), ..s }
            },
            ActionData::Nothing,
        ),
        KeyCode::Char(c) => (Screen { command: s.command.push(c), ..s }, ActionData::Nothing),
        _ => (s, ActionData::Nothing),
    }
}

fn without_last(text: &str) -> (r: String)
    requires
        text@.len() > 0,
    ensures
        r@ == text@.drop_last(),
{
    let mut chars = chars_of(text);
    chars.pop();
    assert(chars@ =~= text@.drop_last());
    string_of(&chars)
}

fn command_line(app: &mut App, key: KeyEvent) -> (r: Action)
    ensures
        (final(app)@, r@) == command_pressed(old(app)@, key.code),
{
    match key.code {
        KeyCode::Esc => {
            app.mode = Mode::Normal;
            app.command = String::new();
            assert(app.command@ =~= seq![]);
        },
        KeyCode::Enter => {
            let line = app.command.clone();
            app.command = String::new();
            assert(app.command@ =~= seq![]);
            app.mode = Mode::Normal;
            return Action::Run(line);
        },
        KeyCode::Backspace => {
            if app.command.as_str().is_empty() {
                app.mode = Mode::Normal;
            } else {
                app.command = without_last(app.command.as_str());
            }
        },
        KeyCode::Char(c) => {
            app.command.push(c);
        },
        _ => {},
    }
    Action::Nothing
}

// ---------------------------------------------------------------------------
// overlays
// ---------------------------------------------------------------------------

/// Whether `now` is a switcher with this query typed into it.
pub open spec fn requeried(
    before: SwitcherData,
    query: Seq<char>,
    labels: Seq<Seq<char>>,
    now: SwitcherData,
) -> bool {
    &&& now.query == query
    &&& filtered(labels, query, now.matches)
    &&& now.selected == clamped(before.selected, now.matches.len())
}

/// What a key does to the switcher itself: nothing, if it closes it.
pub open spec fn switched(
    before: SwitcherData,
    key: KeyEvent,
    labels: Seq<Seq<char>>,
    now: SwitcherData,
) -> bool {
    let above = SwitcherData { selected: less(before.selected, 1), ..before };
    let below = SwitcherData {
        selected: if before.matches.len() == 0 {
            before.selected
        } else if before.selected < before.matches.len() - 1 {
            (before.selected + 1) as usize
        } else {
            (before.matches.len() - 1) as usize
        },
        ..before
    };
    match key.code {
        KeyCode::Up => now == above,
        KeyCode::Down => now == below,
        KeyCode::Char(c) => if key.modifiers.control && c == 'p' {
            now == above
        } else if key.modifiers.control && c == 'n' {
            now == below
        } else {
            requeried(before, before.query.push(c), labels, now)
        },
        KeyCode::Backspace => requeried(
            before,
            if before.query.len() > 0 {
                before.query.drop_last()
            } else {
                before.query
            },
            labels,
            now,
        ),
        _ => now == before,
    }
}

/// What a key does while an overlay is up.
pub open spec fn overlay_pressed(s: Screen, key: KeyEvent, now: Screen, r: ActionData) -> bool {
    let closed = Screen { overlay: None, ..s };
    match s.overlay {
        Some(OverlayData::Switcher(state)) => match key.code {
            KeyCode::Esc => now == closed && r == ActionData::Nothing,
            KeyCode::Enter => now == closed && r == if state.selected < state.matches.len() {
                ActionData::Select(state.matches[state.selected as int].index)
            } else {
                ActionData::Nothing
            },
            _ => {
                &&& r == ActionData::Nothing
                &&& now.overlay matches Some(OverlayData::Switcher(after))
                &&& switched(state, key, shown_labels(s.convs, s.labels), after)
                &&& now == Screen { overlay: now.overlay, ..s }
            },
        },
        Some(_) => r == ActionData::Nothing && now == if key.code == KeyCode::Esc || key.code
            == KeyCode::Enter || key.code == KeyCode::Char('q') {
            closed
        } else {
            s
        },
        None => r == ActionData::Nothing && now == s,
    }
}

fn overlay(app: &mut App, key: KeyEvent) -> (r: Action)
    ensures
        overlay_pressed(old(app)@, key, final(app)@, r@),
{
    let mut top: Option<Overlay> = None;
    std::mem::swap(&mut top, &mut app.overlay);
    match top {
        Some(Overlay::Switcher(state)) => {
            let mut state = state;
            match key.code {
                KeyCode::Esc => {
                    return Action::Nothing;
                },
                KeyCode::Enter => {
                    return match state.selection() {
                        Some(index) => Action::Select(index),
                        None => Action::Nothing,
                    };
                },
                KeyCode::Up => {
                    state.up();
                },
                KeyCode::Down => {
                    state.down();
                },
                KeyCode::Char(c) => {
                    if key.modifiers.control && c == 'p' {
                        state.up();
                    } else if key.modifiers.control && c == 'n' {
                        state.down();
                    } else {
                        state.query.push(c);
                        state.refilter(&app.convs, &app.labels);
                    }
                },
                KeyCode::Backspace => {
                    if !state.query.as_str().is_empty() {
                        state.query = without_last(state.query.as_str());
                    }
                    state.refilter(&app.convs, &app.labels);
                },
                _ => {},
            }
            app.overlay = Some(Overlay::Switcher(state));
            Action::Nothing
        },
        Some(other) => {
            if !(key.code == KeyCode::Esc || key.code == KeyCode::Enter || key.code
                == KeyCode::Char('q')) {
                app.overlay = Some(other);
            }
            Action::Nothing
        },
        None => Action::Nothing,
    }
}

/// What a key does, as of the time `now`.
pub open spec fn key_handled(s: Screen, key: KeyEvent, at: Millis, now: Screen, r: ActionData) -> bool {
    let calm = Screen { status: None, ..s };
    // Always available, in every mode, so the session can never be trapped.
    if key.code == KeyCode::Char('c') && key.modifiers.control {
        now == Screen { quit: true, ..s } && r == ActionData::Nothing
    } else if s.overlay is Some {
        overlay_pressed(calm, key, now, r)
    } else {
        match s.mode {
            Mode::Normal => {
                let base = if s.pending == Some('g') {
                    Screen { pending: None, ..calm }
                } else {
                    calm
                };
                if s.pending == Some('g') && key.code == KeyCode::Char('g') {
                    now == base && r == ActionData::Older(Follow::Top)
                } else if key.code == KeyCode::Char('/') {
                    switcher_opened(base, now) && r == ActionData::Nothing
                } else {
                    (now, r) == normal_pressed(base, key.code)
                }
            },
            Mode::Insert => (now, r) == insert_pressed(calm, key, at),
            Mode::Command => (now, r) == command_pressed(calm, key.code),
        }
    }
}

/// Take in a key press, as of the time `at`.
pub fn handle(app: &mut App, key: KeyEvent, at: Millis) -> (r: Action)
    ensures
        key_handled(old(app)@, key, at, final(app)@, r@),
{
    if key.code == KeyCode::Char('c') && key.modifiers.control {
        app.quit();
        return Action::Nothing;
    }
    app.status = None;
    if app.overlay.is_some() {
        return overlay(app, key);
    }
    match app.mode {
        Mode::Normal => normal(app, key),
        Mode::Insert => insert(app, key, at),
        Mode::Command => command_line(app, key),
    }
}

/// Ctrl-c ends a session, whatever state it is in.
pub proof fn a_session_can_always_be_left(
    s: Screen,
    key: KeyEvent,
    at: Millis,
    now: Screen,
    r: ActionData,
)
    requires
        key_handled(s, key, at, now, r),
        key.code == KeyCode::Char('c'),
        key.modifiers.control,
    ensures
        now.quit,
{
}

/// The caret never leaves the text that is typed.
pub proof fn the_caret_stays_in_the_input(
    s: Screen,
    key: KeyEvent,
    at: Millis,
    now: Screen,
    r: ActionData,
)
    requires
        key_handled(s, key, at, now, r),
        s.cursor <= s.input.len() < usize::MAX,
    ensures
        now.cursor <= now.input.len(),
{
    if s.overlay is None && s.mode == Mode::Insert {
        lemma_before_bounds(s.input, caret(s));
    }
}

proof fn lemma_before_bounds(s: Seq<char>, at: int)
    requires
        0 <= at <= s.len(),
    ensures
        0 <= before_spaces(s, at) <= at,
        0 <= before_word(s, before_spaces(s, at)) <= before_spaces(s, at),
    decreases at,
{
    lemma_before_spaces_bounds(s, at);
    lemma_before_word_bounds(s, before_spaces(s, at));
}

proof fn lemma_before_spaces_bounds(s: Seq<char>, at: int)
    requires
        0 <= at <= s.len(),
    ensures
        0 <= before_spaces(s, at) <= at,
    decreases at,
{
    if at > 0 && is_space(s[at - 1]) {
        lemma_before_spaces_bounds(s, at - 1);
    }
}

proof fn lemma_before_word_bounds(s: Seq<char>, at: int)
    requires
        0 <= at <= s.len(),
    ensures
        0 <= before_word(s, at) <= at,
    decreases at,
{
    if at > 0 && !is_space(s[at - 1]) {
        lemma_before_word_bounds(s, at - 1);
    }
}

/// What was typed and then deleted leaves the input as it was.
pub proof fn backspace_undoes_typing(s: Screen, c: char, at: Millis)
    requires
        s.cursor <= s.input.len(),
        s.cursor < usize::MAX,
    ensures
        ({
            let key = KeyEvent {
                code: KeyCode::Backspace,
                modifiers: crate::key::unmodified(),
            };
            insert_pressed(typed_in(s, c), key, at).0 == s
        }),
{
    let t = typed_in(s, c);
    assert(t.input.remove(t.cursor - 1) =~= s.input);
}

// ---------------------------------------------------------------------------
// what each key does
// ---------------------------------------------------------------------------

/// Whether a key is ctrl-c.
pub open spec fn leaves(key: KeyEvent) -> bool {
    key.code == KeyCode::Char('c') && key.modifiers.control
}

/// No key changes what is shown of the board, and none but ctrl-c ends the
/// session.
pub proof fn keys_leave_the_board_alone(
    s: Screen,
    key: KeyEvent,
    at: Millis,
    now: Screen,
    r: ActionData,
)
    requires
        key_handled(s, key, at, now, r),
    ensures
        now.convs == s.convs && now.labels == s.labels && now.messages == s.messages && now.members
            == s.members && now.users == s.users && now.me == s.me && now.active == s.active,
        !leaves(key) ==> now.quit == s.quit,
        r is Commit ==> s.mode == Mode::Insert && key.code == KeyCode::Enter,
        r is Run ==> s.mode == Mode::Command && key.code == KeyCode::Enter,
{
}

/// The keys that change the mode: `i` and `a` begin to type, the latter at the
/// end, `:` begins an empty command, and Esc goes back.
pub proof fn modes_are_changed_by_their_keys(
    s: Screen,
    key: KeyEvent,
    at: Millis,
    now: Screen,
    r: ActionData,
)
    requires
        key_handled(s, key, at, now, r),
        s.overlay is None,
        !leaves(key),
        s.pending != Some('g'),
        s.input.len() <= usize::MAX,
    ensures
        s.mode == Mode::Normal && key.code == KeyCode::Char('i') ==> now.mode == Mode::Insert
            && now.input == s.input && now.cursor == s.cursor,
        s.mode == Mode::Normal && key.code == KeyCode::Char('a') ==> now.mode == Mode::Insert
            && now.input == s.input && now.cursor == s.input.len(),
        s.mode == Mode::Normal && key.code == KeyCode::Char(':') ==> now.mode == Mode::Command
            && now.command.len() == 0,
        s.mode == Mode::Normal && now.mode != Mode::Normal ==> key.code == KeyCode::Char('i')
            || key.code == KeyCode::Char('a') || key.code == KeyCode::Char(':'),
        s.mode == Mode::Insert && key.code == KeyCode::Esc ==> now.mode == Mode::Normal && now.input
            == s.input,
        s.mode == Mode::Insert ==> now.mode != Mode::Command && (now.mode == Mode::Normal
            <==> key.code == KeyCode::Esc || key.code == KeyCode::Enter),
        s.mode == Mode::Command && key.code == KeyCode::Esc ==> now.mode == Mode::Normal
            && now.command.len() == 0 && r == ActionData::Nothing,
        s.mode == Mode::Command ==> now.mode != Mode::Insert,
{
}

/// In Normal mode `j` and Down go one line towards the newest message and not
/// beyond it, `G` and Esc go all the way, and PageDown goes a page.
pub proof fn down_goes_towards_the_newest(
    s: Screen,
    key: KeyEvent,
    at: Millis,
    now: Screen,
    r: ActionData,
)
    requires
        key_handled(s, key, at, now, r),
        s.overlay is None,
        s.mode == Mode::Normal,
        s.pending != Some('g'),
    ensures
        key.code == KeyCode::Char('j') || key.code == KeyCode::Down ==> r == ActionData::Nothing && (
        s.scroll > 0 ==> now.scroll == s.scroll - 1) && (s.scroll == 0 ==> now.scroll == 0),
        key.code == KeyCode::Char('G') || key.code == KeyCode::Esc ==> now.scroll == 0 && r
            == ActionData::Nothing,
        key.code == KeyCode::PageDown && s.view_height > 2 ==> r == ActionData::Nothing && (
        s.scroll >= s.view_height - 1 ==> now.scroll == s.scroll - (s.view_height - 1)) && (s.scroll
            < s.view_height - 1 ==> now.scroll == 0),
{
}

/// In Normal mode `k` and Up go one line back, and PageUp a page; where that
/// reaches the oldest line in memory, older history is asked for instead, to
/// go on by as much. `gg` asks for it to go to the very top.
pub proof fn up_goes_towards_the_oldest(
    s: Screen,
    key: KeyEvent,
    at: Millis,
    now: Screen,
    r: ActionData,
)
    requires
        key_handled(s, key, at, now, r),
        s.overlay is None,
        s.mode == Mode::Normal,
        s.view_height <= s.total_lines,
    ensures
        s.pending != Some('g') && (key.code == KeyCode::Char('k') || key.code == KeyCode::Up) ==> if s.scroll
            + 1 < s.total_lines - s.view_height {
            now.scroll == s.scroll + 1 && r == ActionData::Nothing
        } else {
            now.scroll == s.scroll && r == ActionData::Older(Follow::Up(1))
        },
        s.pending != Some('g') && key.code == KeyCode::PageUp && s.view_height > 2 ==> if s.scroll + (
        s.view_height - 1) < s.total_lines - s.view_height {
            now.scroll == s.scroll + (s.view_height - 1) && r == ActionData::Nothing
        } else {
            r == ActionData::Older(Follow::Up((s.view_height - 1) as usize))
        },
        s.pending == Some('g') && key.code == KeyCode::Char('g') ==> r == ActionData::Older(
            Follow::Top,
        ) && now.pending is None,
        s.pending != Some('g') && key.code == KeyCode::Char('g') ==> now.pending == Some('g') && r
            == ActionData::Nothing,
        s.pending == Some('g') && !leaves(key) && key.code != KeyCode::Char('g') ==> now.pending
            is None,
{
}

/// Once older history is there, the view goes on by as many lines as were asked
/// for, or to the top.
pub proof fn history_is_followed(s: Screen, lines: usize)
    ensures
        s.scroll + lines <= usize::MAX ==> followed(s, Follow::Up(lines)).scroll == s.scroll + lines,
        followed(s, Follow::Up(lines)).scroll >= s.scroll,
        followed(s, Follow::Top).scroll == usize::MAX,
        followed(s, Follow::Top).messages == s.messages && followed(s, Follow::Up(lines)).input
            == s.input,
{
}

/// Going up a line and down again ends where it began, if there was room to go
/// up.
pub proof fn down_undoes_up(
    s: Screen,
    up: KeyEvent,
    down: KeyEvent,
    at: Millis,
    mid: Screen,
    now: Screen,
    r1: ActionData,
    r2: ActionData,
)
    requires
        s.overlay is None,
        s.mode == Mode::Normal,
        s.pending is None,
        up.code == KeyCode::Up && down.code == KeyCode::Down || up.code == KeyCode::Char('k')
            && down.code == KeyCode::Char('j') || up.code == KeyCode::PageUp && down.code
            == KeyCode::PageDown,
        key_handled(s, up, at, mid, r1),
        r1 == ActionData::Nothing,
        key_handled(mid, down, at, now, r2),
    ensures
        now == (Screen { status: None, ..s }),
{
}

/// What is typed goes in at the caret, between what stands before it and what
/// stands behind it, and the caret goes behind it.
pub proof fn typing_goes_in_at_the_caret(
    s: Screen,
    c: char,
    modifiers: KeyModifiers,
    at: Millis,
    now: Screen,
    r: ActionData,
)
    requires
        s.overlay is None,
        s.mode == Mode::Insert,
        !modifiers.control,
        s.cursor <= s.input.len() < usize::MAX,
        key_handled(s, KeyEvent { code: KeyCode::Char(c), modifiers }, at, now, r),
    ensures
        now.input == s.input.take(s.cursor as int) + seq![c] + s.input.skip(s.cursor as int),
        now.cursor == s.cursor + 1,
        r == ActionData::Nothing,
{
    let i = s.cursor as int;
    assert(s.input.insert(i, c) =~= s.input.take(i) + seq![c] + s.input.skip(i));
}

/// Backspace takes away what stands before the caret, Delete what stands
/// behind it; where there is nothing, they do nothing.
pub proof fn deleting_takes_what_is_next_to_the_caret(
    s: Screen,
    key: KeyEvent,
    at: Millis,
    now: Screen,
    r: ActionData,
)
    requires
        s.overlay is None,
        s.mode == Mode::Insert,
        s.cursor <= s.input.len(),
        key_handled(s, key, at, now, r),
    ensures
        key.code == KeyCode::Backspace && s.cursor > 0 ==> now.input == s.input.take(s.cursor - 1)
            + s.input.skip(s.cursor as int) && now.cursor == s.cursor - 1,
        key.code == KeyCode::Backspace && s.cursor == 0 ==> now.input == s.input && now.cursor == 0,
        key.code == KeyCode::Delete && s.cursor < s.input.len() ==> now.input == s.input.take(
            s.cursor as int,
        ) + s.input.skip(s.cursor + 1) && now.cursor == s.cursor,
        key.code == KeyCode::Delete && s.cursor == s.input.len() ==> now.input == s.input,
{
    let i = s.cursor as int;
    if s.cursor > 0 {
        assert(s.input.remove(i - 1) =~= s.input.take(i - 1) + s.input.skip(i));
    }
    if i < s.input.len() {
        assert(s.input.remove(i) =~= s.input.take(i) + s.input.skip(i + 1));
    }
}

/// The caret is moved by one, to the beginning or to the end, and what is typed
/// stays as it is.
pub proof fn the_caret_is_moved(s: Screen, key: KeyEvent, at: Millis, now: Screen, r: ActionData)
    requires
        s.overlay is None,
        s.mode == Mode::Insert,
        s.cursor <= s.input.len() <= usize::MAX,
        key_handled(s, key, at, now, r),
        key.code == KeyCode::Left || key.code == KeyCode::Right || key.code == KeyCode::Home
            || key.code == KeyCode::End,
    ensures
        now.input == s.input && r == ActionData::Nothing && now.mode == Mode::Insert,
        key.code == KeyCode::Left ==> now.cursor == if s.cursor > 0 {
            s.cursor - 1
        } else {
            0
        },
        key.code == KeyCode::Right ==> now.cursor == if s.cursor < s.input.len() {
            s.cursor + 1
        } else {
            s.cursor as int
        },
        key.code == KeyCode::Home ==> now.cursor == 0,
        key.code == KeyCode::End ==> now.cursor == s.input.len(),
{
}

proof fn lemma_before_spaces_at(s: Seq<char>, from: int, at: int)
    requires
        0 <= from <= at <= s.len(),
        forall|i: int| from <= i < at ==> is_space(#[trigger] s[i]),
        from == 0 || !is_space(s[from - 1]),
    ensures
        before_spaces(s, at) == from,
    decreases at - from,
{
    if from < at {
        assert(is_space(s[at - 1]));
        lemma_before_spaces_at(s, from, at - 1);
    }
}

proof fn lemma_before_word_at(s: Seq<char>, from: int, at: int)
    requires
        0 <= from <= at <= s.len(),
        forall|i: int| from <= i < at ==> !is_space(#[trigger] s[i]),
        from == 0 || is_space(s[from - 1]),
    ensures
        before_word(s, at) == from,
    decreases at - from,
{
    if from < at {
        assert(!is_space(s[at - 1]));
        lemma_before_word_at(s, from, at - 1);
    }
}

/// Ctrl-w takes the word before the caret away, with the blanks behind it, and
/// nothing that stands before the word or behind the caret; ctrl-u takes
/// everything.
pub proof fn a_word_is_taken_away_whole(
    s: Screen,
    front: Seq<char>,
    word: Seq<char>,
    gap: Seq<char>,
    tail: Seq<char>,
    at: Millis,
    now: Screen,
    r: ActionData,
)
    requires
        s.overlay is None,
        s.mode == Mode::Insert,
        s.input == front + word + gap + tail,
        s.cursor == (front + word + gap).len(),
        word.len() > 0,
        forall|i: int| 0 <= i < word.len() ==> !is_space(#[trigger] word[i]),
        forall|i: int| 0 <= i < gap.len() ==> is_space(#[trigger] gap[i]),
        front.len() == 0 || is_space(front.last()),
    ensures
        key_handled(
            s,
            (KeyEvent {
                code: KeyCode::Char('w'),
                modifiers: KeyModifiers { shift: false, control: true, alt: false },
            }),
            at,
            now,
            r,
        ) ==> now.input == front + tail && now.cursor == front.len(),
        key_handled(
            s,
            (KeyEvent {
                code: KeyCode::Char('u'),
                modifiers: KeyModifiers { shift: false, control: true, alt: false },
            }),
            at,
            now,
            r,
        ) ==> now.input.len() == 0 && now.cursor == 0,
{
    let a = front.len() as int;
    let b = a + word.len();
    let c = b + gap.len();
    assert forall|i: int| b <= i < c implies is_space(#[trigger] s.input[i]) by {
        assert(s.input[i] == gap[i - b]);
    }
    assert(s.input[b - 1] == word[word.len() - 1]);
    lemma_before_spaces_at(s.input, b, c);
    assert forall|i: int| a <= i < b implies !is_space(#[trigger] s.input[i]) by {
        assert(s.input[i] == word[i - a]);
    }
    if a > 0 {
        assert(s.input[a - 1] == front.last());
    }
    lemma_before_word_at(s.input, a, b);
    assert(s.input.take(a) + s.input.skip(c) =~= front + tail);
}

/// Enter sends what is typed, without the blanks around it, and goes back to
/// Normal mode with the line empty.
pub proof fn enter_sends(s: Screen, key: KeyEvent, at: Millis, now: Screen, r: ActionData)
    requires
        s.overlay is None,
        s.mode == Mode::Insert,
        key.code == KeyCode::Enter,
        key_handled(s, key, at, now, r),
    ensures
        now.mode == Mode::Normal && now.input.len() == 0 && now.cursor == 0,
        trimmed(s.input).len() > 0 && s.active < s.convs.len() ==> r == ActionData::Commit(
            KindData::MessageSent {
                conv: s.convs[s.active as int].id,
                author: s.me,
                body: trimmed(s.input),
            },
        ),
        trimmed(s.input).len() == 0 ==> r == ActionData::Nothing,
{
}

/// A command is made of what is typed, letter by letter; Backspace takes the
/// last one away, or leaves the mode where there is none; Enter has it run.
pub proof fn commands_are_typed_and_run(
    s: Screen,
    key: KeyEvent,
    at: Millis,
    now: Screen,
    r: ActionData,
)
    requires
        s.overlay is None,
        s.mode == Mode::Command,
        !leaves(key),
        key_handled(s, key, at, now, r),
    ensures
        key.code matches KeyCode::Char(c) ==> now.command == s.command.push(c) && now.mode
            == Mode::Command,
        key.code == KeyCode::Backspace && s.command.len() > 0 ==> now.command
            == s.command.drop_last() && now.mode == Mode::Command,
        key.code == KeyCode::Backspace && s.command.len() == 0 ==> now.mode == Mode::Normal,
        key.code == KeyCode::Enter ==> r == ActionData::Run(s.command) && now.mode == Mode::Normal
            && now.command.len() == 0,
        key.code != KeyCode::Enter ==> r == ActionData::Nothing,
        now.input == s.input && now.scroll == s.scroll,
{
}

/// Esc closes whatever is on top; Enter in the switcher goes to the
/// conversation that is highlighted; a list or a profile is closed by Enter and
/// `q` too, and by no other key.
pub proof fn overlays_are_closed(s: Screen, key: KeyEvent, at: Millis, now: Screen, r: ActionData)
    requires
        s.overlay is Some,
        !leaves(key),
        key_handled(s, key, at, now, r),
    ensures
        key.code == KeyCode::Esc ==> now.overlay is None && r == ActionData::Nothing,
        s.overlay matches Some(OverlayData::Switcher(state)) ==> {
            &&& now.overlay is None <==> key.code == KeyCode::Esc || key.code == KeyCode::Enter
            &&& key.code == KeyCode::Enter && state.selected < state.matches.len() ==> r
                == ActionData::Select(state.matches[state.selected as int].index)
            &&& key.code == KeyCode::Enter && state.selected >= state.matches.len() ==> r
                == ActionData::Nothing
            &&& key.code != KeyCode::Enter ==> r == ActionData::Nothing
        },
        !(s.overlay->Some_0 is Switcher) ==> (now.overlay is None <==> key.code == KeyCode::Esc
            || key.code == KeyCode::Enter || key.code == KeyCode::Char('q')) && r
            == ActionData::Nothing,
        now.input == s.input && now.mode == s.mode && now.scroll == s.scroll && now.command
            == s.command,
{
}

/// In the switcher, letters make up the query, Backspace takes the last one
/// away, and Up and Down, or ctrl-p and ctrl-n, move through what it lists
/// without leaving it.
pub proof fn the_switcher_is_moved_through(
    s: Screen,
    state: SwitcherData,
    key: KeyEvent,
    at: Millis,
    now: Screen,
    r: ActionData,
)
    requires
        s.overlay == Some(OverlayData::Switcher(state)),
        state.matches.len() <= usize::MAX,
        !leaves(key),
        key.code != KeyCode::Esc && key.code != KeyCode::Enter,
        key_handled(s, key, at, now, r),
    ensures
        now.overlay is Some && now.overlay->Some_0 is Switcher,
        ({
            let after = now.overlay->Some_0->Switcher_0;
            let up = key.code == KeyCode::Up || key.code == KeyCode::Char('p')
                && key.modifiers.control;
            let down = key.code == KeyCode::Down || key.code == KeyCode::Char('n')
                && key.modifiers.control;
            &&& up ==> after.query == state.query && after.matches == state.matches && (
            state.selected > 0 ==> after.selected == state.selected - 1) && (state.selected == 0
                ==> after.selected == 0)
            &&& down ==> after.query == state.query && after.matches == state.matches && (
            state.selected + 1 < state.matches.len() ==> after.selected == state.selected + 1) && (
            state.selected + 1 == state.matches.len() ==> after.selected == state.selected)
            &&& !up && !down && key.code is Char ==> after.query == state.query.push(
                key.code->Char_0,
            )
            &&& key.code == KeyCode::Backspace && state.query.len() > 0 ==> after.query
                == state.query.drop_last()
            &&& key.code == KeyCode::Backspace && state.query.len() == 0 ==> after.query
                == state.query
            &&& !up && !down && (key.code is Char || key.code == KeyCode::Backspace) ==> filtered(
                shown_labels(s.convs, s.labels),
                after.query,
                after.matches,
            )
        }),
{
}

/// `/` opens the switcher with nothing typed and the first entry highlighted.
pub proof fn slash_opens_the_switcher(
    s: Screen,
    key: KeyEvent,
    at: Millis,
    now: Screen,
    r: ActionData,
)
    requires
        s.overlay is None,
        s.mode == Mode::Normal,
        key.code == KeyCode::Char('/'),
        key_handled(s, key, at, now, r),
    ensures
        now.overlay matches Some(OverlayData::Switcher(state)) && state.query.len() == 0
            && state.selected == 0 && filtered(
            shown_labels(s.convs, s.labels),
            Seq::empty(),
            state.matches,
        ),
        now.mode == Mode::Normal && now.input == s.input && r == ActionData::Nothing,
{
}

} // verus!
