//! Turning an ssh byte stream into the key events the UI already speaks.
//!
//! The set of keys the BBS binds is small and fully known, so this covers
//! exactly that and ignores anything it does not recognise rather than
//! guessing.
use vstd::prelude::*;
use vstd::utf8::{
    decode_utf8, encode_scalar, encode_utf8, encode_utf8_decode_utf8, encode_utf8_first_scalar,
    encode_utf8_valid_utf8, is_ascii_chars, is_ascii_chars_encode_utf8, utf8_byte_ranges_bitwise,
    valid_utf8,
};

use crate::key::{
    control_key, plain_key, unmodified, KeyCode, KeyEvent, KeyModifiers,
};
use crate::number::{all_digits, digits_value, parse_unsigned, unsigned_value};
use crate::text::{chars_of, utf8_text};

verus! {

/// What the bytes at the front of a buffer come to.
#[derive(Debug, Clone, Copy, PartialEq, Eq, Structural)]
pub enum Step {
    Key(KeyEvent, usize),
    Skip(usize),
    Incomplete,
}

/// Whether Unicode counts a character as uppercase.
pub uninterp spec fn uppercase(c: char) -> bool;

/// [`char::is_uppercase`], which depends on the character alone.
#[verifier::external_body]
fn is_uppercase(c: char) -> (r: bool)
    ensures
        r == uppercase(c),
{
    c.is_uppercase()
}

// ---------------------------------------------------------------------------
// characters
// ---------------------------------------------------------------------------

/// How many bytes a character takes that starts with this one; zero if none
/// does.
pub open spec fn char_bytes(first: u8) -> usize {
    if first <= 0x7f {
        1
    } else if 0xc0 <= first <= 0xdf {
        2
    } else if 0xe0 <= first <= 0xef {
        3
    } else if 0xf0 <= first <= 0xf7 {
        4
    } else {
        0
    }
}

/// A typed character. An uppercase letter arrives as itself, with the shift
/// that produced it.
pub open spec fn typed(c: char) -> KeyEvent {
    typed_key(c, uppercase(c))
}

pub open spec fn typed_key(c: char, capital: bool) -> KeyEvent {
    KeyEvent {
        code: KeyCode::Char(c),
        modifiers: KeyModifiers { shift: capital, control: false, alt: false },
    }
}

/// The key for a character that is a capital letter, or is not.
pub fn key_for(c: char, capital: bool) -> (r: KeyEvent)
    ensures
        r == typed_key(c, capital),
{
    KeyEvent::new(
        KeyCode::Char(c),
        KeyModifiers { shift: capital, control: false, alt: false },
    )
}

/// One UTF-8 character, however many bytes that takes.
pub open spec fn char_step(buf: Seq<u8>) -> Step {
    let width = char_bytes(buf[0]);
    let head = buf.take(width as int);
    if width == 0 {
        // A stray continuation byte: drop it rather than stall the stream.
        Step::Skip(1)
    } else if buf.len() < width {
        Step::Incomplete
    } else if !valid_utf8(head) {
        Step::Skip(1)
    } else if decode_utf8(head).len() == 0 {
        Step::Skip(width)
    } else {
        Step::Key(typed(decode_utf8(head)[0]), width)
    }
}

fn copy_bytes(buf: &Vec<u8>, from: usize, to: usize) -> (r: Vec<u8>)
    requires
        from <= to <= buf.len(),
    ensures
        r@ == buf@.subrange(from as int, to as int),
{
    let mut out: Vec<u8> = Vec::new();
    let mut i: usize = from;
    while i < to
        invariant
            from <= i <= to <= buf.len(),
            out@ == buf@.subrange(from as int, i as int),
        decreases to - i,
    {
        out.push(buf[i]);
        i += 1;
        assert(out@ =~= buf@.subrange(from as int, i as int));
    }
    out
}

fn decode_char(buf: &Vec<u8>, at: usize) -> (r: Step)
    requires
        at < buf.len(),
    ensures
        r == char_step(buf@.skip(at as int)),
{
    let ghost rest = buf@.skip(at as int);
    let first = buf[at];
    let width: usize = if first <= 0x7f {
        1
    } else if first >= 0xc0 && first <= 0xdf {
        2
    } else if first >= 0xe0 && first <= 0xef {
        3
    } else if first >= 0xf0 && first <= 0xf7 {
        4
    } else {
        return Step::Skip(1);
    };
    if buf.len() - at < width {
        return Step::Incomplete;
    }
    let head = copy_bytes(buf, at, at + width);
    assert(head@ == rest.take(width as int));
    match utf8_text(head) {
        Some(text) => {
            let chars = chars_of(text.as_str());
            if chars.len() == 0 {
                return Step::Skip(width);
            }
            let c = chars[0];
            Step::Key(key_for(c, is_uppercase(c)), width)
        },
        None => Step::Skip(1),
    }
}

// ---------------------------------------------------------------------------
// escape sequences
// ---------------------------------------------------------------------------

/// Where a control sequence ends, from position `i` on: at its final byte, or
/// at the end of the buffer if that has not arrived.
pub open spec fn final_at(buf: Seq<u8>, i: int) -> int
    decreases buf.len() - i,
{
    if i < 0 || i >= buf.len() || 0x40 <= buf[i] <= 0x7e {
        i
    } else {
        final_at(buf, i + 1)
    }
}

/// The number that a parameter is, if it is one and small enough.
pub open spec fn number(bytes: Seq<u8>) -> Option<nat> {
    if valid_utf8(bytes) {
        unsigned_value(decode_utf8(bytes), 255)
    } else {
        None
    }
}

/// Where the parameter that starts at `i` ends.
pub open spec fn parameter_end(bytes: Seq<u8>, i: int) -> int
    decreases bytes.len() - i,
{
    if i < 0 || i >= bytes.len() || bytes[i] == 0x3b {
        i
    } else {
        parameter_end(bytes, i + 1)
    }
}

/// The first of the parameters between semicolons.
pub open spec fn first_parameter(params: Seq<u8>) -> Seq<u8> {
    params.take(parameter_end(params, 0))
}

/// The second one; empty if there is none.
pub open spec fn second_parameter(params: Seq<u8>) -> Seq<u8> {
    let start = parameter_end(params, 0) + 1;
    if start <= params.len() {
        params.subrange(start, parameter_end(params, start))
    } else {
        seq![]
    }
}

/// xterm encodes modifiers as a bitmask offset by one.
pub open spec fn modifiers_of(param: Option<nat>) -> KeyModifiers {
    match param {
        Some(n) if n > 0 => {
            let bits = (n - 1) as nat;
            KeyModifiers {
                shift: bits % 2 == 1,
                alt: (bits / 2) % 2 == 1,
                control: (bits / 4) % 2 == 1,
            }
        },
        _ => unmodified(),
    }
}

/// The key that a letter at the end of a sequence stands for.
pub open spec fn letter_key(b: u8) -> Option<KeyCode> {
    if b == 0x41 {
        Some(KeyCode::Up)
    } else if b == 0x42 {
        Some(KeyCode::Down)
    } else if b == 0x43 {
        Some(KeyCode::Right)
    } else if b == 0x44 {
        Some(KeyCode::Left)
    } else if b == 0x48 {
        Some(KeyCode::Home)
    } else if b == 0x46 {
        Some(KeyCode::End)
    } else {
        None
    }
}

/// The key that a number before a tilde stands for.
pub open spec fn number_key(n: Option<nat>) -> Option<KeyCode> {
    if n == Some(1nat) || n == Some(7nat) {
        Some(KeyCode::Home)
    } else if n == Some(2nat) {
        Some(KeyCode::Insert)
    } else if n == Some(3nat) {
        Some(KeyCode::Delete)
    } else if n == Some(4nat) || n == Some(8nat) {
        Some(KeyCode::End)
    } else if n == Some(5nat) {
        Some(KeyCode::PageUp)
    } else if n == Some(6nat) {
        Some(KeyCode::PageDown)
    } else {
        None
    }
}

/// `ESC [ ... final`
pub open spec fn csi_step(buf: Seq<u8>) -> Step {
    let end = final_at(buf, 2);
    let params = buf.subrange(2, end);
    let used = (end + 1) as usize;
    if end >= buf.len() {
        Step::Incomplete
    } else if buf[end] == 0x5a {
        Step::Key(
            KeyEvent {
                code: KeyCode::BackTab,
                modifiers: KeyModifiers { shift: true, control: false, alt: false },
            },
            used,
        )
    } else {
        let code = if buf[end] == 0x7e {
            number_key(number(first_parameter(params)))
        } else {
            letter_key(buf[end])
        };
        match code {
            Some(code) => Step::Key(
                KeyEvent { code, modifiers: modifiers_of(number(second_parameter(params))) },
                used,
            ),
            None => Step::Skip(used),
        }
    }
}

/// `ESC O x` -- what a terminal in application cursor mode sends for arrows.
pub open spec fn ss3_step(buf: Seq<u8>) -> Step {
    if buf.len() < 3 {
        Step::Incomplete
    } else {
        match letter_key(buf[2]) {
            Some(code) => Step::Key(plain_key(code), 3),
            None => Step::Skip(3),
        }
    }
}

pub open spec fn escape_step(buf: Seq<u8>) -> Step {
    if buf.len() == 1 {
        // A lone escape at the end of a packet is the Esc key. Terminals send
        // the rest of a sequence in the same write, so waiting for more would
        // hang Esc -- which this UI leans on heavily.
        Step::Key(plain_key(KeyCode::Esc), 1)
    } else if buf[1] == 0x5b {
        csi_step(buf)
    } else if buf[1] == 0x4f {
        ss3_step(buf)
    } else if buf[1] == 0x1b {
        Step::Key(plain_key(KeyCode::Esc), 1)
    } else {
        match char_step(buf.skip(1)) {
            Step::Key(key, used) => Step::Key(
                KeyEvent {
                    code: key.code,
                    modifiers: KeyModifiers { alt: true, ..key.modifiers },
                },
                (used + 1) as usize,
            ),
            Step::Skip(used) => Step::Skip((used + 1) as usize),
            Step::Incomplete => Step::Incomplete,
        }
    }
}

/// What the front of a buffer comes to.
pub open spec fn step_of(buf: Seq<u8>) -> Step {
    let b = buf[0];
    if b == 0x1b {
        escape_step(buf)
    } else if b == 0x0d || b == 0x0a {
        Step::Key(plain_key(KeyCode::Enter), 1)
    } else if b == 0x09 {
        Step::Key(plain_key(KeyCode::Tab), 1)
    } else if b == 0x08 || b == 0x7f {
        Step::Key(plain_key(KeyCode::Backspace), 1)
    } else if b == 0 {
        Step::Key(control_key(' '), 1)
    } else if b <= 0x1a {
        // Ctrl-a to Ctrl-z, minus the three that have their own meaning.
        Step::Key(control_key((b - 1 + 0x61) as char), 1)
    } else if 0x1c <= b <= 0x1f {
        Step::Key(control_key((b - 0x1c + 0x34) as char), 1)
    } else {
        char_step(buf)
    }
}

fn letter(b: u8) -> (r: Option<KeyCode>)
    ensures
        r == letter_key(b),
{
    if b == 0x41 {
        Some(KeyCode::Up)
    } else if b == 0x42 {
        Some(KeyCode::Down)
    } else if b == 0x43 {
        Some(KeyCode::Right)
    } else if b == 0x44 {
        Some(KeyCode::Left)
    } else if b == 0x48 {
        Some(KeyCode::Home)
    } else if b == 0x46 {
        Some(KeyCode::End)
    } else {
        None
    }
}

fn parse_num(bytes: Vec<u8>) -> (r: Option<u8>)
    ensures
        match r {
            Some(n) => number(bytes@) == Some(n as nat),
            None => number(bytes@) is None,
        },
{
    match utf8_text(bytes) {
        Some(text) => match parse_unsigned(text.as_str(), 255) {
            Some(n) => Some(n as u8),
            None => None,
        },
        None => None,
    }
}

fn decode_modifiers(param: Option<u8>) -> (r: KeyModifiers)
    ensures
        r == modifiers_of(
            match param {
                Some(n) => Some(n as nat),
                None => None,
            },
        ),
{
    match param {
        Some(n) => if n > 0 {
            let bits: u8 = n - 1;
            KeyModifiers {
                shift: bits % 2 == 1,
                alt: (bits / 2) % 2 == 1,
                control: (bits / 4) % 2 == 1,
            }
        } else {
            KeyModifiers::none()
        },
        None => KeyModifiers::none(),
    }
}

fn find_parameter_end(bytes: &Vec<u8>, from: usize) -> (r: usize)
    requires
        from <= bytes.len(),
    ensures
        from <= r <= bytes.len(),
        r == parameter_end(bytes@, from as int),
{
    let mut i: usize = from;
    while i < bytes.len() && bytes[i] != 0x3b
        invariant
            from <= i <= bytes.len(),
            parameter_end(bytes@, i as int) == parameter_end(bytes@, from as int),
        decreases bytes.len() - i,
    {
        i += 1;
    }
    i
}

fn csi(buf: &Vec<u8>, at: usize) -> (r: Step)
    requires
        at + 2 <= buf.len(),
    ensures
        r == csi_step(buf@.skip(at as int)),
{
    let ghost rest = buf@.skip(at as int);
    let mut end: usize = at + 2;
    while end < buf.len() && !(buf[end] >= 0x40 && buf[end] <= 0x7e)
        invariant
            at + 2 <= end <= buf.len(),
            rest == buf@.skip(at as int),
            final_at(rest, end - at) == final_at(rest, 2),
        decreases buf.len() - end,
    {
        end += 1;
    }
    if end >= buf.len() {
        return Step::Incomplete;
    }
    let last = buf[end];
    let used = end - at + 1;
    let params = copy_bytes(buf, at + 2, end);
    assert(params@ == rest.subrange(2, end - at));

    // Parameters look like `1;5` -- the second one carries the modifiers.
    let cut = find_parameter_end(&params, 0);
    let first = parse_num(copy_bytes(&params, 0, cut));
    assert(params@.subrange(0, cut as int) == params@.take(cut as int));
    let second = if cut < params.len() {
        let stop = find_parameter_end(&params, cut + 1);
        parse_num(copy_bytes(&params, cut + 1, stop))
    } else {
        parse_num(Vec::new())
    };
    let modifiers = decode_modifiers(second);

    if last == 0x5a {
        return Step::Key(
            KeyEvent::new(
                KeyCode::BackTab,
                KeyModifiers { shift: true, control: false, alt: false },
            ),
            used,
        );
    }
    let code = if last == 0x7e {
        match first {
            Some(1) | Some(7) => Some(KeyCode::Home),
            Some(2) => Some(KeyCode::Insert),
            Some(3) => Some(KeyCode::Delete),
            Some(4) | Some(8) => Some(KeyCode::End),
            Some(5) => Some(KeyCode::PageUp),
            Some(6) => Some(KeyCode::PageDown),
            _ => None,
        }
    } else {
        letter(last)
    };
    match code {
        Some(code) => Step::Key(KeyEvent::new(code, modifiers), used),
        None => Step::Skip(used),
    }
}

fn ss3(buf: &Vec<u8>, at: usize) -> (r: Step)
    requires
        at + 2 <= buf.len(),
    ensures
        r == ss3_step(buf@.skip(at as int)),
{
    if buf.len() - at < 3 {
        return Step::Incomplete;
    }
    match letter(buf[at + 2]) {
        Some(code) => Step::Key(KeyEvent::plain(code), 3),
        None => Step::Skip(3),
    }
}

proof fn lemma_char_step_bounds(buf: Seq<u8>)
    requires
        buf.len() > 0,
    ensures
        match char_step(buf) {
            Step::Key(_, n) => 0 < n <= buf.len() && n <= 4,
            Step::Skip(n) => 0 < n <= buf.len() && n <= 4,
            Step::Incomplete => true,
        },
{
}

proof fn lemma_final_at_bounds(buf: Seq<u8>, i: int)
    requires
        0 <= i <= buf.len(),
    ensures
        i <= final_at(buf, i) <= buf.len(),
    decreases buf.len() - i,
{
    if i < buf.len() && !(0x40 <= buf[i] <= 0x7e) {
        lemma_final_at_bounds(buf, i + 1);
    }
}

/// Every step but an incomplete one uses something up, and no more than is
/// there.
proof fn lemma_step_bounds(buf: Seq<u8>)
    requires
        0 < buf.len() <= usize::MAX,
    ensures
        match step_of(buf) {
            Step::Key(_, n) => 0 < n <= buf.len(),
            Step::Skip(n) => 0 < n <= buf.len(),
            Step::Incomplete => true,
        },
{
    lemma_char_step_bounds(buf);
    if buf.len() > 1 {
        lemma_char_step_bounds(buf.skip(1));
        lemma_final_at_bounds(buf, 2);
    }
}

fn escape(buf: &Vec<u8>, at: usize) -> (r: Step)
    requires
        at < buf.len(),
    ensures
        r == escape_step(buf@.skip(at as int)),
{
    let ghost rest = buf@.skip(at as int);
    if buf.len() - at == 1 {
        return Step::Key(KeyEvent::plain(KeyCode::Esc), 1);
    }
    let next = buf[at + 1];
    if next == 0x5b {
        return csi(buf, at);
    }
    if next == 0x4f {
        return ss3(buf, at);
    }
    if next == 0x1b {
        return Step::Key(KeyEvent::plain(KeyCode::Esc), 1);
    }
    proof {
        assert(rest.skip(1) == buf@.skip(at + 1));
        lemma_char_step_bounds(rest.skip(1));
    }
    match decode_char(buf, at + 1) {
        Step::Key(key, used) => {
            let modifiers = KeyModifiers {
                shift: key.modifiers.shift,
                control: key.modifiers.control,
                alt: true,
            };
            Step::Key(KeyEvent::new(key.code, modifiers), used + 1)
        },
        Step::Skip(used) => Step::Skip(used + 1),
        Step::Incomplete => Step::Incomplete,
    }
}

fn step(buf: &Vec<u8>, at: usize) -> (r: Step)
    requires
        at < buf.len(),
    ensures
        r == step_of(buf@.skip(at as int)),
{
    let b = buf[at];
    if b == 0x1b {
        return escape(buf, at);
    }
    if b == 0x0d || b == 0x0a {
        return Step::Key(KeyEvent::plain(KeyCode::Enter), 1);
    }
    if b == 0x09 {
        return Step::Key(KeyEvent::plain(KeyCode::Tab), 1);
    }
    if b == 0x08 || b == 0x7f {
        return Step::Key(KeyEvent::plain(KeyCode::Backspace), 1);
    }
    if b == 0 {
        return Step::Key(KeyEvent::control(' '), 1);
    }
    if b <= 0x1a {
        return Step::Key(KeyEvent::control((b - 1 + 0x61) as char), 1);
    }
    if b >= 0x1c && b <= 0x1f {
        return Step::Key(KeyEvent::control((b - 0x1c + 0x34) as char), 1);
    }
    decode_char(buf, at)
}

// ---------------------------------------------------------------------------
// the stream
// ---------------------------------------------------------------------------

/// The keys that a buffer holds, and what is left over for the next packet.
pub open spec fn parsed(buf: Seq<u8>) -> (Seq<KeyEvent>, Seq<u8>)
    decreases buf.len(),
{
    if buf.len() == 0 {
        (seq![], seq![])
    } else {
        match step_of(buf) {
            Step::Key(key, used) => if 0 < used <= buf.len() {
                let (keys, rest) = parsed(buf.skip(used as int));
                (seq![key] + keys, rest)
            } else {
                (seq![], buf)
            },
            Step::Skip(used) => if 0 < used <= buf.len() {
                parsed(buf.skip(used as int))
            } else {
                (seq![], buf)
            },
            Step::Incomplete => (seq![], buf),
        }
    }
}

/// Whether these bytes wait for more: they are the beginning of a sequence or
/// of a character, or there are none.
pub open spec fn waiting(buf: Seq<u8>) -> bool {
    buf.len() > 0 ==> step_of(buf) is Incomplete
}

proof fn lemma_rest_waits(buf: Seq<u8>)
    requires
        buf.len() <= usize::MAX,
    ensures
        waiting(parsed(buf).1),
    decreases buf.len(),
{
    if buf.len() > 0 {
        lemma_step_bounds(buf);
        match step_of(buf) {
            Step::Key(_, used) => lemma_rest_waits(buf.skip(used as int)),
            Step::Skip(used) => lemma_rest_waits(buf.skip(used as int)),
            Step::Incomplete => {},
        }
    }
}

proof fn lemma_escape_is_last(buf: Seq<u8>)
    requires
        ends_in_escape(buf),
    ensures
        buf.len() > 0,
        buf.last() == 0x1b,
    decreases buf.len(),
{
    if !(buf.len() == 1 && buf[0] == 0x1b) {
        match step_of(buf) {
            Step::Key(_, used) => lemma_escape_is_last(buf.skip(used as int)),
            Step::Skip(used) => lemma_escape_is_last(buf.skip(used as int)),
            Step::Incomplete => {},
        }
    }
}

/// Feeding two packets one after the other gives the same keys as feeding them
/// at once, and leaves a parser in the same state, whatever waits in it: where
/// the boundary lands does not matter, except right after an escape, which is
/// the Esc key.
pub proof fn feeding_can_be_cut_anywhere(pending: Seq<u8>, a: Seq<u8>, b: Seq<u8>)
    requires
        waiting(pending),
        pending.len() + a.len() <= usize::MAX,
        a.len() > 0 ==> a.last() != 0x1b,
    ensures
        ({
            let first = parsed(pending + a);
            let second = parsed(first.1 + b);
            parsed(pending + (a + b)) == (first.0 + second.0, second.1)
        }),
{
    let whole = pending + a;
    if ends_in_escape(whole) {
        lemma_escape_is_last(whole);
        if a.len() > 0 {
            assert(whole.last() == a.last());
        } else {
            assert(whole =~= pending);
        }
    }
    packets_can_be_cut_anywhere(whole, b);
    assert(pending + (a + b) =~= whole + b);
}

#[derive(Debug)]
pub struct InputParser {
    /// A sequence split across packets waits here for the rest of itself.
    pub pending: Vec<u8>,
}

impl InputParser {
    /// What always holds of a parser: nothing waits but the beginning of a
    /// sequence or of a character.
    pub open spec fn valid(self) -> bool {
        waiting(self.pending@)
    }

    pub fn new() -> (r: Self)
        ensures
            r.pending@.len() == 0,
            r.valid(),
    {
        InputParser { pending: Vec::new() }
    }

    /// Feed one chunk of bytes and take whatever complete keys fall out.
    pub fn feed(&mut self, bytes: &[u8]) -> (r: Vec<KeyEvent>)
        ensures
            r@ == parsed(old(self).pending@ + bytes@).0,
            final(self).pending@ == parsed(old(self).pending@ + bytes@).1,
            final(self).valid(),
    {
        self.pending.extend_from_slice(bytes);
        let ghost whole = self.pending@;
        assert(whole =~= old(self).pending@ + bytes@);
        assert(whole.len() == self.pending.len());
        proof {
            lemma_rest_waits(whole);
        }
        let mut out: Vec<KeyEvent> = Vec::new();
        let mut at: usize = 0;
        assert(whole.skip(0) =~= whole);
        assert(out@ + parsed(whole).0 =~= parsed(whole).0);
        while at < self.pending.len()
            invariant_except_break
                at <= whole.len(),
                whole == self.pending@,
                out@ + parsed(whole.skip(at as int)).0 == parsed(whole).0,
                parsed(whole.skip(at as int)).1 == parsed(whole).1,
            ensures
                at <= whole.len(),
                whole == self.pending@,
                out@ == parsed(whole).0,
                whole.skip(at as int) == parsed(whole).1,
            decreases self.pending.len() - at,
        {
            let ghost rest = whole.skip(at as int);
            proof {
                lemma_step_bounds(rest);
            }
            let next = step(&self.pending, at);
            match next {
                Step::Key(key, used) => {
                    let ghost before = out@;
                    out.push(key);
                    proof {
                        assert(rest.skip(used as int) =~= whole.skip(at + used));
                        let later = parsed(rest.skip(used as int)).0;
                        assert(before + (seq![key] + later) =~= out@ + later);
                    }
                    at += used;
                },
                Step::Skip(used) => {
                    assert(rest.skip(used as int) =~= whole.skip(at + used));
                    at += used;
                },
                // Not enough bytes yet: keep the tail for the next packet.
                Step::Incomplete => {
                    assert(out@ + Seq::<KeyEvent>::empty() =~= out@);
                    break;
                },
            }
        }
        let tail = copy_bytes(&self.pending, at, self.pending.len());
        assert(tail@ =~= whole.skip(at as int));
        self.pending = tail;
        out
    }
}

// ---------------------------------------------------------------------------
// packets
// ---------------------------------------------------------------------------

/// Whether reading a buffer comes to an escape with nothing behind it: the one
/// thing that is not waited for.
pub open spec fn ends_in_escape(buf: Seq<u8>) -> bool
    decreases buf.len(),
{
    if buf.len() == 0 {
        false
    } else if buf.len() == 1 && buf[0] == 0x1b {
        true
    } else {
        match step_of(buf) {
            Step::Key(_, used) => 0 < used <= buf.len() && ends_in_escape(buf.skip(used as int)),
            Step::Skip(used) => 0 < used <= buf.len() && ends_in_escape(buf.skip(used as int)),
            Step::Incomplete => false,
        }
    }
}

proof fn lemma_final_at_longer(a: Seq<u8>, b: Seq<u8>, i: int)
    requires
        0 <= i <= a.len(),
    ensures
        final_at(a, i) < a.len() ==> final_at(a + b, i) == final_at(a, i),
    decreases a.len() - i,
{
    if i < a.len() {
        assert((a + b)[i] == a[i]);
        if !(0x40 <= a[i] <= 0x7e) {
            lemma_final_at_longer(a, b, i + 1);
        }
    }
}

/// What a step comes to does not depend on what follows it.
proof fn lemma_step_longer(a: Seq<u8>, b: Seq<u8>)
    requires
        0 < a.len() <= usize::MAX,
        !(a.len() == 1 && a[0] == 0x1b),
        !(step_of(a) is Incomplete),
    ensures
        step_of(a + b) == step_of(a),
{
    let c = a + b;
    assert(c[0] == a[0]);
    assert(c.take(char_bytes(a[0]) as int) =~= a.take(char_bytes(a[0]) as int) || a.len()
        < char_bytes(a[0]));
    if a[0] == 0x1b {
        assert(c[1] == a[1]);
        if a[1] == 0x5b {
            lemma_final_at_longer(a, b, 2);
            lemma_final_at_bounds(a, 2);
            let end = final_at(a, 2);
            assert(c[end] == a[end]);
            assert(c.subrange(2, end) =~= a.subrange(2, end));
        } else if a[1] == 0x4f {
            assert(c[2] == a[2]);
        } else {
            let t = a.skip(1);
            let u = c.skip(1);
            assert(u =~= t + b);
            assert(u[0] == t[0]);
            assert(u.take(char_bytes(t[0]) as int) =~= t.take(char_bytes(t[0]) as int) || t.len()
                < char_bytes(t[0]));
        }
    }
}

/// A packet boundary can land anywhere, including the middle of a sequence or
/// of a character: the same keys come out. The one thing that is not waited
/// for is what follows a lone escape.
pub proof fn packets_can_be_cut_anywhere(a: Seq<u8>, b: Seq<u8>)
    requires
        a.len() <= usize::MAX,
        !ends_in_escape(a),
    ensures
        parsed(a + b).0 == parsed(a).0 + parsed(parsed(a).1 + b).0,
        parsed(a + b).1 == parsed(parsed(a).1 + b).1,
    decreases a.len(),
{
    if a.len() == 0 {
        assert(a + b =~= b);
        assert(Seq::<u8>::empty() + b =~= b);
        assert(Seq::<KeyEvent>::empty() + parsed(b).0 =~= parsed(b).0);
    } else {
        lemma_step_bounds(a);
        match step_of(a) {
            Step::Incomplete => {
                assert(Seq::<KeyEvent>::empty() + parsed(a + b).0 =~= parsed(a + b).0);
            },
            Step::Key(key, used) => {
                lemma_step_longer(a, b);
                let rest = a.skip(used as int);
                assert((a + b).skip(used as int) =~= rest + b);
                packets_can_be_cut_anywhere(rest, b);
                assert(seq![key] + (parsed(rest).0 + parsed(parsed(rest).1 + b).0) =~= seq![key]
                    + parsed(rest).0 + parsed(parsed(rest).1 + b).0);
            },
            Step::Skip(used) => {
                lemma_step_longer(a, b);
                let rest = a.skip(used as int);
                assert((a + b).skip(used as int) =~= rest + b);
                packets_can_be_cut_anywhere(rest, b);
            },
        }
    }
}

// ---------------------------------------------------------------------------
// what each key sends
// ---------------------------------------------------------------------------

/// A key at the front comes out first, and what follows it is read as it would
/// be on its own.
proof fn lemma_key_first(head: Seq<u8>, rest: Seq<u8>, key: KeyEvent)
    requires
        0 < head.len() <= usize::MAX,
        !(head.len() == 1 && head[0] == 0x1b),
        step_of(head) == Step::Key(key, head.len() as usize),
    ensures
        parsed(head + rest).0 == seq![key] + parsed(rest).0,
        parsed(head + rest).1 == parsed(rest).1,
{
    lemma_step_longer(head, rest);
    assert((head + rest).skip(head.len() as int) =~= rest);
}

proof fn lemma_nothing_first(head: Seq<u8>, rest: Seq<u8>)
    requires
        0 < head.len() <= usize::MAX,
        !(head.len() == 1 && head[0] == 0x1b),
        step_of(head) == Step::Skip(head.len() as usize),
    ensures
        parsed(head + rest) == parsed(rest),
{
    lemma_step_longer(head, rest);
    assert((head + rest).skip(head.len() as int) =~= rest);
}

proof fn lemma_ascii(c: char)
    requires
        c <= '\u{7f}',
    ensures
        valid_utf8(seq![c as u8]),
        decode_utf8(seq![c as u8]) == seq![c],
        encode_utf8(seq![c]) == seq![c as u8],
{
    let s = seq![c];
    assert(is_ascii_chars(s));
    is_ascii_chars_encode_utf8(s);
    assert(s[0] == c);
    assert(encode_utf8(s) =~= seq![c as u8]);
    encode_utf8_valid_utf8(s);
    encode_utf8_decode_utf8(s);
}

proof fn lemma_digit(d: u8)
    requires
        0x30 <= d <= 0x39,
    ensures
        number(seq![d]) == Some((d - 0x30) as nat),
{
    let c = d as char;
    lemma_ascii(c);
    assert(c as u8 == d);
    let s = seq![c];
    reveal_with_fuel(digits_value, 2);
    assert(s.drop_last() =~= Seq::<char>::empty());
    assert(s.last() == c);
    assert(all_digits(s));
}

/// The arrows, Home and End: `ESC [` or `ESC O` and a letter of its own for
/// each of them. Whatever follows is read as if it stood alone.
pub proof fn a_letter_names_its_key(letter: u8, code: KeyCode, rest: Seq<u8>)
    requires
        ({
            ||| letter == 0x41 && code == KeyCode::Up
            ||| letter == 0x42 && code == KeyCode::Down
            ||| letter == 0x43 && code == KeyCode::Right
            ||| letter == 0x44 && code == KeyCode::Left
            ||| letter == 0x48 && code == KeyCode::Home
            ||| letter == 0x46 && code == KeyCode::End
        }),
    ensures
        ({
            let key = KeyEvent {
                code,
                modifiers: KeyModifiers { shift: false, control: false, alt: false },
            };
            &&& parsed(seq![0x1b, 0x5b, letter]) == (seq![key], Seq::<u8>::empty())
            &&& parsed(seq![0x1b, 0x4f, letter]) == (seq![key], Seq::<u8>::empty())
            &&& parsed(seq![0x1b, 0x5b, letter] + rest) == (
                seq![key] + parsed(rest).0,
                parsed(rest).1,
            )
            &&& parsed(seq![0x1b, 0x4f, letter] + rest) == (
                seq![key] + parsed(rest).0,
                parsed(rest).1,
            )
        }),
{
    let key = KeyEvent {
        code,
        modifiers: KeyModifiers { shift: false, control: false, alt: false },
    };
    let a = seq![0x1bu8, 0x5b, letter];
    let b = seq![0x1bu8, 0x4f, letter];
    assert(final_at(a, 2) == 2);
    let params = a.subrange(2, 2);
    assert(params =~= Seq::<u8>::empty());
    assert(parameter_end(params, 0) == 0);
    let none = Seq::<u8>::empty();
    assert(second_parameter(params) =~= none);
    assert(number(none) is None);
    assert(step_of(a) == Step::Key(key, 3));
    assert(step_of(b) == Step::Key(key, 3));
    lemma_key_first(a, rest, key);
    lemma_key_first(b, rest, key);
    lemma_key_first(a, none, key);
    lemma_key_first(b, none, key);
    assert(a + none =~= a);
    assert(b + none =~= b);
    assert(seq![key] + Seq::<KeyEvent>::empty() =~= seq![key]);
}

/// `ESC [ 1 ; n` and a letter is that key with modifiers: shift on the even
/// numbers, alt on 3, 4, 7 and 8, control from 5 on.
pub proof fn modifiers_come_with_the_key(letter: u8, code: KeyCode, n: u8, rest: Seq<u8>)
    requires
        1 <= n <= 8,
        ({
            ||| letter == 0x41 && code == KeyCode::Up
            ||| letter == 0x42 && code == KeyCode::Down
            ||| letter == 0x43 && code == KeyCode::Right
            ||| letter == 0x44 && code == KeyCode::Left
            ||| letter == 0x48 && code == KeyCode::Home
            ||| letter == 0x46 && code == KeyCode::End
        }),
    ensures
        parsed(seq![0x1b, 0x5b, 0x31, 0x3b, (0x30 + n) as u8, letter] + rest) == (
            seq![
                KeyEvent {
                    code,
                    modifiers: KeyModifiers {
                        shift: n == 2 || n == 4 || n == 6 || n == 8,
                        control: n >= 5,
                        alt: n == 3 || n == 4 || n == 7 || n == 8,
                    },
                },
            ] + parsed(rest).0,
            parsed(rest).1,
        ),
{
    let key = KeyEvent {
        code,
        modifiers: KeyModifiers {
            shift: n == 2 || n == 4 || n == 6 || n == 8,
            control: n >= 5,
            alt: n == 3 || n == 4 || n == 7 || n == 8,
        },
    };
    let d = (0x30 + n) as u8;
    let a = seq![0x1bu8, 0x5b, 0x31, 0x3b, d, letter];
    reveal_with_fuel(final_at, 5);
    assert(final_at(a, 2) == 5);
    let params = a.subrange(2, 5);
    assert(params =~= seq![0x31u8, 0x3b, d]);
    reveal_with_fuel(parameter_end, 3);
    assert(parameter_end(params, 0) == 1);
    assert(parameter_end(params, 2) == 3);
    assert(params.subrange(2, 3) =~= seq![d]);
    lemma_digit(d);
    assert(step_of(a) == Step::Key(key, 6));
    lemma_key_first(a, rest, key);
}

/// `ESC [ n ~`: the keys that are sent by number.
pub proof fn a_number_names_its_key(n: u8, code: KeyCode, rest: Seq<u8>)
    requires
        ({
            ||| (n == 1 || n == 7) && code == KeyCode::Home
            ||| n == 2 && code == KeyCode::Insert
            ||| n == 3 && code == KeyCode::Delete
            ||| (n == 4 || n == 8) && code == KeyCode::End
            ||| n == 5 && code == KeyCode::PageUp
            ||| n == 6 && code == KeyCode::PageDown
        }),
    ensures
        parsed(seq![0x1b, 0x5b, (0x30 + n) as u8, 0x7e] + rest) == (
            seq![
                KeyEvent {
                    code,
                    modifiers: KeyModifiers { shift: false, control: false, alt: false },
                },
            ] + parsed(rest).0,
            parsed(rest).1,
        ),
{
    let key = KeyEvent {
        code,
        modifiers: KeyModifiers { shift: false, control: false, alt: false },
    };
    let d = (0x30 + n) as u8;
    let a = seq![0x1bu8, 0x5b, d, 0x7e];
    reveal_with_fuel(final_at, 3);
    assert(final_at(a, 2) == 3);
    let params = a.subrange(2, 3);
    assert(params =~= seq![d]);
    reveal_with_fuel(parameter_end, 2);
    assert(parameter_end(params, 0) == 1);
    assert(params.take(1) =~= seq![d]);
    lemma_digit(d);
    let none = Seq::<u8>::empty();
    assert(params.subrange(2, 2) =~= none || second_parameter(params) =~= none);
    assert(second_parameter(params) =~= none);
    assert(number(none) is None);
    assert(step_of(a) == Step::Key(key, 4));
    lemma_key_first(a, rest, key);
}

/// Shift-Tab, and the bytes that are keys by themselves: Enter, Tab,
/// Backspace, and control with a letter, a blank or one of the digits 4 to 7.
pub proof fn control_bytes_are_keys(b: u8, rest: Seq<u8>)
    ensures
        ({
            let plain = KeyModifiers { shift: false, control: false, alt: false };
            let held = KeyModifiers { shift: false, control: true, alt: false };
            let shifted = KeyModifiers { shift: true, control: false, alt: false };
            let read = parsed(seq![b] + rest);
            &&& parsed(seq![0x1b, 0x5b, 0x5a] + rest) == (
                seq![KeyEvent { code: KeyCode::BackTab, modifiers: shifted }] + parsed(rest).0,
                parsed(rest).1,
            )
            &&& b == 0x0d || b == 0x0a ==> read == (
                seq![KeyEvent { code: KeyCode::Enter, modifiers: plain }] + parsed(rest).0,
                parsed(rest).1,
            )
            &&& b == 0x09 ==> read == (
                seq![KeyEvent { code: KeyCode::Tab, modifiers: plain }] + parsed(rest).0,
                parsed(rest).1,
            )
            &&& b == 0x08 || b == 0x7f ==> read == (
                seq![KeyEvent { code: KeyCode::Backspace, modifiers: plain }] + parsed(rest).0,
                parsed(rest).1,
            )
            &&& b == 0 ==> read == (
                seq![KeyEvent { code: KeyCode::Char(' '), modifiers: held }] + parsed(rest).0,
                parsed(rest).1,
            )
            &&& (1 <= b <= 7 || b == 11 || b == 12 || 14 <= b <= 26) ==> read == (
                seq![KeyEvent { code: KeyCode::Char((b + 96) as char), modifiers: held }] + parsed(
                    rest,
                ).0,
                parsed(rest).1,
            )
            &&& 28 <= b <= 31 ==> read == (
                seq![KeyEvent { code: KeyCode::Char((b + 24) as char), modifiers: held }] + parsed(
                    rest,
                ).0,
                parsed(rest).1,
            )
        }),
{
    let t = seq![0x1bu8, 0x5b, 0x5a];
    assert(final_at(t, 2) == 2);
    let back = KeyEvent {
        code: KeyCode::BackTab,
        modifiers: KeyModifiers { shift: true, control: false, alt: false },
    };
    assert(step_of(t) == Step::Key(back, 3));
    lemma_key_first(t, rest, back);
    let a = seq![b];
    assert(a[0] == b);
    if b <= 26 || 28 <= b <= 31 || b == 0x7f {
        assert(step_of(a) is Key);
        let key = step_of(a)->Key_0;
        lemma_key_first(a, rest, key);
    }
}

/// A character that is typed comes out as itself, however many bytes it takes
/// and whatever follows it, with shift exactly if it is a capital; behind an
/// escape it comes with alt held down.
pub proof fn what_is_typed_comes_out(c: char, rest: Seq<u8>)
    ensures
        ' ' <= c && c != '\u{7f}' ==> parsed(encode_utf8(seq![c]) + rest) == (
            seq![
                KeyEvent {
                    code: KeyCode::Char(c),
                    modifiers: KeyModifiers { shift: uppercase(c), control: false, alt: false },
                },
            ] + parsed(rest).0,
            parsed(rest).1,
        ),
        c != '[' && c != 'O' && c != '\u{1b}' ==> parsed(
            seq![0x1b] + encode_utf8(seq![c]) + rest,
        ) == (
            seq![
                KeyEvent {
                    code: KeyCode::Char(c),
                    modifiers: KeyModifiers { shift: uppercase(c), control: false, alt: true },
                },
            ] + parsed(rest).0,
            parsed(rest).1,
        ),
{
    let s = seq![c];
    let e = encode_utf8(s);
    assert(s.drop_first() =~= Seq::<char>::empty());
    reveal_with_fuel(encode_utf8, 2);
    assert(e =~= encode_scalar(c as u32));
    encode_utf8_first_scalar(s);
    encode_utf8_valid_utf8(s);
    encode_utf8_decode_utf8(s);
    utf8_byte_ranges_bitwise(e[0]);
    assert(char_bytes(e[0]) == e.len());
    assert(e.take(e.len() as int) =~= e);
    let key = typed(c);
    assert(char_step(e) == Step::Key(key, e.len() as usize));
    if c <= '\u{7f}' {
        lemma_ascii(c);
        assert(e[0] == c as u8);
    } else {
        assert(e.len() > 1);
        assert(e[0] > 0x7f);
    }
    if ' ' <= c && c != '\u{7f}' {
        assert(step_of(e) == Step::Key(key, e.len() as usize));
        lemma_key_first(e, rest, key);
    }
    if c != '[' && c != 'O' && c != '\u{1b}' {
        let a = seq![0x1bu8] + e;
        assert(a.skip(1) =~= e);
        assert(a[1] == e[0]);
        let held = KeyEvent {
            code: KeyCode::Char(c),
            modifiers: KeyModifiers { shift: uppercase(c), control: false, alt: true },
        };
        assert(step_of(a) == Step::Key(held, a.len() as usize));
        lemma_key_first(a, rest, held);
    }
}

/// An escape with nothing behind it is the Esc key at once, and so is the
/// first of two.
pub proof fn a_lone_escape_is_the_key(rest: Seq<u8>)
    ensures
        ({
            let esc = KeyEvent {
                code: KeyCode::Esc,
                modifiers: KeyModifiers { shift: false, control: false, alt: false },
            };
            &&& parsed(seq![0x1b]) == (seq![esc], Seq::<u8>::empty())
            &&& parsed(seq![0x1b, 0x1b] + rest) == (
                seq![esc] + parsed(seq![0x1b] + rest).0,
                parsed(seq![0x1b] + rest).1,
            )
        }),
{
    let esc = KeyEvent {
        code: KeyCode::Esc,
        modifiers: KeyModifiers { shift: false, control: false, alt: false },
    };
    let a = seq![0x1bu8];
    assert(a[0] == 0x1b);
    assert(step_of(a) == Step::Key(esc, 1));
    let none = Seq::<u8>::empty();
    assert(a.skip(1) =~= none);
    assert(parsed(none) == (Seq::<KeyEvent>::empty(), none));
    assert(parsed(a) == (seq![esc] + parsed(none).0, parsed(none).1));
    assert(seq![esc] + Seq::<KeyEvent>::empty() =~= seq![esc]);
    let b = seq![0x1bu8, 0x1b] + rest;
    assert(b[0] == 0x1b && b[1] == 0x1b);
    assert(step_of(b) == Step::Key(esc, 1));
    assert(b.skip(1) =~= seq![0x1bu8] + rest);
}

/// A sequence that names no key, and a byte that starts no character, give
/// none, and what follows them is read as if they had not been there.
pub proof fn what_names_no_key_is_ignored(b: u8, rest: Seq<u8>)
    ensures
        0x40 <= b <= 0x7e && b != 0x41 && b != 0x42 && b != 0x43 && b != 0x44 && b != 0x46 && b
            != 0x48 && b != 0x5a ==> parsed(seq![0x1b, 0x5b, b] + rest) == parsed(rest),
        b != 0x41 && b != 0x42 && b != 0x43 && b != 0x44 && b != 0x46 && b != 0x48 ==> parsed(
            seq![0x1b, 0x4f, b] + rest,
        ) == parsed(rest),
        0x80 <= b <= 0xbf || 0xf8 <= b ==> parsed(seq![b] + rest) == parsed(rest),
{
    if 0x40 <= b <= 0x7e && b != 0x41 && b != 0x42 && b != 0x43 && b != 0x44 && b != 0x46 && b
        != 0x48 && b != 0x5a {
        let a = seq![0x1bu8, 0x5b, b];
        assert(final_at(a, 2) == 2);
        let params = a.subrange(2, 2);
        assert(params =~= Seq::<u8>::empty());
        assert(parameter_end(params, 0) == 0);
        assert(first_parameter(params) =~= Seq::<u8>::empty());
        assert(number(Seq::<u8>::empty()) is None);
        assert(step_of(a) == Step::Skip(3));
        lemma_nothing_first(a, rest);
    }
    if b != 0x41 && b != 0x42 && b != 0x43 && b != 0x44 && b != 0x46 && b != 0x48 {
        let a = seq![0x1bu8, 0x4f, b];
        assert(step_of(a) == Step::Skip(3));
        lemma_nothing_first(a, rest);
    }
    if 0x80 <= b <= 0xbf || 0xf8 <= b {
        let a = seq![b];
        assert(a[0] == b);
        assert(step_of(a) == Step::Skip(1));
        lemma_nothing_first(a, rest);
    }
}

} // verus!
