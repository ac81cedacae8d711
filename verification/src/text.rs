//! Text as sequences of characters: the small operations the rest of the
//! library builds its strings from.
use vstd::prelude::*;
use vstd::utf8::{decode_utf8, valid_utf8};

verus! {

/// `String::push` appends one character to the end of the string.
pub assume_specification [String::push] (s: &mut String, c: char)
    ensures
        final(s)@ == old(s)@.push(c),
;

// ---------------------------------------------------------------------------
// building and comparing
// ---------------------------------------------------------------------------

/// The characters of a string, in order.
pub fn chars_of(text: &str) -> (r: Vec<char>)
    ensures
        r@ == text@,
{
    let mut out: Vec<char> = Vec::new();
    for c in it: text.chars()
        invariant
            it.seq() == text@,
            out@ == it.seq().take(it.index() as int),
    {
        out.push(c);
    }
    out
}

/// The string made of the characters `from..to`.
pub fn slice_of(chars: &Vec<char>, from: usize, to: usize) -> (r: String)
    requires
        from <= to <= chars.len(),
    ensures
        r@ == chars@.subrange(from as int, to as int),
{
    let mut out = String::new();
    let mut i: usize = from;
    while i < to
        invariant
            from <= i <= to <= chars.len(),
            out@ == chars@.subrange(from as int, i as int),
        decreases to - i,
    {
        out.push(chars[i]);
        i += 1;
    }
    out
}

/// The string that holds the given characters.
pub fn string_of(chars: &Vec<char>) -> (r: String)
    ensures
        r@ == chars@,
{
    let out = slice_of(chars, 0, chars.len());
    assert(chars@.subrange(0, chars@.len() as int) == chars@);
    out
}

/// Whether two strings hold the same characters.
pub fn same(a: &str, b: &str) -> (r: bool)
    ensures
        r == (a@ == b@),
{
    a.to_owned() == b.to_owned()
}

pub fn cat(a: &str, b: &str) -> (r: String)
    ensures
        r@ == a@ + b@,
{
    let mut out = a.to_owned();
    out.append(b);
    out
}

pub fn cat3(a: &str, b: &str, c: &str) -> (r: String)
    ensures
        r@ == a@ + b@ + c@,
{
    let mut out = cat(a, b);
    out.append(c);
    out
}

pub fn cat4(a: &str, b: &str, c: &str, d: &str) -> (r: String)
    ensures
        r@ == a@ + b@ + c@ + d@,
{
    let mut out = cat3(a, b, c);
    out.append(d);
    out
}

/// `count` copies of one character.
pub open spec fn repeated(c: char, count: nat) -> Seq<char> {
    Seq::new(count, |i: int| c)
}

pub fn repeat(c: char, count: usize) -> (r: String)
    ensures
        r@ == repeated(c, count as nat),
{
    let mut out = String::new();
    let mut i: usize = 0;
    while i < count
        invariant
            i <= count,
            out@ == repeated(c, i as nat),
        decreases count - i,
    {
        out.push(c);
        i += 1;
    }
    out
}

/// Whether `c` occurs in the text.
pub fn contains_char(text: &str, c: char) -> (r: bool)
    ensures
        r == text@.contains(c),
{
    let chars = chars_of(text);
    let mut i: usize = 0;
    while i < chars.len()
        invariant
            i <= chars.len(),
            chars@ == text@,
            forall|j: int| 0 <= j < i ==> chars@[j] != c,
        decreases chars.len() - i,
    {
        if chars[i] == c {
            return true;
        }
        i += 1;
    }
    false
}

/// Whether `sub` occurs in `s` at `at`.
pub open spec fn occurs_at(s: Seq<char>, sub: Seq<char>, at: int) -> bool {
    0 <= at && at + sub.len() <= s.len() && s.subrange(at, at + sub.len()) == sub
}

/// Whether `sub` occurs in `s` anywhere.
pub open spec fn occurs(s: Seq<char>, sub: Seq<char>) -> bool {
    exists|at: int| #[trigger] occurs_at(s, sub, at)
}

/// Whether the characters at `at` are those of `sub`.
fn matches_at(chars: &Vec<char>, sub: &Vec<char>, at: usize) -> (r: bool)
    requires
        at <= chars.len(),
    ensures
        r == occurs_at(chars@, sub@, at as int),
{
    if sub.len() > chars.len() - at {
        return false;
    }
    let mut i: usize = 0;
    while i < sub.len()
        invariant
            i <= sub.len() <= chars.len() - at,
            forall|j: int| 0 <= j < i ==> chars@[at + j] == sub@[j],
        decreases sub.len() - i,
    {
        if chars[at + i] != sub[i] {
            assert(chars@.subrange(at as int, at + sub@.len())[i as int] != sub@[i as int]);
            return false;
        }
        i += 1;
    }
    assert(chars@.subrange(at as int, at + sub@.len()) == sub@);
    true
}

pub fn contains_text(text: &str, sub: &str) -> (r: bool)
    ensures
        r == occurs(text@, sub@),
{
    let chars = chars_of(text);
    let wanted = chars_of(sub);
    let mut at: usize = 0;
    loop
        invariant
            at <= chars.len(),
            chars@ == text@,
            wanted@ == sub@,
            forall|j: int| 0 <= j < at ==> !#[trigger] occurs_at(text@, sub@, j),
        decreases chars.len() - at,
    {
        if matches_at(&chars, &wanted, at) {
            return true;
        }
        if at == chars.len() {
            return false;
        }
        at += 1;
    }
}

/// Whether the text starts with `sub`.
pub fn starts_with(text: &str, sub: &str) -> (r: bool)
    ensures
        r == occurs_at(text@, sub@, 0),
{
    let chars = chars_of(text);
    let wanted = chars_of(sub);
    matches_at(&chars, &wanted, 0)
}

// ---------------------------------------------------------------------------
// order
// ---------------------------------------------------------------------------

/// Strings in code point order: the first difference decides, and a prefix
/// comes before what it is a prefix of.
pub open spec fn text_le(a: Seq<char>, b: Seq<char>) -> bool
    decreases a.len(),
{
    if a.len() == 0 {
        true
    } else if b.len() == 0 {
        false
    } else if a[0] != b[0] {
        a[0] < b[0]
    } else {
        text_le(a.drop_first(), b.drop_first())
    }
}

pub proof fn lemma_text_le_total(a: Seq<char>, b: Seq<char>)
    ensures
        text_le(a, b) || text_le(b, a),
        text_le(a, b) && text_le(b, a) ==> a == b,
    decreases a.len(),
{
    if a.len() > 0 && b.len() > 0 && a[0] == b[0] {
        lemma_text_le_total(a.drop_first(), b.drop_first());
        if text_le(a, b) && text_le(b, a) {
            assert(a =~= seq![a[0]] + a.drop_first());
            assert(b =~= seq![b[0]] + b.drop_first());
        }
    } else if a.len() == 0 && b.len() == 0 {
        assert(a =~= b);
    }
}

pub proof fn lemma_text_le_transitive(a: Seq<char>, b: Seq<char>, c: Seq<char>)
    requires
        text_le(a, b),
        text_le(b, c),
    ensures
        text_le(a, c),
    decreases a.len(),
{
    if a.len() > 0 && b.len() > 0 && c.len() > 0 && a[0] == b[0] && b[0] == c[0] {
        lemma_text_le_transitive(a.drop_first(), b.drop_first(), c.drop_first());
    }
}

pub fn le(a: &str, b: &str) -> (r: bool)
    ensures
        r == text_le(a@, b@),
{
    let x = chars_of(a);
    let y = chars_of(b);
    let mut i: usize = 0;
    proof {
        assert(x@.skip(0) == x@);
        assert(y@.skip(0) == y@);
    }
    loop
        invariant
            i <= x.len(),
            i <= y.len(),
            x@ == a@,
            y@ == b@,
            text_le(a@, b@) == text_le(x@.skip(i as int), y@.skip(i as int)),
        decreases x.len() - i,
    {
        if i == x.len() {
            return true;
        }
        if i == y.len() {
            return false;
        }
        proof {
            assert(x@.skip(i as int).drop_first() == x@.skip(i + 1));
            assert(y@.skip(i as int).drop_first() == y@.skip(i + 1));
        }
        if x[i] != y[i] {
            return x[i] < y[i];
        }
        i += 1;
    }
}

/// A character with the 26 upper case letters of ASCII folded to lower case.
pub open spec fn folded(c: char) -> char {
    if 'A' <= c && c <= 'Z' {
        (c as u32 + 32) as char
    } else {
        c
    }
}

/// Equality that ignores the case of ASCII letters, and of no others.
pub open spec fn same_nocase(a: Seq<char>, b: Seq<char>) -> bool {
    &&& a.len() == b.len()
    &&& forall|i: int| 0 <= i < a.len() ==> folded(#[trigger] a[i]) == folded(b[i])
}

fn fold(c: char) -> (r: char)
    ensures
        r == folded(c),
{
    if c >= 'A' && c <= 'Z' {
        ((c as u8) + 32) as char
    } else {
        c
    }
}

pub fn eq_nocase(a: &str, b: &str) -> (r: bool)
    ensures
        r == same_nocase(a@, b@),
{
    let x = chars_of(a);
    let y = chars_of(b);
    if x.len() != y.len() {
        return false;
    }
    let mut i: usize = 0;
    while i < x.len()
        invariant
            i <= x.len(),
            x@ == a@,
            y@ == b@,
            x.len() == y.len(),
            forall|j: int| 0 <= j < i ==> folded(#[trigger] x@[j]) == folded(y@[j]),
        decreases x.len() - i,
    {
        let fx = fold(x[i]);
        let fy = fold(y[i]);
        if fx != fy {
            assert(folded(a@[i as int]) != folded(b@[i as int]));
            return false;
        }
        i += 1;
    }
    true
}

// ---------------------------------------------------------------------------
// whitespace
// ---------------------------------------------------------------------------

/// The characters with the Unicode property `White_Space`.
pub open spec fn is_space(c: char) -> bool {
    ||| '\u{9}' <= c && c <= '\u{d}'
    ||| c == ' '
    ||| c == '\u{85}'
    ||| c == '\u{a0}'
    ||| c == '\u{1680}'
    ||| '\u{2000}' <= c && c <= '\u{200a}'
    ||| c == '\u{2028}'
    ||| c == '\u{2029}'
    ||| c == '\u{202f}'
    ||| c == '\u{205f}'
    ||| c == '\u{3000}'
}

pub fn space(c: char) -> (r: bool)
    ensures
        r == is_space(c),
{
    (c >= '\u{9}' && c <= '\u{d}') || c == ' ' || c == '\u{85}' || c == '\u{a0}' || c == '\u{1680}'
        || (c >= '\u{2000}' && c <= '\u{200a}') || c == '\u{2028}' || c == '\u{2029}'
        || c == '\u{202f}' || c == '\u{205f}' || c == '\u{3000}'
}

/// The text without the whitespace it starts with.
pub open spec fn trimmed_start(s: Seq<char>) -> Seq<char>
    decreases s.len(),
{
    if s.len() > 0 && is_space(s[0]) {
        trimmed_start(s.drop_first())
    } else {
        s
    }
}

/// The text without the whitespace it ends with.
pub open spec fn trimmed_end(s: Seq<char>) -> Seq<char>
    decreases s.len(),
{
    if s.len() > 0 && is_space(s.last()) {
        trimmed_end(s.drop_last())
    } else {
        s
    }
}

pub open spec fn trimmed(s: Seq<char>) -> Seq<char> {
    trimmed_end(trimmed_start(s))
}

pub fn trim_start(text: &str) -> (r: String)
    ensures
        r@ == trimmed_start(text@),
{
    let chars = chars_of(text);
    let mut i: usize = 0;
    assert(chars@.skip(0) == chars@);
    while i < chars.len() && space(chars[i])
        invariant
            i <= chars.len(),
            chars@ == text@,
            trimmed_start(text@) == trimmed_start(chars@.skip(i as int)),
        decreases chars.len() - i,
    {
        assert(chars@.skip(i as int).drop_first() == chars@.skip(i + 1));
        i += 1;
    }
    let out = slice_of(&chars, i, chars.len());
    assert(chars@.subrange(i as int, chars@.len() as int) == chars@.skip(i as int));
    out
}

pub fn trim_end(text: &str) -> (r: String)
    ensures
        r@ == trimmed_end(text@),
{
    let chars = chars_of(text);
    let mut n: usize = chars.len();
    assert(chars@.take(n as int) == chars@);
    while n > 0 && space(chars[n - 1])
        invariant
            n <= chars.len(),
            chars@ == text@,
            trimmed_end(text@) == trimmed_end(chars@.take(n as int)),
        decreases n,
    {
        assert(chars@.take(n as int).drop_last() == chars@.take(n - 1));
        n -= 1;
    }
    let out = slice_of(&chars, 0, n);
    assert(chars@.subrange(0, n as int) == chars@.take(n as int));
    out
}

pub fn trim(text: &str) -> (r: String)
    ensures
        r@ == trimmed(text@),
{
    let start = trim_start(text);
    trim_end(start.as_str())
}

/// The text without the run of `c` it starts with.
pub open spec fn stripped(s: Seq<char>, c: char) -> Seq<char>
    decreases s.len(),
{
    if s.len() > 0 && s[0] == c {
        stripped(s.drop_first(), c)
    } else {
        s
    }
}

pub fn strip_leading(text: &str, c: char) -> (r: String)
    ensures
        r@ == stripped(text@, c),
{
    let chars = chars_of(text);
    let mut i: usize = 0;
    assert(chars@.skip(0) == chars@);
    while i < chars.len() && chars[i] == c
        invariant
            i <= chars.len(),
            chars@ == text@,
            stripped(text@, c) == stripped(chars@.skip(i as int), c),
        decreases chars.len() - i,
    {
        assert(chars@.skip(i as int).drop_first() == chars@.skip(i + 1));
        i += 1;
    }
    let out = slice_of(&chars, i, chars.len());
    assert(chars@.subrange(i as int, chars@.len() as int) == chars@.skip(i as int));
    out
}

/// Whether any character of the text is whitespace.
pub open spec fn has_space(s: Seq<char>) -> bool {
    exists|i: int| 0 <= i < s.len() && is_space(#[trigger] s[i])
}

pub fn contains_space(text: &str) -> (r: bool)
    ensures
        r == has_space(text@),
{
    let chars = chars_of(text);
    let mut i: usize = 0;
    while i < chars.len()
        invariant
            i <= chars.len(),
            chars@ == text@,
            forall|j: int| 0 <= j < i ==> !is_space(#[trigger] chars@[j]),
        decreases chars.len() - i,
    {
        if space(chars[i]) {
            assert(is_space(text@[i as int]));
            return true;
        }
        i += 1;
    }
    false
}

// ---------------------------------------------------------------------------
// splitting
// ---------------------------------------------------------------------------

/// Where `c` first occurs, or the length of the text if it does not.
pub open spec fn find(s: Seq<char>, c: char) -> int
    decreases s.len(),
{
    if s.len() == 0 || s[0] == c {
        0
    } else {
        1 + find(s.drop_first(), c)
    }
}

/// Where whitespace first occurs, or the length of the text if there is none.
pub open spec fn find_space(s: Seq<char>) -> int
    decreases s.len(),
{
    if s.len() == 0 || is_space(s[0]) {
        0
    } else {
        1 + find_space(s.drop_first())
    }
}

pub proof fn lemma_find(s: Seq<char>, c: char, k: int)
    requires
        0 <= k <= s.len(),
        forall|j: int| 0 <= j < k ==> s[j] != c,
        k == s.len() || s[k] == c,
    ensures
        find(s, c) == k,
    decreases s.len(),
{
    if k > 0 {
        let t = s.drop_first();
        assert forall|j: int| 0 <= j < k - 1 implies t[j] != c by {
            assert(t[j] == s[j + 1]);
        }
        lemma_find(t, c, k - 1);
    }
}

pub proof fn lemma_find_bounds(s: Seq<char>, c: char)
    ensures
        0 <= find(s, c) <= s.len(),
        forall|j: int| 0 <= j < find(s, c) ==> s[j] != c,
        find(s, c) < s.len() ==> s[find(s, c)] == c,
    decreases s.len(),
{
    if s.len() > 0 && s[0] != c {
        let t = s.drop_first();
        lemma_find_bounds(t, c);
        assert forall|j: int| 0 <= j < find(s, c) implies s[j] != c by {
            if j > 0 {
                assert(t[j - 1] == s[j]);
            }
        }
    }
}

pub proof fn lemma_find_space(s: Seq<char>, k: int)
    requires
        0 <= k <= s.len(),
        forall|j: int| 0 <= j < k ==> !is_space(#[trigger] s[j]),
        k == s.len() || is_space(s[k]),
    ensures
        find_space(s) == k,
    decreases s.len(),
{
    if k > 0 {
        let t = s.drop_first();
        assert(!is_space(s[0]));
        assert forall|j: int| 0 <= j < k - 1 implies !is_space(#[trigger] t[j]) by {
            assert(t[j] == s[j + 1]);
        }
        lemma_find_space(t, k - 1);
    }
}

pub proof fn lemma_find_space_bounds(s: Seq<char>)
    ensures
        0 <= find_space(s) <= s.len(),
    decreases s.len(),
{
    if s.len() > 0 && !is_space(s[0]) {
        lemma_find_space_bounds(s.drop_first());
    }
}

/// The index of the first `c` at or after `from`, or the length.
pub fn find_from(chars: &Vec<char>, from: usize, c: char) -> (r: usize)
    requires
        from <= chars.len(),
    ensures
        from <= r <= chars.len(),
        r == from + find(chars@.skip(from as int), c),
        forall|j: int| from <= j < r ==> chars@[j] != c,
        r < chars.len() ==> chars@[r as int] == c,
{
    let mut i: usize = from;
    while i < chars.len() && chars[i] != c
        invariant
            from <= i <= chars.len(),
            forall|j: int| from <= j < i ==> chars@[j] != c,
        decreases chars.len() - i,
    {
        i += 1;
    }
    proof {
        let s = chars@.skip(from as int);
        assert forall|j: int| 0 <= j < i - from implies s[j] != c by {
            assert(s[j] == chars@[from + j]);
        }
        lemma_find(s, c, i - from);
    }
    i
}

/// The pieces of a text between the separators: `n` separators make `n + 1`
/// pieces, empty ones among them.
pub open spec fn pieces(s: Seq<char>, sep: char) -> Seq<Seq<char>>
    decreases s.len(),
{
    let k = find(s, sep);
    if 0 <= k < s.len() {
        seq![s.take(k)] + pieces(s.skip(k + 1), sep)
    } else {
        seq![s]
    }
}

pub fn split(text: &str, sep: char) -> (r: Vec<String>)
    ensures
        r.deep_view() == pieces(text@, sep),
{
    let chars = chars_of(text);
    let mut out: Vec<String> = Vec::new();
    let mut at: usize = 0;
    assert(chars@.skip(0) == chars@);
    assert(out.deep_view() + pieces(chars@, sep) == pieces(chars@, sep));
    loop
        invariant
            at <= chars.len(),
            chars@ == text@,
            out.deep_view() + pieces(chars@.skip(at as int), sep) == pieces(text@, sep),
        decreases chars.len() + 1 - at,
    {
        let end = find_from(&chars, at, sep);
        let piece = slice_of(&chars, at, end);
        let ghost before = out.deep_view();
        let ghost rest = chars@.skip(at as int);
        out.push(piece);
        assert(out.deep_view() == before.push(piece@));
        assert(piece@ == rest.take(end - at));
        if end == chars.len() {
            assert(rest.take(end - at) == rest);
            assert(before + seq![rest] == before.push(rest));
            return out;
        }
        assert(rest.skip(end - at + 1) == chars@.skip(end + 1));
        assert(before.push(piece@) + pieces(chars@.skip(end + 1), sep) == before + (seq![piece@]
            + pieces(chars@.skip(end + 1), sep)));
        at = end + 1;
    }
}

/// A line without the carriage return that may precede its line feed.
pub open spec fn without_return(s: Seq<char>) -> Seq<char> {
    if s.len() > 0 && s.last() == '\r' {
        s.drop_last()
    } else {
        s
    }
}

/// The lines of a text. A line ends at a line feed, or at a carriage return
/// and a line feed; nothing follows the last ending unless there is text
/// after it.
pub open spec fn lines_of(s: Seq<char>) -> Seq<Seq<char>>
    decreases s.len(),
{
    let k = find(s, '\n');
    if s.len() == 0 {
        seq![]
    } else if 0 <= k < s.len() {
        seq![without_return(s.take(k))] + lines_of(s.skip(k + 1))
    } else {
        seq![s]
    }
}

pub fn lines(text: &str) -> (r: Vec<String>)
    ensures
        r.deep_view() == lines_of(text@),
{
    let chars = chars_of(text);
    let mut out: Vec<String> = Vec::new();
    let mut at: usize = 0;
    assert(chars@.skip(0) == chars@);
    assert(out.deep_view() + lines_of(chars@) == lines_of(chars@));
    while at < chars.len()
        invariant
            at <= chars.len(),
            chars@ == text@,
            out.deep_view() + lines_of(chars@.skip(at as int)) == lines_of(text@),
        decreases chars.len() - at,
    {
        let end = find_from(&chars, at, '\n');
        let ghost before = out.deep_view();
        let ghost rest = chars@.skip(at as int);
        if end == chars.len() {
            let piece = slice_of(&chars, at, end);
            out.push(piece);
            assert(out.deep_view() == before.push(piece@));
            assert(piece@ == rest);
            assert(before + seq![rest] == before.push(rest));
            return out;
        }
        let stop = if end > at && chars[end - 1] == '\r' {
            end - 1
        } else {
            end
        };
        let piece = slice_of(&chars, at, stop);
        out.push(piece);
        assert(out.deep_view() == before.push(piece@));
        assert(piece@ == without_return(rest.take(end - at)));
        assert(rest.skip(end - at + 1) == chars@.skip(end + 1));
        assert(before.push(piece@) + lines_of(chars@.skip(end + 1)) == before + (seq![piece@]
            + lines_of(chars@.skip(end + 1))));
        at = end + 1;
    }
    assert(chars@.skip(at as int).len() == 0);
    assert(out.deep_view() + Seq::<Seq<char>>::empty() == out.deep_view());
    out
}

/// The words of a text: its maximal runs without whitespace.
pub open spec fn words_of(s: Seq<char>) -> Seq<Seq<char>>
    decreases s.len(),
    via words_of_decreases
{
    let t = trimmed_start(s);
    let k = find_space(t);
    if t.len() == 0 {
        seq![]
    } else {
        seq![t.take(k)] + words_of(t.skip(k))
    }
}

#[via_fn]
proof fn words_of_decreases(s: Seq<char>) {
    lemma_trimmed_start(s);
    let t = trimmed_start(s);
    lemma_find_space_bounds(t);
    if t.len() > 0 {
        assert(!is_space(t[0]));
        assert(find_space(t) > 0) by {
            lemma_find_space_bounds(t.drop_first());
        }
    }
}

/// Trimming the start leaves a suffix that does not start with whitespace.
pub proof fn lemma_trimmed_start(s: Seq<char>)
    ensures
        trimmed_start(s).len() <= s.len(),
        trimmed_start(s) == s.skip(s.len() - trimmed_start(s).len()),
        trimmed_start(s).len() > 0 ==> !is_space(trimmed_start(s)[0]),
        forall|j: int|
            0 <= j < s.len() - trimmed_start(s).len() ==> is_space(#[trigger] s[j]),
    decreases s.len(),
{
    if s.len() > 0 && is_space(s[0]) {
        let t = s.drop_first();
        lemma_trimmed_start(t);
        assert(t.skip(t.len() - trimmed_start(t).len()) == s.skip(
            s.len() - trimmed_start(s).len(),
        ));
        assert forall|j: int|
            0 <= j < s.len() - trimmed_start(s).len() implies is_space(#[trigger] s[j]) by {
            if j > 0 {
                assert(t[j - 1] == s[j]);
            }
        }
    } else {
        assert(s.skip(0) == s);
    }
}

pub proof fn lemma_trimmed_start_at(s: Seq<char>, k: int)
    requires
        0 <= k <= s.len(),
        forall|j: int| 0 <= j < k ==> is_space(#[trigger] s[j]),
        k == s.len() || !is_space(s[k]),
    ensures
        trimmed_start(s) == s.skip(k),
    decreases s.len(),
{
    if k > 0 {
        let t = s.drop_first();
        assert(is_space(s[0]));
        assert forall|j: int| 0 <= j < k - 1 implies is_space(#[trigger] t[j]) by {
            assert(t[j] == s[j + 1]);
        }
        lemma_trimmed_start_at(t, k - 1);
        assert(t.skip(k - 1) == s.skip(k));
    } else {
        assert(s.skip(0) == s);
    }
}

pub fn words(text: &str) -> (r: Vec<String>)
    ensures
        r.deep_view() == words_of(text@),
{
    let chars = chars_of(text);
    let mut out: Vec<String> = Vec::new();
    let mut at: usize = 0;
    assert(chars@.skip(0) == chars@);
    assert(out.deep_view() + words_of(chars@) == words_of(chars@));
    loop
        invariant
            at <= chars.len(),
            chars@ == text@,
            out.deep_view() + words_of(chars@.skip(at as int)) == words_of(text@),
        decreases chars.len() - at,
    {
        let mut start: usize = at;
        while start < chars.len() && space(chars[start])
            invariant
                at <= start <= chars.len(),
                forall|j: int| at <= j < start ==> is_space(#[trigger] chars@[j]),
            decreases chars.len() - start,
        {
            start += 1;
        }
        let ghost rest = chars@.skip(at as int);
        proof {
            assert forall|j: int| 0 <= j < start - at implies is_space(#[trigger] rest[j]) by {
                assert(rest[j] == chars@[at + j]);
            }
            lemma_trimmed_start_at(rest, start - at);
            assert(rest.skip(start - at) == chars@.skip(start as int));
        }
        if start == chars.len() {
            assert(out.deep_view() + Seq::<Seq<char>>::empty() == out.deep_view());
            return out;
        }
        let mut end: usize = start;
        while end < chars.len() && !space(chars[end])
            invariant
                start <= end <= chars.len(),
                forall|j: int| start <= j < end ==> !is_space(#[trigger] chars@[j]),
            decreases chars.len() - end,
        {
            end += 1;
        }
        let ghost t = chars@.skip(start as int);
        proof {
            assert forall|j: int| 0 <= j < end - start implies !is_space(#[trigger] t[j]) by {
                assert(t[j] == chars@[start + j]);
            }
            lemma_find_space(t, end - start);
        }
        let word = slice_of(&chars, start, end);
        let ghost before = out.deep_view();
        out.push(word);
        proof {
            assert(out.deep_view() == before.push(word@));
            assert(word@ == t.take(end - start));
            assert(t.skip(end - start) == chars@.skip(end as int));
            assert(before.push(word@) + words_of(chars@.skip(end as int)) == before + (seq![word@]
                + words_of(chars@.skip(end as int))));
        }
        at = end;
    }
}

/// A text cut at its first whitespace character, which belongs to neither
/// half; `None` if it has none.
pub open spec fn cut(s: Seq<char>) -> Option<(Seq<char>, Seq<char>)> {
    let k = find_space(s);
    if 0 <= k < s.len() {
        Some((s.take(k), s.skip(k + 1)))
    } else {
        None
    }
}

pub fn split_once_space(text: &str) -> (r: Option<(String, String)>)
    ensures
        match r {
            Some(halves) => cut(text@) == Some((halves.0@, halves.1@)),
            None => cut(text@) is None,
        },
{
    let chars = chars_of(text);
    let mut k: usize = 0;
    while k < chars.len() && !space(chars[k])
        invariant
            k <= chars.len(),
            chars@ == text@,
            forall|j: int| 0 <= j < k ==> !is_space(#[trigger] chars@[j]),
        decreases chars.len() - k,
    {
        k += 1;
    }
    proof {
        lemma_find_space(text@, k as int);
    }
    if k == chars.len() {
        return None;
    }
    let first = slice_of(&chars, 0, k);
    let second = slice_of(&chars, k + 1, chars.len());
    assert(first@ == text@.take(k as int));
    assert(second@ == text@.skip(k + 1));
    Some((first, second))
}

/// Strings joined with a separator between each two.
pub open spec fn joined(parts: Seq<Seq<char>>, sep: Seq<char>) -> Seq<char>
    decreases parts.len(),
{
    if parts.len() == 0 {
        seq![]
    } else if parts.len() == 1 {
        parts[0]
    } else {
        joined(parts.drop_last(), sep) + sep + parts.last()
    }
}

pub fn join(parts: &Vec<String>, sep: &str) -> (r: String)
    ensures
        r@ == joined(parts.deep_view(), sep@),
{
    let mut out = String::new();
    let mut i: usize = 0;
    let ghost all = parts.deep_view();
    while i < parts.len()
        invariant
            i <= parts.len(),
            all == parts.deep_view(),
            out@ == joined(all.take(i as int), sep@),
        decreases parts.len() - i,
    {
        if i > 0 {
            out.append(sep);
        }
        out.append(parts[i].as_str());
        proof {
            let next = all.take(i + 1);
            assert(next.drop_last() == all.take(i as int));
            assert(next.last() == parts[i as int]@);
            if i == 0 {
                assert(out@ == parts[0]@);
            }
        }
        i += 1;
    }
    assert(all.take(all.len() as int) == all);
    out
}

// ---------------------------------------------------------------------------
// bytes
// ---------------------------------------------------------------------------

/// [`String::from_utf8`]: the text that bytes encode, or nothing if they are
/// not valid UTF-8.
#[verifier::external_body]
pub(crate) fn utf8_text(bytes: Vec<u8>) -> (r: Option<String>)
    ensures
        match r {
            Some(s) => valid_utf8(bytes@) && s@ == decode_utf8(bytes@),
            None => !valid_utf8(bytes@),
        },
{
    String::from_utf8(bytes).ok()
}

// ---------------------------------------------------------------------------
// what these come to
// ---------------------------------------------------------------------------

/// Blanks, tabs and line ends are whitespace; no ASCII character that can be
/// seen is.
pub proof fn what_is_seen_is_no_space(c: char)
    ensures
        is_space(' ') && is_space('\t') && is_space('\n') && is_space('\r'),
        '!' <= c && c <= '~' ==> !is_space(c),
        is_space(c) <==> {
            let n = c as u32;
            ||| n < 128 && (9 <= n <= 13 || n == 32)
            ||| 128 <= n < 0x2000 && (n == 133 || n == 160 || n == 5760)
            ||| 0x2000 <= n < 0x2100 && (n <= 0x200a || n == 0x2028 || n == 0x2029 || n == 0x202f
                || n == 0x205f)
            ||| n == 0x3000
        },
{
}

/// Only the case of the letters a to z is ignored, and each letter is its own.
pub proof fn case_is_all_that_is_ignored(c: char, d: char)
    ensures
        same_nocase(seq![c], seq![d]) <==> {
            ||| c == d
            ||| 'A' <= c && c <= 'Z' && d as u32 == c as u32 + 32
            ||| 'A' <= d && d <= 'Z' && c as u32 == d as u32 + 32
        },
{
    if same_nocase(seq![c], seq![d]) {
        assert(folded(seq![c][0]) == folded(seq![d][0]));
    } else {
        assert(folded(c) != folded(d)) by {
            if folded(c) == folded(d) {
                assert(same_nocase(seq![c], seq![d]));
            }
        }
    }
}

/// Being the same but for case is an equivalence, and goes character by
/// character.
pub proof fn sameness_is_an_equivalence(a: Seq<char>, b: Seq<char>, c: Seq<char>)
    ensures
        same_nocase(a, a),
        same_nocase(a, b) ==> same_nocase(b, a),
        same_nocase(a, b) && same_nocase(b, c) ==> same_nocase(a, c),
        same_nocase(a, b) <==> a.len() == b.len() && forall|i: int|
            0 <= i < a.len() ==> same_nocase(seq![#[trigger] a[i]], seq![b[i]]),
{
    if same_nocase(a, b) {
        assert forall|i: int| 0 <= i < b.len() implies folded(#[trigger] b[i]) == folded(a[i]) by {
            assert(folded(a[i]) == folded(b[i]));
        }
        if same_nocase(b, c) {
            assert forall|i: int| 0 <= i < a.len() implies folded(#[trigger] a[i]) == folded(
                c[i],
            ) by {
                assert(folded(b[i]) == folded(c[i]));
            }
        }
    }
    if a.len() == b.len() && forall|i: int|
        0 <= i < a.len() ==> same_nocase(seq![#[trigger] a[i]], seq![b[i]]) {
        assert forall|i: int| 0 <= i < a.len() implies folded(#[trigger] a[i]) == folded(b[i]) by {
            assert(same_nocase(seq![a[i]], seq![b[i]]));
            assert(folded(seq![a[i]][0]) == folded(seq![b[i]][0]));
        }
    }
}

/// Texts are ordered by the first character in which they differ, and one that
/// the other goes on from comes first.
pub proof fn texts_are_ordered_by_their_first_difference(
    head: Seq<char>,
    c: char,
    a: Seq<char>,
    d: char,
    b: Seq<char>,
)
    requires
        c != d,
    ensures
        text_le(head + seq![c] + a, head + seq![d] + b) <==> c < d,
        text_le(head, head + b),
    decreases head.len(),
{
    let x = head + seq![c] + a;
    let y = head + seq![d] + b;
    if head.len() > 0 {
        let t = head.drop_first();
        texts_are_ordered_by_their_first_difference(t, c, a, d, b);
        assert(x.drop_first() =~= t + seq![c] + a);
        assert(y.drop_first() =~= t + seq![d] + b);
        assert((head + b).drop_first() =~= t + b);
        assert(x[0] == head[0] && y[0] == head[0]);
        assert((head + b)[0] == head[0]);
    } else {
        assert(x[0] == c && y[0] == d);
    }
}

/// Trimming the end leaves a prefix that does not end with whitespace.
pub proof fn lemma_trimmed_end(s: Seq<char>)
    ensures
        trimmed_end(s).len() <= s.len(),
        trimmed_end(s) == s.take(trimmed_end(s).len() as int),
        trimmed_end(s).len() > 0 ==> !is_space(trimmed_end(s).last()),
        forall|j: int| trimmed_end(s).len() <= j < s.len() ==> is_space(#[trigger] s[j]),
    decreases s.len(),
{
    if s.len() > 0 && is_space(s.last()) {
        let t = s.drop_last();
        lemma_trimmed_end(t);
        assert(t.take(trimmed_end(t).len() as int) =~= s.take(trimmed_end(s).len() as int));
        assert forall|j: int| trimmed_end(s).len() <= j < s.len() implies is_space(
            #[trigger] s[j],
        ) by {
            if j < t.len() {
                assert(t[j] == s[j]);
            }
        }
    } else {
        assert(s.take(s.len() as int) =~= s);
    }
}

/// Trimming takes off whitespace at the ends, all of it and nothing else.
pub proof fn trimming_takes_the_blanks_off_the_ends(s: Seq<char>)
    ensures
        exists|i: int, j: int|
            0 <= i <= j <= s.len() && trimmed(s) == #[trigger] s.subrange(i, j) && (forall|k: int|
                0 <= k < i || j <= k < s.len() ==> is_space(#[trigger] s[k])),
        trimmed(s).len() > 0 ==> !is_space(trimmed(s)[0]) && !is_space(trimmed(s).last()),
{
    lemma_trimmed_start(s);
    let t = trimmed_start(s);
    lemma_trimmed_end(t);
    let i = s.len() - t.len();
    let j = i + trimmed(s).len();
    assert(trimmed(s) =~= s.subrange(i, j));
    assert forall|k: int| 0 <= k < i || j <= k < s.len() implies is_space(#[trigger] s[k]) by {
        if k >= j {
            assert(t[k - i] == s[k]);
        }
    }
}

/// A text is cut at the separator and nowhere else: what stands before the
/// first one is the first piece, and the rest is cut up in turn.
pub proof fn pieces_lie_between_separators(a: Seq<char>, b: Seq<char>, sep: char)
    requires
        !a.contains(sep),
    ensures
        pieces(a, sep) == seq![a],
        pieces(a + seq![sep] + b, sep) == seq![a] + pieces(b, sep),
{
    assert forall|j: int| 0 <= j < a.len() implies a[j] != sep by {
        assert(a.contains(a[j]));
    }
    lemma_find(a, sep, a.len() as int);
    let s = a + seq![sep] + b;
    assert forall|j: int| 0 <= j < a.len() implies s[j] != sep by {
        assert(s[j] == a[j]);
    }
    lemma_find(s, sep, a.len() as int);
    assert(s.take(a.len() as int) =~= a);
    assert(s.skip(a.len() as int + 1) =~= b);
}

/// Lines are what stands between line ends, whichever of the two kinds those
/// are; an end behind the last line adds none.
pub proof fn lines_lie_between_line_ends(a: Seq<char>, b: Seq<char>)
    requires
        !a.contains('\n'),
    ensures
        a.len() > 0 ==> lines_of(a) == seq![a],
        lines_of(Seq::<char>::empty()) == Seq::<Seq<char>>::empty(),
        lines_of(a + seq!['\r', '\n'] + b) == seq![a] + lines_of(b),
        a.len() == 0 || a.last() != '\r' ==> lines_of(a + seq!['\n'] + b) == seq![a] + lines_of(b),
{
    assert forall|j: int| 0 <= j < a.len() implies a[j] != '\n' by {
        assert(a.contains(a[j]));
    }
    lemma_find(a, '\n', a.len() as int);
    let s = a + seq!['\n'] + b;
    assert forall|j: int| 0 <= j < a.len() implies s[j] != '\n' by {
        assert(s[j] == a[j]);
    }
    lemma_find(s, '\n', a.len() as int);
    assert(s.take(a.len() as int) =~= a);
    assert(s.skip(a.len() as int + 1) =~= b);
    let t = a + seq!['\r', '\n'] + b;
    let n = a.len() + 1;
    assert forall|j: int| 0 <= j < n implies t[j] != '\n' by {
        if j < a.len() {
            assert(t[j] == a[j]);
        }
    }
    assert(t[n as int] == '\n');
    lemma_find(t, '\n', n as int);
    assert(t.take(n as int).drop_last() =~= a);
    assert(t.take(n as int).last() == '\r');
    assert(t.skip(n as int + 1) =~= b);
}

/// Words are what stands between whitespace, however much of it there is.
pub proof fn words_lie_between_spaces(w: Seq<char>, c: char, rest: Seq<char>)
    requires
        is_space(c),
    ensures
        words_of(seq![c] + rest) == words_of(rest),
        w.len() > 0 && !has_space(w) ==> words_of(w) == seq![w],
        w.len() > 0 && !has_space(w) ==> words_of(w + seq![c] + rest) == seq![w] + words_of(rest),
        words_of(Seq::<char>::empty()) == Seq::<Seq<char>>::empty(),
{
    let lead = seq![c] + rest;
    assert(lead.drop_first() =~= rest);
    assert(trimmed_start(lead) == trimmed_start(rest));
    if w.len() > 0 && !has_space(w) {
        assert forall|j: int| 0 <= j < w.len() implies !is_space(#[trigger] w[j]) by {}
        let none = Seq::<char>::empty();
        assert(trimmed_start(none) == none);
        assert(words_of(none) =~= Seq::<Seq<char>>::empty());
        assert(!is_space(w[0]));
        lemma_find_space(w, w.len() as int);
        assert(w.take(w.len() as int) =~= w);
        assert(w.skip(w.len() as int) =~= none);
        assert(words_of(w) == seq![w] + words_of(none));
        let s = w + seq![c] + rest;
        assert forall|j: int| 0 <= j < w.len() implies !is_space(#[trigger] s[j]) by {
            assert(s[j] == w[j]);
        }
        assert(s[w.len() as int] == c);
        assert(s[0] == w[0]);
        lemma_find_space(s, w.len() as int);
        assert(s.take(w.len() as int) =~= w);
        assert(s.skip(w.len() as int) =~= lead);
    }
}

/// A text is cut in two at its first whitespace character, which is dropped;
/// a text without whitespace is not cut.
pub proof fn a_text_is_cut_at_its_first_space(a: Seq<char>, c: char, b: Seq<char>)
    requires
        !has_space(a),
        is_space(c),
    ensures
        cut(a) is None,
        cut(a + seq![c] + b) == Some((a, b)),
{
    assert forall|j: int| 0 <= j < a.len() implies !is_space(#[trigger] a[j]) by {}
    lemma_find_space(a, a.len() as int);
    let s = a + seq![c] + b;
    assert forall|j: int| 0 <= j < a.len() implies !is_space(#[trigger] s[j]) by {
        assert(s[j] == a[j]);
    }
    assert(s[a.len() as int] == c);
    lemma_find_space(s, a.len() as int);
    assert(s.take(a.len() as int) =~= a);
    assert(s.skip(a.len() as int + 1) =~= b);
}

/// Stripping a leading character takes off all of it at the front.
pub proof fn stripping_takes_the_lead_off(c: char, n: nat, s: Seq<char>)
    requires
        s.len() > 0 ==> s[0] != c,
    ensures
        stripped(repeated(c, n) + s, c) == s,
    decreases n,
{
    let t = repeated(c, n) + s;
    if n == 0 {
        assert(t =~= s);
    } else {
        assert(t[0] == c);
        assert(t.drop_first() =~= repeated(c, (n - 1) as nat) + s);
        stripping_takes_the_lead_off(c, (n - 1) as nat, s);
    }
}

/// Parts are joined in order, with the separator between each two of them.
pub proof fn parts_are_joined_by_the_separator(parts: Seq<Seq<char>>, p: Seq<char>, sep: Seq<char>)
    ensures
        joined(Seq::<Seq<char>>::empty(), sep) == Seq::<char>::empty(),
        joined(seq![p], sep) == p,
        parts.len() > 0 ==> joined(parts.push(p), sep) == joined(parts, sep) + sep + p,
{
    if parts.len() > 0 {
        assert(parts.push(p).drop_last() =~= parts);
        assert(parts.push(p).last() == p);
    }
}

/// What was cut up at a character comes back when it is joined by that
/// character.
pub proof fn joining_undoes_splitting(s: Seq<char>, sep: char)
    ensures
        pieces(s, sep).len() > 0,
        joined(pieces(s, sep), seq![sep]) == s,
    decreases s.len(),
{
    lemma_find_bounds(s, sep);
    let k = find(s, sep);
    if k < s.len() {
        let rest = s.skip(k + 1);
        joining_undoes_splitting(rest, sep);
        lemma_joined_front(s.take(k), pieces(rest, sep), seq![sep]);
        assert(s =~= s.take(k) + seq![sep] + rest);
    }
}

proof fn lemma_joined_front(p: Seq<char>, parts: Seq<Seq<char>>, sep: Seq<char>)
    requires
        parts.len() > 0,
    ensures
        joined(seq![p] + parts, sep) == p + sep + joined(parts, sep),
    decreases parts.len(),
{
    let all = seq![p] + parts;
    if parts.len() == 1 {
        assert(all.drop_last() =~= seq![p]);
        assert(all.last() == parts[0]);
        assert(joined(seq![p], sep) == p);
    } else {
        let front = parts.drop_last();
        lemma_joined_front(p, front, sep);
        assert(all.drop_last() =~= seq![p] + front);
        assert(all.last() == parts.last());
        assert(p + sep + joined(front, sep) + sep + parts.last() =~= p + sep + (joined(front, sep)
            + sep + parts.last()));
    }
}

} // verus!
