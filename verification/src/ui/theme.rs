//! Colour handling.
//!
//! Every colour in the UI is authored once as 0xRRGGBB and degraded at render
//! time to whatever the terminal actually supports: truecolor, the xterm 256
//! cube, or the 16 ANSI colours on a plain console. Backgrounds are left
//! unset wherever possible so the terminal's own theme shows through.
use vstd::prelude::*;

use crate::text::{contains_text, occurs, same};
use crate::ui::style::Color;

verus! {

#[derive(Debug, Clone, Copy, PartialEq, Eq, Structural)]
pub enum Depth {
    Truecolor,
    Ansi256,
    Ansi16,
}

/// The depth that a value of `TERM` promises on its own.
pub open spec fn depth_for_term(term: Seq<char>) -> Depth {
    if occurs(term, "256color"@) || occurs(term, "direct"@) {
        Depth::Ansi256
    } else {
        Depth::Ansi16
    }
}

/// The depth that `COLORTERM` and `TERM` promise together.
pub open spec fn depth_for(colorterm: Seq<char>, term: Seq<char>) -> Depth {
    if occurs(colorterm, "truecolor"@) || occurs(colorterm, "24bit"@) {
        Depth::Truecolor
    } else {
        depth_for_term(term)
    }
}

impl Depth {
    /// Best guess from the values of `COLORTERM` and `TERM`, the way most
    /// terminal apps do it. An unset variable is the empty string.
    pub fn detect(colorterm: &str, term: &str) -> (r: Depth)
        ensures
            r == depth_for(colorterm@, term@),
    {
        if contains_text(colorterm, "truecolor") || contains_text(colorterm, "24bit") {
            return Depth::Truecolor;
        }
        Depth::for_term(term)
    }

    /// ssh does not forward `COLORTERM`, so `TERM` alone decides there.
    pub fn for_term(term: &str) -> (r: Depth)
        ensures
            r == depth_for_term(term@),
    {
        if contains_text(term, "256color") || contains_text(term, "direct") {
            return Depth::Ansi256;
        }
        Depth::Ansi16
    }
}

#[derive(Debug, Clone, Copy, PartialEq, Eq, Structural)]
pub struct Palette {
    pub fg: u32,
    pub dim: u32,
    pub border: u32,
    pub border_focus: u32,
    pub accent: u32,
    pub selection: u32,
    pub ok: u32,
    pub warn: u32,
    pub code: u32,
    pub quote: u32,
    /// The status bar, by mode, and while a refused command flashes.
    pub mode_normal: u32,
    pub mode_insert: u32,
    pub mode_command: u32,
    pub mode_error: u32,
}

pub open spec fn dark_palette() -> Palette {
    Palette {
        fg: 0xc8ccd4,
        dim: 0x6b7280,
        border: 0x3b4048,
        border_focus: 0x61afef,
        accent: 0x61afef,
        selection: 0x2c323c,
        ok: 0x98c379,
        warn: 0xe5c07b,
        code: 0xd19a66,
        quote: 0x7f8c98,
        mode_normal: 0x61afef,
        mode_insert: 0x98c379,
        mode_command: 0xe5c07b,
        mode_error: 0xe06c75,
    }
}

pub open spec fn light_palette() -> Palette {
    Palette {
        fg: 0x24292f,
        dim: 0x6e7781,
        border: 0xd0d7de,
        border_focus: 0x0969da,
        accent: 0x0969da,
        selection: 0xeaeef2,
        ok: 0x1a7f37,
        warn: 0x9a6700,
        code: 0x953800,
        quote: 0x6e7781,
        mode_normal: 0x0969da,
        mode_insert: 0x1a7f37,
        mode_command: 0x9a6700,
        mode_error: 0xcf222e,
    }
}

pub fn dark() -> (r: Palette)
    ensures
        r == dark_palette(),
{
    Palette {
        fg: 0xc8ccd4,
        dim: 0x6b7280,
        border: 0x3b4048,
        border_focus: 0x61afef,
        accent: 0x61afef,
        selection: 0x2c323c,
        ok: 0x98c379,
        warn: 0xe5c07b,
        code: 0xd19a66,
        quote: 0x7f8c98,
        mode_normal: 0x61afef,
        mode_insert: 0x98c379,
        mode_command: 0xe5c07b,
        mode_error: 0xe06c75,
    }
}

pub fn light() -> (r: Palette)
    ensures
        r == light_palette(),
{
    Palette {
        fg: 0x24292f,
        dim: 0x6e7781,
        border: 0xd0d7de,
        border_focus: 0x0969da,
        accent: 0x0969da,
        selection: 0xeaeef2,
        ok: 0x1a7f37,
        warn: 0x9a6700,
        code: 0x953800,
        quote: 0x6e7781,
        mode_normal: 0x0969da,
        mode_insert: 0x1a7f37,
        mode_command: 0x9a6700,
        mode_error: 0xcf222e,
    }
}

#[derive(Debug)]
pub struct Theme {
    pub name: String,
    pub depth: Depth,
    pub palette: Palette,
    /// When set, every colour resolves to the terminal default -- useful if a
    /// console's palette fights ours.
    pub mono: bool,
}

/// The palette and the mono flag that a theme name stands for.
pub open spec fn named_theme(name: Seq<char>) -> Option<(Palette, bool)> {
    if name == "dark"@ {
        Some((dark_palette(), false))
    } else if name == "light"@ {
        Some((light_palette(), false))
    } else if name == "mono"@ {
        Some((dark_palette(), true))
    } else {
        None
    }
}

impl Clone for Theme {
    fn clone(&self) -> (r: Theme)
        ensures
            r == *self,
    {
        Theme { name: self.name.clone(), depth: self.depth, palette: self.palette, mono: self.mono }
    }
}

impl Theme {
    /// The theme a session starts with.
    pub fn new(depth: Depth) -> (r: Theme)
        ensures
            r.name@ == "dark"@,
            r.depth == depth,
            r.palette == dark_palette(),
            !r.mono,
    {
        Theme { name: "dark".to_owned(), depth, palette: dark(), mono: false }
    }

    /// The theme for a client that told us only its `TERM`.
    pub fn for_term(term: &str) -> (r: Theme)
        ensures
            r.name@ == "dark"@,
            r.depth == depth_for_term(term@),
            r.palette == dark_palette(),
            !r.mono,
    {
        Theme::new(Depth::for_term(term))
    }

    /// `:theme <name>`. Returns false if the name is unknown, and then changes
    /// nothing.
    pub fn set(&mut self, name: &str) -> (r: bool)
        ensures
            match named_theme(name@) {
                Some(named) => {
                    &&& r
                    &&& final(self).name@ == name@
                    &&& final(self).palette == named.0
                    &&& final(self).mono == named.1
                    &&& final(self).depth == old(self).depth
                },
                None => !r && *final(self) == *old(self),
            },
    {
        if same(name, "dark") {
            self.palette = dark();
            self.mono = false;
        } else if same(name, "light") {
            self.palette = light();
            self.mono = false;
        } else if same(name, "mono") {
            self.palette = dark();
            self.mono = true;
        } else {
            return false;
        }
        self.name = name.to_owned();
        true
    }

    pub fn names() -> (r: Vec<&'static str>)
        ensures
            r@.len() == 3,
            r@[0]@ == "dark"@,
            r@[1]@ == "light"@,
            r@[2]@ == "mono"@,
    {
        let mut out: Vec<&'static str> = Vec::new();
        out.push("dark");
        out.push("light");
        out.push("mono");
        out
    }

    /// What an authored colour looks like under this theme.
    pub open spec fn shows(self, rgb: u32) -> Color {
        if self.mono {
            Color::Reset
        } else {
            let (r, g, b) = channels(rgb);
            match self.depth {
                Depth::Truecolor => Color::Rgb(r, g, b),
                Depth::Ansi256 => Color::Indexed(index_256(r, g, b) as u8),
                Depth::Ansi16 => Color::Indexed(nearest_ansi(r, g, b, 16) as u8),
            }
        }
    }

    /// Degrade an authored colour to something this terminal can show.
    pub fn color(&self, rgb: u32) -> (c: Color)
        ensures
            c == self.shows(rgb),
    {
        if self.mono {
            return Color::Reset;
        }
        let (r, g, b) = unpack(rgb);
        match self.depth {
            Depth::Truecolor => Color::Rgb(r, g, b),
            Depth::Ansi256 => Color::Indexed(to_256(r, g, b)),
            Depth::Ansi16 => Color::Indexed(to_16(r, g, b)),
        }
    }

    pub fn fg(&self) -> (c: Color)
        ensures
            c == self.shows(self.palette.fg),
    {
        self.color(self.palette.fg)
    }

    pub fn dim(&self) -> (c: Color)
        ensures
            c == self.shows(self.palette.dim),
    {
        self.color(self.palette.dim)
    }

    pub fn border(&self, focused: bool) -> (c: Color)
        ensures
            c == self.shows(
                if focused {
                    self.palette.border_focus
                } else {
                    self.palette.border
                },
            ),
    {
        if focused {
            self.color(self.palette.border_focus)
        } else {
            self.color(self.palette.border)
        }
    }

    pub fn accent(&self) -> (c: Color)
        ensures
            c == self.shows(self.palette.accent),
    {
        self.color(self.palette.accent)
    }

    pub fn selection(&self) -> (c: Color)
        ensures
            c == self.shows(self.palette.selection),
    {
        self.color(self.palette.selection)
    }

    /// The background of the status bar.
    pub fn bar_color(&self, rgb: u32) -> (c: Color)
        ensures
            c == self.shows(rgb),
    {
        self.color(rgb)
    }
}

/// The red, green and blue bytes of a packed 0xRRGGBB.
pub open spec fn channels(rgb: u32) -> (u8, u8, u8) {
    (
        ((rgb / 0x10000) % 0x100) as u8,
        ((rgb / 0x100) % 0x100) as u8,
        (rgb % 0x100) as u8,
    )
}

pub fn unpack(rgb: u32) -> (r: (u8, u8, u8))
    ensures
        r == channels(rgb),
{
    assert((rgb >> 16) & 0xff == (rgb / 0x10000) % 0x100) by (bit_vector);
    assert((rgb >> 8) & 0xff == (rgb / 0x100) % 0x100) by (bit_vector);
    assert(rgb & 0xff == rgb % 0x100) by (bit_vector);
    (((rgb >> 16) & 0xff) as u8, ((rgb >> 8) & 0xff) as u8, (rgb & 0xff) as u8)
}

// ---------------------------------------------------------------------------
// the 256 colours of xterm
// ---------------------------------------------------------------------------

/// The intensities along one edge of the colour cube.
pub open spec fn cube_level(i: int) -> int {
    if i == 0 {
        0
    } else if i == 1 {
        95
    } else if i == 2 {
        135
    } else if i == 3 {
        175
    } else if i == 4 {
        215
    } else {
        255
    }
}

pub open spec fn distance(a: int, b: int) -> int {
    if a < b {
        b - a
    } else {
        a - b
    }
}

/// Among the first `n` levels, the one nearest to `v`; the lower of two that
/// are equally near.
pub open spec fn nearest_level(v: u8, n: nat) -> nat
    decreases n,
{
    if n <= 1 {
        0
    } else {
        let best = nearest_level(v, (n - 1) as nat);
        if distance(v as int, cube_level(n - 1)) < distance(v as int, cube_level(best as int)) {
            (n - 1) as nat
        } else {
            best
        }
    }
}

pub open spec fn max3(a: u8, b: u8, c: u8) -> u8 {
    if a >= b && a >= c {
        a
    } else if b >= c {
        b
    } else {
        c
    }
}

pub open spec fn min3(a: u8, b: u8, c: u8) -> u8 {
    if a <= b && a <= c {
        a
    } else if b <= c {
        b
    } else {
        c
    }
}

/// The index of a colour in the xterm palette: on the grayscale ramp when the
/// channels are within 12 of each other, and in the 6x6x6 cube otherwise. The
/// ramp has 24 entries and ends at 255; what lies below or above it is the
/// black or the white of the cube.
pub open spec fn index_256(r: u8, g: u8, b: u8) -> int {
    if max3(r, g, b) - min3(r, g, b) < 12 {
        let level = (r + g + b) / 3;
        if level < 8 {
            16
        } else if level > 238 {
            231
        } else if level == 238 {
            255
        } else {
            232 + (level - 8) * 24 / 230
        }
    } else {
        16 + 36 * (nearest_level(r, 6) as int) + 6 * nearest_level(g, 6) + nearest_level(b, 6)
    }
}

proof fn lemma_nearest_level_below(v: u8, n: nat)
    requires
        n >= 1,
    ensures
        nearest_level(v, n) < n,
    decreases n,
{
    if n > 1 {
        lemma_nearest_level_below(v, (n - 1) as nat);
    }
}

/// No level of the cube is nearer than the one chosen.
pub proof fn nearest_level_is_nearest(v: u8, n: nat, other: int)
    requires
        1 <= n <= 6,
        0 <= other < n,
    ensures
        nearest_level(v, n) < n,
        distance(v as int, cube_level(nearest_level(v, n) as int)) <= distance(
            v as int,
            cube_level(other),
        ),
        distance(v as int, cube_level(nearest_level(v, n) as int)) == distance(
            v as int,
            cube_level(other),
        ) ==> nearest_level(v, n) <= other,
    decreases n,
{
    lemma_nearest_level_below(v, n);
    if n > 1 {
        lemma_nearest_level_below(v, (n - 1) as nat);
        if other < n - 1 {
            nearest_level_is_nearest(v, (n - 1) as nat, other);
        } else {
            nearest_level_is_nearest(v, (n - 1) as nat, nearest_level(v, (n - 1) as nat) as int);
        }
    }
}

fn level_at(i: u8) -> (r: u8)
    requires
        i < 6,
    ensures
        r == cube_level(i as int),
{
    match i {
        0 => 0,
        1 => 95,
        2 => 135,
        3 => 175,
        4 => 215,
        _ => 255,
    }
}

fn gap(a: u8, b: u8) -> (r: u8)
    ensures
        r == distance(a as int, b as int),
{
    if a < b {
        b - a
    } else {
        a - b
    }
}

fn quantize(v: u8) -> (r: u8)
    ensures
        r == nearest_level(v, 6),
        r < 6,
{
    let mut best: u8 = 0;
    let mut i: u8 = 1;
    while i < 6
        invariant
            1 <= i <= 6,
            best == nearest_level(v, i as nat),
            best < i,
        decreases 6 - i,
    {
        if gap(v, level_at(i)) < gap(v, level_at(best)) {
            best = i;
        }
        i += 1;
    }
    best
}

/// xterm-256: the 6x6x6 colour cube, or the grayscale ramp when the channels
/// are close enough together.
pub fn to_256(r: u8, g: u8, b: u8) -> (index: u8)
    ensures
        index == index_256(r, g, b),
        index >= 16,
{
    let max = if r >= g && r >= b {
        r
    } else if g >= b {
        g
    } else {
        b
    };
    let min = if r <= g && r <= b {
        r
    } else if g <= b {
        g
    } else {
        b
    };
    if max - min < 12 {
        let level: u32 = (r as u32 + g as u32 + b as u32) / 3;
        if level < 8 {
            return 16;
        }
        if level > 238 {
            return 231;
        }
        if level == 238 {
            return 255;
        }
        return (232 + (level - 8) * 24 / 230) as u8;
    }
    let (qr, qg, qb) = (quantize(r), quantize(g), quantize(b));
    16 + 36 * qr + 6 * qg + qb
}

// ---------------------------------------------------------------------------
// the 16 ANSI colours
// ---------------------------------------------------------------------------

/// The 16 ANSI colours, as most terminals render them. Used only to pick the
/// nearest index -- the terminal's own palette decides what is actually drawn,
/// which is what we want on a console themed by its owner.
pub open spec fn ansi_color(i: int) -> (u8, u8, u8) {
    if i == 0 {
        (0x00, 0x00, 0x00)
    } else if i == 1 {
        (0xaa, 0x00, 0x00)
    } else if i == 2 {
        (0x00, 0xaa, 0x00)
    } else if i == 3 {
        (0xaa, 0x55, 0x00)
    } else if i == 4 {
        (0x00, 0x00, 0xaa)
    } else if i == 5 {
        (0xaa, 0x00, 0xaa)
    } else if i == 6 {
        (0x00, 0xaa, 0xaa)
    } else if i == 7 {
        (0xaa, 0xaa, 0xaa)
    } else if i == 8 {
        (0x55, 0x55, 0x55)
    } else if i == 9 {
        (0xff, 0x55, 0x55)
    } else if i == 10 {
        (0x55, 0xff, 0x55)
    } else if i == 11 {
        (0xff, 0xff, 0x55)
    } else if i == 12 {
        (0x55, 0x55, 0xff)
    } else if i == 13 {
        (0xff, 0x55, 0xff)
    } else if i == 14 {
        (0x55, 0xff, 0xff)
    } else {
        (0xff, 0xff, 0xff)
    }
}

fn ansi_at(i: u8) -> (r: (u8, u8, u8))
    requires
        i < 16,
    ensures
        r == ansi_color(i as int),
{
    match i {
        0 => (0x00, 0x00, 0x00),
        1 => (0xaa, 0x00, 0x00),
        2 => (0x00, 0xaa, 0x00),
        3 => (0xaa, 0x55, 0x00),
        4 => (0x00, 0x00, 0xaa),
        5 => (0xaa, 0x00, 0xaa),
        6 => (0x00, 0xaa, 0xaa),
        7 => (0xaa, 0xaa, 0xaa),
        8 => (0x55, 0x55, 0x55),
        9 => (0xff, 0x55, 0x55),
        10 => (0x55, 0xff, 0x55),
        11 => (0xff, 0xff, 0x55),
        12 => (0x55, 0x55, 0xff),
        13 => (0xff, 0x55, 0xff),
        14 => (0x55, 0xff, 0xff),
        _ => (0xff, 0xff, 0xff),
    }
}

/// The squared distance between two colours, weighted to match perceived
/// brightness rather than raw distance.
pub open spec fn color_distance(r: u8, g: u8, b: u8, c: (u8, u8, u8)) -> int {
    let (dr, dg, db) = (r - c.0, g - c.1, b - c.2);
    2 * (dr * dr) + 4 * (dg * dg) + 3 * (db * db)
}

/// Among the first `n` ANSI colours, the one nearest to the given one; the
/// lower of two that are equally near.
pub open spec fn nearest_ansi(r: u8, g: u8, b: u8, n: nat) -> nat
    decreases n,
{
    if n <= 1 {
        0
    } else {
        let best = nearest_ansi(r, g, b, (n - 1) as nat);
        if color_distance(r, g, b, ansi_color(n - 1)) < color_distance(
            r,
            g,
            b,
            ansi_color(best as int),
        ) {
            (n - 1) as nat
        } else {
            best
        }
    }
}

proof fn lemma_nearest_ansi_below(r: u8, g: u8, b: u8, n: nat)
    requires
        n >= 1,
    ensures
        nearest_ansi(r, g, b, n) < n,
    decreases n,
{
    if n > 1 {
        lemma_nearest_ansi_below(r, g, b, (n - 1) as nat);
    }
}

/// No ANSI colour is nearer than the one chosen.
pub proof fn nearest_ansi_is_nearest(r: u8, g: u8, b: u8, n: nat, other: int)
    requires
        1 <= n <= 16,
        0 <= other < n,
    ensures
        nearest_ansi(r, g, b, n) < n,
        color_distance(r, g, b, ansi_color(nearest_ansi(r, g, b, n) as int)) <= color_distance(
            r,
            g,
            b,
            ansi_color(other),
        ),
        color_distance(r, g, b, ansi_color(nearest_ansi(r, g, b, n) as int)) == color_distance(
            r,
            g,
            b,
            ansi_color(other),
        ) ==> nearest_ansi(r, g, b, n) <= other,
    decreases n,
{
    lemma_nearest_ansi_below(r, g, b, n);
    if n > 1 {
        let m = (n - 1) as nat;
        lemma_nearest_ansi_below(r, g, b, m);
        if other < n - 1 {
            nearest_ansi_is_nearest(r, g, b, m, other);
        } else {
            nearest_ansi_is_nearest(r, g, b, m, nearest_ansi(r, g, b, m) as int);
        }
    }
}

fn square(x: u8, y: u8) -> (s: i32)
    ensures
        s == (x - y) * (x - y),
        0 <= s <= 65025,
{
    let d: i32 = x as i32 - y as i32;
    assert(-255 <= d <= 255 ==> 0 <= d * d <= 65025) by (nonlinear_arith);
    d * d
}

fn weigh(r: u8, g: u8, b: u8, c: (u8, u8, u8)) -> (d: i32)
    ensures
        d == color_distance(r, g, b, c),
{
    2 * square(r, c.0) + 4 * square(g, c.1) + 3 * square(b, c.2)
}

pub fn to_16(r: u8, g: u8, b: u8) -> (index: u8)
    ensures
        index == nearest_ansi(r, g, b, 16),
        index < 16,
{
    let mut best: u8 = 0;
    let mut i: u8 = 1;
    while i < 16
        invariant
            1 <= i <= 16,
            best == nearest_ansi(r, g, b, i as nat),
            best < i,
        decreases 16 - i,
    {
        if weigh(r, g, b, ansi_at(i)) < weigh(r, g, b, ansi_at(best)) {
            best = i;
        }
        i += 1;
    }
    best
}

// ---------------------------------------------------------------------------
// what colours come to
// ---------------------------------------------------------------------------

/// A colour is made of its three channels, red first.
pub proof fn channels_make_up_the_color(r: u8, g: u8, b: u8)
    ensures
        channels((r * 0x10000 + g * 0x100 + b) as u32) == (r, g, b),
{
    let n = r * 0x10000 + g * 0x100 + b;
    assert(n / 0x10000 == r);
    assert(n / 0x100 == r * 0x100 + g);
    assert((r * 0x100 + g) % 0x100 == g);
    assert(n % 0x100 == b);
}

/// Without colours everything is in the terminal's own; with all of them, as
/// authored; and otherwise an entry of the palette that there is.
pub proof fn colors_are_shown_as_the_terminal_can(theme: Theme, r: u8, g: u8, b: u8)
    ensures
        ({
            let rgb = (r * 0x10000 + g * 0x100 + b) as u32;
            &&& theme.mono ==> theme.shows(rgb) == Color::Reset
            &&& !theme.mono && theme.depth == Depth::Truecolor ==> theme.shows(rgb) == Color::Rgb(
                r,
                g,
                b,
            )
            &&& !theme.mono && theme.depth == Depth::Ansi256 ==> theme.shows(rgb) == Color::Indexed(
                index_256(r, g, b) as u8,
            )
            &&& !theme.mono && theme.depth == Depth::Ansi16 ==> theme.shows(rgb) == Color::Indexed(
                nearest_ansi(r, g, b, 16) as u8,
            )
        }),
{
    channels_make_up_the_color(r, g, b);
}

/// A colour of the cube is shown as itself: six levels of red, of green and of
/// blue, in that order.
pub proof fn colors_of_the_cube_are_exact(i: int, j: int, k: int)
    requires
        0 <= i < 6 && 0 <= j < 6 && 0 <= k < 6,
        !(i == j && j == k),
    ensures
        ({
            let levels = seq![0u8, 95, 135, 175, 215, 255];
            index_256(levels[i], levels[j], levels[k]) == 16 + 36 * i + 6 * j + k
        }),
{
    let levels = seq![0u8, 95, 135, 175, 215, 255];
    lemma_level_is_itself(i);
    lemma_level_is_itself(j);
    lemma_level_is_itself(k);
}

proof fn lemma_level_is_itself(i: int)
    requires
        0 <= i < 6,
    ensures
        nearest_level(seq![0u8, 95, 135, 175, 215, 255][i], 6) == i,
{
    let v = seq![0u8, 95, 135, 175, 215, 255][i];
    assert(i == 0 || i == 1 || i == 2 || i == 3 || i == 4 || i == 5);
    nearest_level_is_nearest(v, 6, i);
    let n = nearest_level(v, 6) as int;
    assert(n == 0 || n == 1 || n == 2 || n == 3 || n == 4 || n == 5);
}

/// Grey is shown on the ramp of greys: black and white at its ends, and a
/// brighter grey never darker than a darker one.
pub proof fn greys_are_in_order(v: u8, w: u8)
    requires
        v <= w,
    ensures
        v < 8 ==> index_256(v, v, v) == 16,
        v > 238 ==> index_256(v, v, v) == 231,
        8 <= v <= 238 ==> 232 <= index_256(v, v, v) <= 255,
        8 <= v && w <= 238 ==> index_256(v, v, v) <= index_256(w, w, w),
        index_256(8, 8, 8) == 232,
        index_256(238, 238, 238) == 255,
{
    assert((v + v + v) / 3 == v);
    assert((w + w + w) / 3 == w);
}

/// Each of the sixteen colours is shown as itself.
pub proof fn the_sixteen_colors_are_exact(i: int)
    requires
        0 <= i < 16,
    ensures
        nearest_ansi(ansi_color(i).0, ansi_color(i).1, ansi_color(i).2, 16) == i,
        nearest_ansi(0, 0, 0, 16) == 0,
        nearest_ansi(0xaa, 0, 0, 16) == 1,
        nearest_ansi(0, 0xaa, 0, 16) == 2,
        nearest_ansi(0, 0, 0xaa, 16) == 4,
        nearest_ansi(0xff, 0xff, 0xff, 16) == 15,
{
    lemma_ansi_is_itself(i);
    lemma_ansi_is_itself(0);
    lemma_ansi_is_itself(1);
    lemma_ansi_is_itself(2);
    lemma_ansi_is_itself(4);
    lemma_ansi_is_itself(15);
}

proof fn lemma_ansi_is_itself(i: int)
    requires
        0 <= i < 16,
    ensures
        nearest_ansi(ansi_color(i).0, ansi_color(i).1, ansi_color(i).2, 16) == i,
{
    let c = ansi_color(i);
    nearest_ansi_is_nearest(c.0, c.1, c.2, 16, i);
    let n = nearest_ansi(c.0, c.1, c.2, 16) as int;
    let d = ansi_color(n);
    let (dr, dg, db) = (c.0 - d.0, c.1 - d.1, c.2 - d.2);
    assert((c.0 - c.0) * (c.0 - c.0) == 0 && (c.1 - c.1) * (c.1 - c.1) == 0 && (c.2 - c.2) * (c.2
        - c.2) == 0) by (nonlinear_arith);
    assert(dr * dr >= 0 && dg * dg >= 0 && db * db >= 0) by (nonlinear_arith);
    assert(dr * dr == 0 && dg * dg == 0 && db * db == 0);
    assert(dr == 0) by (nonlinear_arith)
        requires
            dr * dr == 0,
    ;
    assert(dg == 0) by (nonlinear_arith)
        requires
            dg * dg == 0,
    ;
    assert(db == 0) by (nonlinear_arith)
        requires
            db * db == 0,
    ;
}

/// A difference in green counts for more than one in blue, and that for more
/// than one in red, as the eye has it; no difference counts for nothing.
pub proof fn distance_is_weighed_as_the_eye_does(d: u8)
    requires
        d > 0,
    ensures
        color_distance(0, d, 0, (0, 0, 0)) > color_distance(0, 0, d, (0, 0, 0)),
        color_distance(0, 0, d, (0, 0, 0)) > color_distance(d, 0, 0, (0, 0, 0)),
        color_distance(d, 0, 0, (0, 0, 0)) > 0,
        color_distance(d, d, d, (d, d, d)) == 0,
{
    let x = d as int;
    assert(x * x > 0) by (nonlinear_arith)
        requires
            x > 0,
    ;
    assert(0int * 0int == 0) by (nonlinear_arith);
}

/// A terminal that promises all colours gets them, whatever else it says; one
/// that promises 256 of them gets those; any other gets sixteen.
pub proof fn terminals_get_what_they_promise(a: Seq<char>, b: Seq<char>, term: Seq<char>)
    ensures
        depth_for(a + "truecolor"@ + b, term) == Depth::Truecolor,
        depth_for(a + "24bit"@ + b, term) == Depth::Truecolor,
        depth_for(Seq::empty(), a + "256color"@ + b) == Depth::Ansi256,
        depth_for_term(a + "256color"@ + b) == Depth::Ansi256,
        depth_for_term(a + "direct"@ + b) == Depth::Ansi256,
        term.len() < 6 ==> depth_for_term(term) == Depth::Ansi16 && depth_for(Seq::empty(), term)
            == Depth::Ansi16,
{
    reveal_strlit("truecolor");
    reveal_strlit("24bit");
    reveal_strlit("256color");
    reveal_strlit("direct");
    lemma_occurs_inside(a, "truecolor"@, b);
    lemma_occurs_inside(a, "24bit"@, b);
    lemma_occurs_inside(a, "256color"@, b);
    lemma_occurs_inside(a, "direct"@, b);
    let none = Seq::<char>::empty();
    assert(!occurs(none, "truecolor"@) && !occurs(none, "24bit"@));
}

proof fn lemma_occurs_inside(a: Seq<char>, m: Seq<char>, b: Seq<char>)
    ensures
        occurs(a + m + b, m),
{
    let s = a + m + b;
    let at = a.len() as int;
    assert(s.subrange(at, at + m.len()) =~= m);
    assert(crate::text::occurs_at(s, m, at));
}

/// Three themes have a name: dark and light ones, and one without colours.
pub proof fn themes_are_known_by_name(name: Seq<char>)
    ensures
        named_theme(name) is Some <==> name == "dark"@ || name == "light"@ || name == "mono"@,
        name == "mono"@ <==> named_theme(name) is Some && named_theme(name)->Some_0.1,
        named_theme("dark"@)->Some_0.0 != named_theme("light"@)->Some_0.0,
{
    reveal_strlit("dark");
    reveal_strlit("light");
    reveal_strlit("mono");
    assert("dark"@.len() == 4 && "light"@.len() == 5 && "mono"@.len() == 4);
    assert("dark"@[0] != "mono"@[0]);
}

/// The bar looks different in each mode, and when a command was refused, in
/// either palette; text stands out against what is selected.
pub proof fn modes_can_be_told_apart(p: Palette)
    requires
        p == dark_palette() || p == light_palette(),
    ensures
        p.mode_normal != p.mode_insert && p.mode_normal != p.mode_command && p.mode_normal
            != p.mode_error && p.mode_insert != p.mode_command && p.mode_insert != p.mode_error
            && p.mode_command != p.mode_error,
        p.fg != p.selection && p.border != p.border_focus && p.dim != p.fg,
        dark_palette().fg > dark_palette().selection,
        light_palette().fg < light_palette().selection,
{
}

/// The 230 greys between the ends of the ramp are spread evenly over its 24
/// entries.
pub proof fn greys_are_spread_evenly(v: u8)
    requires
        8 <= v < 238,
    ensures
        230 * (index_256(v, v, v) - 232) <= 24 * (v - 8) < 230 * (index_256(v, v, v) - 231),
{
    assert((v + v + v) / 3 == v);
}

/// Colours whose channels are close together are shown as grey, and others in
/// the cube.
pub proof fn only_near_greys_are_shown_as_grey(r: u8, g: u8, b: u8)
    requires
        r <= g <= b,
    ensures
        b - r >= 12 ==> 16 <= index_256(r, g, b) <= 231,
        b - r < 12 && 8 <= r && b < 238 ==> 232 <= index_256(r, g, b) <= 255,
{
    lemma_nearest_level_below(r, 6);
    lemma_nearest_level_below(g, 6);
    lemma_nearest_level_below(b, 6);
}

} // verus!
