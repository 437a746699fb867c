//! The cell value type: a glyph plus optional foreground and background
//! true-color triples. A cell is an immutable value, copied and never aliased.

use vstd::prelude::*;

verus! {

/// A true-color triple.
#[derive(Clone, Copy, PartialEq, Eq, Structural, Debug)]
pub struct Rgb {
    pub r: u8,
    pub g: u8,
    pub b: u8,
}

impl Rgb {
    pub fn new(r: u8, g: u8, b: u8) -> (c: Rgb)
        ensures
            c == (Rgb { r, g, b }),
    {
        Rgb { r, g, b }
    }

    /// The default drawing color.
    pub fn white() -> (c: Rgb)
        ensures
            c == (Rgb { r: 255, g: 255, b: 255 }),
    {
        Rgb { r: 255, g: 255, b: 255 }
    }
}

/// One cell of the grid: a glyph and optional foreground/background colors.
#[derive(Clone, Copy, Debug)]
pub struct Cell {
    pub ch: char,
    pub fg: Option<Rgb>,
    pub bg: Option<Rgb>,
}

pub open spec fn opt_rgb_eq_spec(a: Option<Rgb>, b: Option<Rgb>) -> bool {
    a == b
}

/// Structural equality on optional colors.
fn opt_rgb_eq(a: &Option<Rgb>, b: &Option<Rgb>) -> (r: bool)
    ensures
        r == (*a == *b),
{
    match (a, b) {
        (Some(x), Some(y)) => x.r == y.r && x.g == y.g && x.b == y.b,
        (None, None) => true,
        _ => false,
    }
}

impl PartialEq for Cell {
    fn eq(&self, other: &Cell) -> (r: bool) {
        self.ch == other.ch && opt_rgb_eq(&self.fg, &other.fg) && opt_rgb_eq(
            &self.bg,
            &other.bg,
        )
    }
}

impl Eq for Cell {

}

impl vstd::std_specs::cmp::PartialEqSpecImpl for Cell {
    open spec fn obeys_eq_spec() -> bool {
        true
    }

    open spec fn eq_spec(&self, other: &Cell) -> bool {
        *self == *other
    }
}

/// The empty cell: a blank glyph with no colors.
pub open spec fn empty_cell() -> Cell {
    Cell { ch: ' ', fg: None, bg: None }
}

impl Cell {
    /// The cell a cleared grid is filled with.
    pub fn empty() -> (c: Cell)
        ensures
            c == empty_cell(),
    {
        Cell { ch: ' ', fg: None, bg: None }
    }

    /// A cell is empty when its glyph is blank and it has no colors.
    pub fn is_empty(&self) -> (r: bool)
        ensures
            r == (*self == empty_cell()),
    {
        self.ch == ' ' && self.fg.is_none() && self.bg.is_none()
    }
}

impl Default for Cell {
    fn default() -> (c: Cell)
        ensures
            c == empty_cell(),
    {
        Cell { ch: ' ', fg: None, bg: None }
    }
}

/// Relies on String::push: appends exactly one character.
#[verifier::external_body]
pub(crate) fn push_char(s: &mut String, c: char)
    ensures
        final(s)@ == old(s)@.push(c),
{
    s.push(c);
}

/// The hexadecimal digit character for a value below sixteen.
pub open spec fn hex_digit_spec(n: int) -> char {
    if n == 0 {
        '0'
    } else if n == 1 {
        '1'
    } else if n == 2 {
        '2'
    } else if n == 3 {
        '3'
    } else if n == 4 {
        '4'
    } else if n == 5 {
        '5'
    } else if n == 6 {
        '6'
    } else if n == 7 {
        '7'
    } else if n == 8 {
        '8'
    } else if n == 9 {
        '9'
    } else if n == 10 {
        'A'
    } else if n == 11 {
        'B'
    } else if n == 12 {
        'C'
    } else if n == 13 {
        'D'
    } else if n == 14 {
        'E'
    } else {
        'F'
    }
}

/// The value of a hexadecimal digit character, or -1 for any other
/// character; both letter cases are accepted.
pub open spec fn hex_val_spec(c: char) -> int {
    let u = c as u32;
    if 48 <= u <= 57 {
        u - 48
    } else if 65 <= u <= 70 {
        u - 55
    } else if 97 <= u <= 102 {
        u - 87
    } else {
        -1
    }
}

/// The portable name of a color: '#' followed by six hex digits.
pub open spec fn hex_name_spec(c: Rgb) -> Seq<char> {
    seq![
        '#',
        hex_digit_spec(c.r as int / 16),
        hex_digit_spec(c.r as int % 16),
        hex_digit_spec(c.g as int / 16),
        hex_digit_spec(c.g as int % 16),
        hex_digit_spec(c.b as int / 16),
        hex_digit_spec(c.b as int % 16),
    ]
}

/// The color a hex string of the form #RRGGBB denotes, if any.
pub open spec fn parse_hex_spec(s: Seq<char>) -> Option<Rgb> {
    if s.len() == 7 && s[0] == '#' && hex_val_spec(s[1]) >= 0 && hex_val_spec(s[2]) >= 0
        && hex_val_spec(s[3]) >= 0 && hex_val_spec(s[4]) >= 0 && hex_val_spec(s[5]) >= 0
        && hex_val_spec(s[6]) >= 0 {
        Some(
            Rgb {
                r: (hex_val_spec(s[1]) * 16 + hex_val_spec(s[2])) as u8,
                g: (hex_val_spec(s[3]) * 16 + hex_val_spec(s[4])) as u8,
                b: (hex_val_spec(s[5]) * 16 + hex_val_spec(s[6])) as u8,
            },
        )
    } else {
        None
    }
}

fn hex_digit(n: u8) -> (c: char)
    requires
        n < 16,
    ensures
        c == hex_digit_spec(n as int),
{
    match n {
        0 => '0',
        1 => '1',
        2 => '2',
        3 => '3',
        4 => '4',
        5 => '5',
        6 => '6',
        7 => '7',
        8 => '8',
        9 => '9',
        10 => 'A',
        11 => 'B',
        12 => 'C',
        13 => 'D',
        14 => 'E',
        _ => 'F',
    }
}

fn hex_val(c: char) -> (v: Option<u8>)
    ensures
        hex_val_spec(c) >= 0 ==> v == Some(hex_val_spec(c) as u8),
        hex_val_spec(c) < 0 ==> v is None,
{
    let u = c as u32;
    if 48 <= u && u <= 57 {
        Some((u - 48) as u8)
    } else if 65 <= u && u <= 70 {
        Some((u - 55) as u8)
    } else if 97 <= u && u <= 102 {
        Some((u - 87) as u8)
    } else {
        None
    }
}

impl Rgb {
    /// The portable string form of this color: "#RRGGBB".
    pub fn name(&self) -> (s: String)
        ensures
            s@ == hex_name_spec(*self),
    {
        let mut s = String::new();
        push_char(&mut s, '#');
        push_char(&mut s, hex_digit(self.r / 16));
        push_char(&mut s, hex_digit(self.r % 16));
        push_char(&mut s, hex_digit(self.g / 16));
        push_char(&mut s, hex_digit(self.g % 16));
        push_char(&mut s, hex_digit(self.b / 16));
        push_char(&mut s, hex_digit(self.b % 16));
        proof {
            assert(s@ =~= hex_name_spec(*self));
        }
        s
    }
}

/// Parse a color of the form #RRGGBB; any other string is no color.
pub fn parse_hex_color(s: &str) -> (r: Option<Rgb>)
    ensures
        r == parse_hex_spec(s@),
{
    let n = s.unicode_len();
    if n != 7 {
        return None;
    }
    if s.get_char(0) != '#' {
        return None;
    }
    let v1 = hex_val(s.get_char(1));
    let v2 = hex_val(s.get_char(2));
    let v3 = hex_val(s.get_char(3));
    let v4 = hex_val(s.get_char(4));
    let v5 = hex_val(s.get_char(5));
    let v6 = hex_val(s.get_char(6));
    match (v1, v2, v3, v4, v5, v6) {
        (Some(a), Some(b), Some(c), Some(d), Some(e), Some(f)) => Some(
            Rgb { r: a * 16 + b, g: c * 16 + d, b: e * 16 + f },
        ),
        _ => None,
    }
}

/// A hex digit written by the library always reads back as its value.
proof fn lemma_hex_digit_val(n: int)
    requires
        0 <= n < 16,
    ensures
        hex_val_spec(hex_digit_spec(n)) == n,
{
}

/// **Color name round trip**: parsing the portable name of any color gives
/// back exactly that color.
pub proof fn lemma_hex_roundtrip(c: Rgb)
    ensures
        parse_hex_spec(hex_name_spec(c)) == Some(c),
{
    lemma_hex_digit_val(c.r as int / 16);
    lemma_hex_digit_val(c.r as int % 16);
    lemma_hex_digit_val(c.g as int / 16);
    lemma_hex_digit_val(c.g as int % 16);
    lemma_hex_digit_val(c.b as int / 16);
    lemma_hex_digit_val(c.b as int % 16);
}

/// The red, green and blue level of a cube coordinate of the 256-color
/// terminal palette.
pub open spec fn cube_level(n: int) -> int {
    if n == 0 {
        0
    } else {
        55 + 40 * n
    }
}

/// The color value of one index of the 256-color terminal palette: sixteen
/// base colors, a 6×6×6 color cube, and a grayscale ramp.
pub open spec fn color256_rgb_spec(i: int) -> Rgb {
    if i == 0 {
        Rgb { r: 0, g: 0, b: 0 }
    } else if i == 1 {
        Rgb { r: 128, g: 0, b: 0 }
    } else if i == 2 {
        Rgb { r: 0, g: 128, b: 0 }
    } else if i == 3 {
        Rgb { r: 128, g: 128, b: 0 }
    } else if i == 4 {
        Rgb { r: 0, g: 0, b: 128 }
    } else if i == 5 {
        Rgb { r: 128, g: 0, b: 128 }
    } else if i == 6 {
        Rgb { r: 0, g: 128, b: 128 }
    } else if i == 7 {
        Rgb { r: 192, g: 192, b: 192 }
    } else if i == 8 {
        Rgb { r: 128, g: 128, b: 128 }
    } else if i == 9 {
        Rgb { r: 255, g: 0, b: 0 }
    } else if i == 10 {
        Rgb { r: 0, g: 255, b: 0 }
    } else if i == 11 {
        Rgb { r: 255, g: 255, b: 0 }
    } else if i == 12 {
        Rgb { r: 0, g: 0, b: 255 }
    } else if i == 13 {
        Rgb { r: 255, g: 0, b: 255 }
    } else if i == 14 {
        Rgb { r: 0, g: 255, b: 255 }
    } else if i == 15 {
        Rgb { r: 255, g: 255, b: 255 }
    } else if i < 232 {
        let k = i - 16;
        Rgb {
            r: cube_level(k / 36) as u8,
            g: cube_level((k / 6) % 6) as u8,
            b: cube_level(k % 6) as u8,
        }
    } else {
        let v = (8 + 10 * (i - 232)) as u8;
        Rgb { r: v, g: v, b: v }
    }
}

/// The color value of one index of the 256-color terminal palette.
pub fn color256_to_rgb(i: u8) -> (c: Rgb)
    ensures
        c == color256_rgb_spec(i as int),
{
    if i < 16 {
        match i {
            0 => Rgb { r: 0, g: 0, b: 0 },
            1 => Rgb { r: 128, g: 0, b: 0 },
            2 => Rgb { r: 0, g: 128, b: 0 },
            3 => Rgb { r: 128, g: 128, b: 0 },
            4 => Rgb { r: 0, g: 0, b: 128 },
            5 => Rgb { r: 128, g: 0, b: 128 },
            6 => Rgb { r: 0, g: 128, b: 128 },
            7 => Rgb { r: 192, g: 192, b: 192 },
            8 => Rgb { r: 128, g: 128, b: 128 },
            9 => Rgb { r: 255, g: 0, b: 0 },
            10 => Rgb { r: 0, g: 255, b: 0 },
            11 => Rgb { r: 255, g: 255, b: 0 },
            12 => Rgb { r: 0, g: 0, b: 255 },
            13 => Rgb { r: 255, g: 0, b: 255 },
            14 => Rgb { r: 0, g: 255, b: 255 },
            _ => Rgb { r: 255, g: 255, b: 255 },
        }
    } else if i < 232 {
        let k = i - 16;
        let rl = k / 36;
        let gl = (k / 6) % 6;
        let bl = k % 6;
        let r = if rl == 0 {
            0
        } else {
            55 + 40 * rl
        };
        let g = if gl == 0 {
            0
        } else {
            55 + 40 * gl
        };
        let b = if bl == 0 {
            0
        } else {
            55 + 40 * bl
        };
        Rgb { r, g, b }
    } else {
        let v = 8 + 10 * (i - 232);
        Rgb { r: v, g: v, b: v }
    }
}

/// The squared distance between two colors.
pub open spec fn dist2(a: Rgb, b: Rgb) -> int {
    (a.r - b.r) * (a.r - b.r) + (a.g - b.g) * (a.g - b.g) + (a.b - b.b) * (a.b - b.b)
}

fn dist2_exec(a: &Rgb, b: &Rgb) -> (d: i32)
    ensures
        d == dist2(*a, *b),
{
    let dr = a.r as i32 - b.r as i32;
    let dg = a.g as i32 - b.g as i32;
    let db = a.b as i32 - b.b as i32;
    proof {
        assert(0 <= dr * dr <= 65025) by (nonlinear_arith)
            requires
                -255 <= dr <= 255,
        ;
        assert(0 <= dg * dg <= 65025) by (nonlinear_arith)
            requires
                -255 <= dg <= 255,
        ;
        assert(0 <= db * db <= 65025) by (nonlinear_arith)
            requires
                -255 <= db <= 255,
        ;
    }
    dr * dr + dg * dg + db * db
}

/// The lowest palette index below `n` whose color lies nearest to the
/// color, by squared distance: ties keep the earlier index.
pub open spec fn best_idx_upto(c: Rgb, n: int) -> int
    decreases n,
{
    if n <= 1 {
        0
    } else {
        let b = best_idx_upto(c, n - 1);
        if dist2(c, color256_rgb_spec(n - 1)) < dist2(c, color256_rgb_spec(b)) {
            n - 1
        } else {
            b
        }
    }
}

/// The best index is a real index, and no palette color below `n` lies
/// strictly nearer.
pub proof fn lemma_best_idx_minimal(c: Rgb, n: int, j: int)
    requires
        1 <= n,
        0 <= j < n,
    ensures
        0 <= best_idx_upto(c, n) < n,
        dist2(c, color256_rgb_spec(j)) >= dist2(c, color256_rgb_spec(best_idx_upto(c, n))),
    decreases n,
{
    if n > 1 {
        if j < n - 1 {
            lemma_best_idx_minimal(c, n - 1, j);
        } else {
            lemma_best_idx_minimal(c, n - 1, 0);
        }
    }
}

/// The lowest palette index below `n` nearest to the color.
pub fn nearest_upto(color: &Rgb, n: u16) -> (idx: u8)
    requires
        1 <= n <= 256,
    ensures
        idx as int == best_idx_upto(*color, n as int),
        idx < n,
{
    let mut best_idx: u8 = 0;
    let mut best_dist: i32 = dist2_exec(color, &color256_to_rgb(0));
    let mut i: u16 = 1;
    proof {
        lemma_best_idx_minimal(*color, n as int, 0);
    }
    while i < n
        invariant
            1 <= i <= n,
            n <= 256,
            best_idx < i,
            best_idx as int == best_idx_upto(*color, i as int),
            best_dist == dist2(*color, color256_rgb_spec(best_idx as int)),
        decreases n - i,
    {
        let c = color256_to_rgb(i as u8);
        let d = dist2_exec(color, &c);
        if d < best_dist {
            best_idx = i as u8;
            best_dist = d;
        }
        i = i + 1;
    }
    best_idx
}

/// The lowest 256-color palette index whose color lies nearest to the
/// given color.
pub fn nearest_256(color: &Rgb) -> (idx: u8)
    ensures
        idx as int == best_idx_upto(*color, 256),
{
    nearest_upto(color, 256)
}

} // verus!
