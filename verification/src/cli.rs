//! The command-line front-end's data model and argument parsers: the
//! command tree as plain data, and the coordinate, region, size and color
//! parsers it validates user input with.

use vstd::prelude::*;
use vstd::string::StrSliceExecFns;
use vstd::string::StringExecFns;

use crate::cell::{parse_hex_spec, Rgb};
use crate::export::ColorFormat;
use crate::symmetry::SymmetryMode;

verus! {

/// The whole invocation: an optional file to open interactively, or a
/// subcommand.
pub struct Cli {
    pub file: Option<String>,
    pub command: Option<Command>,
}

/// One subcommand of the command-line front-end.
pub enum Command {
    New { file: String, width: usize, height: usize, size: Option<(usize, usize)>, force: bool },
    Draw { tool: DrawTool },
    Preview {
        file: String,
        format: PreviewFormat,
        region: Option<(usize, usize, usize, usize)>,
        color_format: CliColorFormat,
    },
    Inspect {
        file: String,
        coord: Option<(usize, usize)>,
        region: Option<(usize, usize, usize, usize)>,
        row: Option<usize>,
        col: Option<usize>,
    },
    Export { file: String, output: String, format: PreviewFormat, color_format: CliColorFormat },
    Diff { file1: String, file2: Option<String>, before: bool },
    Stats { file: String },
    Undo { file: String, count: usize },
    Redo { file: String, count: usize },
    History { file: String, full: bool },
    Palette { action: PaletteAction },
}

/// One drawing tool invocation.
pub enum DrawTool {
    Pencil { file: String, coord: (usize, usize), opts: DrawOpts },
    Eraser { file: String, coord: (usize, usize), region: Option<(usize, usize, usize, usize)> },
    Line { file: String, from: (usize, usize), to: (usize, usize), opts: DrawOpts },
    Rect { file: String, from: (usize, usize), to: (usize, usize), filled: bool, opts: DrawOpts },
    Fill { file: String, coord: (usize, usize), opts: DrawOpts },
    Eyedropper { file: String, coord: (usize, usize) },
}

/// Shared drawing options.
pub struct DrawOpts {
    pub color: Option<String>,
    pub fg: Option<String>,
    pub bg: Option<String>,
    pub ch: Option<char>,
    pub symmetry: CliSymmetry,
    pub no_log: bool,
}

/// Output formats of preview and export.
#[derive(Clone, Copy, PartialEq, Eq, Structural, Debug)]
pub enum PreviewFormat {
    Ansi,
    Json,
    Plain,
}

/// Color depth selection on the command line.
#[derive(Clone, Copy, PartialEq, Eq, Structural, Debug)]
pub enum CliColorFormat {
    Truecolor,
    Color256,
    Color16,
}

/// Symmetry selection on the command line.
#[derive(Clone, Copy, PartialEq, Eq, Structural, Debug)]
pub enum CliSymmetry {
    Off,
    Horizontal,
    Vertical,
    Quad,
}

/// Palette subcommands.
pub enum PaletteAction {
    List,
    Show { name: String },
    Create { name: String, file: String },
    Export { name: String, output: String },
    Add { name: String, color: String },
    Themes,
    Theme { name: String },
}

/// ASCII whitespace, as the parsers strip around numbers.
pub open spec fn is_ws(c: char) -> bool {
    c == ' ' || c == '\t' || c == '\n' || c == '\r' || c == '\u{b}' || c == '\u{c}'
}

/// The pieces of a character sequence split at a separator, separators
/// removed, empty pieces kept.
pub open spec fn split_rec(s: Seq<char>, sep: char, cur: Seq<char>) -> Seq<Seq<char>>
    decreases s.len(),
{
    if s.len() == 0 {
        seq![cur]
    } else if s[0] == sep {
        seq![cur] + split_rec(s.drop_first(), sep, Seq::empty())
    } else {
        split_rec(s.drop_first(), sep, cur.push(s[0]))
    }
}

/// Split a character sequence at every occurrence of a separator.
pub open spec fn split_spec(s: Seq<char>, sep: char) -> Seq<Seq<char>> {
    split_rec(s, sep, Seq::empty())
}

/// The index of the first character that is not whitespace.
pub open spec fn first_non_ws(s: Seq<char>) -> int
    decreases s.len(),
{
    if s.len() == 0 {
        0
    } else if !is_ws(s[0]) {
        0
    } else {
        1 + first_non_ws(s.drop_first())
    }
}

/// One past the index of the last character that is not whitespace.
pub open spec fn last_non_ws_end(s: Seq<char>) -> int
    decreases s.len(),
{
    if s.len() == 0 {
        0
    } else if !is_ws(s.last()) {
        s.len() as int
    } else {
        last_non_ws_end(s.drop_last())
    }
}

/// The sequence with surrounding whitespace stripped.
pub open spec fn trimmed(s: Seq<char>) -> Seq<char> {
    if first_non_ws(s) >= last_non_ws_end(s) {
        Seq::empty()
    } else {
        s.subrange(first_non_ws(s), last_non_ws_end(s))
    }
}

/// Whether the character is a decimal digit.
pub open spec fn is_digit(c: char) -> bool {
    48 <= c as u32 <= 57
}

/// The digit's value.
pub open spec fn digit_val(c: char) -> int {
    c as u32 - 48
}

/// The value of a digit string, most significant digit first.
pub open spec fn digits_val(s: Seq<char>) -> int
    decreases s.len(),
{
    if s.len() == 0 {
        0
    } else {
        digits_val(s.drop_last()) * 10 + digit_val(s.last())
    }
}

/// Whether every character is a decimal digit.
pub open spec fn all_digits(s: Seq<char>) -> bool {
    forall|i: int| 0 <= i < s.len() ==> is_digit(#[trigger] s[i])
}

/// The unsigned number a string denotes: an optional leading plus sign,
/// then at least one digit, with the value fitting the machine word.
pub open spec fn parse_usize_spec(s: Seq<char>) -> Option<usize> {
    let t = if s.len() > 0 && s[0] == '+' {
        s.drop_first()
    } else {
        s
    };
    if t.len() > 0 && all_digits(t) && digits_val(t) <= usize::MAX {
        Some(digits_val(t) as usize)
    } else {
        None
    }
}

/// The coordinate pair an "X,Y" string denotes, whitespace around each
/// number allowed.
pub open spec fn parse_coord_spec(s: Seq<char>) -> Option<(usize, usize)> {
    let parts = split_spec(s, ',');
    if parts.len() != 2 {
        None
    } else {
        match (parse_usize_spec(trimmed(parts[0])), parse_usize_spec(trimmed(parts[1]))) {
            (Some(x), Some(y)) => Some((x, y)),
            _ => None,
        }
    }
}

/// The region an "X1,Y1,X2,Y2" string denotes.
pub open spec fn parse_region_spec(s: Seq<char>) -> Option<(usize, usize, usize, usize)> {
    let parts = split_spec(s, ',');
    if parts.len() != 4 {
        None
    } else {
        match (
            parse_usize_spec(trimmed(parts[0])),
            parse_usize_spec(trimmed(parts[1])),
            parse_usize_spec(trimmed(parts[2])),
            parse_usize_spec(trimmed(parts[3])),
        ) {
            (Some(a), Some(b), Some(c), Some(d)) => Some((a, b, c, d)),
            _ => None,
        }
    }
}

/// The size a "WxH" string denotes.
pub open spec fn parse_size_spec(s: Seq<char>) -> Option<(usize, usize)> {
    let parts = split_spec(s, 'x');
    if parts.len() != 2 {
        None
    } else {
        match (parse_usize_spec(trimmed(parts[0])), parse_usize_spec(trimmed(parts[1]))) {
            (Some(w), Some(h)) => Some((w, h)),
            _ => None,
        }
    }
}

/// The characters of a string, in order.
fn chars_of(s: &str) -> (v: Vec<char>)
    ensures
        v@ == s@,
{
    let n = s.unicode_len();
    let mut v: Vec<char> = Vec::new();
    let mut i: usize = 0;
    while i < n
        invariant
            i <= n,
            n == s@.len(),
            v@ =~= s@.subrange(0, i as int),
        decreases n - i,
    {
        v.push(s.get_char(i));
        i = i + 1;
        proof {
            assert(v@ =~= s@.subrange(0, i as int));
        }
    }
    proof {
        assert(s@.subrange(0, s@.len() as int) =~= s@);
    }
    v
}

/// The model of a vector of character pieces.
pub open spec fn pieces_view(parts: Seq<Vec<char>>) -> Seq<Seq<char>> {
    Seq::new(parts.len(), |i: int| parts[i]@)
}

/// Split a character vector at every occurrence of a separator.
fn split_char(cs: &Vec<char>, sep: char) -> (parts: Vec<Vec<char>>)
    ensures
        pieces_view(parts@) == split_spec(cs@, sep),
{
    let mut parts: Vec<Vec<char>> = Vec::new();
    let mut cur: Vec<char> = Vec::new();
    let mut i: usize = 0;
    proof {
        assert(cs@.skip(0) =~= cs@);
        assert(cur@ =~= Seq::<char>::empty());
    }
    while i < cs.len()
        invariant
            i <= cs@.len(),
            split_spec(cs@, sep) == pieces_view(parts@) + split_rec(
                cs@.skip(i as int),
                sep,
                cur@,
            ),
        decreases cs@.len() - i,
    {
        let ghost rem = cs@.skip(i as int);
        proof {
            assert(rem[0] == cs@[i as int]);
            assert(rem.drop_first() =~= cs@.skip(i + 1));
        }
        let c = cs[i];
        if c == sep {
            let ghost pp = parts@;
            let ghost oc = cur@;
            parts.push(cur);
            cur = Vec::new();
            proof {
                assert(cur@ =~= Seq::<char>::empty());
                assert(pieces_view(parts@) =~= pieces_view(pp).push(oc));
                assert(split_rec(rem, sep, oc) == seq![oc] + split_rec(
                    cs@.skip(i + 1),
                    sep,
                    Seq::empty(),
                ));
                assert(pieces_view(pp).push(oc) + split_rec(cs@.skip(i + 1), sep, Seq::empty())
                    =~= pieces_view(pp) + (seq![oc] + split_rec(
                    cs@.skip(i + 1),
                    sep,
                    Seq::empty(),
                )));
            }
        } else {
            cur.push(c);
        }
        i = i + 1;
    }
    let ghost pp = parts@;
    let ghost cc = cur@;
    parts.push(cur);
    proof {
        assert(cs@.skip(cs@.len() as int) =~= Seq::<char>::empty());
        assert(split_rec(Seq::<char>::empty(), sep, cc) == seq![cc]);
        assert(pieces_view(parts@) =~= pieces_view(pp).push(cc));
        assert(pieces_view(pp) + seq![cc] =~= pieces_view(pp).push(cc));
    }
    parts
}

/// Strip whitespace around a character vector.
fn trim_chars(v: &Vec<char>) -> (r: Vec<char>)
    ensures
        r@ == trimmed(v@),
{
    let n = v.len();
    let mut start: usize = 0;
    proof {
        assert(v@.skip(0) =~= v@);
    }
    while start < n && is_ws_exec(v[start])
        invariant
            start <= n,
            n == v@.len(),
            first_non_ws(v@) == start + first_non_ws(v@.skip(start as int)),
        decreases n - start,
    {
        proof {
            assert(v@.skip(start as int)[0] == v@[start as int]);
            assert(v@.skip(start as int).drop_first() =~= v@.skip(start + 1));
        }
        start = start + 1;
    }
    proof {
        if start < n {
            assert(v@.skip(start as int)[0] == v@[start as int]);
        }
        assert(first_non_ws(v@) == start);
    }
    let mut end: usize = n;
    proof {
        assert(v@.take(n as int) =~= v@);
    }
    while end > start && is_ws_exec(v[end - 1])
        invariant
            start <= end <= n,
            n == v@.len(),
            first_non_ws(v@) == start,
            last_non_ws_end(v@) == last_non_ws_end(v@.take(end as int)),
        decreases end,
    {
        proof {
            assert(v@.take(end as int).last() == v@[end - 1]);
            assert(v@.take(end as int).drop_last() =~= v@.take(end - 1));
        }
        end = end - 1;
    }
    proof {
        if end > start {
            assert(v@.take(end as int).last() == v@[end - 1]);
            assert(last_non_ws_end(v@) == end);
        } else {
            // all characters from start on are whitespace, so the string
            // trims to empty
            assert(last_non_ws_end(v@) == last_non_ws_end(v@.take(end as int)));
            lemma_last_non_ws_le(v@.take(end as int));
            assert(last_non_ws_end(v@) <= end);
        }
    }
    let mut r: Vec<char> = Vec::new();
    let mut i = start;
    while i < end
        invariant
            start <= i <= end <= n,
            n == v@.len(),
            r@ =~= v@.subrange(start as int, i as int),
        decreases end - i,
    {
        r.push(v[i]);
        i = i + 1;
        proof {
            assert(r@ =~= v@.subrange(start as int, i as int));
        }
    }
    proof {
        if start >= end {
            assert(first_non_ws(v@) >= last_non_ws_end(v@));
            assert(r@ =~= trimmed(v@));
        } else {
            assert(first_non_ws(v@) == start && last_non_ws_end(v@) == end);
            assert(r@ =~= trimmed(v@));
        }
    }
    r
}

proof fn lemma_last_non_ws_le(s: Seq<char>)
    ensures
        last_non_ws_end(s) <= s.len(),
    decreases s.len(),
{
    if s.len() > 0 && is_ws(s.last()) {
        lemma_last_non_ws_le(s.drop_last());
    }
}

fn is_ws_exec(c: char) -> (r: bool)
    ensures
        r == is_ws(c),
{
    c == ' ' || c == '\t' || c == '\n' || c == '\r' || c == '\u{b}' || c == '\u{c}'
}

proof fn lemma_digits_val_nonneg(s: Seq<char>)
    requires
        all_digits(s),
    ensures
        digits_val(s) >= 0,
    decreases s.len(),
{
    if s.len() > 0 {
        assert(all_digits(s.drop_last())) by {
            assert(forall|i: int| 0 <= i < s.len() - 1 ==> s.drop_last()[i] == #[trigger] s[i]);
        }
        lemma_digits_val_nonneg(s.drop_last());
    }
}

/// A longer digit string never denotes a smaller value.
proof fn lemma_digits_val_prefix(s: Seq<char>, i: int)
    requires
        all_digits(s),
        0 <= i <= s.len(),
    ensures
        digits_val(s.take(i)) <= digits_val(s),
    decreases s.len() - i,
{
    assert(all_digits(s.take(i))) by {
        assert(forall|j: int| 0 <= j < i ==> s.take(i)[j] == #[trigger] s[j]);
    }
    if i < s.len() {
        lemma_digits_val_prefix(s, i + 1);
        assert(s.take(i + 1).drop_last() =~= s.take(i));
        assert(s.take(i + 1).last() == s[i]);
        lemma_digits_val_nonneg(s.take(i));
        assert(digits_val(s.take(i + 1)) == digits_val(s.take(i)) * 10 + digit_val(s[i]));
        assert(digits_val(s.take(i)) <= digits_val(s.take(i)) * 10) by (nonlinear_arith)
            requires
                digits_val(s.take(i)) >= 0,
        ;
    } else {
        assert(s.take(i) =~= s);
    }
}

/// Parse an unsigned number from a piece of a string: optional leading
/// plus, then digits; overflow and anything else is rejected.
fn parse_usize_chars(v: &Vec<char>) -> (r: Option<usize>)
    ensures
        r == parse_usize_spec(v@),
{
    let mut start: usize = 0;
    if v.len() > 0 && v[0] == '+' {
        start = 1;
    }
    let ghost t = if v@.len() > 0 && v@[0] == '+' {
        v@.drop_first()
    } else {
        v@
    };
    proof {
        assert(t =~= v@.subrange(start as int, v@.len() as int));
    }
    if start >= v.len() {
        return None;
    }
    let mut val: usize = 0;
    let mut i = start;
    proof {
        assert(t.take(0) =~= Seq::<char>::empty());
    }
    while i < v.len()
        invariant
            start <= i <= v@.len(),
            start == (if v@.len() > 0 && v@[0] == '+' {
                1int
            } else {
                0int
            }),
            t == v@.subrange(start as int, v@.len() as int),
            all_digits(t.take(i - start)),
            val == digits_val(t.take(i - start)),
        decreases v@.len() - i,
    {
        let c = v[i];
        let u = c as u32;
        if !(48 <= u && u <= 57) {
            proof {
                assert(t[i - start] == v@[i as int]);
                assert(!is_digit(t[i - start]));
                assert(!all_digits(t));
                assert(t =~= (if v@.len() > 0 && v@[0] == '+' {
                    v@.drop_first()
                } else {
                    v@
                }));
                assert(parse_usize_spec(v@) is None);
            }
            return None;
        }
        let d = (u - 48) as usize;
        if val > (usize::MAX - d) / 10 {
            proof {
                assert(t[i - start] == v@[i as int]);
                assert(t.take(i - start + 1).drop_last() =~= t.take(i - start));
                assert(t.take(i - start + 1).last() == t[i - start]);
                assert(all_digits(t.take(i - start + 1)));
                assert(digits_val(t.take(i - start + 1)) == val * 10 + d);
                assert(val * 10 + d > usize::MAX) by (nonlinear_arith)
                    requires
                        val > (usize::MAX - d) / 10,
                        0 <= d <= 9,
                        val >= 0,
                ;
                if all_digits(t) {
                    lemma_digits_val_prefix(t, i - start + 1);
                    assert(digits_val(t) > usize::MAX);
                }
                assert(t =~= (if v@.len() > 0 && v@[0] == '+' {
                    v@.drop_first()
                } else {
                    v@
                }));
                assert(parse_usize_spec(v@) is None);
            }
            return None;
        }
        proof {
            assert(val * 10 + d <= usize::MAX) by (nonlinear_arith)
                requires
                    val <= (usize::MAX - d) / 10,
                    0 <= d <= 9,
                    val >= 0,
            ;
            assert(t[i - start] == v@[i as int]);
            assert(t.take(i - start + 1).drop_last() =~= t.take(i - start));
            assert(t.take(i - start + 1).last() == t[i - start]);
            assert(all_digits(t.take(i - start + 1)));
        }
        val = val * 10 + d;
        i = i + 1;
    }
    proof {
        assert(t.take(t.len() as int) =~= t);
        assert(digits_val(t) <= usize::MAX);
        assert(t =~= (if v@.len() > 0 && v@[0] == '+' {
            v@.drop_first()
        } else {
            v@
        }));
    }
    Some(val)
}

/// Parse an "X,Y" coordinate; exactly two comma-separated numbers are
/// accepted, whitespace around each allowed, and anything else is an
/// error naming the offending part.
pub fn parse_coord(s: &str) -> (r: Result<(usize, usize), String>)
    ensures
        match parse_coord_spec(s@) {
            Some(p) => r matches Ok(q) && q == p,
            None => r is Err,
        },
{
    let cs = chars_of(s);
    let parts = split_char(&cs, ',');
    if parts.len() != 2 {
        let mut e = String::from_str("Expected X,Y format, got '");
        e.append(s);
        e.append("'");
        return Err(e);
    }
    proof {
        assert(pieces_view(parts@)[0] == parts@[0]@);
        assert(pieces_view(parts@)[1] == parts@[1]@);
    }
    let tx = trim_chars(&parts[0]);
    let x = match parse_usize_chars(&tx) {
        Some(x) => x,
        None => {
            return Err(String::from_str("Invalid X coordinate"));
        },
    };
    let ty = trim_chars(&parts[1]);
    let y = match parse_usize_chars(&ty) {
        Some(y) => y,
        None => {
            return Err(String::from_str("Invalid Y coordinate"));
        },
    };
    Ok((x, y))
}

/// Parse an "X1,Y1,X2,Y2" region: exactly four comma-separated numbers.
pub fn parse_region(s: &str) -> (r: Result<(usize, usize, usize, usize), String>)
    ensures
        match parse_region_spec(s@) {
            Some(p) => r matches Ok(q) && q == p,
            None => r is Err,
        },
{
    let cs = chars_of(s);
    let parts = split_char(&cs, ',');
    if parts.len() != 4 {
        let mut e = String::from_str("Expected X1,Y1,X2,Y2 format, got '");
        e.append(s);
        e.append("'");
        return Err(e);
    }
    proof {
        assert(pieces_view(parts@)[0] == parts@[0]@);
        assert(pieces_view(parts@)[1] == parts@[1]@);
        assert(pieces_view(parts@)[2] == parts@[2]@);
        assert(pieces_view(parts@)[3] == parts@[3]@);
    }
    let t1 = trim_chars(&parts[0]);
    let a = match parse_usize_chars(&t1) {
        Some(a) => a,
        None => {
            return Err(String::from_str("Invalid X1"));
        },
    };
    let t2 = trim_chars(&parts[1]);
    let b = match parse_usize_chars(&t2) {
        Some(b) => b,
        None => {
            return Err(String::from_str("Invalid Y1"));
        },
    };
    let t3 = trim_chars(&parts[2]);
    let c = match parse_usize_chars(&t3) {
        Some(c) => c,
        None => {
            return Err(String::from_str("Invalid X2"));
        },
    };
    let t4 = trim_chars(&parts[3]);
    let d = match parse_usize_chars(&t4) {
        Some(d) => d,
        None => {
            return Err(String::from_str("Invalid Y2"));
        },
    };
    Ok((a, b, c, d))
}

/// Parse a "WxH" size: exactly two numbers joined by an 'x'.
pub fn parse_size(s: &str) -> (r: Result<(usize, usize), String>)
    ensures
        match parse_size_spec(s@) {
            Some(p) => r matches Ok(q) && q == p,
            None => r is Err,
        },
{
    let cs = chars_of(s);
    let parts = split_char(&cs, 'x');
    if parts.len() != 2 {
        let mut e = String::from_str("Expected WxH format (e.g., 32x24), got '");
        e.append(s);
        e.append("'");
        return Err(e);
    }
    proof {
        assert(pieces_view(parts@)[0] == parts@[0]@);
        assert(pieces_view(parts@)[1] == parts@[1]@);
    }
    let tw = trim_chars(&parts[0]);
    let w = match parse_usize_chars(&tw) {
        Some(w) => w,
        None => {
            return Err(String::from_str("Invalid width"));
        },
    };
    let th = trim_chars(&parts[1]);
    let h = match parse_usize_chars(&th) {
        Some(h) => h,
        None => {
            return Err(String::from_str("Invalid height"));
        },
    };
    Ok((w, h))
}

/// The foreground the options select: an explicit --fg wins over --color,
/// and without either the default is white; the background only comes from
/// an explicit --bg.
pub open spec fn resolved_fg(opts: &DrawOpts) -> Option<Rgb> {
    match opts.fg {
        Some(s) => parse_hex_spec(s@),
        None => match opts.color {
            Some(s) => parse_hex_spec(s@),
            None => Some(Rgb { r: 255, g: 255, b: 255 }),
        },
    }
}

pub open spec fn resolved_bg(opts: &DrawOpts) -> Option<Rgb> {
    match opts.bg {
        Some(s) => parse_hex_spec(s@),
        None => None,
    }
}

/// Resolve the drawing colors of a command invocation. A color string
/// that does not parse is a usage error that the front-end reports before
/// calling; such inputs are excluded here.
pub fn resolve_colors(opts: &DrawOpts) -> (r: (Option<Rgb>, Option<Rgb>))
    requires
        resolved_fg(opts) is Some,
        opts.bg matches Some(s) ==> parse_hex_spec(s@) is Some,
    ensures
        r.0 == resolved_fg(opts),
        r.1 == resolved_bg(opts),
{
    let fg = match &opts.fg {
        Some(s) => crate::cell::parse_hex_color(s.as_str()),
        None => match &opts.color {
            Some(s) => crate::cell::parse_hex_color(s.as_str()),
            None => Some(Rgb::white()),
        },
    };
    let bg = match &opts.bg {
        Some(s) => crate::cell::parse_hex_color(s.as_str()),
        None => None,
    };
    (fg, bg)
}

/// The project file suffix.
pub open spec fn kaku_suffix() -> Seq<char> {
    seq!['.', 'k', 'a', 'k', 'u']
}

/// Whether the name already carries the project file suffix.
pub open spec fn ends_with_kaku(s: Seq<char>) -> bool {
    s.len() >= 5 && s.subrange(s.len() - 5, s.len() as int) == kaku_suffix()
}

/// The name with every trailing project suffix removed.
pub open spec fn strip_kaku_spec(s: Seq<char>) -> Seq<char>
    decreases s.len(),
{
    if ends_with_kaku(s) {
        strip_kaku_spec(s.take(s.len() - 5))
    } else {
        s
    }
}

/// The name with the project suffix added when missing.
pub open spec fn ensure_kaku_spec(s: Seq<char>) -> Seq<char> {
    if ends_with_kaku(s) {
        s
    } else {
        s + kaku_suffix()
    }
}

fn chars_end_with_kaku(v: &Vec<char>) -> (r: bool)
    ensures
        r == ends_with_kaku(v@),
{
    let n = v.len();
    if n < 5 {
        return false;
    }
    let r = v[n - 5] == '.' && v[n - 4] == 'k' && v[n - 3] == 'a' && v[n - 2] == 'k' && v[n - 1]
        == 'u';
    proof {
        if r {
            assert(v@.subrange(v@.len() - 5, v@.len() as int) =~= kaku_suffix());
        } else {
            if v@.subrange(v@.len() - 5, v@.len() as int) == kaku_suffix() {
                assert(v@[v@.len() - 5] == '.' && v@[v@.len() - 4] == 'k' && v@[v@.len() - 3]
                    == 'a' && v@[v@.len() - 2] == 'k' && v@[v@.len() - 1] == 'u');
            }
        }
    }
    r
}

/// The name with the project suffix added when missing.
pub fn ensure_kaku_suffix(name: &str) -> (r: String)
    ensures
        r@ == ensure_kaku_spec(name@),
{
    let cs = chars_of(name);
    let mut r = String::from_str(name);
    if !chars_end_with_kaku(&cs) {
        r.append(".kaku");
        proof {
            reveal_strlit(".kaku");
            assert(".kaku"@ =~= kaku_suffix());
        }
    }
    r
}

/// The name with every trailing project suffix removed.
pub fn strip_kaku_suffix(name: &str) -> (r: String)
    ensures
        r@ == strip_kaku_spec(name@),
{
    let mut cs = chars_of(name);
    while chars_end_with_kaku(&cs)
        invariant
            strip_kaku_spec(cs@) == strip_kaku_spec(name@),
        decreases cs@.len(),
    {
        let n = cs.len();
        cs.truncate(n - 5);
    }
    let mut r = String::new();
    let mut i: usize = 0;
    while i < cs.len()
        invariant
            i <= cs@.len(),
            r@ =~= cs@.subrange(0, i as int),
        decreases cs@.len() - i,
    {
        crate::cell::push_char(&mut r, cs[i]);
        i = i + 1;
        proof {
            assert(r@ =~= cs@.subrange(0, i as int));
        }
    }
    proof {
        assert(cs@.subrange(0, cs@.len() as int) =~= cs@);
    }
    r
}

/// The decimal form of a number.
pub open spec fn dec_str(n: int) -> Seq<char>
    decreases n,
{
    if n < 10 {
        seq![crate::cell::hex_digit_spec(n)]
    } else {
        dec_str(n / 10) + seq![crate::cell::hex_digit_spec(n % 10)]
    }
}

/// Format a number in decimal.
pub fn usize_to_string(n: usize) -> (s: String)
    ensures
        s@ == dec_str(n as int),
    decreases n,
{
    if n < 10 {
        let mut s = String::new();
        let c = match n {
            0 => '0',
            1 => '1',
            2 => '2',
            3 => '3',
            4 => '4',
            5 => '5',
            6 => '6',
            7 => '7',
            8 => '8',
            _ => '9',
        };
        crate::cell::push_char(&mut s, c);
        proof {
            assert(s@ =~= dec_str(n as int));
        }
        s
    } else {
        let mut s = usize_to_string(n / 10);
        let d = n % 10;
        let c = match d {
            0 => '0',
            1 => '1',
            2 => '2',
            3 => '3',
            4 => '4',
            5 => '5',
            6 => '6',
            7 => '7',
            8 => '8',
            _ => '9',
        };
        crate::cell::push_char(&mut s, c);
        proof {
            assert(s@ =~= dec_str(n as int));
        }
        s
    }
}

/// Map the command-line symmetry flag to the engine's mode.
pub fn to_symmetry_mode(s: &CliSymmetry) -> (m: SymmetryMode)
    ensures
        m == match s {
            CliSymmetry::Off => SymmetryMode::Off,
            CliSymmetry::Horizontal => SymmetryMode::Horizontal,
            CliSymmetry::Vertical => SymmetryMode::Vertical,
            CliSymmetry::Quad => SymmetryMode::Quad,
        },
{
    match s {
        CliSymmetry::Off => SymmetryMode::Off,
        CliSymmetry::Horizontal => SymmetryMode::Horizontal,
        CliSymmetry::Vertical => SymmetryMode::Vertical,
        CliSymmetry::Quad => SymmetryMode::Quad,
    }
}

/// Map the command-line color depth flag to the export format.
pub fn to_color_format(f: &CliColorFormat) -> (c: ColorFormat)
    ensures
        c == match f {
            CliColorFormat::Truecolor => ColorFormat::TrueColor,
            CliColorFormat::Color256 => ColorFormat::Color256,
            CliColorFormat::Color16 => ColorFormat::Color16,
        },
{
    match f {
        CliColorFormat::Truecolor => ColorFormat::TrueColor,
        CliColorFormat::Color256 => ColorFormat::Color256,
        CliColorFormat::Color16 => ColorFormat::Color16,
    }
}

} // verus!
