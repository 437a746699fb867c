//! The interactive front-end's color themes, each holding the indexed
//! terminal colors its widgets use.

use vstd::prelude::*;

verus! {

/// A named set of indexed terminal colors.
#[derive(Clone, Copy, Debug)]
pub struct Theme {
    pub name: &'static str,
    pub border_accent: u8,
    pub header_bg: u8,
    pub highlight: u8,
    pub accent: u8,
    pub dim: u8,
    pub separator: u8,
    pub panel_bg: u8,
    pub grid_even: u8,
    pub grid_odd: u8,
    pub msg_success: u8,
    pub msg_warning: u8,
    pub msg_error: u8,
}

/// The warm default theme.
pub fn warm() -> (t: Theme)
    ensures
        t.name@ == "Warm"@,
        t == (Theme {
            name: t.name,
            border_accent: 130u8,
            header_bg: 130u8,
            highlight: 220u8,
            accent: 214u8,
            dim: 243u8,
            separator: 239u8,
            panel_bg: 235u8,
            grid_even: 235u8,
            grid_odd: 234u8,
            msg_success: 34u8,
            msg_warning: 178u8,
            msg_error: 160u8,
        }),
{
    Theme {
        name: "Warm",
        border_accent: 130,
        header_bg: 130,
        highlight: 220,
        accent: 214,
        dim: 243,
        separator: 239,
        panel_bg: 235,
        grid_even: 235,
        grid_odd: 234,
        msg_success: 34,
        msg_warning: 178,
        msg_error: 160,
    }
}

/// The high-contrast neon theme.
pub fn neon() -> (t: Theme)
    ensures
        t.name@ == "Neon"@,
{
    Theme {
        name: "Neon",
        border_accent: 201,
        header_bg: 55,
        highlight: 46,
        accent: 51,
        dim: 245,
        separator: 240,
        panel_bg: 233,
        grid_even: 234,
        grid_odd: 233,
        msg_success: 46,
        msg_warning: 226,
        msg_error: 196,
    }
}

/// The muted dark theme.
pub fn dark() -> (t: Theme)
    ensures
        t.name@ == "Dark"@,
{
    Theme {
        name: "Dark",
        border_accent: 245,
        header_bg: 236,
        highlight: 255,
        accent: 252,
        dim: 241,
        separator: 237,
        panel_bg: 234,
        grid_even: 236,
        grid_odd: 235,
        msg_success: 35,
        msg_warning: 172,
        msg_error: 124,
    }
}

/// Every theme, in selection order.
pub fn themes() -> (r: Vec<Theme>)
    ensures
        r@.len() == 3,
        r@[0].name@ == "Warm"@,
        r@[1].name@ == "Neon"@,
        r@[2].name@ == "Dark"@,
{
    let mut r: Vec<Theme> = Vec::new();
    r.push(warm());
    r.push(neon());
    r.push(dark());
    r
}

} // verus!
