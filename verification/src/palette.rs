//! Custom palettes: a named list of colors that the interactive session
//! can collect and reuse, plus the built-in browsable palette.

use vstd::prelude::*;

use crate::cell::{color256_rgb_spec, color256_to_rgb, Rgb};

verus! {

/// A user-curated, named list of colors.
pub struct CustomPalette {
    pub name: String,
    pub colors: Vec<Rgb>,
}

/// The sixteen base terminal colors, in palette order.
pub open spec fn default_palette_spec() -> Seq<Rgb> {
    Seq::new(16, |i: int| color256_rgb_spec(i))
}

/// The built-in browsable palette: the sixteen base terminal colors.
pub fn default_palette() -> (r: Vec<Rgb>)
    ensures
        r@ == default_palette_spec(),
{
    let mut r: Vec<Rgb> = Vec::new();
    let mut i: u8 = 0;
    while i < 16
        invariant
            i <= 16,
            r@.len() == i,
            forall|j: int| 0 <= j < i ==> #[trigger] r@[j] == color256_rgb_spec(j),
        decreases 16 - i,
    {
        r.push(color256_to_rgb(i));
        i = i + 1;
    }
    proof {
        assert(r@ =~= default_palette_spec());
    }
    r
}

} // verus!
