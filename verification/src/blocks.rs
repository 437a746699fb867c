//! The fixed block-character set cells draw with.

use vstd::prelude::*;

verus! {

/// Full block.
pub const FULL: char = '\u{2588}';

/// Upper half block.
pub const UPPER_HALF: char = '\u{2580}';

/// Lower half block.
pub const LOWER_HALF: char = '\u{2584}';

/// Light shade.
pub const SHADE_LIGHT: char = '\u{2591}';

/// Medium shade.
pub const SHADE_MEDIUM: char = '\u{2592}';

/// Dark shade.
pub const SHADE_DARK: char = '\u{2593}';

/// The blank glyph of an empty cell.
pub const EMPTY: char = ' ';

} // verus!
