//! The project: the canvas plus the minimal metadata the project file
//! carries. Loading and saving the file itself is the front-end's work.

use vstd::prelude::*;
use vstd::string::StringExecFns;

use crate::canvas::Canvas;
use crate::cell::Rgb;
use crate::symmetry::SymmetryMode;

verus! {

/// A drawing with its name, active color and symmetry mode, as the
/// project file stores it.
pub struct Project {
    pub name: String,
    pub canvas: Canvas,
    pub color: Rgb,
    pub symmetry: SymmetryMode,
}

impl Project {
    pub fn new(name: &str, canvas: Canvas, color: Rgb, symmetry: SymmetryMode) -> (p: Project)
        ensures
            p.name@ == name@,
            p.canvas == canvas,
            p.color == color,
            p.symmetry == symmetry,
    {
        Project { name: String::from_str(name), canvas, color, symmetry }
    }
}

} // verus!
