//! Pointer mapping and canvas-shaping commands of the interactive
//! front-end: translating terminal coordinates to cell coordinates, and
//! resizing the canvas with a whole-grid snapshot for undo. Decoding the
//! terminal's events themselves is the front-end's work.

use vstd::prelude::*;
use vstd::string::StringExecFns;

use crate::app::{App, AppMode};
use crate::canvas::resized_grid;
use crate::cli::{dec_str, usize_to_string};
use crate::history::{commit_m, Action, ActionV};

verus! {

/// Where the canvas sits on screen, in terminal coordinates, and how many
/// cells the viewport shows; set by the renderer each frame.
pub struct CanvasArea {
    pub left: u16,
    pub top: u16,
    pub width: u16,
    pub height: u16,
    pub viewport_w: usize,
    pub viewport_h: usize,
}

/// The cell coordinate a screen position points at: `None` outside the
/// canvas area; inside, the offset is scaled by the zoom level — which
/// halves rows at the quadruple zoom — and shifted by the viewport.
pub open spec fn screen_to_canvas_spec(
    area: CanvasArea,
    sx: int,
    sy: int,
    zoom: int,
    vx: int,
    vy: int,
) -> Option<(usize, usize)> {
    if sx < area.left || sy < area.top {
        None
    } else {
        let rx = sx - area.left;
        let ry = sy - area.top;
        if rx >= area.width || ry >= area.height {
            None
        } else {
            let cx = rx / zoom + vx;
            let cy = (if zoom == 4 {
                ry / 2
            } else {
                ry
            }) + vy;
            Some(((cx as usize), (cy as usize)))
        }
    }
}

impl CanvasArea {
    /// Convert screen coordinates to canvas cell coordinates; `None`
    /// outside the canvas area.
    pub fn screen_to_canvas(
        &self,
        screen_x: u16,
        screen_y: u16,
        zoom: u8,
        viewport_x: usize,
        viewport_y: usize,
    ) -> (r: Option<(usize, usize)>)
        requires
            zoom >= 1,
            viewport_x <= usize::MAX - u16::MAX,
            viewport_y <= usize::MAX - u16::MAX,
        ensures
            r == screen_to_canvas_spec(
                *self,
                screen_x as int,
                screen_y as int,
                zoom as int,
                viewport_x as int,
                viewport_y as int,
            ),
    {
        if screen_x < self.left || screen_y < self.top {
            return None;
        }
        let rel_x = screen_x - self.left;
        let rel_y = screen_y - self.top;
        if rel_x >= self.width || rel_y >= self.height {
            return None;
        }
        let canvas_x = (rel_x / zoom as u16) as usize + viewport_x;
        let canvas_y = (if zoom == 4 {
            (rel_y / 2) as usize
        } else {
            rel_y as usize
        }) + viewport_y;
        Some((canvas_x, canvas_y))
    }
}

/// Resize the canvas, committing a whole-grid snapshot so one undo
/// restores the old size and contents; the viewport resets and the session
/// returns to the normal mode with a status note.
pub fn do_resize(app: &mut App, w: usize, h: usize)
    requires
        old(app).wf(),
    ensures
        final(app).wf(),
        final(app).canvas.width == w,
        final(app).canvas.height == h,
        final(app).canvas@ == resized_grid(old(app).canvas@, w as int, h as int),
        final(app).history@ == commit_m(
            old(app).history@,
            ActionV::Snapshot {
                old_cells: old(app).canvas@,
                old_w: old(app).canvas.width as int,
                old_h: old(app).canvas.height as int,
                new_cells: resized_grid(old(app).canvas@, w as int, h as int),
                new_w: w as int,
                new_h: h as int,
            },
        ),
        final(app).viewport_x == 0,
        final(app).viewport_y == 0,
        final(app).dirty,
        final(app).mode == AppMode::Normal,
        final(app).status_message matches Some(sm) && sm.text@ == "Resized to "@ + dec_str(
            w as int,
        ) + "x"@ + dec_str(h as int),
        final(app).tool_state == old(app).tool_state,
        final(app).color == old(app).color,
        final(app).symmetry == old(app).symmetry,
        final(app).project_name == old(app).project_name,
        final(app).project_path == old(app).project_path,
{
    let old_cells = app.canvas.cells();
    let old_w = app.canvas.width;
    let old_h = app.canvas.height;

    app.canvas.resize(w, h);

    let new_cells = app.canvas.cells();
    let new_w = app.canvas.width;
    let new_h = app.canvas.height;

    app.history.commit(
        Action::CanvasSnapshot { old_cells, old_w, old_h, new_cells, new_w, new_h },
    );

    app.viewport_x = 0;
    app.viewport_y = 0;
    app.dirty = true;
    app.mode = AppMode::Normal;
    let mut st = String::from_str("Resized to ");
    let ws = usize_to_string(w);
    st.append(ws.as_str());
    st.append("x");
    let hs = usize_to_string(h);
    st.append(hs.as_str());
    app.set_status(st.as_str());
}

} // verus!
