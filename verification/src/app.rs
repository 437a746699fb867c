//! The interactive session's state: the canvas, the live history, the
//! selected tool and color, and the dialog state of the front-end. Every
//! state transition is a plain function here; drawing goes through the
//! tools, symmetry expansion and the history exactly as the stateless
//! front-end's commands do.

use vstd::prelude::*;
use vstd::string::StringExecFns;

use crate::canvas::{grid_get, Canvas, CANVAS_HEIGHT, CANVAS_WIDTH};
use crate::cell::{empty_cell, hex_name_spec, Cell, Rgb};
use crate::history::{
    apply_news, begin_stroke_m, end_stroke_m, push_all_m, redo_grid, undo_grid, CellMutation,
    History, HistoryV,
};
use crate::palette::{default_palette, default_palette_spec, CustomPalette};
use crate::project::Project;
use crate::symmetry::{expand_spec, expand_symmetry, SymmetryMode};
use crate::tools::{
    eraser, eyedropper, flood_fill, line, mutation_for, muts_for_points, pencil, rectangle,
    bresenham_points, distinct_coords, has_coord, reachable, rect_points, ToolKind, ToolState,
    MAX_LINE_COORD,
};

verus! {

/// Which overlay or dialog the interactive session is showing.
#[derive(Clone, Copy, PartialEq, Eq, Structural, Debug)]
pub enum AppMode {
    Normal,
    ExportDialog,
    FileDialog,
    SaveAs,
    ExportFile,
    Help,
    Quitting,
    Recovery,
    ColorSliders,
    PaletteDialog,
    PaletteNameInput,
}

/// A transient status-bar message.
pub struct StatusMessage {
    pub text: String,
    pub ticks_remaining: u16,
}

/// The whole interactive session state.
pub struct App {
    pub canvas: Canvas,
    pub active_tool: ToolKind,
    pub color: Rgb,
    pub symmetry: SymmetryMode,
    pub history: History,
    pub cursor: Option<(usize, usize)>,
    pub show_grid: bool,
    pub show_preview: bool,
    pub tool_state: ToolState,
    pub mode: AppMode,
    pub dirty: bool,
    pub status_message: Option<StatusMessage>,
    pub running: bool,
    pub project_name: Option<String>,
    pub project_path: Option<String>,
    pub filled_rect: bool,
    pub file_dialog_files: Vec<String>,
    pub file_dialog_selected: usize,
    pub export_format: usize,
    pub export_dest: usize,
    pub export_cursor: usize,
    pub text_input: String,
    pub auto_save_ticks: u16,
    pub recovery_path: Option<String>,
    pub recent_colors: Vec<Rgb>,
    pub custom_palette: Option<CustomPalette>,
    pub palette_dialog_files: Vec<String>,
    pub palette_dialog_selected: usize,
    pub palette_scroll: usize,
    pub palette_cursor: usize,
    pub viewport_x: usize,
    pub viewport_y: usize,
    pub new_canvas_width: usize,
    pub new_canvas_height: usize,
    pub new_canvas_input: String,
    pub new_canvas_cursor: u8,
    pub canvas_cursor: (usize, usize),
    pub canvas_cursor_active: bool,
}

/// The cell the pencil and fill tools paint: a full block in the active
/// color with no background.
pub open spec fn pencil_cell(c: Rgb) -> Cell {
    Cell { ch: crate::blocks::FULL, fg: Some(c), bg: None }
}

/// A color list with every occurrence of one color removed.
pub open spec fn keep_not(s: Seq<Rgb>, c: Rgb) -> Seq<Rgb>
    decreases s.len(),
{
    if s.len() == 0 {
        Seq::empty()
    } else if s[0] == c {
        keep_not(s.drop_first(), c)
    } else {
        seq![s[0]] + keep_not(s.drop_first(), c)
    }
}

/// The recent-colors list after using a color: moved to the front,
/// duplicates removed, capped at eight.
pub open spec fn track_recent_spec(s: Seq<Rgb>, c: Rgb) -> Seq<Rgb> {
    let t = seq![c] + keep_not(s, c);
    if t.len() > 8 {
        t.take(8)
    } else {
        t
    }
}

/// Everything a tool application leaves untouched.
pub open spec fn same_except_core(a: App, b: App) -> bool {
    &&& b.active_tool == a.active_tool
    &&& b.symmetry == a.symmetry
    &&& b.cursor == a.cursor
    &&& b.show_grid == a.show_grid
    &&& b.show_preview == a.show_preview
    &&& b.mode == a.mode
    &&& b.running == a.running
    &&& b.project_name == a.project_name
    &&& b.project_path == a.project_path
    &&& b.filled_rect == a.filled_rect
    &&& b.file_dialog_files == a.file_dialog_files
    &&& b.file_dialog_selected == a.file_dialog_selected
    &&& b.export_format == a.export_format
    &&& b.export_dest == a.export_dest
    &&& b.export_cursor == a.export_cursor
    &&& b.text_input == a.text_input
    &&& b.auto_save_ticks == a.auto_save_ticks
    &&& b.recovery_path == a.recovery_path
    &&& b.custom_palette == a.custom_palette
    &&& b.palette_dialog_files == a.palette_dialog_files
    &&& b.palette_dialog_selected == a.palette_dialog_selected
    &&& b.palette_scroll == a.palette_scroll
    &&& b.palette_cursor == a.palette_cursor
    &&& b.viewport_x == a.viewport_x
    &&& b.viewport_y == a.viewport_y
    &&& b.new_canvas_width == a.new_canvas_width
    &&& b.new_canvas_height == a.new_canvas_height
    &&& b.new_canvas_input == a.new_canvas_input
    &&& b.new_canvas_cursor == a.new_canvas_cursor
    &&& b.canvas_cursor == a.canvas_cursor
    &&& b.canvas_cursor_active == a.canvas_cursor_active
}

/// The canvas, history and dirty flag after expanding a mutation list
/// across the symmetry axes, applying it, and recording it: an expansion
/// with no mutations changes nothing.
pub open spec fn core_applied(a: App, b: App, ms: Seq<CellMutation>) -> bool {
    let ems = expand_spec(a.canvas@, ms, a.symmetry, a.canvas.width as int, a.canvas.height as int);
    &&& b.canvas.width == a.canvas.width
    &&& b.canvas.height == a.canvas.height
    &&& if ems.len() == 0 {
        b.canvas@ == a.canvas@ && b.history@ == a.history@ && b.dirty == a.dirty
    } else {
        b.canvas@ == apply_news(a.canvas@, ems) && b.history@ == push_all_m(a.history@, ems)
            && b.dirty
    }
}

impl App {
    /// The session state is valid when the canvas and the history are, the
    /// autosave counter sits below its threshold, and any stored tool
    /// coordinates fit the drawing limits.
    pub open spec fn wf(&self) -> bool {
        &&& self.canvas.wf()
        &&& self.history.wf()
        &&& self.auto_save_ticks < 600
        &&& self.tool_state matches ToolState::LineStart { x, y } ==> x <= MAX_LINE_COORD && y
            <= MAX_LINE_COORD
        &&& self.tool_state matches ToolState::RectStart { x, y } ==> x < usize::MAX && y
            < usize::MAX
    }

    /// A fresh session over a default-sized empty canvas.
    pub fn new() -> (app: App)
        ensures
            app.wf(),
            app.canvas.width == CANVAS_WIDTH,
            app.canvas.height == CANVAS_HEIGHT,
            app.canvas@ == crate::canvas::empty_grid(CANVAS_WIDTH as int, CANVAS_HEIGHT as int),
            app.history@ == (HistoryV {
                undo: Seq::empty(),
                redo: Seq::empty(),
                pending: Option::<Seq<CellMutation>>::None,
            }),
            app.active_tool == ToolKind::Pencil,
            app.color == (Rgb { r: 255, g: 255, b: 255 }),
            app.symmetry == SymmetryMode::Off,
            app.mode == AppMode::Normal,
            !app.dirty,
            app.running,
            app.status_message is None,
            app.tool_state is Idle,
            app.viewport_x == 0 && app.viewport_y == 0,
            app.recent_colors@ == Seq::<Rgb>::empty(),
            app.custom_palette is None,
    {
        App {
            canvas: Canvas::new(),
            active_tool: ToolKind::Pencil,
            color: Rgb::white(),
            symmetry: SymmetryMode::Off,
            history: History::new(),
            cursor: None,
            show_grid: true,
            show_preview: false,
            tool_state: ToolState::Idle,
            mode: AppMode::Normal,
            dirty: false,
            status_message: None,
            running: true,
            project_name: None,
            project_path: None,
            filled_rect: false,
            file_dialog_files: Vec::new(),
            file_dialog_selected: 0,
            export_format: 0,
            export_dest: 0,
            export_cursor: 0,
            text_input: String::new(),
            auto_save_ticks: 0,
            recovery_path: None,
            recent_colors: Vec::new(),
            custom_palette: None,
            palette_dialog_files: Vec::new(),
            palette_dialog_selected: 0,
            palette_scroll: 0,
            palette_cursor: 0,
            viewport_x: 0,
            viewport_y: 0,
            new_canvas_width: CANVAS_WIDTH,
            new_canvas_height: CANVAS_HEIGHT,
            new_canvas_input: String::new(),
            new_canvas_cursor: 0,
            canvas_cursor: (0, 0),
            canvas_cursor_active: false,
        }
    }

    /// Show a transient status message for about three seconds.
    pub fn set_status(&mut self, msg: &str)
        ensures
            final(self).status_message matches Some(sm) && sm.text@ == msg@
                && sm.ticks_remaining == 30,
            (App { status_message: None, ..*final(self) }) == (App {
                status_message: None,
                ..*old(self)
            }),
    {
        self.status_message = Some(
            StatusMessage { text: String::from_str(msg), ticks_remaining: 30 },
        );
    }

    /// Count a status message down, clearing it when it expires.
    pub fn tick_status(&mut self)
        ensures
            (App { status_message: None, ..*final(self) }) == (App {
                status_message: None,
                ..*old(self)
            }),
            match old(self).status_message {
                None => final(self).status_message is None,
                Some(sm) => if sm.ticks_remaining > 0 {
                    final(self).status_message matches Some(sm2) && sm2.text == sm.text
                        && sm2.ticks_remaining == sm.ticks_remaining - 1
                } else {
                    final(self).status_message is None
                },
            },
    {
        match &mut self.status_message {
            Some(msg) => {
                if msg.ticks_remaining > 0 {
                    msg.ticks_remaining = msg.ticks_remaining - 1;
                } else {
                    self.status_message = None;
                }
            },
            None => {},
        }
    }

    /// The flattened list of all browsable palette colors: the loaded
    /// custom palette first, then the recent colors, then the built-in
    /// palette.
    pub fn all_palette_colors(&self) -> (r: Vec<Rgb>)
        ensures
            r@ == (match self.custom_palette {
                Some(cp) => cp.colors@,
                None => Seq::<Rgb>::empty(),
            }) + self.recent_colors@ + default_palette_spec(),
    {
        let mut colors: Vec<Rgb> = Vec::new();
        let ghost custom = match &self.custom_palette {
            Some(cp) => cp.colors@,
            None => Seq::<Rgb>::empty(),
        };
        match &self.custom_palette {
            Some(cp) => {
                let mut i: usize = 0;
                while i < cp.colors.len()
                    invariant
                        i <= cp.colors@.len(),
                        self.custom_palette matches Some(cp2) && cp2.colors@ == cp.colors@,
                        colors@ =~= cp.colors@.subrange(0, i as int),
                    decreases cp.colors@.len() - i,
                {
                    colors.push(cp.colors[i]);
                    i = i + 1;
                    proof {
                        assert(colors@ =~= cp.colors@.subrange(0, i as int));
                    }
                }
                proof {
                    assert(colors@ =~= custom);
                }
            },
            None => {
                proof {
                    assert(colors@ =~= custom);
                }
            },
        }
        let mut i: usize = 0;
        while i < self.recent_colors.len()
            invariant
                i <= self.recent_colors@.len(),
                colors@ =~= custom + self.recent_colors@.subrange(0, i as int),
            decreases self.recent_colors@.len() - i,
        {
            colors.push(self.recent_colors[i]);
            i = i + 1;
            proof {
                assert(colors@ =~= custom + self.recent_colors@.subrange(0, i as int));
            }
        }
        proof {
            assert(colors@ =~= custom + self.recent_colors@);
        }
        let builtin = default_palette();
        let mut j: usize = 0;
        while j < builtin.len()
            invariant
                j <= builtin@.len(),
                builtin@ == default_palette_spec(),
                colors@ =~= custom + self.recent_colors@ + builtin@.subrange(0, j as int),
            decreases builtin@.len() - j,
        {
            colors.push(builtin[j]);
            j = j + 1;
            proof {
                assert(colors@ =~= custom + self.recent_colors@ + builtin@.subrange(0, j as int));
            }
        }
        proof {
            assert(colors@ =~= custom + self.recent_colors@ + default_palette_spec());
        }
        colors
    }

    /// Keep the palette cursor visible in a viewport of the given height,
    /// estimating one line per six colors.
    pub fn ensure_palette_cursor_visible(&mut self, viewport_height: usize)
        ensures
            (App { palette_scroll: 0, ..*final(self) }) == (App {
                palette_scroll: 0,
                ..*old(self)
            }),
            ({
                let line = old(self).palette_cursor as int / 6;
                let vh = viewport_height as int;
                if line < old(self).palette_scroll {
                    final(self).palette_scroll == line
                } else if line >= old(self).palette_scroll + (if vh >= 2 {
                    vh - 2
                } else {
                    0
                }) {
                    final(self).palette_scroll == (if line >= (if vh >= 4 {
                        vh - 4
                    } else {
                        0
                    }) {
                        line - (if vh >= 4 {
                            vh - 4
                        } else {
                            0
                        })
                    } else {
                        0
                    })
                } else {
                    final(self).palette_scroll == old(self).palette_scroll
                }
            }),
    {
        let estimated_line = self.palette_cursor / 6;
        let reduced2 = if viewport_height >= 2 {
            viewport_height - 2
        } else {
            0
        };
        let reduced4 = if viewport_height >= 4 {
            viewport_height - 4
        } else {
            0
        };
        if estimated_line < self.palette_scroll {
            self.palette_scroll = estimated_line;
        } else if estimated_line - self.palette_scroll >= reduced2 {
            self.palette_scroll = if estimated_line >= reduced4 {
                estimated_line - reduced4
            } else {
                0
            };
        }
    }

    /// Move a color to the front of the recent list, dropping duplicates
    /// and keeping at most eight.
    fn track_recent_color(&mut self, color: Rgb)
        ensures
            final(self).recent_colors@ == track_recent_spec(old(self).recent_colors@, color),
            (App { recent_colors: old(self).recent_colors, ..*final(self) }) == *old(self),
    {
        let ghost orig = self.recent_colors@;
        let mut out: Vec<Rgb> = Vec::new();
        out.push(color);
        let mut i: usize = 0;
        proof {
            assert(orig.skip(0) =~= orig);
            assert(out@ =~= seq![color] + keep_not(Seq::<Rgb>::empty(), color));
            assert(seq![color] + keep_not(Seq::<Rgb>::empty(), color) =~= seq![color]);
        }
        while i < self.recent_colors.len()
            invariant
                i <= orig.len(),
                orig == self.recent_colors@,
                seq![color] + keep_not(orig, color) == out@ + keep_not(
                    orig.skip(i as int),
                    color,
                ),
            decreases orig.len() - i,
        {
            let ghost rem = orig.skip(i as int);
            proof {
                assert(rem[0] == orig[i as int]);
                assert(rem.drop_first() =~= orig.skip(i + 1));
            }
            let c = self.recent_colors[i];
            let ghost prev = out@;
            if !(c.r == color.r && c.g == color.g && c.b == color.b) {
                out.push(c);
                proof {
                    assert(keep_not(rem, color) == seq![c] + keep_not(orig.skip(i + 1), color));
                    assert(out@ =~= prev + seq![c]);
                    assert((prev + seq![c]) + keep_not(orig.skip(i + 1), color) =~= prev + (
                    seq![c] + keep_not(orig.skip(i + 1), color)));
                }
            } else {
                proof {
                    assert(c == color);
                }
            }
            i = i + 1;
        }
        proof {
            assert(keep_not(orig.skip(orig.len() as int), color) =~= Seq::<Rgb>::empty());
            assert(out@ + Seq::<Rgb>::empty() =~= out@);
        }
        if out.len() > 8 {
            out.truncate(8);
        }
        self.recent_colors = out;
    }

    /// Record a list of tool mutations: expand across the symmetry axes,
    /// apply the result to the canvas, and push each mutation into the
    /// history. An expansion with no mutations changes nothing.
    fn record_mutations(&mut self, mutations: Vec<CellMutation>)
        requires
            old(self).wf(),
            forall|i: int|
                0 <= i < mutations@.len() ==> (#[trigger] mutations@[i]).x < old(
                    self,
                ).canvas.width && mutations@[i].y < old(self).canvas.height,
        ensures
            final(self).wf(),
            same_except_core(*old(self), *final(self)),
            final(self).recent_colors == old(self).recent_colors,
            final(self).color == old(self).color,
            final(self).tool_state == old(self).tool_state,
            final(self).status_message == old(self).status_message,
            core_applied(*old(self), *final(self), mutations@),
    {
        let ghost g0 = self.canvas@;
        let ghost h0 = self.history@;
        let ems = expand_symmetry(&self.canvas, &mutations, self.symmetry);
        let ghost emsv = ems@;
        if ems.is_empty() {
            return ;
        }
        let mut i: usize = 0;
        proof {
            assert(emsv.skip(0) =~= emsv);
        }
        while i < ems.len()
            invariant
                i <= emsv.len(),
                ems@ == emsv,
                self.canvas.wf(),
                self.canvas.width == old(self).canvas.width,
                self.canvas.height == old(self).canvas.height,
                (App { canvas: old(self).canvas, ..*self }) == *old(self),
                apply_news(self.canvas@, emsv.skip(i as int)) == apply_news(g0, emsv),
            decreases emsv.len() - i,
        {
            let m = ems[i];
            let ghost before = self.canvas@;
            self.canvas.set(m.x, m.y, m.new);
            proof {
                assert(emsv.skip(i as int)[0] == m);
                assert(emsv.skip(i as int).drop_first() =~= emsv.skip(i + 1));
                assert(apply_news(before, emsv.skip(i as int)) == apply_news(
                    self.canvas@,
                    emsv.skip(i + 1),
                ));
            }
            i = i + 1;
        }
        proof {
            assert(emsv.skip(emsv.len() as int) =~= Seq::<CellMutation>::empty());
        }
        let mut j: usize = 0;
        proof {
            assert(emsv.skip(0) =~= emsv);
        }
        while j < ems.len()
            invariant
                j <= emsv.len(),
                ems@ == emsv,
                self.history.wf(),
                self.canvas.wf(),
                self.canvas.width == old(self).canvas.width,
                self.canvas.height == old(self).canvas.height,
                self.canvas@ == apply_news(g0, emsv),
                (App { canvas: old(self).canvas, history: old(self).history, ..*self }) == *old(
                    self,
                ),
                push_all_m(h0, emsv) == push_all_m(self.history@, emsv.skip(j as int)),
            decreases emsv.len() - j,
        {
            let m = ems[j];
            proof {
                assert(emsv.skip(j as int)[0] == m);
                assert(emsv.skip(j as int).drop_first() =~= emsv.skip(j + 1));
            }
            self.history.push_mutation(m);
            j = j + 1;
        }
        proof {
            assert(emsv.skip(emsv.len() as int) =~= Seq::<CellMutation>::empty());
        }
        self.dirty = true;
    }

    /// The conditions the flood fill tool's mutation list satisfies.
    pub open spec fn flood_result(
        g: Seq<Seq<Cell>>,
        w: int,
        h: int,
        sx: usize,
        sy: usize,
        n: Cell,
        ms: Seq<CellMutation>,
    ) -> bool {
        if !((sx as int) < w && (sy as int) < h) {
            ms == Seq::<CellMutation>::empty()
        } else {
            let t = grid_get(g, sx as int, sy as int);
            if t == n {
                ms == Seq::<CellMutation>::empty()
            } else {
                &&& forall|i: int|
                    0 <= i < ms.len() ==> ((#[trigger] ms[i]).x as int) < w && (ms[i].y as int) < h
                        && ms[i].old == t && ms[i].old == grid_get(g, ms[i].x as int, ms[i].y as int)
                        && ms[i].new == n
                &&& distinct_coords(ms)
                &&& forall|x: usize, y: usize|
                    #[trigger] has_coord(ms, x, y) <==> reachable(g, sx, sy, t, (x, y))
            }
        }
    }

    /// Apply the active tool at (x, y): run the tool against the current
    /// grid, expand the result across the symmetry axes, apply it, and
    /// record it in the history. Line and rectangle collect their first
    /// corner into the tool state; the eyedropper only samples.
    pub fn apply_tool(&mut self, x: usize, y: usize)
        requires
            old(self).wf(),
            x <= MAX_LINE_COORD,
            y <= MAX_LINE_COORD,
        ensures
            final(self).wf(),
            same_except_core(*old(self), *final(self)),
            match old(self).active_tool {
                ToolKind::Pencil => {
                    &&& final(self).tool_state == old(self).tool_state
                    &&& final(self).color == old(self).color
                    &&& final(self).status_message == old(self).status_message
                    &&& final(self).recent_colors@ == track_recent_spec(
                        old(self).recent_colors@,
                        old(self).color,
                    )
                    &&& core_applied(
                        *old(self),
                        *final(self),
                        mutation_for(old(self).canvas@, x, y, pencil_cell(old(self).color)),
                    )
                },
                ToolKind::Eraser => {
                    &&& final(self).tool_state == old(self).tool_state
                    &&& final(self).color == old(self).color
                    &&& final(self).status_message == old(self).status_message
                    &&& final(self).recent_colors == old(self).recent_colors
                    &&& core_applied(
                        *old(self),
                        *final(self),
                        mutation_for(old(self).canvas@, x, y, empty_cell()),
                    )
                },
                ToolKind::Fill => {
                    &&& final(self).tool_state == old(self).tool_state
                    &&& final(self).color == old(self).color
                    &&& final(self).status_message == old(self).status_message
                    &&& final(self).recent_colors@ == track_recent_spec(
                        old(self).recent_colors@,
                        old(self).color,
                    )
                    &&& exists|ms: Seq<CellMutation>|
                        Self::flood_result(
                            old(self).canvas@,
                            old(self).canvas.width as int,
                            old(self).canvas.height as int,
                            x,
                            y,
                            pencil_cell(old(self).color),
                            ms,
                        ) && #[trigger] core_applied(*old(self), *final(self), ms)
                },
                ToolKind::Eyedropper => {
                    &&& final(self).canvas == old(self).canvas
                    &&& final(self).history == old(self).history
                    &&& final(self).dirty == old(self).dirty
                    &&& final(self).tool_state == old(self).tool_state
                    &&& if x < old(self).canvas.width && y < old(self).canvas.height && grid_get(
                        old(self).canvas@,
                        x as int,
                        y as int,
                    ).fg is Some {
                        let c = grid_get(old(self).canvas@, x as int, y as int).fg.unwrap();
                        &&& final(self).color == c
                        &&& final(self).recent_colors@ == track_recent_spec(
                            old(self).recent_colors@,
                            c,
                        )
                        &&& final(self).status_message matches Some(sm) && sm.text@ == "Picked: "@
                            + hex_name_spec(c)
                    } else {
                        &&& final(self).color == old(self).color
                        &&& final(self).recent_colors == old(self).recent_colors
                        &&& final(self).status_message == old(self).status_message
                    }
                },
                ToolKind::Line => match old(self).tool_state {
                    ToolState::Idle => {
                        &&& final(self).canvas == old(self).canvas
                        &&& final(self).history == old(self).history
                        &&& final(self).dirty == old(self).dirty
                        &&& final(self).color == old(self).color
                        &&& final(self).recent_colors == old(self).recent_colors
                        &&& final(self).tool_state == (ToolState::LineStart { x, y })
                        &&& final(self).status_message is Some
                    },
                    ToolState::LineStart { x: x0, y: y0 } => {
                        &&& final(self).tool_state is Idle
                        &&& final(self).color == old(self).color
                        &&& final(self).status_message == old(self).status_message
                        &&& final(self).recent_colors@ == track_recent_spec(
                            old(self).recent_colors@,
                            old(self).color,
                        )
                        &&& core_applied(
                            *old(self),
                            *final(self),
                            muts_for_points(
                                old(self).canvas@,
                                bresenham_points(x0, y0, x, y),
                                pencil_cell(old(self).color),
                            ),
                        )
                    },
                    ToolState::RectStart { .. } => *final(self) == *old(self),
                },
                ToolKind::Rectangle => match old(self).tool_state {
                    ToolState::Idle => {
                        &&& final(self).canvas == old(self).canvas
                        &&& final(self).history == old(self).history
                        &&& final(self).dirty == old(self).dirty
                        &&& final(self).color == old(self).color
                        &&& final(self).recent_colors == old(self).recent_colors
                        &&& final(self).tool_state == (ToolState::RectStart { x, y })
                        &&& final(self).status_message is Some
                    },
                    ToolState::RectStart { x: x0, y: y0 } => {
                        &&& final(self).tool_state is Idle
                        &&& final(self).color == old(self).color
                        &&& final(self).status_message == old(self).status_message
                        &&& final(self).recent_colors@ == track_recent_spec(
                            old(self).recent_colors@,
                            old(self).color,
                        )
                        &&& core_applied(
                            *old(self),
                            *final(self),
                            muts_for_points(
                                old(self).canvas@,
                                rect_points(x0, y0, x, y, old(self).filled_rect),
                                pencil_cell(old(self).color),
                            ),
                        )
                    },
                    ToolState::LineStart { .. } => *final(self) == *old(self),
                },
            },
    {
        let fg = self.color;
        match self.active_tool {
            ToolKind::Pencil => {
                self.track_recent_color(fg);
                let ms = pencil(
                    &self.canvas,
                    x,
                    y,
                    crate::blocks::FULL,
                    Some(fg),
                    None,
                );
                self.record_mutations(ms);
            },
            ToolKind::Eraser => {
                let ms = eraser(&self.canvas, x, y);
                self.record_mutations(ms);
            },
            ToolKind::Fill => {
                self.track_recent_color(fg);
                let ms = flood_fill(
                    &self.canvas,
                    x,
                    y,
                    crate::blocks::FULL,
                    Some(fg),
                    None,
                );
                let ghost msv = ms@;
                self.record_mutations(ms);
                proof {
                    assert(Self::flood_result(
                        old(self).canvas@,
                        old(self).canvas.width as int,
                        old(self).canvas.height as int,
                        x,
                        y,
                        pencil_cell(old(self).color),
                        msv,
                    ));
                    assert(core_applied(*old(self), *self, msv));
                }
            },
            ToolKind::Eyedropper => {
                match eyedropper(&self.canvas, x, y) {
                    Some((picked, _bg, _ch)) => {
                        match picked {
                            Some(c) => {
                                self.color = c;
                                self.track_recent_color(c);
                                let name = c.name();
                                let mut st = String::from_str("Picked: ");
                                st.append(name.as_str());
                                self.set_status(st.as_str());
                            },
                            None => {},
                        }
                    },
                    None => {},
                }
            },
            ToolKind::Line => {
                match self.tool_state {
                    ToolState::Idle => {
                        self.tool_state = ToolState::LineStart { x, y };
                        self.set_status("Line: click endpoint");
                    },
                    ToolState::LineStart { x: x0, y: y0 } => {
                        self.tool_state = ToolState::Idle;
                        self.track_recent_color(fg);
                        let ms = line(
                            &self.canvas,
                            x0,
                            y0,
                            x,
                            y,
                            crate::blocks::FULL,
                            Some(fg),
                            None,
                        );
                        proof {
                            crate::tools::lemma_muts_for_points_bounds(
                                self.canvas@,
                                bresenham_points(x0, y0, x, y),
                                pencil_cell(fg),
                                self.canvas.width as int,
                                self.canvas.height as int,
                            );
                        }
                        self.record_mutations(ms);
                    },
                    ToolState::RectStart { .. } => {},
                }
            },
            ToolKind::Rectangle => {
                match self.tool_state {
                    ToolState::Idle => {
                        self.tool_state = ToolState::RectStart { x, y };
                        self.set_status("Rect: click second corner");
                    },
                    ToolState::RectStart { x: x0, y: y0 } => {
                        self.tool_state = ToolState::Idle;
                        self.track_recent_color(fg);
                        let ms = rectangle(
                            &self.canvas,
                            x0,
                            y0,
                            x,
                            y,
                            crate::blocks::FULL,
                            Some(fg),
                            None,
                            self.filled_rect,
                        );
                        proof {
                            crate::tools::lemma_muts_for_points_bounds(
                                self.canvas@,
                                rect_points(x0, y0, x, y, self.filled_rect),
                                pencil_cell(fg),
                                self.canvas.width as int,
                                self.canvas.height as int,
                            );
                        }
                        self.record_mutations(ms);
                    },
                    ToolState::LineStart { .. } => {},
                }
            },
        }
    }

    /// Start a drag stroke: its mutations will batch into one action.
    pub fn begin_stroke(&mut self)
        requires
            old(self).wf(),
        ensures
            final(self).wf(),
            final(self).history@ == begin_stroke_m(old(self).history@),
            (App { history: old(self).history, ..*final(self) }) == *old(self),
    {
        self.history.begin_stroke();
    }

    /// End the current drag stroke, committing it as a single action.
    pub fn end_stroke(&mut self)
        requires
            old(self).wf(),
        ensures
            final(self).wf(),
            final(self).history@ == end_stroke_m(old(self).history@),
            (App { history: old(self).history, ..*final(self) }) == *old(self),
    {
        self.history.end_stroke();
    }

    /// Undo the last action, restoring the grid it recorded.
    pub fn undo(&mut self)
        requires
            old(self).wf(),
        ensures
            final(self).wf(),
            same_except_core(*old(self), *final(self)),
            final(self).recent_colors == old(self).recent_colors,
            final(self).color == old(self).color,
            final(self).tool_state == old(self).tool_state,
            if old(self).history@.undo.len() == 0 {
                &&& final(self).canvas@ == old(self).canvas@
                &&& final(self).canvas.width == old(self).canvas.width
                &&& final(self).canvas.height == old(self).canvas.height
                &&& final(self).history@ == old(self).history@
                &&& final(self).dirty == old(self).dirty
                &&& final(self).status_message == old(self).status_message
            } else {
                let a = old(self).history@.undo.last();
                &&& final(self).canvas@ == undo_grid(a, old(self).canvas@)
                &&& final(self).history@ == (HistoryV {
                    undo: old(self).history@.undo.drop_last(),
                    redo: old(self).history@.redo.push(a),
                    pending: old(self).history@.pending,
                })
                &&& final(self).dirty
                &&& final(self).status_message matches Some(sm) && sm.text@ == "Undo"@
            },
    {
        let did = self.history.undo(&mut self.canvas);
        if did {
            self.dirty = true;
            self.set_status("Undo");
        }
    }

    /// Redo the last undone action, restoring the grid it produced.
    pub fn redo(&mut self)
        requires
            old(self).wf(),
        ensures
            final(self).wf(),
            same_except_core(*old(self), *final(self)),
            final(self).recent_colors == old(self).recent_colors,
            final(self).color == old(self).color,
            final(self).tool_state == old(self).tool_state,
            if old(self).history@.redo.len() == 0 {
                &&& final(self).canvas@ == old(self).canvas@
                &&& final(self).canvas.width == old(self).canvas.width
                &&& final(self).canvas.height == old(self).canvas.height
                &&& final(self).history@ == old(self).history@
                &&& final(self).dirty == old(self).dirty
                &&& final(self).status_message == old(self).status_message
            } else {
                let a = old(self).history@.redo.last();
                &&& final(self).canvas@ == redo_grid(a, old(self).canvas@)
                &&& final(self).history@ == (HistoryV {
                    undo: old(self).history@.undo.push(a),
                    redo: old(self).history@.redo.drop_last(),
                    pending: old(self).history@.pending,
                })
                &&& final(self).dirty
                &&& final(self).status_message matches Some(sm) && sm.text@ == "Redo"@
            },
    {
        let did = self.history.redo(&mut self.canvas);
        if did {
            self.dirty = true;
            self.set_status("Redo");
        }
    }

    /// Abandon a two-click tool in progress.
    pub fn cancel_tool(&mut self)
        ensures
            final(self).tool_state is Idle,
            (App { tool_state: ToolState::Idle, ..*final(self) }) == (App {
                tool_state: ToolState::Idle,
                ..*old(self)
            }),
    {
        self.tool_state = ToolState::Idle;
    }

    /// Reset to a blank unnamed project on the same canvas size.
    pub fn new_project(&mut self)
        requires
            old(self).wf(),
        ensures
            final(self).wf(),
            final(self).canvas@ == crate::canvas::empty_grid(
                old(self).canvas.width as int,
                old(self).canvas.height as int,
            ),
            final(self).canvas.width == old(self).canvas.width,
            final(self).canvas.height == old(self).canvas.height,
            final(self).color == (Rgb { r: 255, g: 255, b: 255 }),
            final(self).symmetry == SymmetryMode::Off,
            final(self).history@ == (HistoryV {
                undo: Seq::empty(),
                redo: Seq::empty(),
                pending: Option::<Seq<CellMutation>>::None,
            }),
            !final(self).dirty,
            final(self).project_name is None,
            final(self).project_path is None,
            final(self).auto_save_ticks == 0,
            final(self).status_message matches Some(sm) && sm.text@ == "New project"@,
    {
        self.canvas.clear();
        self.color = Rgb::white();
        self.symmetry = SymmetryMode::Off;
        self.history = History::new();
        self.dirty = false;
        self.project_name = None;
        self.project_path = None;
        self.auto_save_ticks = 0;
        self.set_status("New project");
    }

    /// Count toward the next autosave: after enough ticks with unsaved
    /// changes, the counter resets and an autosave is due. The caller
    /// performs the write when this returns true.
    pub fn tick_auto_save(&mut self) -> (due: bool)
        requires
            old(self).wf(),
        ensures
            final(self).wf(),
            (App { auto_save_ticks: 0, ..*final(self) }) == (App {
                auto_save_ticks: 0,
                ..*old(self)
            }),
            !old(self).dirty ==> !due && final(self).auto_save_ticks == old(self).auto_save_ticks,
            old(self).dirty ==> {
                &&& due == (old(self).auto_save_ticks + 1 >= 600)
                &&& final(self).auto_save_ticks == if old(self).auto_save_ticks + 1 >= 600 {
                    0int
                } else {
                    old(self).auto_save_ticks + 1
                }
            },
    {
        if !self.dirty {
            return false;
        }
        self.auto_save_ticks = self.auto_save_ticks + 1;
        if self.auto_save_ticks >= 600 {
            self.auto_save_ticks = 0;
            true
        } else {
            false
        }
    }

    /// Install a loaded project: the interactive session adopts its
    /// canvas, color, symmetry and name, with a fresh history.
    pub fn load_project(&mut self, filename: &str, project: Project)
        requires
            old(self).wf(),
            project.canvas.wf(),
        ensures
            final(self).wf(),
            final(self).canvas == project.canvas,
            final(self).color == project.color,
            final(self).symmetry == project.symmetry,
            final(self).project_name matches Some(n) && n == project.name,
            final(self).project_path matches Some(p) && p@ == filename@,
            !final(self).dirty,
            final(self).history@ == (HistoryV {
                undo: Seq::empty(),
                redo: Seq::empty(),
                pending: Option::<Seq<CellMutation>>::None,
            }),
            final(self).auto_save_ticks == 0,
            final(self).status_message is Some,
    {
        self.canvas = project.canvas;
        self.color = project.color;
        self.symmetry = project.symmetry;
        self.project_name = Some(project.name);
        self.project_path = Some(String::from_str(filename));
        self.dirty = false;
        self.history = History::new();
        self.auto_save_ticks = 0;
        let mut st = String::from_str("Opened: ");
        st.append(filename);
        self.set_status(st.as_str());
    }

    /// Adopt a recovered autosave, or report the failure; either way the
    /// recovery prompt closes.
    pub fn recover_autosave(&mut self, loaded: Option<Project>)
        requires
            old(self).wf(),
            loaded matches Some(p) ==> p.canvas.wf(),
        ensures
            final(self).wf(),
            final(self).recovery_path is None,
            final(self).mode == AppMode::Normal,
            match loaded {
                Some(p) => {
                    &&& final(self).canvas == p.canvas
                    &&& final(self).color == p.color
                    &&& final(self).symmetry == p.symmetry
                    &&& final(self).project_name matches Some(n) && n == p.name
                    &&& final(self).dirty
                },
                None => {
                    &&& final(self).canvas == old(self).canvas
                    &&& final(self).status_message is Some
                },
            },
    {
        match loaded {
            Some(p) => {
                self.canvas = p.canvas;
                self.color = p.color;
                self.symmetry = p.symmetry;
                self.project_name = Some(p.name);
                self.dirty = true;
                self.set_status("Recovered from autosave");
            },
            None => {
                self.set_status("Recovery failed");
            },
        }
        self.recovery_path = None;
        self.mode = AppMode::Normal;
    }

    /// Adopt a name from the save-as dialog and return the file path the
    /// front-end should save to: the name, with the project suffix added
    /// when missing.
    pub fn save_as(&mut self, name: &str) -> (path: String)
        requires
            old(self).wf(),
        ensures
            final(self).wf(),
            path@ == crate::cli::ensure_kaku_spec(name@),
            final(self).project_path matches Some(p) && p@ == path@,
            final(self).project_name matches Some(n) && n@ == crate::cli::strip_kaku_spec(name@),
            (App { project_name: None, project_path: None, ..*final(self) }) == (App {
                project_name: None,
                project_path: None,
                ..*old(self)
            }),
    {
        let filename = crate::cli::ensure_kaku_suffix(name);
        self.project_name = Some(crate::cli::strip_kaku_suffix(name));
        self.project_path = Some(filename.clone());
        filename
    }

    /// Start a new custom palette and return the palette file name the
    /// front-end should create.
    pub fn create_custom_palette(&mut self, name: &str) -> (file: String)
        requires
            old(self).wf(),
        ensures
            final(self).wf(),
            final(self).custom_palette matches Some(cp) && cp.name@ == name@ && cp.colors@
                == Seq::<Rgb>::empty(),
            final(self).mode == AppMode::Normal,
            file@ == name@ + ".palette"@,
    {
        let colors: Vec<Rgb> = Vec::new();
        proof {
            assert(colors@ =~= Seq::<Rgb>::empty());
        }
        self.custom_palette = Some(CustomPalette { name: String::from_str(name), colors });
        let mut file = String::from_str(name);
        file.append(".palette");
        let mut st = String::from_str("Created palette: ");
        st.append(name);
        self.set_status(st.as_str());
        self.mode = AppMode::Normal;
        file
    }

    /// Add the active color to the loaded custom palette; returns the
    /// palette file name to rewrite when the color was new.
    pub fn add_color_to_custom_palette(&mut self) -> (file: Option<String>)
        requires
            old(self).wf(),
        ensures
            final(self).wf(),
            match old(self).custom_palette {
                None => final(self).custom_palette is None && file is None,
                Some(cp) => {
                    if contains_color(cp.colors@, old(self).color) {
                        &&& final(self).custom_palette matches Some(cp2) && cp2.colors@
                            == cp.colors@
                        &&& file is None
                    } else {
                        &&& final(self).custom_palette matches Some(cp2) && cp2.colors@
                            == cp.colors@.push(old(self).color)
                        &&& file matches Some(f) && f@ == cp.name@ + ".palette"@
                    }
                },
            },
    {
        let color = self.color;
        let mut result: Option<String> = None;
        let mut already = false;
        let mut none_loaded = false;
        match &mut self.custom_palette {
            Some(cp) => {
                let ghost cs = cp.colors@;
                let mut found = false;
                let mut i: usize = 0;
                while i < cp.colors.len()
                    invariant
                        i <= cs.len(),
                        cp.colors@ == cs,
                        found == exists|j: int| 0 <= j < i && #[trigger] cs[j] == color,
                    decreases cs.len() - i,
                {
                    let c = cp.colors[i];
                    if c.r == color.r && c.g == color.g && c.b == color.b {
                        found = true;
                        proof {
                            assert(cs[i as int] == color);
                        }
                    }
                    i = i + 1;
                }
                if !found {
                    cp.colors.push(color);
                    let name_copy = cp.name.clone();
                    let mut file = String::new();
                    file.append(name_copy.as_str());
                    file.append(".palette");
                    proof {
                        assert(file@ =~= name_copy@ + ".palette"@);
                    }
                    result = Some(file);
                } else {
                    already = true;
                }
            },
            None => {
                none_loaded = true;
            },
        }
        if none_loaded {
            self.set_status("No palette loaded. Press C to open palettes.");
        } else if already {
            self.set_status("Color already in palette");
        } else {
            self.set_status("Added color to palette");
        }
        result
    }

    /// Install a loaded custom palette, or report the failure.
    pub fn load_selected_palette(&mut self, loaded: Option<CustomPalette>)
        requires
            old(self).wf(),
        ensures
            final(self).wf(),
            match loaded {
                Some(cp) => final(self).custom_palette matches Some(cp2) && cp2.name == cp.name
                    && cp2.colors@ == cp.colors@ && final(self).mode == AppMode::Normal,
                None => final(self).custom_palette == old(self).custom_palette
                    && final(self).status_message is Some,
            },
    {
        match loaded {
            Some(cp) => {
                self.set_status("Loaded palette");
                self.custom_palette = Some(cp);
                self.mode = AppMode::Normal;
            },
            None => {
                self.set_status("Load failed");
            },
        }
    }
}

/// Whether a color list holds the color.
pub open spec fn contains_color(s: Seq<Rgb>, c: Rgb) -> bool {
    exists|j: int| 0 <= j < s.len() && #[trigger] s[j] == c
}

} // verus!
