use kakukuma::app::{App, AppMode};
use kakukuma::blocks;
use kakukuma::canvas::Canvas;
use kakukuma::cell::{Cell, Rgb};
use kakukuma::export::to_plain_text;
use kakukuma::symmetry::{expand_symmetry, SymmetryMode};
use kakukuma::tools::{pencil, ToolKind};

// On a 16x16 grid, a pencil at (2,5) with horizontal symmetry must also
// set (13,5) — the mirror is width-1-x = 16-1-2 = 13 — to the same cell.
#[test]
fn test_symmetry_horizontal_literal() {
    let canvas = Canvas::new_with_size(16, 16);
    let red = Some(Rgb { r: 255, g: 0, b: 0 });
    let ms = pencil(&canvas, 2, 5, blocks::FULL, red, None);
    let expanded = expand_symmetry(&canvas, &ms, SymmetryMode::Horizontal);
    assert_eq!(expanded.len(), 2);
    assert_eq!((expanded[0].x, expanded[0].y), (2, 5));
    assert_eq!((expanded[1].x, expanded[1].y), (13, 5));
    assert_eq!(expanded[0].new, expanded[1].new);
}

#[test]
fn test_symmetry_vertical() {
    let canvas = Canvas::new_with_size(16, 16);
    let red = Some(Rgb { r: 255, g: 0, b: 0 });
    let ms = pencil(&canvas, 2, 5, blocks::FULL, red, None);
    let expanded = expand_symmetry(&canvas, &ms, SymmetryMode::Vertical);
    assert_eq!(expanded.len(), 2);
    assert_eq!((expanded[1].x, expanded[1].y), (2, 10));
}

#[test]
fn test_symmetry_quad() {
    let canvas = Canvas::new_with_size(16, 16);
    let red = Some(Rgb { r: 255, g: 0, b: 0 });
    let ms = pencil(&canvas, 2, 5, blocks::FULL, red, None);
    let expanded = expand_symmetry(&canvas, &ms, SymmetryMode::Quad);
    assert_eq!(expanded.len(), 4);
    let coords: Vec<(usize, usize)> = expanded.iter().map(|m| (m.x, m.y)).collect();
    assert!(coords.contains(&(2, 5)));
    assert!(coords.contains(&(13, 5)));
    assert!(coords.contains(&(2, 10)));
    assert!(coords.contains(&(13, 10)));
}

// A cell exactly on a mirror axis is emitted only once.
#[test]
fn test_symmetry_axis_dedup() {
    let canvas = Canvas::new_with_size(15, 15);
    let red = Some(Rgb { r: 255, g: 0, b: 0 });
    // x = 7 is its own horizontal mirror on a 15-wide grid
    let ms = pencil(&canvas, 7, 3, blocks::FULL, red, None);
    let expanded = expand_symmetry(&canvas, &ms, SymmetryMode::Horizontal);
    assert_eq!(expanded.len(), 1);
}

// Mirrored positions re-sample their own prior value from the live grid
// rather than copying the origin's.
#[test]
fn test_symmetry_resamples_old() {
    let mut canvas = Canvas::new_with_size(16, 16);
    let blue = Cell {
        ch: blocks::SHADE_LIGHT,
        fg: Some(Rgb { r: 0, g: 0, b: 255 }),
        bg: None,
    };
    canvas.set(13, 5, blue);
    let red = Some(Rgb { r: 255, g: 0, b: 0 });
    let ms = pencil(&canvas, 2, 5, blocks::FULL, red, None);
    let expanded = expand_symmetry(&canvas, &ms, SymmetryMode::Horizontal);
    assert_eq!(expanded.len(), 2);
    assert_eq!(expanded[0].old, Cell::default());
    assert_eq!(expanded[1].old, blue);
}

// The interactive session draws through the same expansion: pencil with
// horizontal symmetry paints the mirror cell, and one undo removes both.
#[test]
fn test_apply_tool_with_symmetry_undo() {
    let mut app = App::new();
    app.symmetry = SymmetryMode::Horizontal;
    app.active_tool = ToolKind::Pencil;
    app.color = Rgb { r: 255, g: 0, b: 0 };

    app.begin_stroke();
    app.apply_tool(2, 5);
    app.end_stroke();

    let painted = app.canvas.get(2, 5).unwrap();
    let mirrored = app.canvas.get(29, 5).unwrap();
    assert_eq!(painted.ch, blocks::FULL);
    assert_eq!(painted, mirrored);

    app.undo();
    assert_eq!(app.canvas.get(2, 5), Some(Cell::default()));
    assert_eq!(app.canvas.get(29, 5), Some(Cell::default()));
    assert_eq!(app.mode, AppMode::Normal);
}

#[test]
fn test_plain_text_export() {
    let mut canvas = Canvas::new_with_size(8, 8);
    canvas.set(
        0,
        0,
        Cell { ch: blocks::FULL, fg: None, bg: None },
    );
    let text = to_plain_text(&canvas);
    let lines: Vec<&str> = text.lines().collect();
    assert_eq!(lines.len(), 8);
    assert!(lines[0].starts_with('\u{2588}'));
    assert_eq!(lines[1].chars().count(), 8);
}

#[test]
fn test_eyedropper_picks_color() {
    let mut app = App::new();
    let red = Rgb { r: 200, g: 20, b: 20 };
    app.canvas.set(
        3,
        3,
        Cell { ch: blocks::FULL, fg: Some(red), bg: None },
    );
    app.active_tool = ToolKind::Eyedropper;
    app.apply_tool(3, 3);
    assert_eq!(app.color, red);
    assert!(!app.dirty);
}

#[test]
fn test_two_click_line_tool() {
    let mut app = App::new();
    app.active_tool = ToolKind::Line;
    app.color = Rgb { r: 10, g: 200, b: 10 };
    app.apply_tool(0, 0);
    // first click only arms the tool
    assert_eq!(app.canvas.get(0, 0), Some(Cell::default()));
    app.begin_stroke();
    app.apply_tool(5, 5);
    app.end_stroke();
    for i in 0..6 {
        assert_eq!(app.canvas.get(i, i).unwrap().ch, blocks::FULL);
    }
    app.undo();
    for i in 0..6 {
        assert_eq!(app.canvas.get(i, i), Some(Cell::default()));
    }
}
