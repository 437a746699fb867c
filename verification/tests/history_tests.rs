use kakukuma::blocks;
use kakukuma::canvas::Canvas;
use kakukuma::cell::{Cell, Rgb};
use kakukuma::history::{Action, CellMutation, History};
use kakukuma::tools;

fn red_cell() -> Cell {
    Cell {
        ch: blocks::FULL,
        fg: Some(Rgb { r: 205, g: 0, b: 0 }),
        bg: None,
    }
}

#[test]
fn test_undo_redo_single() {
    let mut canvas = Canvas::new();
    let mut history = History::new();

    let old = canvas.get(0, 0).unwrap();
    let new = red_cell();
    canvas.set(0, 0, new);
    history.push_mutation(CellMutation { x: 0, y: 0, old, new });

    assert_eq!(canvas.get(0, 0), Some(new));
    history.undo(&mut canvas);
    assert_eq!(canvas.get(0, 0), Some(old));
    history.redo(&mut canvas);
    assert_eq!(canvas.get(0, 0), Some(new));
}

#[test]
fn test_stroke_batching() {
    let mut canvas = Canvas::new();
    let mut history = History::new();

    history.begin_stroke();
    for x in 0..5 {
        let old = canvas.get(x, 0).unwrap();
        let new = red_cell();
        canvas.set(x, 0, new);
        history.push_mutation(CellMutation { x, y: 0, old, new });
    }
    history.end_stroke();

    // One undo should revert all 5 cells
    history.undo(&mut canvas);
    for x in 0..5 {
        assert_eq!(canvas.get(x, 0), Some(Cell::default()));
    }
}

#[test]
fn test_new_action_clears_redo() {
    let mut canvas = Canvas::new();
    let mut history = History::new();

    let old = canvas.get(0, 0).unwrap();
    let new = red_cell();
    canvas.set(0, 0, new);
    history.push_mutation(CellMutation { x: 0, y: 0, old, new });
    history.undo(&mut canvas);
    assert!(history.can_redo());

    // New action should clear redo
    let old2 = canvas.get(1, 1).unwrap();
    canvas.set(1, 1, new);
    history.push_mutation(CellMutation { x: 1, y: 1, old: old2, new });
    assert!(!history.can_redo());
}

#[test]
fn test_capacity_limit() {
    let mut canvas = Canvas::new();
    let mut history = History::new();

    for i in 0..300 {
        let x = i % 32;
        let old = canvas.get(x, 0).unwrap();
        let new = red_cell();
        canvas.set(x, 0, new);
        history.push_mutation(CellMutation { x, y: 0, old, new });
    }

    // Should have at most 256 actions
    let mut count = 0;
    while history.undo(&mut canvas) {
        count += 1;
    }
    assert!(count <= 256);
}

#[test]
fn test_undo_shade_placement() {
    let mut canvas = Canvas::new();
    let mut history = History::new();

    let old = canvas.get(4, 6).unwrap();
    let new = Cell {
        ch: blocks::SHADE_DARK,
        fg: Some(Rgb { r: 0, g: 205, b: 0 }),
        bg: None,
    };
    canvas.set(4, 6, new);
    history.push_mutation(CellMutation { x: 4, y: 6, old, new });

    // Verify shade was placed
    assert_eq!(canvas.get(4, 6).unwrap().ch, blocks::SHADE_DARK);

    // Undo should revert to original empty cell
    assert!(history.undo(&mut canvas));
    let reverted = canvas.get(4, 6).unwrap();
    assert_eq!(reverted.ch, ' ');
    assert_eq!(reverted, Cell::default());

    // Redo should restore the shade
    assert!(history.redo(&mut canvas));
    assert_eq!(canvas.get(4, 6).unwrap().ch, blocks::SHADE_DARK);
}

#[test]
fn test_canvas_snapshot_undo() {
    let mut canvas = Canvas::new_with_size(16, 16);
    let mut history = History::new();

    // Place a cell before resize
    let cell = red_cell();
    canvas.set(5, 5, cell);

    // Capture old state
    let old_cells = canvas.cells();
    let old_w = canvas.width;
    let old_h = canvas.height;

    // Resize
    canvas.resize(32, 32);

    // Capture new state
    let new_cells = canvas.cells();
    let new_w = canvas.width;
    let new_h = canvas.height;

    history.commit(Action::CanvasSnapshot {
        old_cells,
        old_w,
        old_h,
        new_cells,
        new_w,
        new_h,
    });

    assert_eq!(canvas.width, 32);
    assert_eq!(canvas.height, 32);

    // Undo restores original 16x16
    assert!(history.undo(&mut canvas));
    assert_eq!(canvas.width, 16);
    assert_eq!(canvas.height, 16);
    assert_eq!(canvas.get(5, 5), Some(cell));
}

#[test]
fn test_canvas_snapshot_redo() {
    let mut canvas = Canvas::new_with_size(16, 16);
    let mut history = History::new();

    canvas.set(5, 5, red_cell());

    let old_cells = canvas.cells();
    let old_w = canvas.width;
    let old_h = canvas.height;

    canvas.resize(32, 32);

    let new_cells = canvas.cells();
    let new_w = canvas.width;
    let new_h = canvas.height;

    history.commit(Action::CanvasSnapshot {
        old_cells,
        old_w,
        old_h,
        new_cells,
        new_w,
        new_h,
    });

    // Undo then redo
    history.undo(&mut canvas);
    assert_eq!(canvas.width, 16);

    assert!(history.redo(&mut canvas));
    assert_eq!(canvas.width, 32);
    assert_eq!(canvas.height, 32);
    // Original cell preserved at (5,5)
    assert_eq!(canvas.get(5, 5), Some(red_cell()));
}

#[test]
fn test_mixed_history() {
    let mut canvas = Canvas::new_with_size(16, 16);
    let mut history = History::new();

    // 1. Paint a cell
    let old = canvas.get(3, 3).unwrap();
    let cell = red_cell();
    canvas.set(3, 3, cell);
    history.push_mutation(CellMutation { x: 3, y: 3, old, new: cell });

    // 2. Resize via snapshot
    let old_cells = canvas.cells();
    canvas.resize(24, 24);
    let new_cells = canvas.cells();
    history.commit(Action::CanvasSnapshot {
        old_cells,
        old_w: 16,
        old_h: 16,
        new_cells,
        new_w: 24,
        new_h: 24,
    });

    assert_eq!(canvas.width, 24);

    // Undo resize: back to 16x16 with red cell
    history.undo(&mut canvas);
    assert_eq!(canvas.width, 16);
    assert_eq!(canvas.get(3, 3), Some(cell));

    // Undo paint: back to default cell
    history.undo(&mut canvas);
    assert_eq!(canvas.get(3, 3), Some(Cell::default()));
}

// A whole drawing session made of tool-produced actions, undone to the
// very start, restores the untouched grid cell for cell.
#[test]
fn test_full_session_inversion() {

    let mut canvas = Canvas::new_with_size(16, 16);
    let mut history = History::new();
    let original = canvas.cells();
    let red = Some(Rgb { r: 205, g: 0, b: 0 });
    let blue = Some(Rgb { r: 0, g: 0, b: 205 });

    let steps: Vec<Vec<CellMutation>> = vec![
        tools::line(&canvas, 0, 0, 10, 5, blocks::FULL, red, None),
        tools::rectangle(&canvas, 2, 2, 9, 9, blocks::FULL, blue, None, false),
        tools::flood_fill(&canvas, 4, 4, blocks::SHADE_DARK, red, None),
    ];
    for ms in steps {
        // re-run the tool against the live canvas so `old` values stay
        // consistent, then apply and record
        history.begin_stroke();
        for m in ms {
            let actual_old = canvas.get(m.x, m.y).unwrap();
            let m2 = CellMutation { x: m.x, y: m.y, old: actual_old, new: m.new };
            canvas.set(m.x, m.y, m.new);
            history.push_mutation(m2);
        }
        history.end_stroke();
    }

    while history.undo(&mut canvas) {}

    let after = canvas.cells();
    assert_eq!(original.len(), after.len());
    for y in 0..16 {
        for x in 0..16 {
            assert_eq!(original[y][x], after[y][x]);
        }
    }
}

// Undo followed by redo reproduces the exact grid state before the undo.
#[test]
fn test_undo_redo_roundtrip_state() {

    let mut canvas = Canvas::new_with_size(16, 16);
    let mut history = History::new();
    let red = Some(Rgb { r: 205, g: 0, b: 0 });

    let ms = tools::rectangle(&canvas, 1, 1, 6, 6, blocks::FULL, red, None, true);
    history.begin_stroke();
    for m in &ms {
        canvas.set(m.x, m.y, m.new);
        history.push_mutation(*m);
    }
    history.end_stroke();

    let before = canvas.cells();
    assert!(history.undo(&mut canvas));
    assert!(history.redo(&mut canvas));
    let after = canvas.cells();
    for y in 0..16 {
        for x in 0..16 {
            assert_eq!(before[y][x], after[y][x]);
        }
    }
}

#[test]
fn test_commit_rejects_empty_cell_change() {
    let mut canvas = Canvas::new();
    let mut history = History::new();
    history.commit(Action::CellChange(Vec::new()));
    assert!(!history.can_undo());
    assert!(!history.undo(&mut canvas));
}
