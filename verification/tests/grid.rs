use kakukuma::blocks;
use kakukuma::canvas::{Canvas, CANVAS_HEIGHT, CANVAS_WIDTH};
use kakukuma::cell::{color256_to_rgb, Cell};
use kakukuma::stats::{count_non_empty, symmetry_match_counts};

#[test]
fn test_new_canvas_is_empty() {
    let canvas = Canvas::new();
    for y in 0..CANVAS_HEIGHT {
        for x in 0..CANVAS_WIDTH {
            assert_eq!(canvas.get(x, y), Some(Cell::default()));
        }
    }
}

#[test]
fn test_get_set() {
    let mut canvas = Canvas::new();
    let cell = Cell {
        ch: blocks::FULL,
        fg: Some(color256_to_rgb(1)),
        bg: Some(color256_to_rgb(4)),
    };
    canvas.set(5, 10, cell);
    assert_eq!(canvas.get(5, 10), Some(cell));
}

#[test]
fn test_out_of_bounds_get() {
    let canvas = Canvas::new();
    assert_eq!(canvas.get(32, 0), None);
    assert_eq!(canvas.get(0, 32), None);
    assert_eq!(canvas.get(100, 100), None);
}

#[test]
fn test_out_of_bounds_set() {
    let mut canvas = Canvas::new();
    let cell = Cell {
        ch: blocks::FULL,
        fg: Some(color256_to_rgb(1)),
        bg: Some(color256_to_rgb(0)),
    };
    canvas.set(32, 0, cell); // Should not panic
    canvas.set(0, 32, cell); // Should not panic
}

#[test]
fn test_clear() {
    let mut canvas = Canvas::new();
    let cell = Cell {
        ch: blocks::FULL,
        fg: Some(color256_to_rgb(1)),
        bg: Some(color256_to_rgb(4)),
    };
    canvas.set(0, 0, cell);
    canvas.set(31, 31, cell);
    canvas.clear();
    assert_eq!(canvas.get(0, 0), Some(Cell::default()));
    assert_eq!(canvas.get(31, 31), Some(Cell::default()));
}

#[test]
fn test_resize_preserves_overlap() {
    let mut canvas = Canvas::new_with_size(16, 16);
    let cell = Cell {
        ch: blocks::FULL,
        fg: Some(color256_to_rgb(9)),
        bg: None,
    };
    canvas.set(3, 4, cell);
    canvas.resize(24, 8);
    assert_eq!(canvas.width, 24);
    assert_eq!(canvas.height, 8);
    assert_eq!(canvas.get(3, 4), Some(cell));
    assert_eq!(canvas.get(20, 2), Some(Cell::default()));
    assert_eq!(canvas.get(3, 12), None);
}

#[test]
fn test_replace_restores_snapshot() {
    let mut canvas = Canvas::new_with_size(8, 8);
    let cell = Cell {
        ch: blocks::SHADE_DARK,
        fg: Some(color256_to_rgb(12)),
        bg: None,
    };
    canvas.set(1, 1, cell);
    let snapshot = canvas.cells();
    canvas.resize(16, 16);
    canvas.replace(snapshot, 8, 8);
    assert_eq!(canvas.width, 8);
    assert_eq!(canvas.height, 8);
    assert_eq!(canvas.get(1, 1), Some(cell));
}

#[test]
fn test_stats_counts() {
    let mut canvas = Canvas::new_with_size(8, 8);
    assert_eq!(count_non_empty(&canvas), 0);
    let (h, v) = symmetry_match_counts(&canvas);
    assert_eq!((h, v), (64, 64));
    let cell = Cell {
        ch: blocks::FULL,
        fg: Some(color256_to_rgb(9)),
        bg: None,
    };
    canvas.set(0, 0, cell);
    assert_eq!(count_non_empty(&canvas), 1);
    // (0,0) no longer matches (7,0) nor (0,7), and their mirrors fail too
    let (h, v) = symmetry_match_counts(&canvas);
    assert_eq!((h, v), (62, 62));
}
