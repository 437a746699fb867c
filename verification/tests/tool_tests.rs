use kakukuma::blocks;
use kakukuma::canvas::Canvas;
use kakukuma::cell::{color256_to_rgb, Cell, Rgb};
use kakukuma::tools::bresenham_line;
use kakukuma::tools::eraser;
use kakukuma::tools::eyedropper;
use kakukuma::tools::flood_fill;
use kakukuma::tools::pencil;
use kakukuma::tools::rectangle;

#[test]
fn test_bresenham_horizontal() {
    let points = bresenham_line(0, 0, 5, 0);
    assert_eq!(points.len(), 6);
    for (i, &(x, y)) in points.iter().enumerate() {
        assert_eq!(x, i);
        assert_eq!(y, 0);
    }
}

#[test]
fn test_bresenham_vertical() {
    let points = bresenham_line(0, 0, 0, 5);
    assert_eq!(points.len(), 6);
    for (i, &(x, y)) in points.iter().enumerate() {
        assert_eq!(x, 0);
        assert_eq!(y, i);
    }
}

#[test]
fn test_bresenham_diagonal() {
    let points = bresenham_line(0, 0, 5, 5);
    assert_eq!(points.len(), 6);
    for (i, &(x, y)) in points.iter().enumerate() {
        assert_eq!(x, i);
        assert_eq!(y, i);
    }
}

#[test]
fn test_bresenham_single_point() {
    let points = bresenham_line(3, 3, 3, 3);
    assert_eq!(points.len(), 1);
    assert_eq!(points[0], (3, 3));
}

#[test]
fn test_bresenham_steep() {
    let points = bresenham_line(0, 0, 2, 6);
    assert_eq!(points.first(), Some(&(0, 0)));
    assert_eq!(points.last(), Some(&(2, 6)));
    assert_eq!(points.len(), 7);
    for w in points.windows(2) {
        assert!(w[1].1 >= w[0].1);
    }
}

#[test]
fn test_bresenham_shallow() {
    let points = bresenham_line(0, 0, 6, 2);
    assert_eq!(points.first(), Some(&(0, 0)));
    assert_eq!(points.last(), Some(&(6, 2)));
    assert_eq!(points.len(), 7);
    for w in points.windows(2) {
        assert!(w[1].0 >= w[0].0);
    }
}

#[test]
fn test_bresenham_reverse() {
    let fwd = bresenham_line(0, 0, 5, 3);
    let rev = bresenham_line(5, 3, 0, 0);
    assert_eq!(fwd.len(), rev.len());
    for p in &fwd {
        assert!(rev.contains(p));
    }
}

// Both endpoints are covered whatever the slope or direction.
#[test]
fn test_line_endpoints_all_slopes() {
    let cases = [
        (0usize, 0usize, 7usize, 2usize),
        (7, 2, 0, 0),
        (3, 9, 3, 1),
        (9, 9, 0, 3),
        (1, 1, 1, 1),
        (0, 5, 11, 0),
    ];
    for &(x0, y0, x1, y1) in &cases {
        let pts = bresenham_line(x0, y0, x1, y1);
        assert_eq!(pts.first(), Some(&(x0, y0)));
        assert_eq!(pts.last(), Some(&(x1, y1)));
    }
}

#[test]
fn test_rectangle_single_cell() {
    let canvas = Canvas::new();
    let mutations = rectangle(
        &canvas,
        5,
        5,
        5,
        5,
        blocks::FULL,
        Some(color256_to_rgb(1)),
        None,
        false,
    );
    assert_eq!(mutations.len(), 1);
    assert_eq!(mutations[0].x, 5);
    assert_eq!(mutations[0].y, 5);
}

#[test]
fn test_rectangle_wide() {
    let canvas = Canvas::new();
    let mutations = rectangle(
        &canvas,
        0,
        0,
        9,
        0,
        blocks::FULL,
        Some(color256_to_rgb(1)),
        None,
        false,
    );
    assert_eq!(mutations.len(), 10);
}

#[test]
fn test_rectangle_tall() {
    let canvas = Canvas::new();
    let mutations = rectangle(
        &canvas,
        0,
        0,
        0,
        7,
        blocks::FULL,
        Some(color256_to_rgb(1)),
        None,
        false,
    );
    assert_eq!(mutations.len(), 8);
}

#[test]
fn test_flood_fill_boundary() {
    let mut canvas = Canvas::new();
    let wall = Cell {
        ch: blocks::FULL,
        fg: Some(color256_to_rgb(1)),
        bg: None,
    };
    for x in 0..3 {
        canvas.set(x, 0, wall);
        canvas.set(x, 2, wall);
    }
    canvas.set(0, 1, wall);
    canvas.set(2, 1, wall);
    let mutations = flood_fill(&canvas, 1, 1, blocks::FULL, Some(color256_to_rgb(4)), None);
    assert_eq!(mutations.len(), 1);
    assert_eq!(mutations[0].x, 1);
    assert_eq!(mutations[0].y, 1);
}

#[test]
fn test_flood_fill_noop() {
    let canvas = Canvas::new();
    let mutations = flood_fill(&canvas, 0, 0, blocks::EMPTY, None, None);
    assert_eq!(mutations.len(), 0);
}

#[test]
fn test_flood_fill_entire_canvas() {
    let canvas = Canvas::new();
    let mutations = flood_fill(&canvas, 0, 0, blocks::FULL, Some(color256_to_rgb(1)), None);
    assert_eq!(mutations.len(), 32 * 32);
}

#[test]
fn test_rectangle_outline() {
    let canvas = Canvas::new();
    let mutations = rectangle(
        &canvas,
        0,
        0,
        3,
        3,
        blocks::FULL,
        Some(color256_to_rgb(1)),
        None,
        false,
    );
    assert_eq!(mutations.len(), 12);
}

#[test]
fn test_rectangle_filled() {
    let canvas = Canvas::new();
    let mutations = rectangle(
        &canvas,
        0,
        0,
        3,
        3,
        blocks::FULL,
        Some(color256_to_rgb(1)),
        None,
        true,
    );
    assert_eq!(mutations.len(), 16);
}

#[test]
fn test_pencil_skips_unchanged() {
    let mut canvas = Canvas::new();
    let red = Some(Rgb { r: 255, g: 0, b: 0 });
    let first = pencil(&canvas, 2, 2, blocks::FULL, red, None);
    assert_eq!(first.len(), 1);
    canvas.set(2, 2, first[0].new);
    let second = pencil(&canvas, 2, 2, blocks::FULL, red, None);
    assert_eq!(second.len(), 0);
    let out_of_range = pencil(&canvas, 99, 99, blocks::FULL, red, None);
    assert_eq!(out_of_range.len(), 0);
}

#[test]
fn test_eraser_restores_empty() {
    let mut canvas = Canvas::new();
    let cell = Cell {
        ch: blocks::FULL,
        fg: Some(Rgb { r: 1, g: 2, b: 3 }),
        bg: None,
    };
    canvas.set(4, 4, cell);
    let ms = eraser(&canvas, 4, 4);
    assert_eq!(ms.len(), 1);
    assert_eq!(ms[0].old, cell);
    assert_eq!(ms[0].new, Cell::default());
    let noop = eraser(&canvas, 5, 5);
    assert_eq!(noop.len(), 0);
}

#[test]
fn test_eyedropper_reads_cell() {
    let mut canvas = Canvas::new();
    let red = Rgb { r: 200, g: 10, b: 10 };
    canvas.set(
        7,
        8,
        Cell { ch: blocks::SHADE_MEDIUM, fg: Some(red), bg: None },
    );
    assert_eq!(
        eyedropper(&canvas, 7, 8),
        Some((Some(red), None, blocks::SHADE_MEDIUM))
    );
    assert_eq!(eyedropper(&canvas, 200, 0), None);
}

#[test]
fn test_line_skips_out_of_bounds() {
    let canvas = Canvas::new_with_size(8, 8);
    // the segment leaves the canvas: only in-bounds cells are covered
    let ms = kakukuma::tools::line(
        &canvas,
        0,
        0,
        15,
        0,
        blocks::FULL,
        Some(color256_to_rgb(1)),
        None,
    );
    assert_eq!(ms.len(), 8);
    for m in &ms {
        assert!(m.x < 8 && m.y < 8);
    }
}

// Drawing A to B covers exactly the same cells as B to A, in opposite
// order, on slopes where an unnormalized walk would round differently.
#[test]
fn test_line_direction_independence() {
    let cases = [
        (0usize, 0usize, 4usize, 1usize),
        (0, 0, 5, 2),
        (1, 3, 8, 0),
        (2, 2, 2, 9),
        (0, 0, 7, 7),
    ];
    for &(x0, y0, x1, y1) in &cases {
        let fwd = bresenham_line(x0, y0, x1, y1);
        let bwd = bresenham_line(x1, y1, x0, y0);
        let mut rev: Vec<(usize, usize)> = bwd.clone();
        rev.reverse();
        assert_eq!(fwd, rev);
        let mut a = fwd.clone();
        let mut b = bwd.clone();
        a.sort();
        b.sort();
        assert_eq!(a, b);
        // one cell per unit of the longer coordinate distance
        let dx = x0.abs_diff(x1);
        let dy = y0.abs_diff(y1);
        assert_eq!(fwd.len(), dx.max(dy) + 1);
        // unit steps, never repeating
        for w in fwd.windows(2) {
            assert!(w[0].0.abs_diff(w[1].0) <= 1);
            assert!(w[0].1.abs_diff(w[1].1) <= 1);
            assert_ne!(w[0], w[1]);
        }
    }
}
