use kakukuma::app::App;
use kakukuma::blocks;
use kakukuma::cell::{color256_to_rgb, nearest_256, Cell, Rgb};
use kakukuma::import::{
    compute_fit, nearest_16, quantize, rasterize_full_blocks, rasterize_half_blocks,
    ImportColorMode,
};
use kakukuma::input::{do_resize, CanvasArea};
use kakukuma::theme::themes;

fn area() -> CanvasArea {
    CanvasArea {
        left: 10,
        top: 5,
        width: 64,
        height: 32,
        viewport_w: 64,
        viewport_h: 32,
    }
}

#[test]
fn test_screen_to_canvas_zoom_1() {
    let a = area();
    assert_eq!(a.screen_to_canvas(10, 5, 1, 0, 0), Some((0, 0)));
    assert_eq!(a.screen_to_canvas(14, 8, 1, 0, 0), Some((4, 3)));
}

#[test]
fn test_screen_to_canvas_zoom_2() {
    let a = area();
    assert_eq!(a.screen_to_canvas(10, 5, 2, 0, 0), Some((0, 0)));
    assert_eq!(a.screen_to_canvas(14, 8, 2, 0, 0), Some((2, 3)));
}

#[test]
fn test_screen_to_canvas_zoom_4() {
    let a = area();
    assert_eq!(a.screen_to_canvas(10, 5, 4, 0, 0), Some((0, 0)));
    assert_eq!(a.screen_to_canvas(14, 9, 4, 0, 0), Some((1, 2)));
}

#[test]
fn test_screen_to_canvas_outside() {
    let a = area();
    assert_eq!(a.screen_to_canvas(5, 5, 1, 0, 0), None);
    assert_eq!(a.screen_to_canvas(10, 3, 1, 0, 0), None);
    assert_eq!(a.screen_to_canvas(80, 5, 1, 0, 0), None);
}

#[test]
fn test_screen_to_canvas_with_viewport_offset() {
    let a = area();
    // With viewport at (10, 5), the first screen cell maps to canvas (10, 5)
    assert_eq!(a.screen_to_canvas(10, 5, 1, 10, 5), Some((10, 5)));
    assert_eq!(a.screen_to_canvas(14, 8, 1, 10, 5), Some((14, 8)));
}

#[test]
fn test_resize_larger_preserves_content() {
    let mut app = App::new();
    let cell = Cell {
        ch: blocks::FULL,
        fg: Some(Rgb { r: 205, g: 0, b: 0 }),
        bg: None,
    };
    app.canvas.set(5, 5, cell);

    app.new_canvas_width = 64;
    app.new_canvas_height = 48;
    do_resize(&mut app, 64, 48);

    assert_eq!(app.canvas.width, 64);
    assert_eq!(app.canvas.height, 48);
    assert_eq!(app.canvas.get(5, 5), Some(cell));
    assert_eq!(app.mode, kakukuma::app::AppMode::Normal);
}

#[test]
fn test_resize_undo_restore() {
    let mut app = App::new();
    let cell = Cell {
        ch: blocks::FULL,
        fg: Some(Rgb { r: 205, g: 0, b: 0 }),
        bg: None,
    };
    app.canvas.set(10, 10, cell);
    let orig_w = app.canvas.width;
    let orig_h = app.canvas.height;

    do_resize(&mut app, 64, 48);
    assert_eq!(app.canvas.width, 64);

    app.undo();
    assert_eq!(app.canvas.width, orig_w);
    assert_eq!(app.canvas.height, orig_h);
    assert_eq!(app.canvas.get(10, 10), Some(cell));
}

#[test]
fn test_resize_viewport_reset() {
    let mut app = App::new();
    app.viewport_x = 10;
    app.viewport_y = 5;

    do_resize(&mut app, 64, 48);
    assert_eq!(app.viewport_x, 0);
    assert_eq!(app.viewport_y, 0);
}

#[test]
fn test_compute_fit_square() {
    let (sw, sh, ox, oy) = compute_fit(100, 100, 10, 10);
    assert_eq!((sw, sh), (10, 10));
    assert_eq!((ox, oy), (0, 0));
}

#[test]
fn test_compute_fit_wide() {
    let (sw, sh, ox, oy) = compute_fit(200, 100, 10, 10);
    assert_eq!(sw, 10);
    assert_eq!(sh, 5);
    assert_eq!(ox, 0);
    assert!(oy > 0, "Should have vertical offset for letterbox");
}

#[test]
fn test_compute_fit_tall() {
    let (sw, sh, ox, oy) = compute_fit(100, 200, 10, 10);
    assert_eq!(sw, 5);
    assert_eq!(sh, 10);
    assert!(ox > 0, "Should have horizontal offset for letterbox");
    assert_eq!(oy, 0);
}

#[test]
fn test_color_quantization() {
    // Pure red should quantize to a strongly red palette entry
    let rgb = Rgb::new(255, 0, 0);
    let idx = nearest_256(&rgb);
    let quantized = color256_to_rgb(idx);
    assert!(quantized.r > 200);
    assert!(quantized.g < 50);
    assert!(quantized.b < 50);
}

#[test]
fn test_16_color_quantization() {
    let idx = nearest_16(&Rgb::new(255, 0, 0));
    assert!(idx < 16, "Should quantize to the base color range");
    let q = quantize(255, 0, 0, ImportColorMode::Color16);
    assert_eq!(q, color256_to_rgb(idx));
}

#[test]
fn test_full_block_rasterize_grid() {
    // a 2x2 opaque red pixel grid becomes background-colored cells
    let red = Some((255u8, 0u8, 0u8));
    let pixels = vec![vec![red, red], vec![red, None]];
    let cells = rasterize_full_blocks(&pixels, 2, 2, ImportColorMode::Color256);
    assert_eq!(cells.len(), 2);
    assert_eq!(cells[0].len(), 2);
    assert_eq!(cells[0][0].ch, ' ');
    assert!(cells[0][0].fg.is_none());
    assert!(cells[0][0].bg.is_some());
    assert!(cells[0][0].bg.unwrap().r > 200);
    // the transparent pixel stays an empty cell
    assert_eq!(cells[1][1], Cell::default());
}

#[test]
fn test_half_block_rasterize_grid() {
    // two pixel rows fold into one row of half blocks
    let red = Some((255u8, 0u8, 0u8));
    let blue = Some((0u8, 0u8, 255u8));
    let pixels = vec![vec![red], vec![blue], vec![None], vec![blue]];
    let cells = rasterize_half_blocks(&pixels, 1, 2, ImportColorMode::Color256);
    assert_eq!(cells.len(), 2);
    // both pixels present: upper half glyph with fg and bg
    assert_eq!(cells[0][0].ch, blocks::UPPER_HALF);
    assert!(cells[0][0].fg.is_some());
    assert!(cells[0][0].bg.is_some());
    // only the lower pixel present: lower half glyph, no bg
    assert_eq!(cells[1][0].ch, blocks::LOWER_HALF);
    assert!(cells[1][0].fg.is_some());
    assert!(cells[1][0].bg.is_none());
}

#[test]
fn test_themes_count() {
    assert_eq!(themes().len(), 3);
}

#[test]
fn test_theme_names() {
    assert_eq!(themes()[0].name, "Warm");
    assert_eq!(themes()[1].name, "Neon");
    assert_eq!(themes()[2].name, "Dark");
}
