use kakukuma::cell::Rgb;
use kakukuma::cli::{
    ensure_kaku_suffix, parse_coord, parse_region, parse_size, resolve_colors, strip_kaku_suffix,
    to_color_format, to_symmetry_mode, usize_to_string, CliColorFormat, CliSymmetry, DrawOpts,
};
use kakukuma::export::ColorFormat;
use kakukuma::symmetry::SymmetryMode;

#[test]
fn test_parse_coord_valid() {
    assert_eq!(parse_coord("5,5"), Ok((5, 5)));
    assert_eq!(parse_coord("0,0"), Ok((0, 0)));
    assert_eq!(parse_coord("127,127"), Ok((127, 127)));
}

#[test]
fn test_parse_coord_with_spaces() {
    assert_eq!(parse_coord(" 5 , 5 "), Ok((5, 5)));
}

#[test]
fn test_parse_coord_invalid() {
    assert!(parse_coord("abc").is_err());
    assert!(parse_coord("5").is_err());
    assert!(parse_coord("5,5,5").is_err());
    assert!(parse_coord("a,b").is_err());
}

#[test]
fn test_parse_region_valid() {
    assert_eq!(parse_region("0,0,10,10"), Ok((0, 0, 10, 10)));
}

#[test]
fn test_parse_region_invalid() {
    assert!(parse_region("0,0,10").is_err());
    assert!(parse_region("abc").is_err());
}

#[test]
fn test_parse_size_valid() {
    assert_eq!(parse_size("32x24"), Ok((32, 24)));
    assert_eq!(parse_size("8x8"), Ok((8, 8)));
}

#[test]
fn test_parse_size_invalid() {
    assert!(parse_size("32").is_err());
    assert!(parse_size("32,24").is_err());
    assert!(parse_size("axb").is_err());
}

#[test]
fn test_resolve_colors_default() {
    let opts = DrawOpts {
        color: None,
        fg: None,
        bg: None,
        ch: None,
        symmetry: CliSymmetry::Off,
        no_log: false,
    };
    let (fg, bg) = resolve_colors(&opts);
    assert_eq!(fg, Some(Rgb::white()));
    assert_eq!(bg, None);
}

#[test]
fn test_resolve_colors_with_color() {
    let opts = DrawOpts {
        color: Some("#FF0000".to_string()),
        fg: None,
        bg: None,
        ch: None,
        symmetry: CliSymmetry::Off,
        no_log: false,
    };
    let (fg, bg) = resolve_colors(&opts);
    assert_eq!(fg, Some(Rgb::new(255, 0, 0)));
    assert_eq!(bg, None);
}

#[test]
fn test_resolve_colors_fg_overrides_color() {
    let opts = DrawOpts {
        color: Some("#FF0000".to_string()),
        fg: Some("#00FF00".to_string()),
        bg: Some("#0000FF".to_string()),
        ch: None,
        symmetry: CliSymmetry::Off,
        no_log: false,
    };
    let (fg, bg) = resolve_colors(&opts);
    assert_eq!(fg, Some(Rgb::new(0, 255, 0)));
    assert_eq!(bg, Some(Rgb::new(0, 0, 255)));
}

#[test]
fn test_symmetry_mode_mapping() {
    assert_eq!(to_symmetry_mode(&CliSymmetry::Off), SymmetryMode::Off);
    assert_eq!(to_symmetry_mode(&CliSymmetry::Horizontal), SymmetryMode::Horizontal);
    assert_eq!(to_symmetry_mode(&CliSymmetry::Vertical), SymmetryMode::Vertical);
    assert_eq!(to_symmetry_mode(&CliSymmetry::Quad), SymmetryMode::Quad);
}

#[test]
fn test_color_format_mapping() {
    assert_eq!(to_color_format(&CliColorFormat::Truecolor), ColorFormat::TrueColor);
    assert_eq!(to_color_format(&CliColorFormat::Color256), ColorFormat::Color256);
    assert_eq!(to_color_format(&CliColorFormat::Color16), ColorFormat::Color16);
}

#[test]
fn test_parse_coord_overflow() {
    assert!(parse_coord("99999999999999999999,1").is_err());
    assert_eq!(parse_coord("+7,+9"), Ok((7, 9)));
    assert!(parse_coord(",5").is_err());
    assert!(parse_coord("5,").is_err());
}

#[test]
fn test_usize_to_string_format() {
    assert_eq!(usize_to_string(0), "0");
    assert_eq!(usize_to_string(7), "7");
    assert_eq!(usize_to_string(48), "48");
    assert_eq!(usize_to_string(10203), "10203");
}

#[test]
fn test_kaku_suffix_handling() {
    assert_eq!(ensure_kaku_suffix("art"), "art.kaku");
    assert_eq!(ensure_kaku_suffix("art.kaku"), "art.kaku");
    assert_eq!(strip_kaku_suffix("art.kaku"), "art");
    assert_eq!(strip_kaku_suffix("art"), "art");
}
