use archetype_browser::paint::{blend_rgba, hex_digit, paint_rgba, parse_color, PaintColor};

fn rgba(red: u8, green: u8, blue: u8, alpha: u8) -> PaintColor {
    PaintColor { red, green, blue, alpha }
}

#[test]
fn names_and_hex_notations_give_colors() {
    assert_eq!(parse_color(" Black "), Some(rgba(0, 0, 0, 255)));
    assert_eq!(parse_color("green"), Some(rgba(0, 128, 0, 255)));
    assert_eq!(parse_color("transparent"), Some(rgba(0, 0, 0, 0)));
    assert_eq!(parse_color("#fA0"), Some(rgba(255, 170, 0, 255)));
    assert_eq!(parse_color("#f008"), Some(rgba(255, 0, 0, 136)));
    assert_eq!(parse_color("#102030"), Some(rgba(16, 32, 48, 255)));
    assert_eq!(parse_color("#10203040"), Some(rgba(16, 32, 48, 64)));
    assert_eq!(parse_color("#+f+f+f"), Some(rgba(15, 15, 15, 255)));
}

#[test]
fn other_values_give_no_color() {
    assert_eq!(parse_color("rebeccapurple"), None);
    assert_eq!(parse_color("#12"), None);
    assert_eq!(parse_color("#ggg"), None);
    assert_eq!(parse_color("#12345"), None);
    assert_eq!(parse_color("#éé"), None);
    assert_eq!(parse_color(""), None);
}

#[test]
fn digits_and_channels() {
    assert_eq!(hex_digit('F'), Some(15));
    assert_eq!(hex_digit('9'), Some(9));
    assert_eq!(hex_digit('g'), None);
    assert_eq!(paint_rgba(rgba(1, 2, 3, 4)), [1, 2, 3, 4]);
}

#[test]
fn blending_lays_the_source_over_the_pixel() {
    assert_eq!(blend_rgba([10, 20, 30, 40], [200, 100, 50, 255]), [200, 100, 50, 255]);
    assert_eq!(blend_rgba([10, 20, 30, 40], [200, 100, 50, 0]), [10, 20, 30, 255]);
    assert_eq!(blend_rgba([0, 0, 0, 255], [255, 255, 255, 128]), [128, 128, 128, 255]);
}
