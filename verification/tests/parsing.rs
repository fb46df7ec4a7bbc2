use mandelbrot::parse::parse_size;
use mandelbrot::vec2::{V2, V2u};

#[test]
fn parse_size_accepts_width_x_height() {
    assert_eq!(parse_size("640x480"), Some((640, 480)));
    assert_eq!(parse_size("1x1"), Some((1, 1)));
    assert_eq!(parse_size("0x0"), Some((0, 0)));
    assert_eq!(parse_size("0007x010"), Some((7, 10)));
}

#[test]
fn parse_size_accepts_leading_plus() {
    // Each field may carry an optional leading plus sign, as std's
    // unsigned parsing accepts.
    assert_eq!(parse_size("+640x480"), Some((640, 480)));
    assert_eq!(parse_size("1x+2"), Some((1, 2)));
    assert_eq!(parse_size("+0x+0"), Some((0, 0)));
    // A bare sign, or a doubled one, is no field.
    assert_eq!(parse_size("+x480"), None);
    assert_eq!(parse_size("640x+"), None);
    assert_eq!(parse_size("++640x480"), None);
    assert_eq!(parse_size("6+40x480"), None);
}

#[test]
fn parse_size_rejects_missing_separator() {
    assert_eq!(parse_size("640"), None);
    assert_eq!(parse_size(""), None);
}

#[test]
fn parse_size_rejects_empty_fields() {
    assert_eq!(parse_size("x480"), None);
    assert_eq!(parse_size("640x"), None);
    assert_eq!(parse_size("x"), None);
}

#[test]
fn parse_size_rejects_non_digits() {
    assert_eq!(parse_size("a640x480"), None);
    assert_eq!(parse_size("640x48o"), None);
    assert_eq!(parse_size("-640x480"), None);
    assert_eq!(parse_size("6 40x480"), None);
}

#[test]
fn parse_size_rejects_second_separator() {
    assert_eq!(parse_size("10x20x30"), None);
}

#[test]
fn parse_size_rejects_overflow() {
    assert_eq!(parse_size("99999999999999999999999999x1"), None);
    assert_eq!(parse_size("1x99999999999999999999999999"), None);
    // The largest representable value is still accepted.
    let max = format!("{}x1", usize::MAX);
    assert_eq!(parse_size(&max), Some((usize::MAX, 1)));
}

#[test]
fn v2_from_pair() {
    let v: V2u = V2::from((3, 4));
    assert_eq!(v.x, 3);
    assert_eq!(v.y, 4);
}

#[test]
fn v2_componentwise_arithmetic() {
    let a: V2u = V2::from((10, 21));
    let b: V2u = V2::from((2, 3));
    let sum = a.add(&b);
    assert_eq!((sum.x, sum.y), (12, 24));
    let diff = a.sub(&b);
    assert_eq!((diff.x, diff.y), (8, 18));
    let prod = a.mul(&b);
    assert_eq!((prod.x, prod.y), (20, 63));
    let quot = a.div(&b);
    assert_eq!((quot.x, quot.y), (5, 7));
}
