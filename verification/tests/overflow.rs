use mandelbrot::overflow::{checked, overflowing, saturating, wrapping};

#[test]
fn checked_gives_none_where_the_result_does_not_fit() {
    assert_eq!(checked(), (Some(30), None, None));
}

#[test]
fn wrapping_gives_the_result_modulo_the_range() {
    assert_eq!(wrapping(), (20000, 53392, -12144, 10));
}

#[test]
fn saturating_stops_at_the_bounds() {
    assert_eq!(saturating(), (32767, -32768));
}

#[test]
fn overflowing_says_whether_it_wrapped() {
    assert_eq!(overflowing(), ((253, false), (1, true), (10, true)));
}
