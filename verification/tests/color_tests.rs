use graphics_year2::color::Color;
use graphics_year2::color::FP_ONE;
use graphics_year2::color_constants;

#[test]
fn white_plus_white_saturates() {
    let w = color_constants::white();
    assert_eq!(w.plus(w), w);
}

#[test]
fn plus_adds_channels() {
    let a = Color::new(10, 200, 255);
    let b = Color::new(20, 100, 1);
    let s = a.plus(b);
    assert_eq!(s, Color::new(30, 255, 255));
}

#[test]
fn scaled_truncates_then_clamps() {
    let c = Color::new(255, 255, 100);
    // half, tenth, and a negative factor
    let half = FP_ONE / 2;
    let tenth = FP_ONE / 10;
    let s = c.scaled(half, tenth, -FP_ONE);
    assert_eq!(s.red, 127); // 255 * 0.5 = 127.5, truncated
    assert_eq!(s.green, 25); // 255 * 6553 / 65536 = 25.49..., truncated
    assert_eq!(s.blue, 0); // negative light floors at zero
}

#[test]
fn rand_returns_some_color() {
    let c = Color::rand();
    // every u8 channel is a legal channel; this checks the call runs
    let _ = c.red as u16 + c.green as u16 + c.blue as u16;
}

#[test]
fn palette_values() {
    assert_eq!(color_constants::black(), Color::new(0, 0, 0));
    assert_eq!(color_constants::red(), Color::new(255, 0, 0));
    assert_eq!(color_constants::green(), Color::new(0, 255, 0));
    assert_eq!(color_constants::blue(), Color::new(0, 0, 255));
    assert_eq!(color_constants::purple(), Color::new(255, 0, 255));
    assert_eq!(color_constants::cyan(), Color::new(0, 255, 255));
    assert_eq!(color_constants::yellow(), Color::new(255, 255, 0));
    assert_eq!(color_constants::white(), Color::new(255, 255, 255));
}
