use fb_console::color::{resolve, PixelFormat, TextColor};

#[test]
fn from_str_knows_every_color() {
    assert_eq!(TextColor::from_str("white"), Some(TextColor::White));
    assert_eq!(TextColor::from_str("red"), Some(TextColor::Red));
    assert_eq!(TextColor::from_str("green"), Some(TextColor::Green));
    assert_eq!(TextColor::from_str("blue"), Some(TextColor::Blue));
    assert_eq!(TextColor::from_str("yellow"), Some(TextColor::Yellow));
}

#[test]
fn from_str_ignores_ascii_case() {
    assert_eq!(TextColor::from_str("Red"), Some(TextColor::Red));
    assert_eq!(TextColor::from_str("BLUE"), Some(TextColor::Blue));
    assert_eq!(TextColor::from_str("yElLoW"), Some(TextColor::Yellow));
}

#[test]
fn from_str_rejects_other_names() {
    assert_eq!(TextColor::from_str("purple"), None);
    assert_eq!(TextColor::from_str(""), None);
    assert_eq!(TextColor::from_str("re"), None);
    assert_eq!(TextColor::from_str("redd"), None);
    assert_eq!(TextColor::from_str(" red"), None);
}

#[test]
fn resolve_rgb_table() {
    assert_eq!(resolve(TextColor::White, 200, PixelFormat::Rgb), [200, 200, 200, 0xFF]);
    assert_eq!(resolve(TextColor::Red, 200, PixelFormat::Rgb), [200, 0, 0, 0xFF]);
    assert_eq!(resolve(TextColor::Green, 200, PixelFormat::Rgb), [0, 200, 0, 0xFF]);
    assert_eq!(resolve(TextColor::Blue, 200, PixelFormat::Rgb), [0, 0, 200, 0xFF]);
    assert_eq!(resolve(TextColor::Yellow, 200, PixelFormat::Rgb), [200, 200, 0, 0xFF]);
}

#[test]
fn resolve_bgr_table() {
    assert_eq!(resolve(TextColor::White, 9, PixelFormat::Bgr), [9, 9, 9, 0xFF]);
    assert_eq!(resolve(TextColor::Red, 9, PixelFormat::Bgr), [0, 0, 9, 0xFF]);
    assert_eq!(resolve(TextColor::Green, 9, PixelFormat::Bgr), [0, 9, 0, 0xFF]);
    assert_eq!(resolve(TextColor::Blue, 9, PixelFormat::Bgr), [9, 0, 0, 0xFF]);
    assert_eq!(resolve(TextColor::Yellow, 9, PixelFormat::Bgr), [0, 9, 9, 0xFF]);
}

#[test]
fn resolve_falls_back_to_rgb_positions() {
    assert_eq!(resolve(TextColor::Red, 77, PixelFormat::U8), [77, 0, 0, 0xFF]);
    assert_eq!(resolve(TextColor::Blue, 77, PixelFormat::Unknown), [0, 0, 77, 0xFF]);
}

#[test]
fn resolve_is_a_function_of_its_arguments() {
    let first = resolve(TextColor::Yellow, 131, PixelFormat::Bgr);
    let second = resolve(TextColor::Yellow, 131, PixelFormat::Bgr);
    assert_eq!(first, second);
}
