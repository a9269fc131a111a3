use fb_console::sink::read_back;

#[test]
fn read_back_returns_the_byte_at_the_offset() {
    let surface = [3u8, 1, 4, 1, 5, 9];
    assert_eq!(read_back(&surface, 0), 3);
    assert_eq!(read_back(&surface, 2), 4);
    assert_eq!(read_back(&surface, 5), 9);
}
