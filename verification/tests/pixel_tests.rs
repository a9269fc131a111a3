use fb_console::color::{resolve, PixelFormat, TextColor};
use fb_console::escape::{ColorToken, Directive};
use fb_console::font::{get_char_raster, Glyph};
use fb_console::pixel::{FrameBufferInfo, FrameBufferWriter, BORDER_PADDING, LINE_HEIGHT, TAB_WIDTH};

fn info(width: usize, height: usize, stride: usize, bpp: usize, format: PixelFormat) -> FrameBufferInfo {
    FrameBufferInfo { width, height, pixel_format: format, bytes_per_pixel: bpp, stride }
}

fn surface(layout: &FrameBufferInfo, extra: usize, fill: u8) -> Vec<u8> {
    vec![fill; layout.height * layout.stride * layout.bytes_per_pixel + extra]
}

/// The surface that holds the glyphs of `placed`, each at its pixel
/// position and in its color, and zero everywhere else.
fn expected(layout: &FrameBufferInfo, len: usize, placed: &[(char, usize, usize, TextColor)]) -> Vec<u8> {
    let mut bytes = vec![0u8; len];
    for (c, x, y, color) in placed {
        let glyph = get_char_raster(*c);
        for gy in 0..glyph.height() {
            for gx in 0..glyph.width() {
                let encoded = resolve(*color, glyph.intensity(gx, gy), layout.pixel_format);
                let offset = ((y + gy) * layout.stride + x + gx) * layout.bytes_per_pixel;
                for j in 0..layout.bytes_per_pixel {
                    bytes[offset + j] = encoded[j];
                }
            }
        }
    }
    bytes
}

#[test]
fn pixel_constants() {
    assert_eq!(BORDER_PADDING, 1);
    assert_eq!(LINE_HEIGHT, 18);
    assert_eq!(TAB_WIDTH, 28);
}

#[test]
fn supports_accepts_layouts_that_fit() {
    let layout = info(9, 20, 9, 1, PixelFormat::U8);
    assert!(layout.supports(180));
    assert!(!layout.supports(179));
    assert!(info(640, 480, 640, 4, PixelFormat::Rgb).supports(640 * 480 * 4));
    assert!(info(640, 480, 700, 3, PixelFormat::Bgr).supports(700 * 480 * 3 + 10));
    assert!(!info(640, 480, 700, 3, PixelFormat::Bgr).supports(640 * 480 * 3));
    assert!(info(4, 4, 4, 4, PixelFormat::Rgb).supports(64));
    assert!(info(0, 0, 0, 1, PixelFormat::Rgb).supports(0));
}

#[test]
fn supports_rejects_bad_layouts() {
    assert!(!info(10, 20, 9, 1, PixelFormat::U8).supports(10_000));
    assert!(!info(9, 20, 9, 0, PixelFormat::U8).supports(10_000));
    assert!(!info(9, 20, 9, 5, PixelFormat::U8).supports(10_000));
    assert!(!info(9, usize::MAX, usize::MAX, 4, PixelFormat::Rgb).supports(usize::MAX));
    assert!(!info(9, usize::MAX / 9, 9, 4, PixelFormat::Rgb).supports(usize::MAX));
}

#[test]
fn room_for_text_is_one_glyph_and_one_line_inside_the_border() {
    assert!(info(9, 20, 9, 1, PixelFormat::U8).has_room_for_text());
    assert!(!info(8, 20, 9, 1, PixelFormat::U8).has_room_for_text());
    assert!(!info(9, 19, 9, 1, PixelFormat::U8).has_room_for_text());
    assert!(!info(4, 4, 4, 4, PixelFormat::Rgb).has_room_for_text());
    assert!(info(640, 480, 640, 4, PixelFormat::Rgb).has_room_for_text());
}

#[test]
fn pixel_write_pixel_on_a_small_surface_red_rgb() {
    let layout = info(4, 4, 4, 4, PixelFormat::Rgb);
    let mut bytes = vec![0x55u8; 64];
    let mut writer = FrameBufferWriter::new(&mut bytes, layout);
    writer.set_color(TextColor::Red);
    writer.write_pixel(1, 2, 0x80);
    let after = writer.buffer();
    assert_eq!(after.len(), 64);
    assert_eq!(&after[36..40], &[0x80, 0x00, 0x00, 0xFF]);
    for (k, b) in after.iter().enumerate() {
        if k < 36 || k >= 40 {
            assert_eq!(*b, 0);
        }
    }
    assert_eq!((writer.x_pos(), writer.y_pos()), (1, 1));
    assert_eq!(writer.color(), TextColor::Red);
}

#[test]
fn pixel_write_pixel_on_a_small_surface_yellow_bgr() {
    let layout = info(4, 4, 4, 4, PixelFormat::Bgr);
    let mut bytes = vec![0u8; 64];
    let mut writer = FrameBufferWriter::new(&mut bytes, layout);
    writer.set_color(TextColor::Yellow);
    writer.write_pixel(0, 0, 0x40);
    let after = writer.buffer();
    assert_eq!(&after[0..4], &[0x00, 0x40, 0x40, 0xFF]);
    assert!(after[4..].iter().all(|b| *b == 0));
}

#[test]
fn pixel_new_blanks_the_surface() {
    let layout = info(40, 40, 48, 4, PixelFormat::Rgb);
    let mut bytes = surface(&layout, 5, 0xEE);
    let writer = FrameBufferWriter::new(&mut bytes, layout);
    assert_eq!((writer.x_pos(), writer.y_pos()), (1, 1));
    assert_eq!(writer.color(), TextColor::White);
    assert_eq!(writer.width(), 40);
    assert_eq!(writer.height(), 40);
    assert!(writer.buffer().iter().all(|b| *b == 0));
    assert_eq!(writer.buffer().len(), 48 * 40 * 4 + 5);
}

#[test]
fn pixel_clear_resets_cursor_and_bytes() {
    let layout = info(40, 60, 40, 3, PixelFormat::Rgb);
    let mut bytes = surface(&layout, 0, 0);
    let mut writer = FrameBufferWriter::new(&mut bytes, layout);
    writer.set_color(TextColor::Green);
    writer.write_char('x');
    writer.write_char('\n');
    writer.clear();
    assert_eq!((writer.x_pos(), writer.y_pos()), (1, 1));
    assert_eq!(writer.color(), TextColor::Green);
    assert!(writer.buffer().iter().all(|b| *b == 0));
}

#[test]
fn pixel_set_cursor_position_clamps() {
    let layout = info(100, 50, 100, 4, PixelFormat::Rgb);
    let mut bytes = surface(&layout, 0, 0);
    let mut writer = FrameBufferWriter::new(&mut bytes, layout);
    writer.set_cursor_position(30, 20);
    assert_eq!((writer.x_pos(), writer.y_pos()), (30, 20));
    writer.set_cursor_position(-1, 20);
    assert_eq!((writer.x_pos(), writer.y_pos()), (1, 1));
    writer.set_cursor_position(30, 20);
    writer.set_cursor_position(5, isize::MIN);
    assert_eq!((writer.x_pos(), writer.y_pos()), (1, 1));
    writer.set_cursor_position(100, 50);
    assert_eq!((writer.x_pos(), writer.y_pos()), (99, 49));
    writer.set_cursor_position(isize::MAX, 7);
    assert_eq!((writer.x_pos(), writer.y_pos()), (99, 7));
    writer.set_cursor_position(0, 0);
    assert_eq!((writer.x_pos(), writer.y_pos()), (1, 1));
    writer.set_cursor_position(99, 49);
    assert_eq!((writer.x_pos(), writer.y_pos()), (99, 49));
}

#[test]
fn pixel_write_pixel_rgb_four_bytes() {
    let layout = info(40, 40, 48, 4, PixelFormat::Rgb);
    let mut bytes = surface(&layout, 0, 0);
    let mut writer = FrameBufferWriter::new(&mut bytes, layout);
    writer.set_color(TextColor::Yellow);
    writer.write_pixel(3, 2, 200);
    let offset = (2 * 48 + 3) * 4;
    let after = writer.buffer();
    assert_eq!(&after[offset..offset + 4], &[200, 200, 0, 0xFF]);
    for (k, b) in after.iter().enumerate() {
        if k < offset || k >= offset + 4 {
            assert_eq!(*b, 0);
        }
    }
    assert_eq!((writer.x_pos(), writer.y_pos()), (1, 1));
}

#[test]
fn pixel_write_pixel_bgr_three_bytes() {
    let layout = info(40, 40, 40, 3, PixelFormat::Bgr);
    let mut bytes = surface(&layout, 0, 0);
    let mut writer = FrameBufferWriter::new(&mut bytes, layout);
    writer.set_color(TextColor::Red);
    writer.write_pixel(39, 39, 7);
    let offset = (39 * 40 + 39) * 3;
    assert_eq!(&writer.buffer()[offset..offset + 3], &[0, 0, 7]);
    assert_eq!(writer.buffer().len(), offset + 3);
}

#[test]
fn pixel_write_pixel_one_byte_takes_first_channel() {
    let layout = info(40, 40, 40, 1, PixelFormat::U8);
    let mut bytes = surface(&layout, 0, 0);
    let mut writer = FrameBufferWriter::new(&mut bytes, layout);
    writer.write_pixel(0, 0, 99);
    writer.set_color(TextColor::Blue);
    writer.write_pixel(1, 0, 99);
    assert_eq!(&writer.buffer()[0..3], &[99, 0, 0]);
}

#[test]
fn pixel_write_char_draws_the_glyph_in_white() {
    let layout = info(40, 40, 48, 4, PixelFormat::Rgb);
    let mut bytes = surface(&layout, 3, 0);
    let len = bytes.len();
    let mut writer = FrameBufferWriter::new(&mut bytes, layout);
    writer.write_char('A');
    assert_eq!((writer.x_pos(), writer.y_pos()), (8, 1));
    assert_eq!(writer.buffer(), &expected(&layout, len, &[('A', 1, 1, TextColor::White)])[..]);
    let offset = ((1 + 3) * 48 + 1 + 2) * 4;
    assert_eq!(&writer.buffer()[offset..offset + 4], &[84, 84, 84, 0xFF]);
    let corner = (1 * 48 + 1) * 4;
    assert_eq!(&writer.buffer()[corner..corner + 4], &[0, 0, 0, 0xFF]);
    assert_eq!(&writer.buffer()[0..4], &[0, 0, 0, 0]);
}

#[test]
fn pixel_write_rendered_char_draws_any_bitmap() {
    let layout = info(20, 30, 24, 3, PixelFormat::Bgr);
    let mut bytes = surface(&layout, 0, 0);
    let mut writer = FrameBufferWriter::new(&mut bytes, layout);
    writer.set_color(TextColor::Yellow);
    writer.set_cursor_position(4, 5);
    let glyph = Glyph::new(vec![vec![10, 20], vec![30, 40], vec![50, 60]], 2).unwrap();
    writer.write_rendered_char(&glyph);
    assert_eq!((writer.x_pos(), writer.y_pos()), (6, 5));
    let mut want = vec![0u8; 24 * 30 * 3];
    let cells = [(4, 5, 10u8), (5, 5, 20), (4, 6, 30), (5, 6, 40), (4, 7, 50), (5, 7, 60)];
    for (x, y, v) in cells {
        let offset = (y * 24 + x) * 3;
        want[offset] = 0;
        want[offset + 1] = v;
        want[offset + 2] = v;
    }
    assert_eq!(writer.buffer(), &want[..]);
}

#[test]
fn pixel_glyphs_stand_side_by_side() {
    let layout = info(40, 40, 40, 4, PixelFormat::Rgb);
    let mut bytes = surface(&layout, 0, 0);
    let len = bytes.len();
    let mut writer = FrameBufferWriter::new(&mut bytes, layout);
    writer.write_str("Hi!");
    assert_eq!((writer.x_pos(), writer.y_pos()), (22, 1));
    let want = expected(
        &layout,
        len,
        &[('H', 1, 1, TextColor::White), ('i', 8, 1, TextColor::White), ('!', 15, 1, TextColor::White)],
    );
    assert_eq!(writer.buffer(), &want[..]);
}

#[test]
fn pixel_glyph_that_would_reach_the_edge_wraps_first() {
    let layout = info(24, 60, 24, 4, PixelFormat::Rgb);
    let mut bytes = surface(&layout, 0, 0);
    let len = bytes.len();
    let mut writer = FrameBufferWriter::new(&mut bytes, layout);
    writer.write_char('a');
    writer.write_char('b');
    writer.write_char('c');
    assert_eq!((writer.x_pos(), writer.y_pos()), (22, 1));
    writer.write_char('d');
    assert_eq!((writer.x_pos(), writer.y_pos()), (8, 19));
    let want = expected(
        &layout,
        len,
        &[
            ('a', 1, 1, TextColor::White),
            ('b', 8, 1, TextColor::White),
            ('c', 15, 1, TextColor::White),
            ('d', 1, 19, TextColor::White),
        ],
    );
    assert_eq!(writer.buffer(), &want[..]);
}

#[test]
fn pixel_glyph_that_meets_the_edge_exactly_wraps() {
    let layout = info(22, 60, 22, 4, PixelFormat::Rgb);
    let mut bytes = surface(&layout, 0, 0);
    let mut writer = FrameBufferWriter::new(&mut bytes, layout);
    writer.write_str("ab");
    assert_eq!((writer.x_pos(), writer.y_pos()), (15, 1));
    writer.write_char('c');
    assert_eq!((writer.x_pos(), writer.y_pos()), (8, 19));
}

#[test]
fn pixel_newline_and_carriage_return() {
    let layout = info(60, 60, 60, 4, PixelFormat::Rgb);
    let mut bytes = surface(&layout, 0, 0);
    let mut writer = FrameBufferWriter::new(&mut bytes, layout);
    writer.write_char('a');
    writer.write_char('\r');
    assert_eq!((writer.x_pos(), writer.y_pos()), (1, 1));
    writer.write_char('a');
    writer.write_char('\n');
    assert_eq!((writer.x_pos(), writer.y_pos()), (1, 19));
    writer.newline();
    assert_eq!((writer.x_pos(), writer.y_pos()), (1, 37));
    writer.set_cursor_position(30, 5);
    writer.carriage_return();
    assert_eq!((writer.x_pos(), writer.y_pos()), (1, 5));
}

#[test]
fn pixel_newline_below_the_surface_scrolls() {
    let layout = info(40, 56, 40, 1, PixelFormat::U8);
    let mut bytes = surface(&layout, 0, 0);
    let mut writer = FrameBufferWriter::new(&mut bytes, layout);
    writer.newline();
    writer.newline();
    assert_eq!((writer.x_pos(), writer.y_pos()), (1, 37));
    writer.set_cursor_position(9, 37);
    writer.newline();
    assert_eq!((writer.x_pos(), writer.y_pos()), (1, 55));
    writer.set_cursor_position(9, 38);
    writer.newline();
    assert_eq!((writer.x_pos(), writer.y_pos()), (1, 37));
}

#[test]
fn pixel_scroll_moves_rows_up_by_one_line() {
    let layout = info(12, 40, 16, 2, PixelFormat::Rgb);
    let mut bytes = surface(&layout, 7, 0);
    let mut writer = FrameBufferWriter::new(&mut bytes, layout);
    writer.set_color(TextColor::White);
    for y in 0..40 {
        for x in 0..12 {
            writer.write_pixel(x, y, (y * 12 + x) as u8);
        }
    }
    let before = writer.buffer().to_vec();
    writer.set_cursor_position(5, 9);
    writer.scroll();
    assert_eq!((writer.x_pos(), writer.y_pos()), (5, 40 - 18 - 1));
    let after = writer.buffer();
    let line = 18 * 16 * 2;
    let screen = 40 * 16 * 2;
    assert_eq!(after.len(), before.len());
    assert_eq!(&after[..screen - line], &before[line..screen]);
    assert!(after[screen - line..screen].iter().all(|b| *b == 0));
    assert_eq!(&after[screen..], &before[screen..]);
    assert_eq!(after[(3 * 16 + 4) * 2], ((21 * 12 + 4) % 256) as u8);
}

#[test]
fn pixel_glyph_on_a_line_that_would_reach_the_bottom_scrolls_first() {
    let layout = info(40, 40, 40, 4, PixelFormat::Rgb);
    let mut bytes = surface(&layout, 0, 0);
    let len = bytes.len();
    let mut writer = FrameBufferWriter::new(&mut bytes, layout);
    writer.write_char('t');
    writer.write_char('\n');
    assert_eq!((writer.x_pos(), writer.y_pos()), (1, 19));
    writer.write_char('u');
    writer.set_cursor_position(1, 23);
    writer.write_char('v');
    assert_eq!((writer.x_pos(), writer.y_pos()), (8, 21));
    let want = expected(
        &layout,
        len,
        &[('u', 1, 1, TextColor::White), ('v', 1, 21, TextColor::White)],
    );
    assert_eq!(writer.buffer(), &want[..]);
}

#[test]
fn pixel_tab_moves_to_next_stop() {
    let layout = info(100, 60, 100, 4, PixelFormat::Rgb);
    let mut bytes = surface(&layout, 0, 0);
    let mut writer = FrameBufferWriter::new(&mut bytes, layout);
    writer.write_tab();
    assert_eq!((writer.x_pos(), writer.y_pos()), (28, 1));
    writer.write_char('\t');
    assert_eq!((writer.x_pos(), writer.y_pos()), (56, 1));
    writer.set_cursor_position(83, 1);
    writer.write_tab();
    assert_eq!((writer.x_pos(), writer.y_pos()), (84, 1));
    writer.write_tab();
    assert_eq!((writer.x_pos(), writer.y_pos()), (1, 19));
    assert!(writer.buffer().iter().all(|b| *b == 0));
}

#[test]
fn pixel_tab_stop_at_the_edge_breaks_the_line() {
    let layout = info(56, 60, 56, 4, PixelFormat::Rgb);
    let mut bytes = surface(&layout, 0, 0);
    let mut writer = FrameBufferWriter::new(&mut bytes, layout);
    writer.set_cursor_position(30, 1);
    writer.write_tab();
    assert_eq!((writer.x_pos(), writer.y_pos()), (1, 19));
}

#[test]
fn pixel_cursor_stays_inside_the_border() {
    let layout = info(37, 41, 40, 3, PixelFormat::Bgr);
    let mut bytes = surface(&layout, 0, 0);
    let mut writer = FrameBufferWriter::new(&mut bytes, layout);
    let text = "ab\tc\n\n\td\re\u{4E2D}";
    for round in 0..60 {
        for c in text.chars() {
            writer.write_char(c);
            assert!(writer.x_pos() >= 1 && writer.x_pos() < 37, "round {}", round);
            assert!(writer.y_pos() >= 1 && writer.y_pos() < 41, "round {}", round);
        }
    }
}

#[test]
fn pixel_write_string_newline_escape_equals_characters() {
    let layout = info(60, 60, 60, 4, PixelFormat::Rgb);
    let mut first = surface(&layout, 0, 0);
    let mut second = surface(&layout, 0, 0);
    let mut by_string = FrameBufferWriter::new(&mut first, layout);
    let mut by_chars = FrameBufferWriter::new(&mut second, layout);
    by_string.write_string("a\\nb");
    by_chars.write_char('a');
    by_chars.write_char('\n');
    by_chars.write_char('b');
    assert_eq!(by_string.buffer(), by_chars.buffer());
    assert_eq!((by_string.x_pos(), by_string.y_pos()), (8, 19));
    assert_eq!((by_chars.x_pos(), by_chars.y_pos()), (8, 19));
}

#[test]
fn pixel_write_string_red_colors_the_glyphs_that_follow() {
    let layout = info(60, 60, 60, 4, PixelFormat::Rgb);
    let mut bytes = surface(&layout, 0, 0);
    let len = bytes.len();
    let mut writer = FrameBufferWriter::new(&mut bytes, layout);
    writer.write_string("\\cRed");
    assert_eq!(writer.color(), TextColor::Red);
    assert_eq!((writer.x_pos(), writer.y_pos()), (1, 1));
    writer.write_char('A');
    writer.write_str("b");
    writer.write_string("c\\cBlue d");
    assert_eq!(writer.color(), TextColor::Blue);
    let want = expected(
        &layout,
        len,
        &[
            ('A', 1, 1, TextColor::Red),
            ('b', 8, 1, TextColor::Red),
            ('c', 15, 1, TextColor::Red),
            (' ', 22, 1, TextColor::Blue),
            ('d', 29, 1, TextColor::Blue),
        ],
    );
    assert_eq!(writer.buffer(), &want[..]);
    let offset = ((1 + 3) * 60 + 1 + 2) * 4;
    assert_eq!(&writer.buffer()[offset..offset + 4], &[84, 0, 0, 0xFF]);
}

#[test]
fn pixel_write_string_unknown_color_changes_nothing() {
    let layout = info(80, 60, 80, 4, PixelFormat::Bgr);
    let mut bytes = surface(&layout, 0, 0);
    let len = bytes.len();
    let mut writer = FrameBufferWriter::new(&mut bytes, layout);
    writer.set_color(TextColor::Green);
    writer.write_string("\\cPurple");
    assert_eq!(writer.color(), TextColor::Green);
    assert_eq!((writer.x_pos(), writer.y_pos()), (1, 1));
    assert!(writer.buffer().iter().all(|b| *b == 0));
    writer.write_string("x\\cPurple y");
    assert_eq!(writer.color(), TextColor::Green);
    let want = expected(
        &layout,
        len,
        &[('x', 1, 1, TextColor::Green), (' ', 8, 1, TextColor::Green), ('y', 15, 1, TextColor::Green)],
    );
    assert_eq!(writer.buffer(), &want[..]);
}

#[test]
fn pixel_write_str_reads_no_escapes() {
    let layout = info(80, 60, 80, 4, PixelFormat::Rgb);
    let mut bytes = surface(&layout, 0, 0);
    let len = bytes.len();
    let mut writer = FrameBufferWriter::new(&mut bytes, layout);
    writer.write_str("\\n");
    assert_eq!((writer.x_pos(), writer.y_pos()), (15, 1));
    let want = expected(&layout, len, &[('\\', 1, 1, TextColor::White), ('n', 8, 1, TextColor::White)]);
    assert_eq!(writer.buffer(), &want[..]);
}

#[test]
fn pixel_apply_ignores_palette_indexes() {
    let layout = info(80, 60, 80, 4, PixelFormat::Rgb);
    let mut bytes = surface(&layout, 0, 0);
    let mut writer = FrameBufferWriter::new(&mut bytes, layout);
    writer.apply(Directive::SetColor(ColorToken::Index(4)));
    assert_eq!(writer.color(), TextColor::White);
    writer.apply(Directive::SetColor(ColorToken::Name(TextColor::Yellow)));
    assert_eq!(writer.color(), TextColor::Yellow);
    writer.apply(Directive::Tab);
    assert_eq!((writer.x_pos(), writer.y_pos()), (28, 1));
    writer.apply(Directive::Newline);
    assert_eq!((writer.x_pos(), writer.y_pos()), (1, 19));
    writer.apply(Directive::Literal('z'));
    assert_eq!((writer.x_pos(), writer.y_pos()), (8, 19));
}

#[test]
fn pixel_unknown_character_draws_the_backup_glyph() {
    let layout = info(40, 40, 40, 4, PixelFormat::Rgb);
    let mut first = surface(&layout, 0, 0);
    let mut second = surface(&layout, 0, 0);
    let mut unknown = FrameBufferWriter::new(&mut first, layout);
    let mut backup = FrameBufferWriter::new(&mut second, layout);
    unknown.write_char('\u{4E2D}');
    backup.write_char('\u{FFFD}');
    assert_eq!(unknown.buffer(), backup.buffer());
    assert_eq!(unknown.x_pos(), 8);
    assert!(unknown.buffer().iter().any(|b| *b != 0 && *b != 0xFF));
}

#[test]
fn pixel_sample_text_runs_through() {
    let layout = info(320, 200, 320, 4, PixelFormat::Bgr);
    let mut bytes = surface(&layout, 0, 0);
    let mut writer = FrameBufferWriter::new(&mut bytes, layout);
    writer.write_string(
        r"watashi no Soul Society!\nTesting Testing Tester Tested.\n\cBlue Blue Text\tTabbed Text",
    );
    assert_eq!(writer.color(), TextColor::Blue);
    assert_eq!(writer.y_pos(), 37);
    assert_eq!(writer.x_pos(), 84 + 11 * 7);
}

#[test]
fn pixel_only_the_last_screenful_shows() {
    let layout = info(60, 18 * 3 + 2, 64, 4, PixelFormat::Rgb);
    let lines = ["first", "second", "third", "fourth"];
    let mut one = surface(&layout, 0, 0);
    let mut two = surface(&layout, 0, 0);
    let len = one.len();
    let mut all = FrameBufferWriter::new(&mut one, layout);
    let mut tail = FrameBufferWriter::new(&mut two, layout);
    all.write_string(&lines.join("\\n"));
    tail.write_string(&lines[1..].join("\\n"));
    assert_eq!(all.buffer(), tail.buffer());
    assert_eq!((all.x_pos(), all.y_pos()), (1 + 7 * 6, 1 + 18 * 2));
    assert_eq!((tail.x_pos(), tail.y_pos()), (1 + 7 * 6, 1 + 18 * 2));
    let mut placed = Vec::new();
    for (r, line) in lines[1..].iter().enumerate() {
        for (j, c) in line.chars().enumerate() {
            placed.push((c, 1 + 7 * j, 1 + 18 * r, TextColor::White));
        }
    }
    assert_eq!(all.buffer(), &expected(&layout, len, &placed)[..]);
}

#[test]
fn pixel_each_scroll_discards_one_text_line() {
    let layout = info(30, 18 * 4 + 2, 30, 1, PixelFormat::U8);
    let mut bytes = surface(&layout, 2, 0);
    let mut writer = FrameBufferWriter::new(&mut bytes, layout);
    for y in 0..layout.height {
        for x in 0..layout.width {
            writer.write_pixel(x, y, (y + 1) as u8);
        }
    }
    writer.scroll();
    writer.scroll();
    let after = writer.buffer();
    for y in 0..layout.height {
        for x in 0..layout.width {
            let want = if y + 36 < layout.height { (y + 37) as u8 } else { 0 };
            assert_eq!(after[y * 30 + x], want);
        }
    }
    assert_eq!(&after[30 * 74..], &[0, 0]);
}

#[test]
fn pixel_line_of_glyphs_fills_up_to_the_border() {
    let layout = info(2 + 7 * 5, 40, 40, 2, PixelFormat::Rgb);
    let mut bytes = surface(&layout, 0, 0);
    let mut writer = FrameBufferWriter::new(&mut bytes, layout);
    writer.write_str("12345");
    assert_eq!((writer.x_pos(), writer.y_pos()), (36, 1));
    writer.write_str("6");
    assert_eq!((writer.x_pos(), writer.y_pos()), (8, 19));
}

#[test]
fn pixel_write_pixel_reaches_every_pixel_whose_bytes_lie_in_the_surface() {
    let layout = info(12, 20, 16, 4, PixelFormat::Rgb);
    let mut bytes = surface(&layout, 4, 0);
    let len = bytes.len();
    let mut writer = FrameBufferWriter::new(&mut bytes, layout);
    writer.write_pixel(12, 0, 255);
    writer.write_pixel(15, 3, 9);
    let mut want = vec![0u8; len];
    want[12 * 4..13 * 4].copy_from_slice(&[255, 255, 255, 255]);
    want[(3 * 16 + 15) * 4..(3 * 16 + 16) * 4].copy_from_slice(&[9, 9, 9, 255]);
    assert_eq!(writer.buffer(), &want[..]);
    writer.write_pixel(0, 20, 7);
    want[20 * 16 * 4..20 * 16 * 4 + 4].copy_from_slice(&[7, 7, 7, 255]);
    assert_eq!(writer.buffer(), &want[..]);
}

#[test]
fn pixel_write_pixel_past_the_surface_changes_nothing() {
    let layout = info(12, 20, 16, 4, PixelFormat::Rgb);
    let mut bytes = surface(&layout, 3, 0);
    let mut writer = FrameBufferWriter::new(&mut bytes, layout);
    writer.write_pixel(0, 20, 255);
    writer.write_pixel(1, 20, 255);
    writer.write_pixel(16, 19, 255);
    writer.write_pixel(3, 400, 255);
    writer.write_pixel(usize::MAX, usize::MAX, 255);
    writer.write_pixel(usize::MAX, 0, 255);
    writer.write_pixel(0, usize::MAX, 255);
    assert!(writer.buffer().iter().all(|b| *b == 0));
    writer.write_pixel(15, 19, 255);
    let offset = (19 * 16 + 15) * 4;
    assert_eq!(&writer.buffer()[offset..offset + 4], &[255, 255, 255, 255]);
}
