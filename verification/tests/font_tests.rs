use fb_console::font::{
    find_raster, get_char_raster, glyph_or_backup, Glyph, BACKUP_CHAR, CHAR_RASTER_HEIGHT,
    CHAR_RASTER_WIDTH,
};

fn rows_of(glyph: &Glyph) -> Vec<Vec<u8>> {
    let mut rows = Vec::new();
    for y in 0..glyph.height() {
        let mut row = Vec::new();
        for x in 0..glyph.width() {
            row.push(glyph.intensity(x, y));
        }
        rows.push(row);
    }
    rows
}

#[test]
fn font_metrics() {
    assert_eq!(CHAR_RASTER_HEIGHT, 16);
    assert_eq!(CHAR_RASTER_WIDTH, 7);
    assert_eq!(BACKUP_CHAR, '\u{FFFD}');
}

#[test]
fn raster_of_capital_a() {
    let glyph = get_char_raster('A');
    assert_eq!(glyph.width(), 7);
    assert_eq!(glyph.height(), 16);
    let expected: Vec<Vec<u8>> = vec![
        vec![0, 0, 0, 0, 0, 0, 0],
        vec![0, 0, 0, 0, 0, 0, 0],
        vec![0, 0, 0, 0, 0, 0, 0],
        vec![0, 0, 84, 213, 4, 0, 0],
        vec![0, 0, 173, 210, 68, 0, 0],
        vec![0, 10, 224, 89, 151, 0, 0],
        vec![0, 82, 158, 14, 225, 2, 0],
        vec![0, 168, 152, 73, 225, 62, 0],
        vec![6, 255, 160, 151, 212, 145, 0],
        vec![75, 175, 0, 0, 26, 225, 1],
        vec![158, 96, 0, 0, 0, 201, 55],
        vec![0, 0, 0, 0, 0, 0, 0],
        vec![0, 0, 0, 0, 0, 0, 0],
        vec![0, 0, 0, 0, 0, 0, 0],
        vec![0, 0, 0, 0, 0, 0, 0],
        vec![0, 0, 0, 0, 0, 0, 0],
    ];
    assert_eq!(rows_of(&glyph), expected);
}

#[test]
fn raster_of_space_is_blank() {
    let glyph = get_char_raster(' ');
    assert_eq!(rows_of(&glyph), vec![vec![0u8; 7]; 16]);
}

#[test]
fn rasters_differ_between_characters() {
    assert_ne!(rows_of(&get_char_raster('A')), rows_of(&get_char_raster('B')));
}

#[test]
fn backup_character_has_a_raster() {
    let glyph = get_char_raster(BACKUP_CHAR);
    assert_eq!(glyph.width(), 7);
    assert_eq!(glyph.height(), 16);
    assert_eq!(
        rows_of(&glyph)[6],
        vec![255, 236, 255, 35, 154, 255, 117]
    );
}

#[test]
fn unknown_character_gets_the_backup_raster() {
    let backup = rows_of(&get_char_raster(BACKUP_CHAR));
    assert_eq!(rows_of(&get_char_raster('\u{4E2D}')), backup);
    assert_eq!(rows_of(&get_char_raster('\u{0007}')), backup);
    assert_ne!(rows_of(&get_char_raster('A')), backup);
}

#[test]
fn same_character_same_raster() {
    assert_eq!(rows_of(&get_char_raster('g')), rows_of(&get_char_raster('g')));
}

#[test]
fn glyph_new_takes_rectangles_only() {
    let glyph = Glyph::new(vec![vec![1, 2, 3], vec![4, 5, 6]], 3);
    assert!(glyph.is_some());
    let glyph = glyph.unwrap();
    assert_eq!(glyph.width(), 3);
    assert_eq!(glyph.height(), 2);
    assert_eq!(glyph.intensity(0, 0), 1);
    assert_eq!(glyph.intensity(2, 0), 3);
    assert_eq!(glyph.intensity(1, 1), 5);
    assert!(Glyph::new(vec![vec![1, 2, 3], vec![4, 5]], 3).is_none());
    assert!(Glyph::new(vec![vec![1, 2, 3]], 2).is_none());
    assert!(Glyph::new(Vec::new(), 5).is_some());
}

#[test]
fn find_raster_tells_known_from_unknown() {
    assert!(find_raster('A').is_some());
    assert!(find_raster(BACKUP_CHAR).is_some());
    assert!(find_raster('\u{4E2D}').is_none());
    assert!(find_raster('\n').is_none());
    assert_eq!(rows_of(&find_raster('A').unwrap()), rows_of(&get_char_raster('A')));
}

#[test]
fn glyph_or_backup_prefers_the_own_glyph() {
    let own = Glyph::new(vec![vec![1, 2]], 2).unwrap();
    let backup = Glyph::new(vec![vec![9, 9]], 2).unwrap();
    let chosen = glyph_or_backup(Some(own), Some(backup)).unwrap();
    assert_eq!(rows_of(&chosen), vec![vec![1, 2]]);
    let own = Glyph::new(vec![vec![1, 2]], 2).unwrap();
    let chosen = glyph_or_backup(Some(own), None).unwrap();
    assert_eq!(rows_of(&chosen), vec![vec![1, 2]]);
}

#[test]
fn glyph_or_backup_falls_back_to_the_backup() {
    let backup = Glyph::new(vec![vec![9, 9]], 2).unwrap();
    let chosen = glyph_or_backup(None, Some(backup)).unwrap();
    assert_eq!(rows_of(&chosen), vec![vec![9, 9]]);
    assert!(glyph_or_backup(None, None).is_none());
}
