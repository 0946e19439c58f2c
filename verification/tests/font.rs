use fathom::font::{
    bake_atlas, glyph_index, glyph_origin, white_origin, ATLAS, ATLAS_COLUMNS, FONT_BYTES,
    GLYPH_CELLS,
};

fn alpha(px: &[u8], x: usize, y: usize) -> u8 {
    px[(y * ATLAS as usize + x) * 4 + 3]
}

#[test]
fn ascii_and_latin1_draw_themselves() {
    assert_eq!(glyph_index('A'), 65);
    assert_eq!(glyph_index(' '), 32);
    assert_eq!(glyph_index('~'), 0x7E);
    assert_eq!(glyph_index('é'), 0xE9);
    assert_eq!(glyph_index('ÿ'), 0xFF);
}

#[test]
fn anything_else_draws_as_a_question_mark() {
    assert_eq!(glyph_index('€'), '?' as u32);
    assert_eq!(glyph_index('\u{100}'), 63);
    assert_eq!(glyph_index('日'), 63);
}

#[test]
fn cells_run_sixteen_to_a_row() {
    assert_eq!(ATLAS_COLUMNS, 16);
    assert_eq!(glyph_origin(0), (0, 0));
    assert_eq!(glyph_origin(65), (8, 32));
    assert_eq!(glyph_origin(GLYPH_CELLS - 1), (120, 120));
    assert_eq!(white_origin(), (0, 128));
    assert_eq!(ATLAS, 136);
}

#[test]
fn the_atlas_lights_glyph_bits_and_the_white_cell() {
    let mut font = vec![0u8; FONT_BYTES];
    // Glyph 'A': top row, leftmost and fourth pixels; last row, rightmost pixel.
    font[65 * 8] = 0b0000_1001;
    font[65 * 8 + 7] = 0b1000_0000;
    let px = bake_atlas(&font);
    assert_eq!(px.len(), 136 * 136 * 4);
    assert_eq!(alpha(&px, 8, 32), 255);
    assert_eq!(alpha(&px, 9, 32), 0);
    assert_eq!(alpha(&px, 11, 32), 255);
    assert_eq!(alpha(&px, 15, 39), 255);
    assert_eq!(alpha(&px, 14, 39), 0);
    assert_eq!(alpha(&px, 0, 0), 0);
    assert_eq!(alpha(&px, 0, 128), 255);
    assert_eq!(alpha(&px, 7, 135), 255);
    assert_eq!(alpha(&px, 8, 128), 0);
    assert_eq!(alpha(&px, 130, 10), 0);
    let lit = px.chunks_exact(4).filter(|t| t[3] == 255).count();
    assert_eq!(lit, 3 + 64);
    assert!(px.chunks_exact(4).all(|t| t[0] == 255 && t[1] == 255 && t[2] == 255));
}
