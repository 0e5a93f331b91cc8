use twodr::font::{load_font_atlas, raster_glyph_from, GlyphBitmap};

const FONT: &str = "/usr/share/fonts/truetype/dejavu/DejaVuSans.ttf";

fn bitmap(width: i32, rows: i32, pitch: i32, len: usize) -> GlyphBitmap {
    GlyphBitmap {
        width,
        rows,
        pitch,
        buffer: vec![7; len],
        advance: 640,
        bearing_x: 64,
        bearing_y: 768,
    }
}

#[test]
fn in_range_bitmap_becomes_a_raster_glyph() {
    let g = raster_glyph_from(bitmap(27, 12, 28, 12 * 28)).unwrap();
    assert_eq!((g.width, g.rows, g.pitch), (27, 12, 28));
    assert_eq!(g.buffer.len(), 336);
    assert_eq!((g.advance, g.bearing_x, g.bearing_y), (640, 64, 768));
}

#[test]
fn empty_bitmap_is_accepted() {
    assert!(raster_glyph_from(bitmap(0, 0, 0, 0)).is_some());
}

#[test]
fn out_of_range_bitmaps_are_refused() {
    assert!(raster_glyph_from(bitmap(-3, 12, 28, 400)).is_none());
    assert!(raster_glyph_from(bitmap(27, 12, 20, 400)).is_none());
    assert!(raster_glyph_from(bitmap(27, 12, -28, 400)).is_none());
    assert!(raster_glyph_from(bitmap(27, 12, 28, 335)).is_none());
    assert!(raster_glyph_from(bitmap(27, 0x200_0000, 28, 0)).is_none());
    let mut b = bitmap(27, 12, 28, 336);
    b.advance = -(1 << 40);
    assert!(raster_glyph_from(b).is_none());
    let mut b = bitmap(27, 12, 28, 336);
    b.bearing_y = 1 << 40;
    assert!(raster_glyph_from(b).is_none());
}

#[test]
fn atlas_from_a_real_font_packs_every_printable_glyph() {
    let lib = freetype::Library::init().unwrap();
    let face = lib.new_face(FONT, 0).unwrap();
    face.set_char_size(16 * 64, 0, 0, 0).unwrap();
    let atlas = load_font_atlas(&face).ok().unwrap();
    for c in 32..126 {
        let here = atlas.advances[c];
        let next = atlas.advances[c + 1];
        assert!(next.texture_coord.0 >= here.texture_coord.0 + here.size.0 / 64 + 2);
    }
    let last = atlas.advances[126];
    assert_eq!(atlas.width as i32, last.texture_coord.0 + last.size.0 / 64 + 2);
    let max_h = (32..127).map(|c| atlas.advances[c].size.1 / 64).max().unwrap();
    assert_eq!(atlas.height as i32, max_h + 2);
    assert_eq!(atlas.advances[32].size, (0, 0));
    assert!(atlas.advances[32].advance > 0);
    assert!(atlas.advances['A' as usize].size.0 > 0);
    assert!(atlas.advances['A' as usize].size.1 > 0);
    assert!(atlas.font_height() > 0);
    assert_eq!(atlas.img.len(), (atlas.width * atlas.height * 4) as usize);
    assert!(atlas.img.iter().any(|&b| b != 0));
}

use twodr::atlas::GLYPH_COUNT;
use twodr::font::{atlas_from_glyphs, glyph_bitmap_from, glyph_codes, AtlasError, GlyphShape};

fn ok_bitmaps() -> Vec<GlyphBitmap> {
    (0..GLYPH_COUNT).map(|k| if k == 0 { bitmap(0, 0, 0, 0) } else { bitmap(6, 3, 6, 18) }).collect()
}

#[test]
fn glyph_codes_cover_the_printable_range_in_order() {
    let codes = glyph_codes();
    assert_eq!(codes, (32..127).collect::<Vec<u32>>());
}

#[test]
fn missing_bytes_become_an_empty_buffer() {
    let shape = GlyphShape { width: 6, rows: 0, pitch: 6, advance: 320, bearing_x: 0, bearing_y: 0 };
    let b = glyph_bitmap_from(shape, None);
    assert_eq!((b.width, b.rows, b.pitch, b.advance), (6, 0, 6, 320));
    assert!(b.buffer.is_empty());
    let shape = GlyphShape { width: 3, rows: 1, pitch: 3, advance: 64, bearing_x: 1, bearing_y: 2 };
    let b = glyph_bitmap_from(shape, Some(vec![1, 2, 3]));
    assert_eq!(b.buffer, vec![1, 2, 3]);
    assert_eq!((b.bearing_x, b.bearing_y), (1, 2));
}

#[test]
fn atlas_from_glyphs_packs_all_glyphs() {
    let atlas = atlas_from_glyphs(ok_bitmaps(), Some(1024)).ok().unwrap();
    assert_eq!(atlas.width, 2 + 94 * 4);
    assert_eq!(atlas.height, 5);
    assert_eq!(atlas.font_height(), 1024);
}

#[test]
fn atlas_from_glyphs_reports_the_first_bad_glyph() {
    let mut bs = ok_bitmaps();
    bs[10] = bitmap(6, 3, 2, 18);
    bs[20] = bitmap(-1, 3, 6, 18);
    assert!(matches!(atlas_from_glyphs(bs, Some(1024)), Err(AtlasError::BadGlyph(42))));
}

#[test]
fn atlas_from_glyphs_needs_a_usable_line_height() {
    assert!(matches!(atlas_from_glyphs(ok_bitmaps(), None), Err(AtlasError::NoSizeMetrics)));
    assert!(matches!(atlas_from_glyphs(ok_bitmaps(), Some(0)), Err(AtlasError::BadLineHeight)));
    assert!(matches!(atlas_from_glyphs(ok_bitmaps(), Some(1 << 40)), Err(AtlasError::BadLineHeight)));
}

#[test]
fn large_glyphs_are_accepted() {
    let g = raster_glyph_from(bitmap(3 * 2000, 2000, 3 * 2000, 2000 * 6000)).unwrap();
    assert_eq!((g.width, g.rows), (6000, 2000));
    let mut b = bitmap(27, 12, 28, 336);
    b.advance = 1 << 20;
    assert!(raster_glyph_from(b).is_some());
}

#[test]
fn atlas_too_wide_for_32_bit_coordinates_is_refused() {
    let side = 0x1ff_ffff;
    let bs: Vec<GlyphBitmap> = (0..GLYPH_COUNT).map(|_| bitmap(3 * side, 0, 3 * side, 0)).collect();
    assert!(matches!(atlas_from_glyphs(bs, Some(1024)), Err(AtlasError::TooLarge)));
}
