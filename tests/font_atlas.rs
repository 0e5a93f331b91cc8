use twodr::atlas::{pack_atlas, RasterGlyph, GLYPH_COUNT};

fn glyph(code: u32) -> RasterGlyph {
    let (w, h) = if code == 32 { (0, 0) } else { (1 + code % 5, 2 + code % 7) };
    let pitch = 3 * w + 1;
    let buffer: Vec<u8> = (0..pitch * h).map(|i| ((i * 7 + code) % 251) as u8).collect();
    RasterGlyph {
        width: 3 * w,
        rows: h,
        pitch,
        buffer,
        advance: 64 * (w as i32 + 1),
        bearing_x: 64,
        bearing_y: 64 * h as i32,
    }
}

fn glyphs() -> Vec<RasterGlyph> {
    (32..127).map(glyph).collect()
}

#[test]
fn atlas_width_is_the_sum_of_glyph_widths_plus_gutters() {
    let gs = glyphs();
    assert_eq!(gs.len(), GLYPH_COUNT);
    let atlas = pack_atlas(&gs, 1024);
    let expected: u32 = gs.iter().map(|g| g.width / 3 + 2).sum();
    assert_eq!(atlas.width, expected);
    let max_h = gs.iter().map(|g| g.rows).max().unwrap();
    assert_eq!(atlas.height, max_h + 2);
    assert_eq!(atlas.size(), (expected, max_h + 2));
    assert_eq!(atlas.img.len(), (expected * (max_h + 2) * 4) as usize);
}

#[test]
fn glyphs_are_packed_left_to_right() {
    let gs = glyphs();
    let atlas = pack_atlas(&gs, 1024);
    let mut x = 0;
    for (k, g) in gs.iter().enumerate() {
        let info = atlas.advances[32 + k];
        assert_eq!(info.texture_coord, (x, 0));
        let inked = g.width / 3 != 0 && g.rows != 0;
        let size = if inked { ((g.width / 3 * 64) as i32, (g.rows * 64) as i32) } else { (0, 0) };
        assert_eq!(info.size, size);
        assert_eq!(info.advance, g.advance);
        assert_eq!(info.bearing, (g.bearing_x, g.bearing_y));
        x += (g.width / 3 + 2) as i32;
    }
    for c in 0..32 {
        assert_eq!(atlas.advances[c].size, (0, 0));
        assert_eq!(atlas.advances[c].advance, 0);
    }
}

#[test]
fn space_gets_zero_size_metrics_and_no_pixels() {
    let gs = glyphs();
    let atlas = pack_atlas(&gs, 1024);
    let space = atlas.advances[32];
    assert_eq!(space.size, (0, 0));
    assert_eq!(space.advance, 64);
    assert_eq!(atlas.advances[33].texture_coord, (2, 0));
}

#[test]
fn glyph_pixels_are_copied_as_opaque_rgb() {
    let gs = glyphs();
    let atlas = pack_atlas(&gs, 1024);
    let width = atlas.width as usize;
    for (k, g) in gs.iter().enumerate() {
        let x0 = atlas.advances[32 + k].texture_coord.0 as usize;
        for y in 0..g.rows as usize {
            for x in 0..(g.width / 3) as usize {
                let i = (y * width + x0 + x) * 4;
                let s = y * g.pitch as usize + 3 * x;
                assert_eq!(&atlas.img[i..i + 4], &[g.buffer[s], g.buffer[s + 1], g.buffer[s + 2], 255]);
            }
        }
    }
}

#[test]
fn glyph_without_rows_gets_zero_size_but_keeps_its_column() {
    let mut gs = glyphs();
    gs[1] = RasterGlyph { width: 12, rows: 0, pitch: 12, buffer: vec![], advance: 100, bearing_x: 0, bearing_y: 0 };
    let atlas = pack_atlas(&gs, 1024);
    assert_eq!(atlas.advances[33].size, (0, 0));
    assert_eq!(atlas.advances[33].advance, 100);
    assert_eq!(atlas.advances[34].texture_coord, (2 + 4 + 2, 0));
}

#[test]
fn line_height_is_kept() {
    let atlas = pack_atlas(&glyphs(), 1234);
    assert_eq!(atlas.font_height(), 1234);
}

#[test]
fn texels_outside_glyph_boxes_stay_blank() {
    let gs = glyphs();
    let atlas = pack_atlas(&gs, 1024);
    let width = atlas.width as usize;
    let mut inside = vec![false; width * atlas.height as usize];
    for (k, g) in gs.iter().enumerate() {
        let x0 = atlas.advances[32 + k].texture_coord.0 as usize;
        for y in 0..g.rows as usize {
            for x in 0..(g.width / 3) as usize {
                inside[y * width + x0 + x] = true;
            }
        }
    }
    for (t, covered) in inside.iter().enumerate() {
        if !covered {
            assert_eq!(&atlas.img[t * 4..t * 4 + 4], &[0, 0, 0, 0]);
        }
    }
}
