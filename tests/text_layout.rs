use twodr::atlas::{pack_atlas, RasterGlyph};
use twodr::geometry::{FontDrawRects, Frac};
use twodr::text::{check_layout_fits, draw_text, layout_texts, FontAtlas, GlyphInfo, TextObject};

const LINE: u32 = 1024;

/// Every glyph 9 texels wide and 12 high, advancing `advance` units; space blank.
fn fixed_atlas(advance: i32) -> FontAtlas {
    let gs: Vec<RasterGlyph> = (32..127)
        .map(|code| {
            let (w, h) = if code == 32 { (0, 0) } else { (9u32, 12u32) };
            RasterGlyph {
                width: 3 * w,
                rows: h,
                pitch: 3 * w,
                buffer: vec![200; (9 * w * h) as usize],
                advance,
                bearing_x: 0,
                bearing_y: 64 * h as i32,
            }
        })
        .collect();
    pack_atlas(&gs, LINE)
}

#[test]
fn two_glyphs_advance_the_pen_by_their_advances() {
    let atlas = fixed_atlas(640);
    let mut verts = FontDrawRects::new();
    let to = TextObject::new("ab", (0, 0), 1000000);
    let info = draw_text(&atlas, &mut verts, &to);
    assert_eq!(info.max.0, 1280);
    assert_eq!(info.max.0 / 64, 20);
    assert_eq!(info.min, (0, 0));
    assert_eq!(info.max.1, -(LINE as i32));
    assert_eq!(verts.cpu_buffer.len(), 8);
    assert_eq!(verts.index_buffer.len(), 12);
}

#[test]
fn glyph_quad_is_normalized_by_viewport_and_atlas() {
    let atlas = fixed_atlas(640);
    let mut verts = FontDrawRects::new();
    let to = TextObject::new("a", (10, 100), 1000);
    draw_text(&atlas, &mut verts, &to);
    let g: GlyphInfo = atlas.advances['a' as usize];
    let x = 640;
    let y = 6400 - LINE as i32 + g.bearing.1;
    let v = &verts.cpu_buffer;
    assert_eq!(v[0].position, [Frac { num: x, den: 51200 }, Frac { num: y, den: 25600 }]);
    assert_eq!(v[3].position, [Frac { num: x + 576, den: 51200 }, Frac { num: y - 768, den: 25600 }]);
    let tx = g.texture_coord.0;
    assert_eq!(v[0].tex_coords, [Frac { num: tx, den: atlas.width }, Frac { num: 0, den: atlas.height }]);
    assert_eq!(v[3].tex_coords, [Frac { num: tx + 9, den: atlas.width }, Frac { num: 12, den: atlas.height }]);
}

#[test]
fn spaces_advance_without_quads() {
    let atlas = fixed_atlas(640);
    let mut verts = FontDrawRects::new();
    let to = TextObject::new("a b", (0, 0), 1000000);
    let info = draw_text(&atlas, &mut verts, &to);
    assert_eq!(info.max.0, 3 * 640);
    assert_eq!(verts.cpu_buffer.len(), 8);
}

#[test]
fn unsupported_characters_are_skipped() {
    let atlas = fixed_atlas(640);
    let mut verts = FontDrawRects::new();
    let to = TextObject::new("a\u{e9}\u{7f}b", (0, 0), 1000000);
    let info = draw_text(&atlas, &mut verts, &to);
    assert_eq!(info.max.0, 1280);
    assert_eq!(verts.cpu_buffer.len(), 8);
}

#[test]
fn fixed_advance_text_wraps_every_per_line_characters() {
    // 25 px wide lines, 10 px advance: a glyph is placed while the pen has
    // moved at most 25 px, so three per line; seven glyphs take three lines.
    let atlas = fixed_atlas(640);
    let mut verts = FontDrawRects::new();
    let to = TextObject::new("abcdefg", (0, 0), 25);
    let info = draw_text(&atlas, &mut verts, &to);
    assert_eq!(info.max.1, -3 * LINE as i32);
    assert_eq!(info.max.0, 640);
    // The first glyph of each line starts at the origin column.
    let lefts: Vec<i32> = verts.cpu_buffer.iter().step_by(4).map(|v| v.position[0].num).collect();
    assert_eq!(lefts, vec![0, 640, 1280, 0, 640, 1280, 0]);
}

#[test]
fn carriage_return_breaks_a_short_line() {
    let atlas = fixed_atlas(640);
    let mut verts = FontDrawRects::new();
    let to = TextObject::new("a\rb", (0, 0), 1000);
    let info = draw_text(&atlas, &mut verts, &to);
    assert_eq!(info.max, (640, -2 * LINE as i32));
    assert_eq!(verts.cpu_buffer[4].position[0].num, 0);
}

#[test]
fn batch_lays_out_each_text_in_order() {
    let atlas = fixed_atlas(640);
    let mut verts = FontDrawRects::new();
    let objects = vec![TextObject::new("ab", (0, 0), 1000), TextObject::new("c", (5, 5), 1000)];
    let infos = layout_texts(&atlas, &mut verts, &objects);
    assert_eq!(infos.len(), 2);
    assert_eq!(infos[0].max.0, 1280);
    assert_eq!(infos[1].min, (320, 320));
    assert_eq!(infos[1].max.0, 320 + 640);
    assert_eq!(verts.cpu_buffer.len(), 12);
}

#[test]
fn text_object_update_marks_dirty() {
    let mut to = TextObject::new("x", (1, 2), 3);
    to.dirty = false;
    to.update_str("yz".to_string());
    assert_eq!(to.render_str, "yz");
    assert!(to.dirty);
    assert_eq!(to.top_left, (1, 2));
}

#[test]
fn glyph_info_geometry() {
    let g = GlyphInfo { advance: 100, bearing: (5, 40), size: (128, 192), texture_coord: (7, 0) };
    let r = g.calculate_rect_pos((1000, 2000));
    assert_eq!((r.x, r.y, r.x1, r.y1), (1005, 2040, 1133, 1848));
    let t = g.calculate_texture();
    assert_eq!((t.x, t.y, t.x1, t.y1), (7, 0, 9, 3));
    assert_eq!(g.calculate_next_origin((1000, 2000)), (1100, 2000));
}

#[test]
fn rect_position_near_the_largest_coordinate() {
    let g = GlyphInfo { advance: 0, bearing: (0, 0), size: (0, 0), texture_coord: (0, 0) };
    let r = g.calculate_rect_pos((i32::MAX - 10, 0));
    assert_eq!((r.x, r.x1), (i32::MAX - 10, i32::MAX - 10));
    assert_eq!(g.calculate_next_origin((i32::MAX, 5)), (i32::MAX, 5));
}

#[test]
fn layout_check_accepts_exactly_what_fits() {
    let atlas = fixed_atlas(640);
    let empty_far_right = TextObject::new("", (i32::MAX / 64, 100), 10);
    assert!(check_layout_fits(&atlas, &empty_far_right));
    let mut verts = FontDrawRects::new();
    let info = draw_text(&atlas, &mut verts, &empty_far_right);
    assert_eq!(info.max.0, (i32::MAX / 64) * 64);
    let overflowing = TextObject::new("a", (i32::MAX / 64, 100), 10);
    assert!(!check_layout_fits(&atlas, &overflowing));
    let too_low = TextObject::new("", (0, i32::MIN / 64), 10);
    assert!(!check_layout_fits(&atlas, &too_low));
    assert!(check_layout_fits(&atlas, &TextObject::new("hello", (0, 0), 100)));
}

#[test]
fn skipped_characters_never_start_a_line() {
    let atlas = fixed_atlas(640);
    let mut plain = FontDrawRects::new();
    let a = draw_text(&atlas, &mut plain, &TextObject::new("ab", (0, 0), 0));
    let mut noisy = FontDrawRects::new();
    let b = draw_text(&atlas, &mut noisy, &TextObject::new("a\n\u{7f}\u{e9}b\n", (0, 0), 0));
    assert_eq!((a.min, a.max), (b.min, b.max));
    assert_eq!(plain.index_buffer, noisy.index_buffer);
    let pa: Vec<_> = plain.cpu_buffer.iter().map(|v| (v.position, v.tex_coords)).collect();
    let pb: Vec<_> = noisy.cpu_buffer.iter().map(|v| (v.position, v.tex_coords)).collect();
    assert_eq!(pa, pb);
    let mut one = FontDrawRects::new();
    let c = draw_text(&atlas, &mut one, &TextObject::new("a\n", (0, 0), 0));
    assert_eq!(c.max, (640, -(LINE as i32)));
}

#[test]
fn carriage_returns_count_lines() {
    let atlas = fixed_atlas(640);
    let mut verts = FontDrawRects::new();
    let info = draw_text(&atlas, &mut verts, &TextObject::new("\r\r", (0, 0), 1000));
    assert_eq!(info.max, (0, -3 * LINE as i32));
    assert!(verts.cpu_buffer.is_empty());
}
