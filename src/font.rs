use vstd::prelude::*;

use crate::atlas::{
    atlas_fits, fits_atlas, is_packing, max_rows, pack_atlas, packed_width, RasterGlyph, GLYPH_COUNT,
    GUTTER, MARGIN, MAX_GLYPH_PIXELS,
};
use crate::text::{FontAtlas, END_CODE, FIRST_CODE};

verus! {

#[verifier::external_type_specification]
#[verifier::external_body]
pub struct ExFace(freetype::Face);

#[verifier::external_type_specification]
#[verifier::external_body]
pub struct ExFtError(freetype::Error);

/// A rendered glyph as FreeType reports it: the bitmap's sides, pitch and
/// bytes, and the glyph's horizontal metrics in 1/64 px.
pub struct GlyphBitmap {
    pub width: i32,
    pub rows: i32,
    pub pitch: i32,
    pub buffer: Vec<u8>,
    pub advance: i64,
    pub bearing_x: i64,
    pub bearing_y: i64,
}

/// Why an atlas could not be built.
pub enum AtlasError {
    /// FreeType failed to load or render a glyph.
    FreeType(freetype::Error),
    /// The glyph of this code came back with a bitmap or metrics out of range.
    BadGlyph(u32),
    /// The face has no size selected.
    NoSizeMetrics,
    /// The face's line height is not positive or does not fit in 32 bits.
    BadLineHeight,
    /// The packed atlas would be wider than 32-bit coordinates reach, or
    /// larger than memory can address.
    TooLarge,
}

/// Relies on freetype::Face::load_char: loads the glyph of character `code`
/// into the face's glyph slot.
#[verifier::external_body]
fn load_char(face: &freetype::Face, code: u32) -> Result<(), freetype::Error> {
    face.load_char(code as usize, freetype::face::LoadFlag::DEFAULT)
}

/// Relies on freetype::GlyphSlot::render_glyph: renders the loaded glyph as an
/// LCD bitmap (three subpixel bytes per texel).
#[verifier::external_body]
fn render_lcd(face: &freetype::Face) -> Result<(), freetype::Error> {
    face.glyph().render_glyph(freetype::RenderMode::Lcd)
}

/// The shape of a rendered glyph as FreeType reports it: the bitmap's sides
/// and pitch, and the glyph's horizontal metrics in 1/64 px.
pub struct GlyphShape {
    pub width: i32,
    pub rows: i32,
    pub pitch: i32,
    pub advance: i64,
    pub bearing_x: i64,
    pub bearing_y: i64,
}

/// Relies on freetype::GlyphSlot::bitmap and metrics, and on
/// freetype::Bitmap's width, rows and pitch: the shape of the rendered glyph.
#[verifier::external_body]
fn glyph_shape(face: &freetype::Face) -> GlyphShape {
    let slot = face.glyph();
    let bitmap = slot.bitmap();
    let metrics = slot.metrics();
    GlyphShape {
        width: bitmap.width(),
        rows: bitmap.rows(),
        pitch: bitmap.pitch(),
        advance: metrics.horiAdvance as i64,
        bearing_x: metrics.horiBearingX as i64,
        bearing_y: metrics.horiBearingY as i64,
    }
}

/// Relies on freetype::Bitmap::buffer: the bytes of the rendered glyph.
/// FreeType leaves the buffer pointer null when it allocated no bitmap (a
/// glyph without ink), where `buffer` must not be called: that null pointer
/// is handed back as `None`.
#[verifier::external_body]
fn glyph_bytes(face: &freetype::Face) -> Option<Vec<u8>> {
    let bitmap = face.glyph().bitmap();
    if bitmap.raw().buffer.is_null() { None } else { Some(bitmap.buffer().to_vec()) }
}

/// Relies on freetype::Face::size_metrics: the line height of the face's
/// selected size, in 1/64 px, or nothing when no size is selected.
#[verifier::external_body]
fn size_height(face: &freetype::Face) -> Option<i64> {
    face.size_metrics().map(|m| m.height as i64)
}

/// Whether a rendered bitmap can be packed: a downward bitmap with rows
/// `pitch` bytes apart and all its bytes present, sides whose fixed-point size
/// fits in 32 bits, and metrics that fit in 32 bits.
pub open spec fn bitmap_ok(b: GlyphBitmap) -> bool {
    &&& 0 <= b.width <= b.pitch
    &&& 0 <= b.rows <= MAX_GLYPH_PIXELS
    &&& b.width / 3 <= MAX_GLYPH_PIXELS
    &&& b.rows * b.pitch <= b.buffer@.len()
    &&& i32::MIN <= b.advance <= i32::MAX
    &&& i32::MIN <= b.bearing_x <= i32::MAX
    &&& i32::MIN <= b.bearing_y <= i32::MAX
}

/// Takes a rendered bitmap as a packable glyph when it is in range.
pub fn raster_glyph_from(b: GlyphBitmap) -> (r: Option<RasterGlyph>)
    ensures
        r is Some <==> bitmap_ok(b),
        r matches Some(g) ==> {
            &&& g.width == b.width
            &&& g.rows == b.rows
            &&& g.pitch == b.pitch
            &&& g.buffer@ == b.buffer@
            &&& g.advance == b.advance
            &&& g.bearing_x == b.bearing_x
            &&& g.bearing_y == b.bearing_y
            &&& g.wf()
        },
{
    if b.width < 0 || b.width > b.pitch || b.rows < 0 || b.rows > MAX_GLYPH_PIXELS as i32 {
        return None;
    }
    if b.width / 3 > MAX_GLYPH_PIXELS as i32 {
        return None;
    }
    let lo = i32::MIN as i64;
    let hi = i32::MAX as i64;
    if b.advance < lo || b.advance > hi || b.bearing_x < lo || b.bearing_x > hi || b.bearing_y < lo
        || b.bearing_y > hi {
        return None;
    }
    assert((b.rows as u64) * (b.pitch as u64) <= 0x8000_0000u64 * 0x8000_0000u64) by (nonlinear_arith)
        requires
            0 <= b.rows <= 0x8000_0000u64,
            0 <= b.pitch <= 0x8000_0000u64,
    ;
    if (b.rows as u64) * (b.pitch as u64) > b.buffer.len() as u64 {
        return None;
    }
    Some(
        RasterGlyph {
            width: b.width as u32,
            rows: b.rows as u32,
            pitch: b.pitch as u32,
            buffer: b.buffer,
            advance: b.advance as i32,
            bearing_x: b.bearing_x as i32,
            bearing_y: b.bearing_y as i32,
        },
    )
}

/// The character codes of the supported range, in ascending order.
pub fn glyph_codes() -> (r: Vec<u32>)
    ensures
        r.len() == GLYPH_COUNT,
        forall|k: int| 0 <= k < GLYPH_COUNT ==> #[trigger] r@[k] == FIRST_CODE + k,
{
    let mut codes: Vec<u32> = Vec::new();
    let mut code: u32 = FIRST_CODE;
    while code < END_CODE
        invariant
            FIRST_CODE <= code <= END_CODE,
            codes.len() == code - FIRST_CODE,
            forall|k: int| 0 <= k < codes.len() ==> #[trigger] codes@[k] == FIRST_CODE + k,
        decreases END_CODE - code,
    {
        codes.push(code);
        code = code + 1;
    }
    codes
}

/// A rendered glyph from its shape and its bytes; a glyph without a bitmap
/// buffer has no bytes.
pub fn glyph_bitmap_from(shape: GlyphShape, bytes: Option<Vec<u8>>) -> (r: GlyphBitmap)
    ensures
        r.width == shape.width,
        r.rows == shape.rows,
        r.pitch == shape.pitch,
        r.advance == shape.advance,
        r.bearing_x == shape.bearing_x,
        r.bearing_y == shape.bearing_y,
        r.buffer@ == (match bytes {
            Some(b) => b@,
            None => Seq::<u8>::empty(),
        }),
{
    let buffer = match bytes {
        Some(b) => b,
        None => Vec::new(),
    };
    GlyphBitmap {
        width: shape.width,
        rows: shape.rows,
        pitch: shape.pitch,
        buffer,
        advance: shape.advance,
        bearing_x: shape.bearing_x,
        bearing_y: shape.bearing_y,
    }
}

/// Whether packable glyph `g` was taken from rendered glyph `b`.
pub open spec fn raster_matches(g: RasterGlyph, b: GlyphBitmap) -> bool {
    &&& g.width == b.width
    &&& g.rows == b.rows
    &&& g.pitch == b.pitch
    &&& g.buffer@ == b.buffer@
    &&& g.advance == b.advance
    &&& g.bearing_x == b.bearing_x
    &&& g.bearing_y == b.bearing_y
}

/// Whether every rendered glyph of `bs` can be packed.
pub open spec fn all_ok(bs: Seq<GlyphBitmap>) -> bool {
    forall|k: int| 0 <= k < bs.len() ==> bitmap_ok(#[trigger] bs[k])
}

/// Atlas width taken by the rendered glyphs `bs`: each glyph's width in
/// texels plus the gutter.
pub open spec fn bitmaps_width(bs: Seq<GlyphBitmap>) -> int
    decreases bs.len(),
{
    if bs.len() == 0 {
        0
    } else {
        bitmaps_width(bs.drop_last()) + bs.last().width / 3 + GUTTER
    }
}

/// The tallest of the rendered glyphs `bs`.
pub open spec fn bitmaps_rows(bs: Seq<GlyphBitmap>) -> int
    decreases bs.len(),
{
    if bs.len() == 0 {
        0
    } else {
        let m = bitmaps_rows(bs.drop_last());
        if bs.last().rows > m {
            bs.last().rows as int
        } else {
            m
        }
    }
}

/// Whether the atlas of the rendered glyphs `bs` stays addressable.
pub open spec fn bitmaps_fit(bs: Seq<GlyphBitmap>) -> bool {
    &&& bitmaps_width(bs) <= i32::MAX
    &&& bitmaps_width(bs) * (bitmaps_rows(bs) + 2 * MARGIN) * 4 <= usize::MAX
}

proof fn lemma_matching_sizes(gs: Seq<RasterGlyph>, bs: Seq<GlyphBitmap>)
    requires
        gs.len() == bs.len(),
        forall|k: int| 0 <= k < gs.len() ==> raster_matches(#[trigger] gs[k], bs[k]),
    ensures
        packed_width(gs) == bitmaps_width(bs),
        max_rows(gs) == bitmaps_rows(bs),
        fits_atlas(gs) == bitmaps_fit(bs),
    decreases gs.len(),
{
    if gs.len() > 0 {
        let (pg, pb) = (gs.drop_last(), bs.drop_last());
        assert forall|k: int| 0 <= k < pg.len() implies raster_matches(#[trigger] pg[k], pb[k]) by {
            assert(raster_matches(gs[k], bs[k]));
        }
        lemma_matching_sizes(pg, pb);
        assert(raster_matches(gs[gs.len() - 1], bs[bs.len() - 1]));
    }
}

/// Whether `h` is a usable line height.
pub open spec fn height_ok(h: Option<i64>) -> bool {
    h matches Some(v) && 0 < v <= i32::MAX
}

/// Builds the atlas from the rendered glyphs of the supported range, in code
/// order, and the face's line height. The first glyph out of range gives
/// `BadGlyph` with its code; then a missing or unusable line height gives
/// `NoSizeMetrics` or `BadLineHeight`; then an atlas too large to address
/// gives `TooLarge`; otherwise the result is the packing of all the glyphs.
pub fn atlas_from_glyphs(bitmaps: Vec<GlyphBitmap>, height: Option<i64>) -> (r: Result<FontAtlas, AtlasError>)
    requires
        bitmaps.len() == GLYPH_COUNT,
    ensures
        r is Ok <==> all_ok(bitmaps@) && height_ok(height) && bitmaps_fit(bitmaps@),
        r matches Ok(a) ==> exists|gs: Seq<RasterGlyph>|
            {
                &&& gs.len() == GLYPH_COUNT
                &&& forall|k: int|
                    0 <= k < GLYPH_COUNT ==> raster_matches(#[trigger] gs[k], bitmaps@[k]) && gs[k].wf()
                &&& is_packing(&a, gs, a.line_height)
                &&& a.line_height == height->0
            },
        r matches Err(AtlasError::BadGlyph(c)) ==> exists|k: int|
            {
                &&& 0 <= k < GLYPH_COUNT
                &&& c == FIRST_CODE + k
                &&& !bitmap_ok(#[trigger] bitmaps@[k])
                &&& forall|j: int| 0 <= j < k ==> bitmap_ok(#[trigger] bitmaps@[j])
            },
        !all_ok(bitmaps@) ==> r matches Err(AtlasError::BadGlyph(_)),
        all_ok(bitmaps@) && height is None ==> r matches Err(AtlasError::NoSizeMetrics),
        all_ok(bitmaps@) && height is Some && !height_ok(height) ==> r matches Err(
            AtlasError::BadLineHeight,
        ),
        all_ok(bitmaps@) && height_ok(height) && !bitmaps_fit(bitmaps@) ==> r matches Err(
            AtlasError::TooLarge,
        ),
{
    let ghost bs = bitmaps@;
    let mut rest = bitmaps;
    let mut glyphs: Vec<RasterGlyph> = Vec::new();
    let mut k: usize = 0;
    while k < GLYPH_COUNT
        invariant
            bs == bitmaps@,
            bs.len() == GLYPH_COUNT,
            k <= GLYPH_COUNT,
            rest@ == bs.subrange(k as int, GLYPH_COUNT as int),
            glyphs.len() == k,
            forall|j: int| 0 <= j < k ==> bitmap_ok(#[trigger] bs[j]),
            forall|j: int|
                0 <= j < k ==> raster_matches(#[trigger] glyphs@[j], bs[j]) && glyphs@[j].wf(),
        decreases GLYPH_COUNT - k,
    {
        assert(rest@[0] == bs[k as int]);
        let b = rest.remove(0);
        let ghost bk = b;
        match raster_glyph_from(b) {
            Some(g) => {
                glyphs.push(g);
            },
            None => {
                assert(!bitmap_ok(bk));
                assert(!bitmap_ok(bs[k as int]));
                assert(!all_ok(bs));
                return Err(AtlasError::BadGlyph(FIRST_CODE + k as u32));
            },
        }
        assert(rest@ =~= bs.subrange(k + 1, GLYPH_COUNT as int));
        k = k + 1;
    }
    assert(all_ok(bs));
    let h = match height {
        Some(h) => h,
        None => {
            return Err(AtlasError::NoSizeMetrics);
        },
    };
    if h <= 0 || h > i32::MAX as i64 {
        return Err(AtlasError::BadLineHeight);
    }
    proof {
        lemma_matching_sizes(glyphs@, bs);
    }
    if !atlas_fits(&glyphs) {
        return Err(AtlasError::TooLarge);
    }
    let a = pack_atlas(&glyphs, h as u32);
    assert(forall|j: int|
        0 <= j < GLYPH_COUNT ==> raster_matches(#[trigger] glyphs@[j], bs[j]) && glyphs@[j].wf());
    Ok(a)
}

/// Renders every character of the supported range with `face`, in ascending
/// code order, and builds the atlas from them. A glyph that FreeType cannot
/// load or render fails the whole build; no atlas is made from part of the
/// range. An atlas that comes back is the packing of all the rendered glyphs.
pub fn load_font_atlas(face: &freetype::Face) -> (r: Result<FontAtlas, AtlasError>)
    ensures
        r matches Ok(a) ==> exists|gs: Seq<RasterGlyph>|
            {
                &&& gs.len() == GLYPH_COUNT
                &&& forall|k: int| 0 <= k < GLYPH_COUNT ==> (#[trigger] gs[k]).wf()
                &&& is_packing(&a, gs, a.line_height)
            },
{
    let codes = glyph_codes();
    let mut bitmaps: Vec<GlyphBitmap> = Vec::new();
    let mut k: usize = 0;
    while k < codes.len()
        invariant
            codes.len() == GLYPH_COUNT,
            k <= codes.len(),
            bitmaps.len() == k,
        decreases codes.len() - k,
    {
        let code = codes[k];
        match load_char(face, code) {
            Ok(()) => {},
            Err(e) => {
                return Err(AtlasError::FreeType(e));
            },
        }
        match render_lcd(face) {
            Ok(()) => {},
            Err(e) => {
                return Err(AtlasError::FreeType(e));
            },
        }
        let shape = glyph_shape(face);
        let bytes = glyph_bytes(face);
        bitmaps.push(glyph_bitmap_from(shape, bytes));
        k = k + 1;
    }
    let ghost bm = bitmaps@;
    let r = atlas_from_glyphs(bitmaps, size_height(face));
    proof {
        if r is Ok {
            let a = r->Ok_0;
            let gs = choose|gs: Seq<RasterGlyph>|
                {
                    &&& gs.len() == GLYPH_COUNT
                    &&& forall|k: int|
                        0 <= k < GLYPH_COUNT ==> raster_matches(#[trigger] gs[k], bm[k]) && gs[k].wf()
                    &&& is_packing(&a, gs, a.line_height)
                };
            assert(forall|k: int| 0 <= k < GLYPH_COUNT ==> (#[trigger] gs[k]).wf());
        }
    }
    r
}

} // verus!
