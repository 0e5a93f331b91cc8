use vstd::prelude::*;

use crate::text::{blank_glyph, FontAtlas, GlyphInfo, END_CODE, FIRST_CODE};

verus! {

/// Horizontal gutter after each glyph, in texels.
pub const GUTTER: u32 = 2;

/// Vertical padding of the glyph row, in texels: the atlas is the tallest
/// glyph plus twice this high. Glyphs are copied top-aligned from row 0, so
/// all spare rows lie below them.
pub const MARGIN: u32 = 1;

/// Number of characters in the supported printable range.
pub const GLYPH_COUNT: usize = 95;

/// Largest glyph side, in texels, whose fixed-point size (64 units per texel)
/// fits in 32 bits.
pub const MAX_GLYPH_PIXELS: u32 = 0x1ff_ffff;

/// One rasterized glyph: an LCD bitmap (three subpixel bytes per texel, rows
/// `pitch` bytes apart) and its metrics in fixed-point units.
pub struct RasterGlyph {
    pub width: u32,
    pub rows: u32,
    pub pitch: u32,
    pub buffer: Vec<u8>,
    pub advance: i32,
    pub bearing_x: i32,
    pub bearing_y: i32,
}

impl RasterGlyph {
    /// Width in texels.
    pub open spec fn texels(self) -> nat {
        (self.width / 3) as nat
    }

    pub open spec fn wf(self) -> bool {
        &&& self.width <= self.pitch
        &&& self.rows * self.pitch <= self.buffer.len()
        &&& self.width / 3 <= MAX_GLYPH_PIXELS
        &&& self.rows <= MAX_GLYPH_PIXELS
    }

    /// Whether the glyph has ink to copy.
    pub open spec fn has_ink(self) -> bool {
        self.texels() != 0 && self.rows != 0
    }
}

/// Atlas width taken by `gs`: each glyph's width plus the gutter.
pub open spec fn packed_width(gs: Seq<RasterGlyph>) -> nat
    decreases gs.len(),
{
    if gs.len() == 0 {
        0
    } else {
        (packed_width(gs.drop_last()) + gs.last().texels() + GUTTER) as nat
    }
}

/// The tallest glyph of `gs`, in texels.
pub open spec fn max_rows(gs: Seq<RasterGlyph>) -> nat
    decreases gs.len(),
{
    if gs.len() == 0 {
        0
    } else {
        let m = max_rows(gs.drop_last());
        if gs.last().rows > m {
            gs.last().rows as nat
        } else {
            m
        }
    }
}

/// The metrics recorded for glyph `g` placed at column `x` of the atlas; a
/// glyph without ink gets a zero size.
pub open spec fn glyph_info_for(g: RasterGlyph, x: int) -> GlyphInfo {
    GlyphInfo {
        advance: g.advance,
        bearing: (g.bearing_x, g.bearing_y),
        size: if g.has_ink() {
            ((g.texels() * 64) as i32, (g.rows * 64) as i32)
        } else {
            (0i32, 0i32)
        },
        texture_coord: (x as i32, 0),
    }
}

/// Byte offset of texel `(x, y)` in an RGBA image `w` texels wide.
pub open spec fn texel_index(w: int, x: int, y: int) -> int {
    (y * w + x) * 4
}

/// Whether texel `(x, y)` of `img` holds the bitmap texel of `g` placed at
/// column `x0`: its three subpixel bytes as red, green and blue, alpha opaque.
pub open spec fn texel_is(img: Seq<u8>, w: int, x: int, y: int, g: RasterGlyph, x0: int) -> bool {
    let i = texel_index(w, x, y);
    let s = y * g.pitch + 3 * (x - x0);
    &&& img[i] == g.buffer@[s]
    &&& img[i + 1] == g.buffer@[s + 1]
    &&& img[i + 2] == g.buffer@[s + 2]
    &&& img[i + 3] == 255
}

/// Whether texel `(x, y)` is the same in `a` and `b`.
pub open spec fn texel_same(a: Seq<u8>, b: Seq<u8>, w: int, x: int, y: int) -> bool {
    let i = texel_index(w, x, y);
    &&& a[i] == b[i]
    &&& a[i + 1] == b[i + 1]
    &&& a[i + 2] == b[i + 2]
    &&& a[i + 3] == b[i + 3]
}

/// Whether the whole bitmap of `g` stands in `img` at column `x0`.
#[verifier::opaque]
pub open spec fn glyph_copied(img: Seq<u8>, w: int, x0: int, g: RasterGlyph) -> bool {
    forall|x: int, y: int|
        x0 <= x < x0 + g.texels() && 0 <= y < g.rows ==> #[trigger] texel_is(img, w, x, y, g, x0)
}

/// Whether `a` and `b` agree on every texel of a `w` by `h` image outside the
/// box of columns `[x0, x0 + bw)` and rows `[0, bh)`.
#[verifier::opaque]
pub open spec fn same_outside(a: Seq<u8>, b: Seq<u8>, w: int, h: int, x0: int, bw: int, bh: int) -> bool {
    forall|x: int, y: int|
        0 <= x < w && 0 <= y < h && !(x0 <= x < x0 + bw && y < bh) ==> #[trigger] texel_same(
            a,
            b,
            w,
            x,
            y,
        )
}

/// Writing the four bytes of one texel leaves every other texel alone.
proof fn lemma_write_texel(old_img: Seq<u8>, new_img: Seq<u8>, w: int, h: int, x: int, y: int)
    requires
        0 <= x < w,
        0 <= y < h,
        old_img.len() == new_img.len(),
        old_img.len() == w * h * 4,
        forall|i: int|
            0 <= i < old_img.len() && !(texel_index(w, x, y) <= i < texel_index(w, x, y) + 4)
                ==> old_img[i] == new_img[i],
    ensures
        forall|x2: int, y2: int|
            0 <= x2 < w && 0 <= y2 < h && (x2 != x || y2 != y) ==> #[trigger] texel_same(
                new_img,
                old_img,
                w,
                x2,
                y2,
            ),
{
    assert forall|x2: int, y2: int|
        0 <= x2 < w && 0 <= y2 < h && (x2 != x || y2 != y) implies #[trigger] texel_same(
        new_img,
        old_img,
        w,
        x2,
        y2,
    ) by {
        lemma_texel_disjoint(w, x, y, x2, y2);
        lemma_target_index(y2, x2, w, h);
        lemma_target_index(y, x, w, h);
        let i2 = texel_index(w, x2, y2);
        assert(old_img[i2] == new_img[i2]);
        assert(old_img[i2 + 1] == new_img[i2 + 1]);
        assert(old_img[i2 + 2] == new_img[i2 + 2]);
        assert(old_img[i2 + 3] == new_img[i2 + 3]);
    }
}

/// A glyph already in place stays in place when a later write touches only
/// texels right of it.
proof fn lemma_keep_copied(
    before: Seq<u8>,
    after: Seq<u8>,
    w: int,
    h: int,
    x0: int,
    g: RasterGlyph,
    bx: int,
    bw: int,
    bh: int,
)
    requires
        glyph_copied(before, w, x0, g),
        same_outside(after, before, w, h, bx, bw, bh),
        0 <= x0,
        x0 + g.texels() <= bx,
        bx <= w,
        g.rows <= h,
    ensures
        glyph_copied(after, w, x0, g),
{
    reveal(glyph_copied);
    reveal(same_outside);
    assert forall|x: int, y: int|
        x0 <= x < x0 + g.texels() && 0 <= y < g.rows implies #[trigger] texel_is(after, w, x, y, g, x0) by {
        assert(texel_is(before, w, x, y, g, x0));
        assert(texel_same(after, before, w, x, y));
    }
}

/// Copies the bitmap of `g` into `img`, an RGBA image `width` by `height`
/// texels, at column `x0` of the top row band.
pub fn copy_glyph(img: &mut Vec<u8>, width: u32, height: u32, x0: u32, g: &RasterGlyph)
    requires
        g.wf(),
        old(img).len() == width * height * 4,
        x0 + g.texels() <= width,
        g.rows <= height,
    ensures
        final(img).len() == old(img).len(),
        glyph_copied(final(img)@, width as int, x0 as int, *g),
        same_outside(final(img)@, old(img)@, width as int, height as int, x0 as int, g.texels() as int, g.rows as int),
{
    let ghost init = img@;
    let ghost w = width as int;
    let ghost h = height as int;
    let gw = g.width / 3;
    let gh = g.rows;
    let mut y: u32 = 0;
    while y < gh
        invariant
            y <= gh,
            gh == g.rows,
            gw == g.width / 3,
            g.wf(),
            img.len() == width * height * 4,
            x0 + gw <= width,
            gh <= height,
            w == width,
            h == height,
            init.len() == img.len(),
            forall|x: int, yy: int|
                x0 <= x < x0 + gw && 0 <= yy < y ==> #[trigger] texel_is(img@, w, x, yy, *g, x0 as int),
            forall|x: int, yy: int|
                0 <= x < w && 0 <= yy < h && !(x0 <= x < x0 + gw && yy < y) ==> #[trigger] texel_same(
                    img@,
                    init,
                    w,
                    x,
                    yy,
                ),
        decreases gh - y,
    {
        let mut x: u32 = 0;
        while x < gw
            invariant
                x <= gw,
                y < gh,
                gh == g.rows,
                gw == g.width / 3,
                g.wf(),
                img.len() == width * height * 4,
                x0 + gw <= width,
                gh <= height,
                w == width,
                h == height,
                init.len() == img.len(),
                forall|xx: int, yy: int|
                    x0 <= xx < x0 + gw && 0 <= yy < y ==> #[trigger] texel_is(img@, w, xx, yy, *g, x0 as int),
                forall|xx: int| x0 <= xx < x0 + x ==> #[trigger] texel_is(img@, w, xx, y as int, *g, x0 as int),
                forall|xx: int, yy: int|
                    0 <= xx < w && 0 <= yy < h && !(x0 <= xx < x0 + gw && yy < y) && !(x0 <= xx < x0
                        + x && yy == y) ==> #[trigger] texel_same(img@, init, w, xx, yy),
            decreases gw - x,
        {
            proof {
                lemma_source_index(y as int, x as int, g.pitch as int, g.width as int, gh as int);
                lemma_target_index(y as int, (x0 + x) as int, width as int, height as int);
            }
            let ghost before = img@;
            let start = y as usize * g.pitch as usize;
            let xi = start + 3 * x as usize;
            let dst = ((y as usize * width as usize) + x0 as usize + x as usize) * 4;
            img.set(dst, g.buffer[xi]);
            img.set(dst + 1, g.buffer[xi + 1]);
            img.set(dst + 2, g.buffer[xi + 2]);
            img.set(dst + 3, 255);
            proof {
                let tx = (x0 + x) as int;
                assert(dst == texel_index(w, tx, y as int));
                lemma_write_texel(before, img@, w, h, tx, y as int);
                assert(texel_is(img@, w, tx, y as int, *g, x0 as int));
                assert forall|xx: int, yy: int|
                    x0 <= xx < x0 + gw && 0 <= yy < y implies #[trigger] texel_is(img@, w, xx, yy, *g, x0 as int) by {
                    assert(texel_is(before, w, xx, yy, *g, x0 as int));
                    assert(texel_same(img@, before, w, xx, yy));
                }
                assert forall|xx: int| x0 <= xx < x0 + x + 1 implies #[trigger] texel_is(img@, w, xx, y as int, *g, x0 as int) by {
                    if xx < tx {
                        assert(texel_is(before, w, xx, y as int, *g, x0 as int));
                        assert(texel_same(img@, before, w, xx, y as int));
                    }
                }
                assert forall|xx: int, yy: int|
                    0 <= xx < w && 0 <= yy < h && !(x0 <= xx < x0 + gw && yy < y) && !(x0 <= xx < x0
                        + x + 1 && yy == y) implies #[trigger] texel_same(img@, init, w, xx, yy) by {
                    assert(texel_same(before, init, w, xx, yy));
                    assert(texel_same(img@, before, w, xx, yy));
                }
            }
            x = x + 1;
        }
        y = y + 1;
    }
    proof {
        reveal(glyph_copied);
        reveal(same_outside);
    }
}

proof fn lemma_packed_width_grows(gs: Seq<RasterGlyph>, k: int)
    requires
        0 <= k < gs.len(),
    ensures
        packed_width(gs.take(k)) + gs[k].texels() + GUTTER <= packed_width(gs),
    decreases gs.len(),
{
    if k < gs.len() - 1 {
        let p = gs.drop_last();
        lemma_packed_width_grows(p, k);
        assert(p.take(k) =~= gs.take(k));
    } else {
        assert(gs.drop_last() =~= gs.take(k));
    }
}

proof fn lemma_prefix_grows(gs: Seq<RasterGlyph>, j: int, k: int)
    requires
        0 <= j < k <= gs.len(),
    ensures
        packed_width(gs.take(j)) + gs[j].texels() + GUTTER <= packed_width(gs.take(k)),
{
    let p = gs.take(k);
    lemma_packed_width_grows(p, j);
    assert(p.take(j) =~= gs.take(j));
    assert(p[j] == gs[j]);
}

proof fn lemma_max_rows(gs: Seq<RasterGlyph>, k: int)
    requires
        0 <= k < gs.len(),
    ensures
        gs[k].rows <= max_rows(gs),
    decreases gs.len(),
{
    if k < gs.len() - 1 {
        lemma_max_rows(gs.drop_last(), k);
    }
}

proof fn lemma_bounds(gs: Seq<RasterGlyph>)
    requires
        forall|i: int| 0 <= i < gs.len() ==> (#[trigger] gs[i]).wf(),
    ensures
        packed_width(gs) <= gs.len() * (MAX_GLYPH_PIXELS + GUTTER),
        packed_width(gs) >= gs.len() * GUTTER,
        max_rows(gs) <= MAX_GLYPH_PIXELS,
    decreases gs.len(),
{
    if gs.len() > 0 {
        let p = gs.drop_last();
        assert forall|i: int| 0 <= i < p.len() implies (#[trigger] p[i]).wf() by {
            assert(p[i] == gs[i]);
        }
        lemma_bounds(p);
        assert(gs.last().wf());
    }
}

/// Two texels of one row-major image share no byte.
proof fn lemma_texel_disjoint(w: int, x: int, y: int, x2: int, y2: int)
    requires
        0 <= x < w,
        0 <= x2 < w,
        0 <= y,
        0 <= y2,
        x != x2 || y != y2,
    ensures
        texel_index(w, x, y) + 4 <= texel_index(w, x2, y2) || texel_index(w, x2, y2) + 4
            <= texel_index(w, x, y),
{
    if y == y2 {
    } else if y < y2 {
        assert(y * w + x < y2 * w + x2) by (nonlinear_arith)
            requires
                y < y2,
                0 <= x < w,
                0 <= x2,
        ;
    } else {
        assert(y2 * w + x2 < y * w + x) by (nonlinear_arith)
            requires
                y2 < y,
                0 <= x2 < w,
                0 <= x,
        ;
    }
}

proof fn lemma_source_index(y: int, x: int, pitch: int, width: int, rows: int)
    requires
        0 <= y < rows,
        0 <= x < width / 3,
        width <= pitch,
    ensures
        0 <= y * pitch,
        y * pitch + 3 * x + 2 < rows * pitch,
        y * pitch <= rows * pitch,
{
    assert(y * pitch + pitch <= rows * pitch) by (nonlinear_arith)
        requires
            y < rows,
            0 <= pitch,
    ;
    assert(0 <= y * pitch) by (nonlinear_arith)
        requires
            0 <= y,
            0 <= pitch,
    ;
}

proof fn lemma_target_index(y: int, x: int, w: int, h: int)
    requires
        0 <= y < h,
        0 <= x < w,
    ensures
        0 <= y * w,
        texel_index(w, x, y) + 4 <= w * h * 4,
{
    assert(y * w + x + 1 <= w * h) by (nonlinear_arith)
        requires
            y < h,
            0 <= x < w,
    ;
    assert(0 <= y * w) by (nonlinear_arith)
        requires
            0 <= y,
            0 <= w,
    ;
}

/// Whether the glyphs before `k` all stand in `img` at their columns.
#[verifier::opaque]
pub open spec fn all_copied(img: Seq<u8>, w: int, gs: Seq<RasterGlyph>, k: int) -> bool {
    forall|j: int|
        0 <= j < k ==> glyph_copied(img, w, packed_width(gs.take(j)) as int, #[trigger] gs[j])
}

/// Copying glyph `k` keeps the glyphs before it, and adds glyph `k`.
proof fn lemma_keep_all(before: Seq<u8>, after: Seq<u8>, gs: Seq<RasterGlyph>, k: int, w: int, h: int)
    requires
        0 <= k < gs.len(),
        w == packed_width(gs),
        h >= max_rows(gs),
        same_outside(
            after,
            before,
            w,
            h,
            packed_width(gs.take(k)) as int,
            gs[k].texels() as int,
            gs[k].rows as int,
        ),
        glyph_copied(after, w, packed_width(gs.take(k)) as int, gs[k]),
        all_copied(before, w, gs, k),
    ensures
        all_copied(after, w, gs, k + 1),
{
    reveal(all_copied);
    lemma_packed_width_grows(gs, k);
    assert forall|j: int| 0 <= j < k + 1 implies glyph_copied(
        after,
        w,
        packed_width(gs.take(j)) as int,
        #[trigger] gs[j],
    ) by {
        if j < k {
            lemma_max_rows(gs, j);
            lemma_prefix_grows(gs, j, k);
            lemma_keep_copied(
                before,
                after,
                w,
                h,
                packed_width(gs.take(j)) as int,
                gs[j],
                packed_width(gs.take(k)) as int,
                gs[k].texels() as int,
                gs[k].rows as int,
            );
        }
    }
}

/// Whether `advances` holds no glyph below the supported range, and the
/// metrics of the first `k` glyphs under their codes.
#[verifier::opaque]
pub open spec fn recorded(advances: Seq<GlyphInfo>, gs: Seq<RasterGlyph>, k: int) -> bool {
    &&& advances.len() == END_CODE
    &&& forall|c: int| 0 <= c < FIRST_CODE ==> #[trigger] advances[c] == blank_glyph()
    &&& forall|j: int|
        0 <= j < k ==> advances[FIRST_CODE + j] == glyph_info_for(
            #[trigger] gs[j],
            packed_width(gs.take(j)) as int,
        )
}

proof fn lemma_record(before: Seq<GlyphInfo>, after: Seq<GlyphInfo>, gs: Seq<RasterGlyph>, k: int)
    requires
        0 <= k < GLYPH_COUNT,
        recorded(before, gs, k),
        after == before.update(FIRST_CODE + k, glyph_info_for(gs[k], packed_width(gs.take(k)) as int)),
    ensures
        recorded(after, gs, k + 1),
{
    reveal(recorded);
    assert forall|j: int| 0 <= j < k + 1 implies after[FIRST_CODE + j] == glyph_info_for(
        #[trigger] gs[j],
        packed_width(gs.take(j)) as int,
    ) by {
        if j < k {
            assert(after[FIRST_CODE + j] == before[FIRST_CODE + j]);
        }
    }
}

proof fn lemma_info_wf(g: RasterGlyph, x: int)
    requires
        g.wf(),
        0 <= x,
        x + g.texels() <= i32::MAX,
    ensures
        glyph_info_for(g, x).wf(),
{
}

/// The metrics recorded by the packer are in range.
proof fn lemma_table_wf(gs: Seq<RasterGlyph>, advances: Seq<GlyphInfo>, w: int)
    requires
        gs.len() == GLYPH_COUNT,
        forall|j: int| 0 <= j < gs.len() ==> (#[trigger] gs[j]).wf(),
        w == packed_width(gs),
        w <= i32::MAX,
        advances.len() == END_CODE,
        recorded(advances, gs, GLYPH_COUNT as int),
    ensures
        forall|c: int| 0 <= c < END_CODE ==> (#[trigger] advances[c]).wf(),
        w > 0,
{
    reveal(recorded);
    lemma_bounds(gs);
    assert forall|c: int| 0 <= c < END_CODE implies (#[trigger] advances[c]).wf() by {
        if c >= FIRST_CODE {
            let j = c - FIRST_CODE;
            lemma_packed_width_grows(gs, j);
            assert(gs[j].wf());
            assert(advances[FIRST_CODE + j] == glyph_info_for(gs[j], packed_width(gs.take(j)) as int));
            lemma_info_wf(gs[j], packed_width(gs.take(j)) as int);
        }
    }
}

/// The metrics of glyph `g` placed at column `x`.
fn glyph_info(g: &RasterGlyph, x: u32) -> (r: GlyphInfo)
    requires
        g.wf(),
        x + g.texels() <= i32::MAX,
    ensures
        r == glyph_info_for(*g, x as int),
{
    let size = if g.width / 3 != 0 && g.rows != 0 {
        ((g.width / 3) as i32 * 64, g.rows as i32 * 64)
    } else {
        (0, 0)
    };
    GlyphInfo {
        advance: g.advance,
        bearing: (g.bearing_x, g.bearing_y),
        size,
        texture_coord: (x as i32, 0),
    }
}

/// Whether texel `(x, y)` lies in the box of one of the glyphs `gs`, packed
/// left to right from column 0 and top-aligned.
pub open spec fn covered(gs: Seq<RasterGlyph>, x: int, y: int) -> bool
    decreases gs.len(),
{
    if gs.len() == 0 {
        false
    } else {
        let p = gs.drop_last();
        let x0 = packed_width(p) as int;
        covered(p, x, y) || (x0 <= x < x0 + gs.last().texels() && 0 <= y < gs.last().rows)
    }
}

/// Whether all four bytes of texel `(x, y)` are zero.
pub open spec fn texel_blank(img: Seq<u8>, w: int, x: int, y: int) -> bool {
    let i = texel_index(w, x, y);
    &&& img[i] == 0
    &&& img[i + 1] == 0
    &&& img[i + 2] == 0
    &&& img[i + 3] == 0
}

/// Whether every texel of a `w` by `h` image outside the boxes of `gs` is zero.
#[verifier::opaque]
pub open spec fn blank_outside(img: Seq<u8>, w: int, h: int, gs: Seq<RasterGlyph>) -> bool {
    forall|x: int, y: int|
        0 <= x < w && 0 <= y < h && !covered(gs, x, y) ==> #[trigger] texel_blank(img, w, x, y)
}

proof fn lemma_blank_start(img: Seq<u8>, w: int, h: int, gs: Seq<RasterGlyph>)
    requires
        0 <= w,
        0 <= h,
        img == Seq::new((w * h * 4) as nat, |i: int| 0u8),
    ensures
        blank_outside(img, w, h, gs.take(0)),
{
    reveal(blank_outside);
    assert forall|x: int, y: int|
        0 <= x < w && 0 <= y < h && !covered(gs.take(0), x, y) implies #[trigger] texel_blank(
        img,
        w,
        x,
        y,
    ) by {
        lemma_target_index(y, x, w, h);
    }
}

proof fn lemma_blank_step(before: Seq<u8>, after: Seq<u8>, w: int, h: int, gs: Seq<RasterGlyph>, k: int)
    requires
        0 <= k < gs.len(),
        blank_outside(before, w, h, gs.take(k)),
        same_outside(
            after,
            before,
            w,
            h,
            packed_width(gs.take(k)) as int,
            gs[k].texels() as int,
            gs[k].rows as int,
        ),
    ensures
        blank_outside(after, w, h, gs.take(k + 1)),
{
    reveal(blank_outside);
    reveal(same_outside);
    let t = gs.take(k + 1);
    assert(t.drop_last() =~= gs.take(k));
    assert(t.last() == gs[k]);
    assert forall|x: int, y: int|
        0 <= x < w && 0 <= y < h && !covered(t, x, y) implies #[trigger] texel_blank(after, w, x, y) by {
        assert(!covered(gs.take(k), x, y));
        assert(texel_blank(before, w, x, y));
        assert(texel_same(after, before, w, x, y));
    }
}

/// Whether `a` is the packing of the glyphs `gs` with line height `lh`: its
/// size, the metrics of each glyph under its code, each glyph's bitmap at its
/// column, and zero everywhere else.
pub open spec fn is_packing(a: &FontAtlas, gs: Seq<RasterGlyph>, lh: u32) -> bool {
    &&& gs.len() == GLYPH_COUNT
    &&& a.wf()
    &&& a.width == packed_width(gs)
    &&& a.height == max_rows(gs) + 2 * MARGIN
    &&& a.line_height == lh
    &&& a.img.len() == a.width * a.height * 4
    &&& forall|k: int|
        0 <= k < GLYPH_COUNT ==> a.advances@[FIRST_CODE + k] == glyph_info_for(
            #[trigger] gs[k],
            packed_width(gs.take(k)) as int,
        )
    &&& forall|c: int| 0 <= c < FIRST_CODE ==> #[trigger] a.advances@[c] == blank_glyph()
    &&& forall|k: int|
        0 <= k < GLYPH_COUNT ==> glyph_copied(
            a.img@,
            a.width as int,
            packed_width(gs.take(k)) as int,
            #[trigger] gs[k],
        )
    &&& blank_outside(a.img@, a.width as int, a.height as int, gs)
}

proof fn lemma_finish_packing(a: &FontAtlas, gs: Seq<RasterGlyph>)
    requires
        gs.len() == GLYPH_COUNT,
        forall|j: int| 0 <= j < gs.len() ==> (#[trigger] gs[j]).wf(),
        a.width == packed_width(gs),
        a.width <= i32::MAX,
        a.height == max_rows(gs) + 2 * MARGIN,
        0 < a.line_height <= i32::MAX,
        a.img.len() == a.width * a.height * 4,
        a.advances.len() == END_CODE,
        recorded(a.advances@, gs, GLYPH_COUNT as int),
        all_copied(a.img@, a.width as int, gs, GLYPH_COUNT as int),
        blank_outside(a.img@, a.width as int, a.height as int, gs.take(GLYPH_COUNT as int)),
    ensures
        is_packing(a, gs, a.line_height),
{
    lemma_table_wf(gs, a.advances@, a.width as int);
    reveal(all_copied);
    reveal(recorded);
    assert(gs.take(GLYPH_COUNT as int) =~= gs);
}

/// Whether the atlas of `gs` stays addressable: its width fits in 32 bits
/// and its RGBA bytes in memory.
pub open spec fn fits_atlas(gs: Seq<RasterGlyph>) -> bool {
    &&& packed_width(gs) <= i32::MAX
    &&& packed_width(gs) * (max_rows(gs) + 2 * MARGIN) * 4 <= usize::MAX
}

/// Whether the atlas of `glyphs` stays addressable.
pub fn atlas_fits(glyphs: &Vec<RasterGlyph>) -> (r: bool)
    requires
        glyphs.len() == GLYPH_COUNT,
        forall|i: int| 0 <= i < glyphs.len() ==> (#[trigger] glyphs@[i]).wf(),
    ensures
        r == fits_atlas(glyphs@),
{
    let (width, max_height) = measure_glyphs(glyphs);
    let height = max_height as u64 + 2 * MARGIN as u64;
    assert(width * height * 4 <= 95 * 0x200_0001 * 0x200_0001 * 4) by (nonlinear_arith)
        requires
            width <= 95 * 0x200_0001,
            height <= 0x200_0001,
    ;
    width <= i32::MAX as u64 && width * height * 4 <= usize::MAX as u64
}

/// Atlas width and tallest glyph of `glyphs`.
fn measure_glyphs(glyphs: &Vec<RasterGlyph>) -> (r: (u64, u32))
    requires
        glyphs.len() == GLYPH_COUNT,
        forall|i: int| 0 <= i < glyphs.len() ==> (#[trigger] glyphs@[i]).wf(),
    ensures
        r.0 == packed_width(glyphs@),
        r.1 == max_rows(glyphs@),
        r.0 <= 95 * 0x200_0001,
        r.1 <= MAX_GLYPH_PIXELS,
{
    let ghost gs = glyphs@;
    let mut width: u64 = 0;
    let mut max_height: u32 = 0;
    let mut i: usize = 0;
    while i < glyphs.len()
        invariant
            gs == glyphs@,
            i <= gs.len() == GLYPH_COUNT,
            forall|j: int| 0 <= j < gs.len() ==> (#[trigger] gs[j]).wf(),
            width == packed_width(gs.take(i as int)),
            max_height == max_rows(gs.take(i as int)),
            width <= i * 0x200_0001,
            max_height <= MAX_GLYPH_PIXELS,
        decreases gs.len() - i,
    {
        let g = &glyphs[i];
        assert(gs.take(i + 1).drop_last() =~= gs.take(i as int));
        assert(g.wf());
        width = width + (g.width / 3) as u64 + GUTTER as u64;
        if g.rows > max_height {
            max_height = g.rows;
        }
        i = i + 1;
    }
    assert(gs.take(gs.len() as int) =~= gs);
    (width, max_height)
}

/// `n` zero bytes.
fn zeroed(n: usize) -> (r: Vec<u8>)
    ensures
        r@ == Seq::new(n as nat, |i: int| 0u8),
{
    let mut img: Vec<u8> = Vec::new();
    while img.len() < n
        invariant
            img.len() <= n,
            forall|i: int| 0 <= i < img.len() ==> #[trigger] img@[i] == 0,
        decreases n - img.len(),
    {
        img.push(0);
    }
    assert(img@ =~= Seq::new(n as nat, |i: int| 0u8));
    img
}

/// A metrics table in which no character has a glyph yet.
fn blank_table() -> (r: Vec<GlyphInfo>)
    ensures
        r.len() == END_CODE,
        forall|c: int| 0 <= c < END_CODE ==> #[trigger] r@[c] == blank_glyph(),
{
    let mut advances: Vec<GlyphInfo> = Vec::new();
    while advances.len() < END_CODE as usize
        invariant
            advances.len() <= END_CODE,
            forall|c: int| 0 <= c < advances.len() ==> #[trigger] advances@[c] == blank_glyph(),
        decreases END_CODE - advances.len(),
    {
        advances.push(GlyphInfo::empty());
    }
    advances
}

#[verifier::rlimit(80)]
/// Packs the glyphs of the supported range, given in ascending code order,
/// into one row of an RGBA atlas: each glyph at the next free column,
/// followed by the gutter, with a margin below the tallest glyph. Each
/// glyph's bitmap is copied in and its metrics recorded under its code.
pub fn pack_atlas(glyphs: &Vec<RasterGlyph>, line_height: u32) -> (r: FontAtlas)
    requires
        glyphs.len() == GLYPH_COUNT,
        forall|i: int| 0 <= i < glyphs.len() ==> (#[trigger] glyphs@[i]).wf(),
        fits_atlas(glyphs@),
        0 < line_height <= i32::MAX,
    ensures
        is_packing(&r, glyphs@, line_height),
{
    let ghost gs = glyphs@;
    let (wide, max_height) = measure_glyphs(glyphs);
    let width = wide as u32;
    let height = max_height + 2 * MARGIN;
    let mut img = zeroed(width as usize * height as usize * 4);
    proof {
        lemma_blank_start(img@, width as int, height as int, gs);
    }
    let mut advances = blank_table();
    let mut next_x: u32 = 0;
    let mut k: usize = 0;
    proof {
        reveal(all_copied);
        reveal(recorded);
    }
    while k < glyphs.len()
        invariant
            gs == glyphs@,
            k <= gs.len() == GLYPH_COUNT,
            forall|j: int| 0 <= j < gs.len() ==> (#[trigger] gs[j]).wf(),
            width == packed_width(gs),
            height == max_rows(gs) + 2 * MARGIN,
            max_rows(gs) <= MAX_GLYPH_PIXELS,
            width <= i32::MAX,
            img.len() == width * height * 4,
            next_x == packed_width(gs.take(k as int)),
            advances.len() == END_CODE,
            recorded(advances@, gs, k as int),
            all_copied(img@, width as int, gs, k as int),
            blank_outside(img@, width as int, height as int, gs.take(k as int)),
        decreases gs.len() - k,
    {
        let g = &glyphs[k];
        let gw = g.width / 3;
        let gh = g.rows;
        proof {
            lemma_packed_width_grows(gs, k as int);
            lemma_max_rows(gs, k as int);
        }
        let ghost before = img@;
        copy_glyph(&mut img, width, height, next_x, g);
        proof {
            lemma_keep_all(before, img@, gs, k as int, width as int, height as int);
            lemma_blank_step(before, img@, width as int, height as int, gs, k as int);
        }
        let info = glyph_info(g, next_x);
        let ghost adv_before = advances@;
        advances.set(FIRST_CODE as usize + k, info);
        proof {
            lemma_record(adv_before, advances@, gs, k as int);
        }
        assert(gs.take(k + 1).drop_last() =~= gs.take(k as int));
        next_x = next_x + gw + GUTTER;
        k = k + 1;
    }
    let r = FontAtlas { width, height, img, advances, line_height };
    proof {
        lemma_finish_packing(&r, gs);
    }
    r
}

} // verus!
