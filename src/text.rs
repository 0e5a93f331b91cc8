use vstd::arithmetic::div_mod::{lemma_fundamental_div_mod, lemma_fundamental_div_mod_converse};
use vstd::prelude::*;

use crate::geometry::{lemma_push_all, lemma_push_all_concat, FontDrawRects, FontTriangleVertex, Frac, Rect};
use crate::rects::{RectanglePoint, HEIGHT, WIDTH};

verus! {

/// First character code of the supported printable range.
pub const FIRST_CODE: u32 = 32;

/// One past the last character code of the supported printable range.
pub const END_CODE: u32 = 127;


/// The extent of a laid-out text: its origin and the pen position after its
/// last character, in fixed-point units.
#[derive(Clone, Copy, Debug)]
pub struct TextInfo {
    pub min: (i32, i32),
    pub max: (i32, i32),
}

/// Placement metrics of one glyph, in fixed-point 1/64 px units but for the
/// texel coordinate of its top-left corner in the atlas.
#[derive(Clone, Copy, Debug)]
pub struct GlyphInfo {
    pub advance: i32,
    pub bearing: (i32, i32),
    pub size: (i32, i32),
    pub texture_coord: (i32, i32),
}

/// The metrics of a character without a glyph.
pub open spec fn blank_glyph() -> GlyphInfo {
    GlyphInfo { advance: 0, bearing: (0, 0), size: (0, 0), texture_coord: (0, 0) }
}

impl GlyphInfo {
    pub open spec fn wf(self) -> bool {
        &&& 0 <= self.size.0
        &&& 0 <= self.size.1
        &&& self.texture_coord.0 + self.size.0 / 64 <= i32::MAX
        &&& self.texture_coord.1 + self.size.1 / 64 <= i32::MAX
    }

    /// A glyph without ink (a space): it advances the pen but draws nothing.
    pub open spec fn is_blank(self) -> bool {
        self.size.0 == 0 || self.size.1 == 0
    }

    pub fn empty() -> (r: Self)
        ensures
            r == blank_glyph(),
    {
        GlyphInfo { advance: 0, bearing: (0, 0), size: (0, 0), texture_coord: (0, 0) }
    }

    /// The glyph's ink box on screen when the pen stands at `origin`.
    pub fn calculate_rect_pos(&self, origin: (i32, i32)) -> (r: RectanglePoint<i32>)
        requires
            i32::MIN <= origin.0 + self.bearing.0 <= i32::MAX,
            i32::MIN <= origin.0 + self.bearing.0 + self.size.0 <= i32::MAX,
            i32::MIN <= origin.1 + self.bearing.1 <= i32::MAX,
            i32::MIN <= origin.1 + self.bearing.1 - self.size.1 <= i32::MAX,
        ensures
            r.x == origin.0 + self.bearing.0,
            r.y == origin.1 + self.bearing.1,
            r.x1 == origin.0 + self.bearing.0 + self.size.0,
            r.y1 == origin.1 + self.bearing.1 - self.size.1,
    {
        let left_edge = origin.0 + self.bearing.0;
        let top_edge = origin.1 + self.bearing.1;
        let bottom_edge = top_edge - self.size.1;
        let right_edge = left_edge + self.size.0;
        RectanglePoint { x: left_edge, y: top_edge, x1: right_edge, y1: bottom_edge }
    }

    /// The glyph's rectangle in the atlas, in texels.
    pub fn calculate_texture(&self) -> (r: RectanglePoint<i32>)
        requires
            0 <= self.size.0,
            0 <= self.size.1,
            self.texture_coord.0 + self.size.0 / 64 <= i32::MAX,
            self.texture_coord.1 + self.size.1 / 64 <= i32::MAX,
        ensures
            r.x == self.texture_coord.0,
            r.y == self.texture_coord.1,
            r.x1 == self.texture_coord.0 + self.size.0 / 64,
            r.y1 == self.texture_coord.1 + self.size.1 / 64,
    {
        RectanglePoint {
            x: self.texture_coord.0,
            y: self.texture_coord.1,
            x1: self.texture_coord.0 + self.size.0 / 64,
            y1: self.texture_coord.1 + self.size.1 / 64,
        }
    }

    /// The pen position after this glyph.
    pub fn calculate_next_origin(&self, origin: (i32, i32)) -> (r: (i32, i32))
        requires
            i32::MIN <= origin.0 + self.advance <= i32::MAX,
        ensures
            r.0 == origin.0 + self.advance,
            r.1 == origin.1,
    {
        (origin.0 + self.advance, origin.1)
    }
}

/// Whether `c` lies in the supported printable range.
pub open spec fn is_supported(c: char) -> bool {
    FIRST_CODE <= (c as u32) < END_CODE
}

/// A packed glyph atlas: its RGBA bitmap, dimensions, the metrics of each
/// supported character indexed by its code, and the font's line height.
pub struct FontAtlas {
    pub width: u32,
    pub height: u32,
    pub img: Vec<u8>,
    pub advances: Vec<GlyphInfo>,
    pub line_height: u32,
}

impl FontAtlas {
    pub open spec fn wf(&self) -> bool {
        &&& self.advances.len() == END_CODE
        &&& forall|i: int| 0 <= i < END_CODE ==> (#[trigger] self.advances@[i]).wf()
        &&& 0 < self.width
        &&& 0 < self.height
        &&& 0 < self.line_height <= i32::MAX
    }

    /// The metrics of supported character `c`.
    pub open spec fn glyph(&self, c: char) -> GlyphInfo {
        self.advances@[c as u32 as int]
    }

    /// The font's line height, in fixed-point units.
    pub fn font_height(&self) -> (r: u32)
        ensures
            r == self.line_height,
    {
        self.line_height
    }

    /// Width and height of the atlas bitmap, in texels.
    pub fn size(&self) -> (r: (u32, u32))
        ensures
            r == (self.width, self.height),
    {
        (self.width, self.height)
    }
}

/// A text entity: its string, its top-left pixel origin and its line width in pixels.
pub struct TextObject {
    pub render_str: String,
    pub top_left: (i32, i32),
    pub max_width: u32,
    pub dirty: bool,
}

impl TextObject {
    pub fn new(s: &str, bl: (i32, i32), width: u32) -> (r: Self)
        ensures
            r.render_str@ == s@,
            r.top_left == bl,
            r.max_width == width,
            r.dirty,
    {
        TextObject { render_str: s.to_owned(), top_left: bl, max_width: width, dirty: true }
    }

    /// Replaces the string; the object then needs a new layout.
    pub fn update_str(&mut self, new: String)
        ensures
            final(self).render_str@ == new@,
            final(self).top_left == old(self).top_left,
            final(self).max_width == old(self).max_width,
            final(self).dirty,
    {
        self.render_str = new;
        self.dirty = true;
    }
}

/// The parameters of one layout: origin and line width in fixed-point units.
pub struct LayoutFrame {
    pub ox: int,
    pub oy: int,
    pub max_width: int,
    pub line_height: int,
}

pub open spec fn frame_of(atlas: &FontAtlas, to: &TextObject) -> LayoutFrame {
    LayoutFrame {
        ox: to.top_left.0 * 64,
        oy: to.top_left.1 * 64,
        max_width: to.max_width * 64,
        line_height: atlas.line_height as int,
    }
}

/// Whether the pen must move to a new line before a supported character: it
/// has moved further than the line width from the origin column.
pub open spec fn wraps(f: LayoutFrame, pen: (int, int)) -> bool {
    pen.0 - f.ox > f.max_width
}

/// The pen position at which a supported character is placed.
pub open spec fn placed_at(f: LayoutFrame, pen: (int, int)) -> (int, int) {
    if wraps(f, pen) {
        (f.ox, pen.1 - f.line_height)
    } else {
        pen
    }
}

/// The pen position after `c`: a supported character is placed, wrapping
/// first if the line is full, and advances the pen; a carriage return starts
/// a new line; any other character is skipped.
pub open spec fn step(atlas: &FontAtlas, f: LayoutFrame, pen: (int, int), c: char) -> (int, int) {
    if is_supported(c) {
        let p = placed_at(f, pen);
        (p.0 + atlas.glyph(c).advance, p.1)
    } else if c == '\r' {
        (f.ox, pen.1 - f.line_height)
    } else {
        pen
    }
}

/// The pen position after the characters `cs`; it starts one line below the origin.
pub open spec fn pen_after(atlas: &FontAtlas, f: LayoutFrame, cs: Seq<char>) -> (int, int)
    decreases cs.len(),
{
    if cs.len() == 0 {
        (f.ox, f.oy - f.line_height)
    } else {
        step(atlas, f, pen_after(atlas, f, cs.drop_last()), cs.last())
    }
}

/// Whether `c` gives a quad: a supported character whose glyph has ink.
pub open spec fn emits(atlas: &FontAtlas, c: char) -> bool {
    is_supported(c) && !atlas.glyph(c).is_blank()
}

pub open spec fn font_vertex(px: int, py: int, tx: int, ty: int, atlas: &FontAtlas) -> FontTriangleVertex {
    FontTriangleVertex {
        position: [
            Frac { num: px as i32, den: (WIDTH * 64) as u32 },
            Frac { num: py as i32, den: (HEIGHT * 64) as u32 },
        ],
        tex_coords: [
            Frac { num: tx as i32, den: atlas.width },
            Frac { num: ty as i32, den: atlas.height },
        ],
    }
}

/// The quad of glyph `g` with the pen at `p`: its ink box normalized by the
/// viewport, its atlas rectangle normalized by the atlas size.
pub open spec fn glyph_quad(atlas: &FontAtlas, g: GlyphInfo, p: (int, int)) -> Rect<FontTriangleVertex> {
    let x = p.0 + g.bearing.0;
    let y = p.1 + g.bearing.1;
    let x1 = x + g.size.0;
    let y1 = y - g.size.1;
    let tx = g.texture_coord.0 as int;
    let ty = g.texture_coord.1 as int;
    let tx1 = tx + g.size.0 / 64;
    let ty1 = ty + g.size.1 / 64;
    [
        font_vertex(x, y, tx, ty, atlas),
        font_vertex(x1, y, tx1, ty, atlas),
        font_vertex(x, y1, tx, ty1, atlas),
        font_vertex(x1, y1, tx1, ty1, atlas),
    ]
}

/// The quads of the characters `cs`, in order.
pub open spec fn layout_quads(atlas: &FontAtlas, f: LayoutFrame, cs: Seq<char>) -> Seq<Rect<FontTriangleVertex>>
    decreases cs.len(),
{
    if cs.len() == 0 {
        seq![]
    } else {
        let prev = cs.drop_last();
        let c = cs.last();
        let q = layout_quads(atlas, f, prev);
        if emits(atlas, c) {
            q.push(glyph_quad(atlas, atlas.glyph(c), placed_at(f, pen_after(atlas, f, prev))))
        } else {
            q
        }
    }
}

/// A carriage return always starts a new line at the origin column, wherever
/// the pen stood before it, also when the line is far from full; it draws
/// nothing.
pub proof fn lemma_carriage_return(atlas: &FontAtlas, f: LayoutFrame, cs: Seq<char>)
    ensures
        pen_after(atlas, f, cs.push('\r')).0 == f.ox,
        pen_after(atlas, f, cs.push('\r')).1 == pen_after(atlas, f, cs).1 - f.line_height,
        layout_quads(atlas, f, cs.push('\r')) == layout_quads(atlas, f, cs),
{
    assert(cs.push('\r').drop_last() =~= cs);
    assert(cs.push('\r').last() == '\r');
}

/// A character outside the supported range, other than a carriage return, is
/// skipped: it neither moves the pen, nor starts a line, nor draws.
pub proof fn lemma_skipped_char(atlas: &FontAtlas, f: LayoutFrame, cs: Seq<char>, c: char)
    requires
        !is_supported(c),
        c != '\r',
    ensures
        pen_after(atlas, f, cs.push(c)) == pen_after(atlas, f, cs),
        layout_quads(atlas, f, cs.push(c)) == layout_quads(atlas, f, cs),
{
    assert(cs.push(c).drop_last() =~= cs);
    assert(cs.push(c).last() == c);
}

/// Whether every supported glyph of `atlas` advances the pen by `a`.
pub open spec fn fixed_advance(atlas: &FontAtlas, a: int) -> bool {
    forall|c: char| is_supported(c) ==> #[trigger] atlas.glyph(c).advance == a
}

/// Characters per line under a fixed advance `a`: a character is placed on the
/// current line while the pen has moved no more than the line width.
pub open spec fn per_line(f: LayoutFrame, a: int) -> int {
    f.max_width / a + 1
}

/// Pen position after `n >= 1` supported characters with a fixed advance.
proof fn lemma_fixed_pen(atlas: &FontAtlas, f: LayoutFrame, a: int, cs: Seq<char>, n: int)
    requires
        a > 0,
        f.max_width >= 0,
        fixed_advance(atlas, a),
        forall|i: int| 0 <= i < cs.len() ==> is_supported(#[trigger] cs[i]),
        1 <= n <= cs.len(),
    ensures
        pen_after(atlas, f, cs.take(n)).0 == f.ox + ((n - 1) % per_line(f, a) + 1) * a,
        pen_after(atlas, f, cs.take(n)).1 == f.oy - ((n - 1) / per_line(f, a) + 1)
            * f.line_height,
    decreases n, 0int,
{
    let m = per_line(f, a);
    assert(cs.take(n).drop_last() =~= cs.take(n - 1));
    assert(cs.take(n).last() == cs[n - 1]);
    let c = cs[n - 1];
    assert(atlas.glyph(c).advance == a);
    if n == 1 {
        assert(cs.take(0) =~= Seq::<char>::empty());
        assert(!wraps(f, pen_after(atlas, f, cs.take(0))));
        lemma_fundamental_div_mod_converse(0, m, 0, 0);
    } else {
        lemma_placed_fixed(atlas, f, a, cs, n - 1);
        let r = (n - 1) % m;
        assert(r * a + a == (r + 1) * a) by (nonlinear_arith);
    }
}

/// Where the `i`-th character is placed under a fixed advance: column
/// `i % per_line` of line `i / per_line`.
proof fn lemma_placed_fixed(atlas: &FontAtlas, f: LayoutFrame, a: int, cs: Seq<char>, i: int)
    requires
        a > 0,
        f.max_width >= 0,
        fixed_advance(atlas, a),
        forall|j: int| 0 <= j < cs.len() ==> is_supported(#[trigger] cs[j]),
        0 <= i < cs.len(),
    ensures
        placed_at(f, pen_after(atlas, f, cs.take(i))).0 == f.ox + (i % per_line(f, a))
            * a,
        placed_at(f, pen_after(atlas, f, cs.take(i))).1 == f.oy - (i / per_line(f, a) + 1)
            * f.line_height,
    decreases i, 1int,
{
    let m = per_line(f, a);
    let w = f.max_width;
    let c = cs[i];
    assert(c != '\r');
    if i == 0 {
        assert(cs.take(0) =~= Seq::<char>::empty());
        lemma_fundamental_div_mod_converse(0, m, 0, 0);
        let pen = pen_after(atlas, f, cs.take(0));
        assert(pen == (f.ox, f.oy - f.line_height));
        assert(!wraps(f, pen));
        assert(0int * a == 0);
        assert(placed_at(f, pen).0 == f.ox + (i % m) * a);
    } else {
        lemma_fixed_pen(atlas, f, a, cs, i);
        let q = (i - 1) / m;
        let r = (i - 1) % m;
        lemma_fundamental_div_mod(i - 1, m);
        lemma_fundamental_div_mod(w, a);
        assert(i - 1 == q * m + r) by (nonlinear_arith)
            requires
                i - 1 == m * q + r,
        ;
        assert(w == (w / a) * a + w % a) by (nonlinear_arith)
            requires
                w == a * (w / a) + w % a,
        ;
        assert(0 <= r < m);
        if r + 1 == m {
            assert((w / a + 1) * a > w) by (nonlinear_arith)
                requires
                    w == (w / a) * a + w % a,
                    w % a < a,
            ;
            assert(i == (q + 1) * m + 0) by (nonlinear_arith)
                requires
                    i - 1 == q * m + r,
                    r + 1 == m,
            ;
            lemma_fundamental_div_mod_converse(i, m, q + 1, 0);
            let pen = pen_after(atlas, f, cs.take(i));
            assert(pen.0 - f.ox == m * a);
            assert(wraps(f, pen));
            assert(placed_at(f, pen).0 == f.ox);
            assert(i % m == 0);
            assert(0int * a == 0);
            assert(placed_at(f, pen).0 == f.ox + (i % m) * a);
            assert(pen.1 == f.oy - (q + 1) * f.line_height);
            assert(pen.1 - f.line_height == f.oy - (i / m + 1) * f.line_height) by (nonlinear_arith)
                requires
                    i / m == q + 1,
                    pen.1 == f.oy - (q + 1) * f.line_height,
            ;
        } else {
            assert((r + 1) * a <= w) by (nonlinear_arith)
                requires
                    r + 1 <= w / a,
                    w == (w / a) * a + w % a,
                    0 <= w % a,
                    a > 0,
            ;
            assert(i == q * m + (r + 1)) by (nonlinear_arith)
                requires
                    i - 1 == q * m + r,
            ;
            lemma_fundamental_div_mod_converse(i, m, q, r + 1);
            let pen = pen_after(atlas, f, cs.take(i));
            assert(pen.0 - f.ox == (r + 1) * a);
            assert(!wraps(f, pen));
            assert(placed_at(f, pen).0 == f.ox + (i % m) * a);
            assert(placed_at(f, pen).1 == f.oy - (i / m + 1) * f.line_height);
        }
    }
}

/// With a fixed advance `a > 0` and a string of supported characters, the
/// `i`-th character stands in column `i % per_line` of line `i / per_line`,
/// every line starting at the origin column; `L >= 1` characters take
/// `ceil(L / per_line)` lines, where `per_line` is `max_width / a + 1`.
pub proof fn lemma_fixed_advance_wrap(atlas: &FontAtlas, f: LayoutFrame, a: int, cs: Seq<char>)
    requires
        a > 0,
        f.max_width >= 0,
        fixed_advance(atlas, a),
        forall|i: int| 0 <= i < cs.len() ==> is_supported(#[trigger] cs[i]),
    ensures
        forall|i: int|
            0 <= i < cs.len() ==> (#[trigger] placed_at(f, pen_after(atlas, f, cs.take(i)))).0
                == f.ox + (i % per_line(f, a)) * a,
        forall|i: int|
            0 <= i < cs.len() ==> (#[trigger] placed_at(f, pen_after(atlas, f, cs.take(i)))).1
                == f.oy - (i / per_line(f, a) + 1) * f.line_height,
        forall|i: int|
            0 <= i < cs.len() && i % per_line(f, a) == 0 ==> (#[trigger] placed_at(f, pen_after(atlas, f, cs.take(i)))).0
                == f.ox,
        cs.len() >= 1 ==> pen_after(atlas, f, cs).1 == f.oy - ((cs.len() - 1) / per_line(f, a)
            + 1) * f.line_height,
{
    assert forall|i: int| 0 <= i < cs.len() implies (#[trigger] placed_at(f, pen_after(atlas, f, cs.take(i)))).0
        == f.ox + (i % per_line(f, a)) * a && placed_at(f, pen_after(atlas, f, cs.take(i))).1 == f.oy
        - (i / per_line(f, a) + 1) * f.line_height by {
        lemma_placed_fixed(atlas, f, a, cs, i);
    }
    if cs.len() >= 1 {
        lemma_fixed_pen(atlas, f, a, cs, cs.len() as int);
        assert(cs.take(cs.len() as int) =~= cs);
    }
}

pub open spec fn fits_i32(v: int) -> bool {
    i32::MIN <= v <= i32::MAX
}

pub open spec fn pen_fits(p: (int, int)) -> bool {
    fits_i32(p.0) && fits_i32(p.1)
}

/// Whether placing `c` with the pen at `pen` reaches only coordinates that
/// fit in 32 bits: where it is placed, where the pen goes next, and the
/// edges of its quad.
#[verifier::opaque]
pub open spec fn step_fits(atlas: &FontAtlas, f: LayoutFrame, pen: (int, int), c: char) -> bool {
    let p = placed_at(f, pen);
    let g = atlas.glyph(c);
    &&& is_supported(c) ==> pen_fits(p)
    &&& pen_fits(step(atlas, f, pen, c))
    &&& emits(atlas, c) ==> {
        &&& fits_i32(p.0 + g.bearing.0)
        &&& fits_i32(p.0 + g.bearing.0 + g.size.0)
        &&& fits_i32(p.1 + g.bearing.1)
        &&& fits_i32(p.1 + g.bearing.1 - g.size.1)
    }
}

/// Whether every coordinate that the layout of `to` reaches fits in 32 bits:
/// the fixed-point origin, the starting pen, and each step.
pub open spec fn layout_fits(atlas: &FontAtlas, to: &TextObject) -> bool {
    let f = frame_of(atlas, to);
    let cs = to.render_str@;
    &&& fits_i32(f.ox)
    &&& fits_i32(f.oy)
    &&& fits_i32(f.oy - f.line_height)
    &&& forall|i: int|
        0 <= i < cs.len() ==> step_fits(atlas, f, pen_after(atlas, f, cs.take(i)), #[trigger] cs[i])
}

/// The pen after `c` when that step reaches only coordinates that fit in 32
/// bits, else `None`.
fn check_step(
    fontatl: &FontAtlas,
    f: Ghost<LayoutFrame>,
    pen: (i64, i64),
    c: char,
    ox: i64,
    mw: i64,
    fh: i64,
) -> (r: Option<(i64, i64)>)
    requires
        fontatl.wf(),
        ox == f@.ox,
        mw == f@.max_width,
        fh == f@.line_height,
        fh == fontatl.line_height,
        fits_i32(f@.ox),
        pen_fits((pen.0 as int, pen.1 as int)),
        0 <= mw <= 0x1_0000_0000_0000i64,
    ensures
        r is Some <==> step_fits(fontatl, f@, (pen.0 as int, pen.1 as int), c),
        r matches Some(p) ==> p.0 == step(fontatl, f@, (pen.0 as int, pen.1 as int), c).0 && p.1
            == step(fontatl, f@, (pen.0 as int, pen.1 as int), c).1 && pen_fits(
            step(fontatl, f@, (pen.0 as int, pen.1 as int), c),
        ),
{
    reveal(step_fits);
    let lo = i32::MIN as i64;
    let hi = i32::MAX as i64;
    let code = c as u32;
    let mut p = pen;
    if FIRST_CODE <= code && code < END_CODE {
        if p.0 - ox > mw {
            p = (ox, p.1 - fh);
        }
        if p.1 < lo {
            return None;
        }
        let g = fontatl.advances[code as usize];
        if g.size.0 != 0 && g.size.1 != 0 {
            let x = p.0 + g.bearing.0 as i64;
            let y = p.1 + g.bearing.1 as i64;
            let x1 = x + g.size.0 as i64;
            let y1 = y - g.size.1 as i64;
            if x < lo || x > hi || x1 > hi || y < lo || y > hi || y1 < lo {
                return None;
            }
        }
        let next_x = p.0 + g.advance as i64;
        if next_x > hi || next_x < lo {
            return None;
        }
        Some((next_x, p.1))
    } else if c == '\r' {
        if p.1 - fh < lo {
            return None;
        }
        Some((ox, p.1 - fh))
    } else {
        Some(p)
    }
}

/// Whether the first `i` steps of the layout of `cs` reach only coordinates
/// that fit in 32 bits.
#[verifier::opaque]
pub open spec fn fits_upto(atlas: &FontAtlas, f: LayoutFrame, cs: Seq<char>, i: int) -> bool {
    forall|j: int| 0 <= j < i ==> step_fits(atlas, f, pen_after(atlas, f, cs.take(j)), #[trigger] cs[j])
}

/// The pen after `i + 1` characters is one step on from the pen after `i`.
proof fn lemma_pen_step(atlas: &FontAtlas, f: LayoutFrame, cs: Seq<char>, i: int)
    requires
        0 <= i < cs.len(),
    ensures
        pen_after(atlas, f, cs.take(i + 1)) == step(atlas, f, pen_after(atlas, f, cs.take(i)), cs[i]),
{
    assert(cs.take(i + 1).drop_last() =~= cs.take(i));
    assert(cs.take(i + 1).last() == cs[i]);
}

proof fn lemma_fits_upto_step(atlas: &FontAtlas, f: LayoutFrame, cs: Seq<char>, i: int)
    requires
        0 <= i < cs.len(),
        fits_upto(atlas, f, cs, i),
    ensures
        fits_upto(atlas, f, cs, i + 1) == step_fits(atlas, f, pen_after(atlas, f, cs.take(i)), cs[i]),
{
    reveal(fits_upto);
}

/// Whether every coordinate that the layout of `to` reaches fits in 32 bits;
/// it walks the layout without drawing.
pub fn check_layout_fits(fontatl: &FontAtlas, to: &TextObject) -> (r: bool)
    requires
        fontatl.wf(),
    ensures
        r == layout_fits(fontatl, to),
{
    let ghost f = frame_of(fontatl, to);
    let ghost cs = to.render_str@;
    let lo = i32::MIN as i64;
    let hi = i32::MAX as i64;
    let ox = to.top_left.0 as i64 * 64;
    let oy = to.top_left.1 as i64 * 64;
    let mw = to.max_width as i64 * 64;
    let fh = fontatl.line_height as i64;
    if ox < lo || ox > hi || oy < lo || oy > hi || oy - fh < lo {
        return false;
    }
    let mut pen: (i64, i64) = (ox, oy - fh);
    let s = to.render_str.as_str();
    let n = s.unicode_len();
    let mut i: usize = 0;
    proof {
        reveal(fits_upto);
    }
    while i < n
        invariant
            fontatl.wf(),
            f == frame_of(fontatl, to),
            cs == to.render_str@,
            s@ == cs,
            n == cs.len(),
            i <= n,
            ox == f.ox,
            mw == f.max_width,
            fh == f.line_height,
            fh == fontatl.line_height,
            fits_i32(f.ox),
            0 <= mw <= 0x1_0000_0000_0000i64,
            pen.0 == pen_after(fontatl, f, cs.take(i as int)).0,
            pen.1 == pen_after(fontatl, f, cs.take(i as int)).1,
            pen_fits(pen_after(fontatl, f, cs.take(i as int))),
            fits_upto(fontatl, f, cs, i as int),
        decreases n - i,
    {
        let c = s.get_char(i);
        proof {
            lemma_pen_step(fontatl, f, cs, i as int);
            lemma_fits_upto_step(fontatl, f, cs, i as int);
        }
        let p = match check_step(fontatl, Ghost(f), pen, c, ox, mw, fh) {
            Some(p) => p,
            None => {
                proof {
                    reveal(fits_upto);
                }
                assert(!layout_fits(fontatl, to));
                return false;
            },
        };
        pen = p;
        i = i + 1;
    }
    proof {
        reveal(fits_upto);
    }
    true
}

/// The quad of glyph `g` with the pen at `pen`.
fn make_glyph_quad(fontatl: &FontAtlas, g: &GlyphInfo, pen: (i32, i32)) -> (q: Rect<FontTriangleVertex>)
    requires
        g.wf(),
        fits_i32(pen.0 + g.bearing.0),
        fits_i32(pen.0 + g.bearing.0 + g.size.0),
        fits_i32(pen.1 + g.bearing.1),
        fits_i32(pen.1 + g.bearing.1 - g.size.1),
    ensures
        q == glyph_quad(fontatl, *g, (pen.0 as int, pen.1 as int)),
{
    let rect_pos = g.calculate_rect_pos(pen);
    let tex_pos = g.calculate_texture();
    let atl_size = fontatl.size();
    let ra = rect_pos.div_by(WIDTH * 64, HEIGHT * 64).as_array();
    let ta = tex_pos.div_by(atl_size.0, atl_size.1).as_array();
    let (rectx, recty, rectx1, recty1) = (ra[0], ra[1], ra[2], ra[3]);
    let (textx, texty, textx1, texty1) = (ta[0], ta[1], ta[2], ta[3]);
    let q = [
        FontTriangleVertex::new((rectx, recty), (textx, texty)),
        FontTriangleVertex::new((rectx1, recty), (textx1, texty)),
        FontTriangleVertex::new((rectx, recty1), (textx, texty1)),
        FontTriangleVertex::new((rectx1, recty1), (textx1, texty1)),
    ];
    assert(q =~= glyph_quad(fontatl, *g, (pen.0 as int, pen.1 as int)));
    q
}

/// Lays out `to` with the metrics of `fontatl`, appends one quad per inked
/// glyph to `verts`, and returns the text's extent.
#[verifier::rlimit(40)]
pub fn draw_text(fontatl: &FontAtlas, verts: &mut FontDrawRects, to: &TextObject) -> (r: TextInfo)
    requires
        fontatl.wf(),
        old(verts)@.wf(),
        old(verts)@.indices.len() + 6 * to.render_str@.len() <= u32::MAX,
        layout_fits(fontatl, to),
    ensures
        final(verts)@ == old(verts)@.push_all(
            layout_quads(fontatl, frame_of(fontatl, to), to.render_str@),
        ),
        final(verts)@.wf(),
        r.min.0 == to.top_left.0 * 64,
        r.min.1 == to.top_left.1 * 64,
        r.max.0 == pen_after(fontatl, frame_of(fontatl, to), to.render_str@).0,
        r.max.1 == pen_after(fontatl, frame_of(fontatl, to), to.render_str@).1,
{
    let ghost f = frame_of(fontatl, to);
    let ghost cs = to.render_str@;
    let top_left = (to.top_left.0 * 64, to.top_left.1 * 64);
    let max_width: i64 = to.max_width as i64 * 64;
    let fh = fontatl.font_height() as i32;
    let mut cursor_origin = (top_left.0, top_left.1 - fh);
    let s = to.render_str.as_str();
    let n = s.unicode_len();
    let mut i: usize = 0;
    while i < n
        invariant
            fontatl.wf(),
            layout_fits(fontatl, to),
            f == frame_of(fontatl, to),
            cs == to.render_str@,
            s@ == cs,
            n == cs.len(),
            i <= n,
            top_left.0 == f.ox,
            top_left.1 == f.oy,
            max_width == f.max_width,
            fh == f.line_height,
            verts@.wf(),
            verts@.indices.len() <= old(verts)@.indices.len() + 6 * i,
            old(verts)@.indices.len() + 6 * cs.len() <= u32::MAX,
            verts@ == old(verts)@.push_all(layout_quads(fontatl, f, cs.take(i as int))),
            cursor_origin.0 == pen_after(fontatl, f, cs.take(i as int)).0,
            cursor_origin.1 == pen_after(fontatl, f, cs.take(i as int)).1,
        decreases n - i,
    {
        let c = s.get_char(i);
        proof {
            assert(cs.take(i + 1).drop_last() =~= cs.take(i as int));
            assert(cs.take(i + 1).last() == c);
            let pen0 = pen_after(fontatl, f, cs.take(i as int));
            assert(step_fits(fontatl, f, pen0, cs[i as int]));
            let p = placed_at(f, pen0);
            let g = fontatl.glyph(c);
            assert({
                &&& is_supported(c) ==> pen_fits(p)
                &&& pen_fits(step(fontatl, f, pen0, c))
                &&& emits(fontatl, c) ==> {
                    &&& fits_i32(p.0 + g.bearing.0)
                    &&& fits_i32(p.0 + g.bearing.0 + g.size.0)
                    &&& fits_i32(p.1 + g.bearing.1)
                    &&& fits_i32(p.1 + g.bearing.1 - g.size.1)
                }
            }) by {
                reveal(step_fits);
            }
        }
        let code = c as u32;
        if FIRST_CODE <= code && code < END_CODE {
            if cursor_origin.0 as i64 - top_left.0 as i64 > max_width {
                cursor_origin.0 = top_left.0;
                cursor_origin.1 = cursor_origin.1 - fh;
            }
            let gl_info = fontatl.advances[code as usize];
            if gl_info.size.0 != 0 && gl_info.size.1 != 0 {
                let q = make_glyph_quad(fontatl, &gl_info, cursor_origin);
                proof {
                    let qs = layout_quads(fontatl, f, cs.take(i + 1));
                    assert(qs.drop_last() =~= layout_quads(fontatl, f, cs.take(i as int)));
                }
                verts.extend(q);
            }
            cursor_origin = gl_info.calculate_next_origin(cursor_origin);
        } else if c == '\r' {
            cursor_origin.0 = top_left.0;
            cursor_origin.1 = cursor_origin.1 - fh;
        }
        i = i + 1;
    }
    assert(cs.take(n as int) =~= cs);
    TextInfo { min: top_left, max: cursor_origin }
}

/// Number of characters in all of `tos`.
pub open spec fn total_chars(tos: Seq<TextObject>) -> nat
    decreases tos.len(),
{
    if tos.len() == 0 {
        0
    } else {
        total_chars(tos.drop_last()) + tos.last().render_str@.len()
    }
}

/// The quads of each text of `tos` in turn.
pub open spec fn batch_quads(atlas: &FontAtlas, tos: Seq<TextObject>) -> Seq<Rect<FontTriangleVertex>>
    decreases tos.len(),
{
    if tos.len() == 0 {
        seq![]
    } else {
        batch_quads(atlas, tos.drop_last()) + layout_quads(
            atlas,
            frame_of(atlas, &tos.last()),
            tos.last().render_str@,
        )
    }
}

proof fn lemma_total_chars_prefix(tos: Seq<TextObject>, i: int)
    requires
        0 <= i < tos.len(),
    ensures
        total_chars(tos.take(i)) + tos[i].render_str@.len() <= total_chars(tos),
    decreases tos.len(),
{
    if i < tos.len() - 1 {
        lemma_total_chars_prefix(tos.drop_last(), i);
        assert(tos.drop_last().take(i) =~= tos.take(i));
    } else {
        assert(tos.drop_last() =~= tos.take(i));
    }
}

/// Lays out every text of `objects` in turn into `verts`; the result holds
/// the extent of each, in the same order.
pub fn layout_texts(fontatl: &FontAtlas, verts: &mut FontDrawRects, objects: &Vec<TextObject>) -> (r: Vec<TextInfo>)
    requires
        fontatl.wf(),
        old(verts)@.wf(),
        old(verts)@.indices.len() + 6 * total_chars(objects@) <= u32::MAX,
        forall|i: int| 0 <= i < objects.len() ==> layout_fits(fontatl, &#[trigger] objects@[i]),
    ensures
        final(verts)@ == old(verts)@.push_all(batch_quads(fontatl, objects@)),
        final(verts)@.wf(),
        r.len() == objects.len(),
        forall|i: int|
            0 <= i < objects.len() ==> {
                let to = #[trigger] objects@[i];
                let pen = pen_after(fontatl, frame_of(fontatl, &to), to.render_str@);
                &&& r@[i].min.0 == to.top_left.0 * 64
                &&& r@[i].min.1 == to.top_left.1 * 64
                &&& r@[i].max.0 == pen.0
                &&& r@[i].max.1 == pen.1
            },
{
    let ghost tos = objects@;
    let mut infos: Vec<TextInfo> = Vec::new();
    let mut i: usize = 0;
    while i < objects.len()
        invariant
            tos == objects@,
            i <= tos.len(),
            fontatl.wf(),
            verts@.wf(),
            old(verts)@.wf(),
            old(verts)@.indices.len() + 6 * total_chars(tos) <= u32::MAX,
            verts@.indices.len() <= old(verts)@.indices.len() + 6 * total_chars(tos.take(i as int)),
            forall|j: int| 0 <= j < tos.len() ==> layout_fits(fontatl, &#[trigger] tos[j]),
            verts@ == old(verts)@.push_all(batch_quads(fontatl, tos.take(i as int))),
            infos.len() == i,
            forall|j: int|
                0 <= j < i ==> {
                    let to = #[trigger] tos[j];
                    let pen = pen_after(fontatl, frame_of(fontatl, &to), to.render_str@);
                    &&& infos@[j].min.0 == to.top_left.0 * 64
                    &&& infos@[j].min.1 == to.top_left.1 * 64
                    &&& infos@[j].max.0 == pen.0
                    &&& infos@[j].max.1 == pen.1
                },
        decreases tos.len() - i,
    {
        proof {
            lemma_total_chars_prefix(tos, i as int);
        }
        let ghost before = verts@;
        let ghost to = tos[i as int];
        let info = draw_text(fontatl, verts, &objects[i]);
        proof {
            let prev = tos.take(i as int);
            let next = tos.take(i + 1);
            assert(next.drop_last() =~= prev);
            assert(next.last() == to);
            let q = layout_quads(fontatl, frame_of(fontatl, &to), to.render_str@);
            lemma_push_all_concat(old(verts)@, batch_quads(fontatl, prev), q);
            lemma_layout_quads_len(fontatl, frame_of(fontatl, &to), to.render_str@);
            lemma_push_all(before, q);
        }
        infos.push(info);
        i = i + 1;
    }
    assert(tos.take(tos.len() as int) =~= tos);
    infos
}

/// A text gives at most one quad per character.
proof fn lemma_layout_quads_len(atlas: &FontAtlas, f: LayoutFrame, cs: Seq<char>)
    ensures
        layout_quads(atlas, f, cs).len() <= cs.len(),
    decreases cs.len(),
{
    if cs.len() > 0 {
        lemma_layout_quads_len(atlas, f, cs.drop_last());
    }
}

} // verus!
