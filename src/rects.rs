use vstd::prelude::*;

use crate::geometry::{ColoredDrawRects, ColoredTriangleVertex, Frac, Rect};

verus! {

/// Viewport width in pixels.
pub const WIDTH: u32 = 800;

/// Viewport height in pixels.
pub const HEIGHT: u32 = 400;

/// A rectangle by two corners: `(x, y)` and `(x1, y1)`.
#[derive(Debug)]
pub struct RectanglePoint<T> {
    pub x: T,
    pub y: T,
    pub x1: T,
    pub y1: T,
}

impl RectanglePoint<i32> {
    /// Scales the corners to `[x / fx, y / fy]`, kept as exact fractions.
    pub fn div_by(&self, fx: u32, fy: u32) -> (r: RectanglePoint<Frac>)
        ensures
            r.x == (Frac { num: self.x, den: fx }),
            r.y == (Frac { num: self.y, den: fy }),
            r.x1 == (Frac { num: self.x1, den: fx }),
            r.y1 == (Frac { num: self.y1, den: fy }),
    {
        RectanglePoint {
            x: Frac { num: self.x, den: fx },
            y: Frac { num: self.y, den: fy },
            x1: Frac { num: self.x1, den: fx },
            y1: Frac { num: self.y1, den: fy },
        }
    }
}

impl<T> RectanglePoint<T> {
    pub fn as_array(self) -> (r: [T; 4])
        ensures
            r@ == seq![self.x, self.y, self.x1, self.y1],
    {
        let r = [self.x, self.y, self.x1, self.y1];
        assert(r@ =~= seq![self.x, self.y, self.x1, self.y1]);
        r
    }
}

/// A solid-colour rectangle in pixels.
#[derive(Clone, Copy, Debug)]
pub struct RectObject {
    pub x: u32,
    pub y: u32,
    pub w: u32,
    pub h: u32,
    pub color: [u8; 4],
}

/// Largest pixel coordinate that a rectangle corner may reach.
pub const MAX_PIXEL: u32 = 0x7fff_ffff;

impl RectObject {
    pub open spec fn in_range(self) -> bool {
        self.x + self.w <= MAX_PIXEL && self.y + self.h <= MAX_PIXEL
    }
}

impl RectObject {
    /// Whether the far corner of the rectangle stays within `MAX_PIXEL`.
    pub fn check_in_range(&self) -> (r: bool)
        ensures
            r == self.in_range(),
    {
        (self.x as u64 + self.w as u64) <= MAX_PIXEL as u64 && (self.y as u64 + self.h as u64)
            <= MAX_PIXEL as u64
    }
}

/// The vertex of `r` at corner `(px, py)` of its clip-space rectangle.
pub open spec fn rect_vertex(r: RectObject, px: int, py: int) -> ColoredTriangleVertex {
    ColoredTriangleVertex {
        position: [Frac { num: px as i32, den: WIDTH }, Frac { num: py as i32, den: HEIGHT }],
        color: r.color,
    }
}

/// The quad of `r`: its corners divided by the viewport size, coloured by `r.color`.
pub open spec fn rect_quad(r: RectObject) -> Rect<ColoredTriangleVertex> {
    [
        rect_vertex(r, r.x as int, r.y as int),
        rect_vertex(r, r.x + r.w, r.y as int),
        rect_vertex(r, r.x as int, r.y + r.h),
        rect_vertex(r, r.x + r.w, r.y + r.h),
    ]
}

/// The quads of a list of rectangles, in order.
pub open spec fn rect_quads(rs: Seq<RectObject>) -> Seq<Rect<ColoredTriangleVertex>> {
    rs.map_values(|r: RectObject| rect_quad(r))
}

/// Appends the quad of each rectangle to `verts`, in order.
pub fn upload_rects(verts: &mut ColoredDrawRects, rects: &Vec<RectObject>)
    requires
        old(verts)@.wf(),
        old(verts)@.indices.len() + 6 * rects.len() <= u32::MAX,
        forall|i: int| 0 <= i < rects.len() ==> (#[trigger] rects@[i]).in_range(),
    ensures
        final(verts)@ == old(verts)@.push_all(rect_quads(rects@)),
        final(verts)@.wf(),
{
    let mut i: usize = 0;
    while i < rects.len()
        invariant
            i <= rects.len(),
            verts@.wf(),
            verts@ == old(verts)@.push_all(rect_quads(rects@.take(i as int))),
            verts@.indices.len() == old(verts)@.indices.len() + 6 * i,
            old(verts)@.wf(),
            old(verts)@.indices.len() + 6 * rects.len() <= u32::MAX,
            forall|j: int| 0 <= j < rects.len() ==> (#[trigger] rects@[j]).in_range(),
        decreases rects.len() - i,
    {
        let r = rects[i];
        let rp = RectanglePoint::<i32> {
            x: r.x as i32,
            y: r.y as i32,
            x1: (r.x + r.w) as i32,
            y1: (r.y + r.h) as i32,
        };
        let rp = rp.div_by(WIDTH, HEIGHT);
        let q = [
            ColoredTriangleVertex { position: [rp.x, rp.y], color: r.color },
            ColoredTriangleVertex { position: [rp.x1, rp.y], color: r.color },
            ColoredTriangleVertex { position: [rp.x, rp.y1], color: r.color },
            ColoredTriangleVertex { position: [rp.x1, rp.y1], color: r.color },
        ];
        assert(q == rect_quad(r));
        verts.extend(q);
        proof {
            let s = rect_quads(rects@.take(i + 1));
            assert(s.drop_last() =~= rect_quads(rects@.take(i as int)));
            assert(s.last() == q);
        }
        i = i + 1;
    }
    assert(rects@.take(rects.len() as int) =~= rects@);
}

} // verus!
