use vstd::prelude::*;

verus! {

/// Four vertices of one rectangle: top-left, top-right, bottom-left, bottom-right.
pub type Rect<T> = [T; 4];

/// Size in bytes of a freshly created GPU allocation.
pub const START_BUF_SIZE: u64 = 3000;

/// Largest vertex size in bytes that a buffer accepts.
pub const MAX_STRIDE: u32 = 1024;

/// Serialized size of one index (32-bit index format).
pub const INDEX_BYTES: u64 = 4;

/// A rational coordinate `num / den`, the exact value of a clip-space or
/// texture-space coordinate before it is converted for the GPU.
#[derive(Clone, Copy, Debug, PartialEq, Eq, Structural)]
pub struct Frac {
    pub num: i32,
    pub den: u32,
}

/// A vertex of a glyph quad: screen position and atlas texture coordinate.
#[derive(Clone, Copy, Debug)]
pub struct FontTriangleVertex {
    pub position: [Frac; 2],
    pub tex_coords: [Frac; 2],
}

impl FontTriangleVertex {
    /// Serialized size: four 32-bit floats.
    pub const STRIDE: u32 = 16;

    pub fn new(pos: (Frac, Frac), tex: (Frac, Frac)) -> (r: Self)
        ensures
            r == (FontTriangleVertex { position: [pos.0, pos.1], tex_coords: [tex.0, tex.1] }),
    {
        FontTriangleVertex { position: [pos.0, pos.1], tex_coords: [tex.0, tex.1] }
    }
}

/// A vertex of a solid-colour quad: screen position and RGBA colour.
#[derive(Clone, Copy, Debug)]
pub struct ColoredTriangleVertex {
    pub position: [Frac; 2],
    pub color: [u8; 4],
}

impl ColoredTriangleVertex {
    /// Serialized size: two 32-bit floats and four bytes.
    pub const STRIDE: u32 = 12;
}

/// The six indices (two triangles) of the quad whose first vertex is `base`.
pub open spec fn quad_indices(base: int) -> Seq<u32> {
    seq![
        (base + 2) as u32,
        (base + 1) as u32,
        base as u32,
        (base + 2) as u32,
        (base + 3) as u32,
        (base + 1) as u32,
    ]
}

/// The index list of `n` quads appended one after the other.
pub open spec fn indices_for(n: nat) -> Seq<u32>
    decreases n,
{
    if n == 0 {
        seq![]
    } else {
        indices_for((n - 1) as nat) + quad_indices(4 * (n - 1))
    }
}

/// The vertices of a sequence of quads, in order.
pub open spec fn flatten_quads<T>(qs: Seq<Rect<T>>) -> Seq<T>
    decreases qs.len(),
{
    if qs.len() == 0 {
        seq![]
    } else {
        flatten_quads(qs.drop_last()) + qs.last()@
    }
}

/// The abstract state of a geometry buffer.
pub struct GeometryView<T> {
    /// CPU-side vertices.
    pub vertices: Seq<T>,
    /// CPU-side indices.
    pub indices: Seq<u32>,
    /// Size in bytes of the GPU allocation.
    pub capacity: nat,
    /// Serialized size of one vertex.
    pub stride: nat,
    /// Whether the CPU-side content has been flushed since its last change.
    pub uploaded: bool,
}

impl<T> GeometryView<T> {
    /// Bytes needed for the vertex block followed by the index block.
    pub open spec fn required_size(self) -> nat {
        (self.vertices.len() * self.stride + self.indices.len() * INDEX_BYTES) as nat
    }

    pub open spec fn vertex_bytes(self) -> nat {
        self.vertices.len() * self.stride
    }

    pub open spec fn wf(self) -> bool {
        &&& 0 < self.stride <= MAX_STRIDE
        &&& self.vertices.len() % 4 == 0
        &&& self.indices == indices_for(self.vertices.len() / 4)
        &&& self.indices.len() <= u32::MAX
        &&& self.capacity <= u64::MAX
    }

    pub open spec fn push_quad(self, q: Rect<T>) -> Self {
        GeometryView {
            vertices: self.vertices + q@,
            indices: self.indices + quad_indices(self.vertices.len() as int),
            uploaded: false,
            ..self
        }
    }

    pub open spec fn push_all(self, qs: Seq<Rect<T>>) -> Self
        decreases qs.len(),
    {
        if qs.len() == 0 {
            self
        } else {
            self.push_all(qs.drop_last()).push_quad(qs.last())
        }
    }

    pub open spec fn cleared(self) -> Self {
        GeometryView { vertices: seq![], indices: seq![], uploaded: false, ..self }
    }

    /// Capacity after a flush: twice the required size when it does not fit, else unchanged.
    pub open spec fn grown_capacity(self) -> nat {
        if self.required_size() > self.capacity {
            2 * self.required_size()
        } else {
            self.capacity
        }
    }

    pub open spec fn flushed(self) -> Self {
        GeometryView { capacity: self.grown_capacity(), uploaded: true, ..self }
    }
}

/// A growable batch of quads with its GPU allocation size.
pub struct DrawRects<T> {
    pub vertex_buffer_sz: u64,
    pub cpu_buffer: Vec<T>,
    pub index_buffer: Vec<u32>,
    pub stride: u32,
    pub index_buffer_dirty: bool,
}

pub type FontDrawRects = DrawRects<FontTriangleVertex>;

pub type ColoredDrawRects = DrawRects<ColoredTriangleVertex>;

impl<T> View for DrawRects<T> {
    type V = GeometryView<T>;

    open spec fn view(&self) -> GeometryView<T> {
        GeometryView {
            vertices: self.cpu_buffer@,
            indices: self.index_buffer@,
            capacity: self.vertex_buffer_sz as nat,
            stride: self.stride as nat,
            uploaded: !self.index_buffer_dirty,
        }
    }
}

/// The index list of `n` quads has six entries per quad, each below `4 * n`.
pub proof fn lemma_indices_for(n: nat)
    ensures
        indices_for(n).len() == 6 * n,
        4 * n <= u32::MAX + 1 ==> forall|i: int|
            0 <= i < 6 * n ==> (#[trigger] indices_for(n)[i]) < 4 * n,
    decreases n,
{
    if n > 0 && 4 * n <= u32::MAX + 1 {
        lemma_indices_for((n - 1) as nat);
        let prev = indices_for((n - 1) as nat);
        let q = quad_indices(4 * (n - 1));
        assert(indices_for(n) == prev + q);
        assert forall|i: int| 0 <= i < 6 * n implies (#[trigger] indices_for(n)[i]) < 4 * n by {
            if i < 6 * (n - 1) {
                assert(indices_for(n)[i] == prev[i]);
            } else {
                assert(indices_for(n)[i] == q[i - 6 * (n - 1)]);
            }
        }
    } else if n > 0 {
        lemma_indices_for((n - 1) as nat);
    }
}

/// Appending quads to a well-formed buffer keeps it well formed, appends their
/// vertices in order, and leaves capacity and stride alone.
pub proof fn lemma_push_all<T>(g: GeometryView<T>, qs: Seq<Rect<T>>)
    requires
        g.wf(),
        g.indices.len() + 6 * qs.len() <= u32::MAX,
    ensures
        g.push_all(qs).wf(),
        g.push_all(qs).vertices == g.vertices + flatten_quads(qs),
        g.push_all(qs).indices.len() == g.indices.len() + 6 * qs.len(),
        g.push_all(qs).capacity == g.capacity,
        g.push_all(qs).stride == g.stride,
        qs.len() > 0 ==> !g.push_all(qs).uploaded,
        qs.len() == 0 ==> g.push_all(qs) == g,
    decreases qs.len(),
{
    if qs.len() > 0 {
        let prev = qs.drop_last();
        lemma_push_all(g, prev);
        let h = g.push_all(prev);
        let n = (h.vertices.len() / 4) as nat;
        lemma_indices_for(n);
        lemma_indices_for(n + 1);
        assert(indices_for(n + 1) == indices_for(n) + quad_indices(4 * n as int));
        let k = h.push_quad(qs.last());
        assert(h.vertices.len() == 4 * n);
        assert(k.vertices.len() == 4 * n + 4);
        assert(k.vertices.len() / 4 == n + 1);
        assert(k.indices == indices_for(n + 1));
        assert(h.push_quad(qs.last()).vertices =~= g.vertices + flatten_quads(qs));
    }
}

/// Appending two runs of quads one after the other is appending their concatenation.
pub proof fn lemma_push_all_concat<T>(g: GeometryView<T>, a: Seq<Rect<T>>, b: Seq<Rect<T>>)
    ensures
        g.push_all(a + b) == g.push_all(a).push_all(b),
    decreases b.len(),
{
    if b.len() == 0 {
        assert(a + b =~= a);
    } else {
        assert((a + b).drop_last() =~= a + b.drop_last());
        assert((a + b).last() == b.last());
        lemma_push_all_concat(g, a, b.drop_last());
    }
}

/// Between two clears, `n` appended quads give exactly `4 * n` vertices and
/// `6 * n` indices, and every index points at one of those vertices.
pub proof fn lemma_extend_counts<T>(g: GeometryView<T>, qs: Seq<Rect<T>>)
    requires
        g.wf(),
        6 * qs.len() <= u32::MAX,
    ensures
        g.cleared().push_all(qs).vertices.len() == 4 * qs.len(),
        g.cleared().push_all(qs).indices.len() == 6 * qs.len(),
        forall|i: int|
            0 <= i < 6 * qs.len() ==> 0 <= #[trigger] g.cleared().push_all(qs).indices[i] < 4
                * qs.len(),
{
    let c = g.cleared();
    assert(c.indices =~= indices_for(0));
    lemma_push_all(c, qs);
    lemma_flatten_len(qs);
    lemma_indices_for(qs.len());
    assert(c.push_all(qs).vertices =~= flatten_quads(qs));
}

/// The vertices of `qs` are four per quad.
pub proof fn lemma_flatten_len<T>(qs: Seq<Rect<T>>)
    ensures
        flatten_quads(qs).len() == 4 * qs.len(),
    decreases qs.len(),
{
    if qs.len() > 0 {
        lemma_flatten_len(qs.drop_last());
    }
}

/// A flush after filling a cleared buffer: when the content does not fit the
/// allocation, the new allocation is twice the required size; in every case it
/// holds the content, whose vertices are the appended quads in order.
pub proof fn lemma_flush_growth<T>(g: GeometryView<T>, qs: Seq<Rect<T>>)
    requires
        g.wf(),
        6 * qs.len() <= u32::MAX,
    ensures
        ({
            let filled = g.cleared().push_all(qs);
            let h = filled.flushed();
            &&& filled.required_size() > g.capacity ==> h.capacity == 2 * filled.required_size()
            &&& filled.required_size() <= g.capacity ==> h.capacity == g.capacity
            &&& h.capacity >= filled.required_size()
            &&& h.vertices == flatten_quads(qs)
            &&& h.indices == filled.indices
            &&& h.uploaded
        }),
{
    let c = g.cleared();
    assert(c.indices =~= indices_for(0));
    lemma_push_all(c, qs);
    assert(c.push_all(qs).vertices =~= flatten_quads(qs));
}

/// A flush right after a clear leaves nothing to draw and keeps the allocation.
pub proof fn lemma_clear_flush<T>(g: GeometryView<T>)
    requires
        g.wf(),
    ensures
        g.cleared().flushed().vertices.len() == 0,
        g.cleared().flushed().indices.len() == 0,
        g.cleared().flushed().capacity == g.capacity,
        g.cleared().flushed().uploaded,
{
}

impl<T: Copy> DrawRects<T> {
    pub fn new_with_layout(stride: u32) -> (r: Self)
        requires
            0 < stride <= MAX_STRIDE,
        ensures
            r@.wf(),
            r@.vertices.len() == 0,
            r@.capacity == START_BUF_SIZE,
            r@.stride == stride,
            !r@.uploaded,
    {
        let r = DrawRects {
            vertex_buffer_sz: START_BUF_SIZE,
            cpu_buffer: Vec::new(),
            index_buffer: Vec::new(),
            stride,
            index_buffer_dirty: true,
        };
        assert(r@.indices =~= indices_for(0));
        r
    }

    /// Empties the CPU-side lists; the GPU allocation keeps its size.
    pub fn finish(&mut self)
        requires
            old(self)@.wf(),
        ensures
            final(self)@ == old(self)@.cleared(),
            final(self)@.wf(),
    {
        self.cpu_buffer.clear();
        self.index_buffer.clear();
        self.index_buffer_dirty = true;
        assert(self.index_buffer@ =~= indices_for(0));
        assert(self@ =~= old(self)@.cleared());
    }

    /// Appends one quad: four vertices and the six indices of its two triangles.
    pub fn extend(&mut self, r: Rect<T>)
        requires
            old(self)@.wf(),
            old(self)@.indices.len() + 6 <= u32::MAX,
        ensures
            final(self)@ == old(self)@.push_quad(r),
            final(self)@.wf(),
    {
        let ghost n = (self.cpu_buffer.len() / 4) as nat;
        proof {
            lemma_indices_for(n);
        }
        let offset = self.cpu_buffer.len() as u32;
        self.cpu_buffer.push(r[0]);
        self.cpu_buffer.push(r[1]);
        self.cpu_buffer.push(r[2]);
        self.cpu_buffer.push(r[3]);
        self.index_buffer.push(offset + 2);
        self.index_buffer.push(offset + 1);
        self.index_buffer.push(offset);
        self.index_buffer.push(offset + 2);
        self.index_buffer.push(offset + 3);
        self.index_buffer.push(offset + 1);
        self.index_buffer_dirty = true;
        assert(self.cpu_buffer@ =~= old(self).cpu_buffer@ + r@);
        assert(self.index_buffer@ =~= old(self).index_buffer@ + quad_indices(offset as int));
        assert(self.cpu_buffer@.len() / 4 == n + 1);
        assert(indices_for(n + 1) == indices_for(n) + quad_indices(4 * n as int));
        assert(self@ =~= old(self)@.push_quad(r));
    }

    /// Byte size of the vertex block.
    pub fn cpu_buffer_len(&self) -> (r: u64)
        requires
            self@.wf(),
        ensures
            r == self@.vertex_bytes(),
            r <= 0x1_0000_0000u64 * 1024,
    {
        proof {
            lemma_indices_for(self@.vertices.len() / 4);
        }
        assert(self.cpu_buffer.len() * self.stride <= 0x1_0000_0000u64 * 1024) by (nonlinear_arith)
            requires
                self.cpu_buffer.len() <= 0x1_0000_0000u64,
                self.stride <= 1024,
        ;
        assert(self.cpu_buffer.len() as u64 * self.stride as u64 == self.cpu_buffer.len() * self.stride);
        self.cpu_buffer.len() as u64 * self.stride as u64
    }

    /// Byte size of the vertex block followed by the index block.
    pub fn required_size(&self) -> (r: u64)
        requires
            self@.wf(),
        ensures
            r == self@.required_size(),
            r <= 0x1_0000_0000u64 * 1028,
    {
        proof {
            lemma_indices_for(self@.vertices.len() / 4);
        }
        let v = self.cpu_buffer_len();
        v + self.index_buffer.len() as u64 * INDEX_BYTES
    }

    /// Makes sure the GPU allocation holds the whole content. Returns the size of
    /// a new allocation when the current one is too small; the caller then
    /// replaces the allocation and writes the whole content into it.
    pub fn confirm_extends(&mut self) -> (grown: Option<u64>)
        requires
            old(self)@.wf(),
        ensures
            final(self)@ == old(self)@.flushed(),
            final(self)@.wf(),
            grown == (if old(self)@.required_size() > old(self)@.capacity {
                Some(final(self).vertex_buffer_sz)
            } else {
                None::<u64>
            }),
    {
        let needed = self.required_size();
        let grown = if needed > self.vertex_buffer_sz {
            self.vertex_buffer_sz = needed * 2;
            Some(self.vertex_buffer_sz)
        } else {
            None
        };
        self.index_buffer_dirty = false;
        assert(self@ =~= old(self)@.flushed());
        grown
    }

    /// Byte range of the uploaded vertex block.
    pub fn get_vertex_buf(&self) -> (r: (u64, u64))
        requires
            self@.wf(),
            self@.uploaded,
        ensures
            r.0 == 0,
            r.1 == self@.vertex_bytes(),
    {
        (0, self.cpu_buffer_len())
    }

    /// Byte range of the uploaded index block, right after the vertex block.
    pub fn get_index_buffer(&self) -> (r: (u64, u64))
        requires
            self@.wf(),
            self@.uploaded,
        ensures
            r.0 == self@.vertex_bytes(),
            r.1 == self@.required_size(),
    {
        (self.cpu_buffer_len(), self.required_size())
    }

    /// Number of indices that a draw call consumes.
    pub fn index_count(&self) -> (r: u32)
        requires
            self@.wf(),
        ensures
            r == self@.indices.len(),
    {
        self.index_buffer.len() as u32
    }
}

impl DrawRects<FontTriangleVertex> {
    pub fn new() -> (r: Self)
        ensures
            r@.wf(),
            r@.vertices.len() == 0,
            r@.capacity == START_BUF_SIZE,
            r@.stride == FontTriangleVertex::STRIDE,
            !r@.uploaded,
    {
        Self::new_with_layout(FontTriangleVertex::STRIDE)
    }
}

impl DrawRects<ColoredTriangleVertex> {
    pub fn new() -> (r: Self)
        ensures
            r@.wf(),
            r@.vertices.len() == 0,
            r@.capacity == START_BUF_SIZE,
            r@.stride == ColoredTriangleVertex::STRIDE,
            !r@.uploaded,
    {
        Self::new_with_layout(ColoredTriangleVertex::STRIDE)
    }
}

} // verus!
