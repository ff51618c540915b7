//! Procedural assets: meshes and their index layouts, textures and their pixel storage.
//!
//! The integer side of asset generation lives here: the mesh builder, the index
//! patterns of the primitive shapes, texture formats, pixel addressing, and the
//! byte-level pattern generators. Vertex attributes and colors in floating point are
//! converted to and from these by the caller.
use vstd::prelude::*;

verus! {

/// Generic vertex trait that all procedural geometry implements.
pub trait Vertex: Clone + Copy + Send + Sync + 'static {
    /// Converts the vertex to raw bytes for GPU buffer upload.
    fn to_bytes(&self) -> Vec<u8>;

    /// Size of the vertex in bytes.
    fn byte_size() -> usize;
}

/// Mesh data container for any vertex type.
#[derive(Debug, Clone)]
pub struct Mesh<V: Vertex> {
    pub vertices: Vec<V>,
    pub indices: Vec<u32>,
    pub primitive_topology: PrimitiveTopology,
}

#[derive(Debug, Clone, Copy, PartialEq, Eq, Structural)]
pub enum PrimitiveTopology {
    TriangleList,
    LineList,
    PointList,
}

/// Mesh builder with a fluent API.
pub struct MeshBuilder<V: Vertex> {
    vertices: Vec<V>,
    indices: Vec<u32>,
    topology: PrimitiveTopology,
}

/// What a mesh builder holds so far.
pub struct MeshBuilderView<V> {
    pub vertices: Seq<V>,
    pub indices: Seq<u32>,
    pub topology: PrimitiveTopology,
}

impl<V: Vertex> View for MeshBuilder<V> {
    type V = MeshBuilderView<V>;

    closed spec fn view(&self) -> MeshBuilderView<V> {
        MeshBuilderView {
            vertices: self.vertices@,
            indices: self.indices@,
            topology: self.topology,
        }
    }
}

/// A call that adds to a mesh builder, with what it is given.
pub enum BuilderCall<V> {
    AddVertex(V),
    AddVertices(Seq<V>),
    AddTriangle(u32, u32, u32),
    AddQuad(u32, u32, u32, u32),
}

/// The vertices a call appends.
pub open spec fn call_vertices<V>(c: BuilderCall<V>) -> Seq<V> {
    match c {
        BuilderCall::AddVertex(v) => seq![v],
        BuilderCall::AddVertices(vs) => vs,
        _ => Seq::empty(),
    }
}

/// The indices a call appends: a triangle's three, a quad's two triangles ABC and ACD.
pub open spec fn call_indices<V>(c: BuilderCall<V>) -> Seq<u32> {
    match c {
        BuilderCall::AddTriangle(a, b, c) => seq![a, b, c],
        BuilderCall::AddQuad(a, b, c, d) => seq![a, b, c, a, c, d],
        _ => Seq::empty(),
    }
}

/// `after` is `before` with the call's vertices and indices appended.
pub open spec fn builder_step_holds<V>(before: MeshBuilderView<V>, after: MeshBuilderView<V>, c: BuilderCall<V>) -> bool {
    &&& after.vertices == before.vertices + call_vertices(c)
    &&& after.indices == before.indices + call_indices(c)
    &&& after.topology == before.topology
}

/// The vertices a sequence of calls appends, in call order.
pub open spec fn all_vertices<V>(calls: Seq<BuilderCall<V>>) -> Seq<V>
    decreases calls.len(),
{
    if calls.len() == 0 {
        Seq::empty()
    } else {
        all_vertices(calls.drop_last()) + call_vertices(calls.last())
    }
}

/// The indices a sequence of calls appends, in call order.
pub open spec fn all_indices<V>(calls: Seq<BuilderCall<V>>) -> Seq<u32>
    decreases calls.len(),
{
    if calls.len() == 0 {
        Seq::empty()
    } else {
        all_indices(calls.drop_last()) + call_indices(calls.last())
    }
}

proof fn lemma_builder_states<V>(t: PrimitiveTopology, calls: Seq<BuilderCall<V>>, states: Seq<MeshBuilderView<V>>, i: int)
    requires
        states.len() == calls.len() + 1,
        states[0].vertices == Seq::<V>::empty(),
        states[0].indices == Seq::<u32>::empty(),
        states[0].topology == t,
        forall|k: int| 0 <= k < calls.len() ==> #[trigger] builder_step_holds(states[k], states[k + 1], calls[k]),
        0 <= i <= calls.len(),
    ensures
        states[i].vertices == all_vertices(calls.take(i)),
        states[i].indices == all_indices(calls.take(i)),
        states[i].topology == t,
    decreases i,
{
    if i == 0 {
        assert(calls.take(0) =~= Seq::<BuilderCall<V>>::empty());
    } else {
        lemma_builder_states(t, calls, states, i - 1);
        assert(calls.take(i).drop_last() =~= calls.take(i - 1));
        let k = i - 1;
        assert(builder_step_holds(states[k], states[k + 1], calls[k]));
    }
}

proof fn lemma_vertices_prefix<V>(calls: Seq<BuilderCall<V>>, m: int, n: int)
    requires
        0 <= m <= n <= calls.len(),
    ensures
        all_vertices(calls.take(m)).len() <= all_vertices(calls.take(n)).len(),
        forall|x: int|
            0 <= x < all_vertices(calls.take(m)).len() ==> #[trigger] all_vertices(calls.take(n))[x]
                == all_vertices(calls.take(m))[x],
    decreases n - m,
{
    if n > m {
        lemma_vertices_prefix(calls, m, n - 1);
        assert(calls.take(n).drop_last() =~= calls.take(n - 1));
    }
}

/// Vertex `j` of call `k` stands in the final vertices at the position the builder gave it:
/// the vertex count before the call, plus `j`.
pub open spec fn vertex_kept<V>(calls: Seq<BuilderCall<V>>, states: Seq<MeshBuilderView<V>>, k: int, j: int) -> bool {
    &&& states[k].vertices.len() + j < states.last().vertices.len()
    &&& states.last().vertices[states[k].vertices.len() + j] == call_vertices(calls[k])[j]
}

/// A mesh builder keeps what it is given, in call order: after `new(t)` and any
/// sequence of `add_vertex`, `add_vertices`, `add_triangle` and `add_quad` calls, its
/// vertices are those the calls passed and its indices those they added, nothing
/// reordered or dropped, with topology `t`; and the index a call returns for a vertex
/// (the vertex count before the call, plus its position in the call) addresses that
/// vertex. `states` are the builder's contents before each call and after the last.
pub proof fn law_builder_keeps_calls<V>(t: PrimitiveTopology, calls: Seq<BuilderCall<V>>, states: Seq<MeshBuilderView<V>>)
    requires
        states.len() == calls.len() + 1,
        states[0].vertices == Seq::<V>::empty(),
        states[0].indices == Seq::<u32>::empty(),
        states[0].topology == t,
        forall|k: int| 0 <= k < calls.len() ==> #[trigger] builder_step_holds(states[k], states[k + 1], calls[k]),
    ensures
        states.last().vertices == all_vertices(calls),
        states.last().indices == all_indices(calls),
        states.last().topology == t,
        forall|k: int, j: int|
            0 <= k < calls.len() && 0 <= j < call_vertices(calls[k]).len() ==> #[trigger] vertex_kept(
                calls,
                states,
                k,
                j,
            ),
{
    let n = calls.len() as int;
    lemma_builder_states(t, calls, states, n);
    assert(calls.take(n) =~= calls);
    assert forall|k: int, j: int|
        0 <= k < calls.len() && 0 <= j < call_vertices(calls[k]).len() implies #[trigger] vertex_kept(
            calls,
            states,
            k,
            j,
        ) by {
        lemma_vertex_at(t, calls, states, k, j);
    }
}

proof fn lemma_vertex_at<V>(t: PrimitiveTopology, calls: Seq<BuilderCall<V>>, states: Seq<MeshBuilderView<V>>, k: int, j: int)
    requires
        states.len() == calls.len() + 1,
        states[0].vertices == Seq::<V>::empty(),
        states[0].indices == Seq::<u32>::empty(),
        states[0].topology == t,
        forall|k: int| 0 <= k < calls.len() ==> #[trigger] builder_step_holds(states[k], states[k + 1], calls[k]),
        0 <= k < calls.len(),
        0 <= j < call_vertices(calls[k]).len(),
    ensures
        states[k].vertices.len() + j < states.last().vertices.len(),
        states.last().vertices[states[k].vertices.len() + j] == call_vertices(calls[k])[j],
{
    let n = calls.len() as int;
    lemma_builder_states(t, calls, states, n);
    lemma_builder_states(t, calls, states, k);
    assert(calls.take(n) =~= calls);
    assert(calls.take(k + 1).drop_last() =~= calls.take(k));
    let pre = all_vertices(calls.take(k));
    let upto = all_vertices(calls.take(k + 1));
    assert(upto == pre + call_vertices(calls[k]));
    assert(upto[pre.len() + j] == call_vertices(calls[k])[j]);
    lemma_vertices_prefix(calls, k + 1, n);
    assert(all_vertices(calls.take(n))[pre.len() + j] == upto[pre.len() + j]);
}

impl<V: Vertex> MeshBuilder<V> {
    pub fn new(topology: PrimitiveTopology) -> (r: Self)
        ensures
            r@.vertices == Seq::<V>::empty(),
            r@.indices == Seq::<u32>::empty(),
            r@.topology == topology,
    {
        MeshBuilder { vertices: Vec::new(), indices: Vec::new(), topology }
    }

    /// Appends a vertex and returns its index (the vertex count before, as `u32`).
    pub fn add_vertex(&mut self, vertex: V) -> (r: u32)
        ensures
            r == old(self)@.vertices.len() as u32,
            final(self)@.vertices == old(self)@.vertices.push(vertex),
            final(self)@.indices == old(self)@.indices,
            final(self)@.topology == old(self)@.topology,
            builder_step_holds(old(self)@, final(self)@, BuilderCall::AddVertex(vertex)),
    {
        let index = self.vertices.len() as u32;
        self.vertices.push(vertex);
        assert(self.vertices@ =~= old(self)@.vertices + call_vertices(BuilderCall::AddVertex(vertex)));
        index
    }

    /// Appends vertices and returns the indices they get: `start..start + n` where
    /// `start` and `n` are the old vertex count and the number added, as `u32`.
    pub fn add_vertices(&mut self, vertices: &[V]) -> (r: Vec<u32>)
        requires
            (old(self)@.vertices.len() as u32) + (vertices@.len() as u32) <= u32::MAX,
        ensures
            final(self)@.vertices == old(self)@.vertices + vertices@,
            final(self)@.indices == old(self)@.indices,
            final(self)@.topology == old(self)@.topology,
            builder_step_holds(old(self)@, final(self)@, BuilderCall::AddVertices(vertices@)),
            r@.len() == vertices@.len() as u32,
            forall|i: int|
                0 <= i < r@.len() ==> #[trigger] r@[i] == (old(self)@.vertices.len() as u32) + i,
    {
        let start = self.vertices.len() as u32;
        let count = vertices.len() as u32;
        let ghost old_v = self.vertices@;
        let mut i: usize = 0;
        while i < vertices.len()
            invariant
                i <= vertices@.len(),
                self.vertices@ == old_v + vertices@.take(i as int),
                self.indices@ == old(self)@.indices,
                self.topology == old(self)@.topology,
            decreases vertices@.len() - i,
        {
            let v = vertices[i];
            self.vertices.push(v);
            assert(self.vertices@ =~= old_v + vertices@.take(i + 1));
            i = i + 1;
        }
        assert(vertices@.take(vertices@.len() as int) =~= vertices@);
        let end = start + count;
        let mut r: Vec<u32> = Vec::new();
        let mut k = start;
        let ghost mid = self@;
        while k < end
            invariant
                self@ == mid,
                start <= k <= end,
                r@.len() == k - start,
                forall|i: int| 0 <= i < r@.len() ==> #[trigger] r@[i] == start + i,
            decreases end - k,
        {
            r.push(k);
            k = k + 1;
        }
        r
    }

    pub fn add_triangle(&mut self, a: u32, b: u32, c: u32)
        ensures
            final(self)@.indices == old(self)@.indices + seq![a, b, c],
            final(self)@.vertices == old(self)@.vertices,
            final(self)@.topology == old(self)@.topology,
            builder_step_holds(old(self)@, final(self)@, BuilderCall::AddTriangle(a, b, c)),
    {
        let ghost o = self.indices@;
        self.indices.push(a);
        self.indices.push(b);
        self.indices.push(c);
        assert(self.indices@ =~= o + seq![a, b, c]);
    }

    /// Appends a quad as the two triangles ABC and ACD.
    pub fn add_quad(&mut self, a: u32, b: u32, c: u32, d: u32)
        ensures
            final(self)@.indices == old(self)@.indices + seq![a, b, c, a, c, d],
            final(self)@.vertices == old(self)@.vertices,
            final(self)@.topology == old(self)@.topology,
            builder_step_holds(old(self)@, final(self)@, BuilderCall::AddQuad(a, b, c, d)),
    {
        let ghost o = self.indices@;
        self.indices.push(a);
        self.indices.push(b);
        self.indices.push(c);
        self.indices.push(a);
        self.indices.push(c);
        self.indices.push(d);
        assert(self.indices@ =~= o + seq![a, b, c, a, c, d]);
    }

    pub fn build(self) -> (r: Mesh<V>)
        ensures
            r.vertices@ == self@.vertices,
            r.indices@ == self@.indices,
            r.primitive_topology == self@.topology,
    {
        Mesh { vertices: self.vertices, indices: self.indices, primitive_topology: self.topology }
    }
}

// ============================================================================
// Textures
// ============================================================================

/// Texture format specification.
#[derive(Debug, Clone, Copy, PartialEq, Eq, Structural)]
pub enum TextureFormat {
    R8,
    RG8,
    RGB8,
    RGBA8,
    R16F,
    RG16F,
    RGB16F,
    RGBA16F,
    R32F,
    RG32F,
    RGB32F,
    RGBA32F,
}

/// Bytes per pixel of each format.
pub open spec fn spec_bytes_per_pixel(f: TextureFormat) -> usize {
    match f {
        TextureFormat::R8 => 1,
        TextureFormat::RG8 => 2,
        TextureFormat::RGB8 => 3,
        TextureFormat::RGBA8 => 4,
        TextureFormat::R16F => 2,
        TextureFormat::RG16F => 4,
        TextureFormat::RGB16F => 6,
        TextureFormat::RGBA16F => 8,
        TextureFormat::R32F => 4,
        TextureFormat::RG32F => 8,
        TextureFormat::RGB32F => 12,
        TextureFormat::RGBA32F => 16,
    }
}

/// Channels of each format.
pub open spec fn spec_channel_count(f: TextureFormat) -> u32 {
    match f {
        TextureFormat::R8 | TextureFormat::R16F | TextureFormat::R32F => 1,
        TextureFormat::RG8 | TextureFormat::RG16F | TextureFormat::RG32F => 2,
        TextureFormat::RGB8 | TextureFormat::RGB16F | TextureFormat::RGB32F => 3,
        TextureFormat::RGBA8 | TextureFormat::RGBA16F | TextureFormat::RGBA32F => 4,
    }
}

impl TextureFormat {
    pub fn bytes_per_pixel(&self) -> (r: usize)
        ensures
            r == spec_bytes_per_pixel(*self),
    {
        match self {
            TextureFormat::R8 => 1,
            TextureFormat::RG8 => 2,
            TextureFormat::RGB8 => 3,
            TextureFormat::RGBA8 => 4,
            TextureFormat::R16F => 2,
            TextureFormat::RG16F => 4,
            TextureFormat::RGB16F => 6,
            TextureFormat::RGBA16F => 8,
            TextureFormat::R32F => 4,
            TextureFormat::RG32F => 8,
            TextureFormat::RGB32F => 12,
            TextureFormat::RGBA32F => 16,
        }
    }

    pub fn channel_count(&self) -> (r: u32)
        ensures
            r == spec_channel_count(*self),
    {
        match self {
            TextureFormat::R8 | TextureFormat::R16F | TextureFormat::R32F => 1,
            TextureFormat::RG8 | TextureFormat::RG16F | TextureFormat::RG32F => 2,
            TextureFormat::RGB8 | TextureFormat::RGB16F | TextureFormat::RGB32F => 3,
            TextureFormat::RGBA8 | TextureFormat::RGBA16F | TextureFormat::RGBA32F => 4,
        }
    }
}

/// 2D texture container.
#[derive(Debug, Clone)]
pub struct Texture2D {
    pub width: u32,
    pub height: u32,
    pub format: TextureFormat,
    pub data: Vec<u8>,
}

/// The byte offset of pixel `(x, y)`: row-major, `bytes_per_pixel` bytes per pixel.
pub open spec fn pixel_offset(t: Texture2D, x: u32, y: u32) -> int {
    (y * t.width + x) * spec_bytes_per_pixel(t.format)
}

/// The bytes a pixel access reads or writes: four for RGBA8, three for RGB8, none for the
/// other formats.
pub open spec fn touched_bytes(f: TextureFormat) -> int {
    match f {
        TextureFormat::RGBA8 => 4,
        TextureFormat::RGB8 => 3,
        _ => 0,
    }
}

/// Pixel `(x, y)` can be addressed without overflow and its bytes lie within `data`
/// (an access to a pixel inside the texture panics otherwise); pixels outside the texture
/// are never touched.
pub open spec fn pixel_access_ok(t: Texture2D, x: u32, y: u32) -> bool {
    (x < t.width && y < t.height) ==> {
        &&& y * t.width + x <= u32::MAX
        &&& pixel_offset(t, x, y) <= usize::MAX
        &&& pixel_offset(t, x, y) + touched_bytes(t.format) <= t.data@.len()
    }
}

/// The RGBA bytes of pixel `(x, y)`: RGB8 pixels read as opaque, pixels outside the
/// texture and formats without a byte reading read as all zero.
pub open spec fn spec_pixel_rgba8(t: Texture2D, x: u32, y: u32) -> Seq<u8> {
    let i = pixel_offset(t, x, y);
    if !(x < t.width && y < t.height) {
        seq![0u8, 0u8, 0u8, 0u8]
    } else if t.format == TextureFormat::RGBA8 {
        seq![t.data@[i], t.data@[i + 1], t.data@[i + 2], t.data@[i + 3]]
    } else if t.format == TextureFormat::RGB8 {
        seq![t.data@[i], t.data@[i + 1], t.data@[i + 2], 255u8]
    } else {
        seq![0u8, 0u8, 0u8, 0u8]
    }
}

/// The pixel data after writing RGBA bytes `c` to pixel `(x, y)`: RGBA8 takes all four,
/// RGB8 the first three, other formats and pixels outside the texture nothing.
pub open spec fn spec_written(t: Texture2D, x: u32, y: u32, c: Seq<u8>) -> Seq<u8> {
    let i = pixel_offset(t, x, y);
    if !(x < t.width && y < t.height) {
        t.data@
    } else if t.format == TextureFormat::RGBA8 {
        t.data@.update(i, c[0]).update(i + 1, c[1]).update(i + 2, c[2]).update(i + 3, c[3])
    } else if t.format == TextureFormat::RGB8 {
        t.data@.update(i, c[0]).update(i + 1, c[1]).update(i + 2, c[2])
    } else {
        t.data@
    }
}

impl Texture2D {
    /// A `width` x `height` texture of the given format with every byte zero.
    pub fn new(width: u32, height: u32, format: TextureFormat) -> (r: Self)
        requires
            width * height <= u32::MAX,
            width * height * spec_bytes_per_pixel(format) <= usize::MAX,
        ensures
            r.width == width,
            r.height == height,
            r.format == format,
            r.data@.len() == width * height * spec_bytes_per_pixel(format),
            forall|i: int| 0 <= i < r.data@.len() ==> #[trigger] r.data@[i] == 0u8,
    {
        let size = (width * height) as usize * format.bytes_per_pixel();
        let mut data: Vec<u8> = Vec::new();
        let mut i: usize = 0;
        while i < size
            invariant
                i <= size,
                data@.len() == i,
                forall|k: int| 0 <= k < i ==> #[trigger] data@[k] == 0u8,
            decreases size - i,
        {
            data.push(0u8);
            i = i + 1;
        }
        Texture2D { width, height, format, data }
    }

    /// Whether pixel `(x, y)` can be read or written (see `pixel_access_ok`): pixels
    /// outside the texture always can, being left alone.
    pub fn can_access_pixel(&self, x: u32, y: u32) -> (r: bool)
        ensures
            r == pixel_access_ok(*self, x, y),
    {
        if x >= self.width || y >= self.height {
            return true;
        }
        let (yw, w, xx): (u64, u64, u64) = (y as u64, self.width as u64, x as u64);
        assert(yw * w <= u32::MAX * u32::MAX) by (nonlinear_arith)
            requires
                yw <= u32::MAX,
                w <= u32::MAX,
        ;
        let index: u64 = yw * w + xx;
        if index > u32::MAX as u64 {
            return false;
        }
        let bpp: usize = self.format.bytes_per_pixel();
        let touched: u128 = match self.format {
            TextureFormat::RGBA8 => 4,
            TextureFormat::RGB8 => 3,
            _ => 0,
        };
        let offset: u128 = index as u128 * bpp as u128;
        assert(offset == pixel_offset(*self, x, y)) by (nonlinear_arith)
            requires
                index == y * self.width + x,
                bpp == spec_bytes_per_pixel(self.format),
                offset == index * bpp,
        ;
        offset <= usize::MAX as u128 && offset + touched <= self.data.len() as u128
    }

    /// The RGBA bytes of pixel `(x, y)` (see `spec_pixel_rgba8`).
    pub fn pixel_rgba8(&self, x: u32, y: u32) -> (r: [u8; 4])
        requires
            pixel_access_ok(*self, x, y),
        ensures
            r@ == spec_pixel_rgba8(*self, x, y),
    {
        if x >= self.width || y >= self.height {
            let z: [u8; 4] = [0u8, 0u8, 0u8, 0u8];
            assert(z@ =~= seq![0u8, 0u8, 0u8, 0u8]);
            return z;
        }
        let index = ((y * self.width + x) as usize) * self.format.bytes_per_pixel();
        let n = self.data.len();
        assert(index as int == pixel_offset(*self, x, y));
        match self.format {
            TextureFormat::RGBA8 => {
                let r: [u8; 4] = [
                    self.data[index],
                    self.data[index + 1],
                    self.data[index + 2],
                    self.data[index + 3],
                ];
                assert(r@ =~= spec_pixel_rgba8(*self, x, y));
                r
            },
            TextureFormat::RGB8 => {
                let r: [u8; 4] = [self.data[index], self.data[index + 1], self.data[index + 2], 255u8];
                assert(r@ =~= spec_pixel_rgba8(*self, x, y));
                r
            },
            _ => {
                let z: [u8; 4] = [0u8, 0u8, 0u8, 0u8];
                assert(z@ =~= spec_pixel_rgba8(*self, x, y));
                z
            },
        }
    }

    /// Writes RGBA bytes to pixel `(x, y)` (see `spec_written`).
    pub fn set_pixel_rgba8(&mut self, x: u32, y: u32, c: [u8; 4])
        requires
            pixel_access_ok(*old(self), x, y),
        ensures
            final(self).data@ == spec_written(*old(self), x, y, c@),
            final(self).width == old(self).width,
            final(self).height == old(self).height,
            final(self).format == old(self).format,
    {
        if x >= self.width || y >= self.height {
            return;
        }
        let index = ((y * self.width + x) as usize) * self.format.bytes_per_pixel();
        let n = self.data.len();
        assert(index as int == pixel_offset(*old(self), x, y));
        match self.format {
            TextureFormat::RGBA8 => {
                self.data.set(index, c[0]);
                self.data.set(index + 1, c[1]);
                self.data.set(index + 2, c[2]);
                self.data.set(index + 3, c[3]);
            },
            TextureFormat::RGB8 => {
                self.data.set(index, c[0]);
                self.data.set(index + 1, c[1]);
                self.data.set(index + 2, c[2]);
            },
            _ => {},
        }
    }
}

/// The four bytes at pixel `(x, y)` of row-major RGBA8 data `d` with rows of `w` pixels.
pub open spec fn rgba_at(d: Seq<u8>, w: u32, x: u32, y: u32) -> Seq<u8> {
    let i = (y * w + x) * 4;
    seq![d[i], d[i + 1], d[i + 2], d[i + 3]]
}

/// The color of pixel `(x, y)` of a checkerboard with squares of `size` pixels: `c1` where
/// the square column and row have the same parity, else `c2`.
pub open spec fn checker_color(x: u32, y: u32, size: u32, c1: Seq<u8>, c2: Seq<u8>) -> Seq<u8> {
    if ((x / size) % 2 + (y / size) % 2) % 2 == 0 {
        c1
    } else {
        c2
    }
}

proof fn lemma_row_major_before(w: int, x1: int, y1: int, x: int, y: int)
    requires
        0 <= x1 < w,
        0 <= x <= w,
        0 <= y1,
        0 <= y,
        y1 < y || (y1 == y && x1 < x),
    ensures
        y1 * w + x1 < y * w + x,
{
    if y1 < y {
        assert(y1 * w + x1 < y * w) by (nonlinear_arith)
            requires
                y1 < y,
                x1 < w,
                0 <= x1,
                0 <= y1,
        ;
    }
}

/// An RGBA8 texture whose every pixel has the color `checker_color` gives it.
fn checker_image(width: u32, height: u32, size: u32, c1: [u8; 4], c2: [u8; 4]) -> (r: Texture2D)
    requires
        width * height <= u32::MAX,
        width * height * 4 <= usize::MAX,
        width > 0 && height > 0 ==> size > 0,
    ensures
        r.width == width,
        r.height == height,
        r.format == TextureFormat::RGBA8,
        r.data@.len() == width * height * 4,
        forall|x: u32, y: u32|
            x < width && y < height ==> #[trigger] spec_pixel_rgba8(r, x, y) == checker_color(
                x,
                y,
                size,
                c1@,
                c2@,
            ),
{
    let mut data: Vec<u8> = Vec::new();
    let mut y: u32 = 0;
    while y < height
        invariant
            width * height <= u32::MAX,
            width * height * 4 <= usize::MAX,
            width > 0 && height > 0 ==> size > 0,
            y <= height,
            data@.len() == (y * width) * 4,
            forall|x1: u32, y1: u32|
                x1 < width && y1 < y ==> #[trigger] rgba_at(data@, width, x1, y1) == checker_color(
                    x1,
                    y1,
                    size,
                    c1@,
                    c2@,
                ),
        decreases height - y,
    {
        let mut x: u32 = 0;
        while x < width
            invariant
                width * height <= u32::MAX,
                width * height * 4 <= usize::MAX,
                width > 0 ==> size > 0,
                y < height,
                x <= width,
                data@.len() == (y * width + x) * 4,
                forall|x1: u32, y1: u32|
                    x1 < width && (y1 < y || (y1 == y && x1 < x)) ==> #[trigger] rgba_at(
                        data@,
                        width,
                        x1,
                        y1,
                    ) == checker_color(x1, y1, size, c1@, c2@),
            decreases width - x,
        {
            assert(y * width + x < width * height) by (nonlinear_arith)
                requires
                    y < height,
                    x < width,
            ;
            let c = if ((x / size) % 2 + (y / size) % 2) % 2 == 0 {
                c1
            } else {
                c2
            };
            let ghost before = data@;
            data.push(c[0]);
            data.push(c[1]);
            data.push(c[2]);
            data.push(c[3]);
            proof {
                let p = (y * width + x) * 4;
                assert(data@.len() == p + 4);
                assert forall|x1: u32, y1: u32|
                    x1 < width && (y1 < y || (y1 == y && x1 < x + 1)) implies #[trigger] rgba_at(
                        data@,
                        width,
                        x1,
                        y1,
                    ) == checker_color(x1, y1, size, c1@, c2@) by {
                    if y1 == y && x1 == x {
                        assert(rgba_at(data@, width, x1, y1) =~= c@);
                    } else {
                        lemma_row_major_before(width as int, x1 as int, y1 as int, x as int, y as int);
                        let q = (y1 * width + x1) * 4;
                        assert(q + 3 < p);
                        assert(data@[q] == before[q]);
                        assert(data@[q + 1] == before[q + 1]);
                        assert(data@[q + 2] == before[q + 2]);
                        assert(data@[q + 3] == before[q + 3]);
                        assert(rgba_at(data@, width, x1, y1) =~= rgba_at(before, width, x1, y1));
                    }
                }
            }
            x = x + 1;
        }
        assert((y + 1) * width == y * width + width) by (nonlinear_arith);
        y = y + 1;
    }
    assert(height * width == width * height) by (nonlinear_arith);
    let r = Texture2D { width, height, format: TextureFormat::RGBA8, data };
    proof {
        assert forall|x: u32, y: u32| x < width && y < height implies #[trigger] spec_pixel_rgba8(r, x, y)
            == checker_color(x, y, size, c1@, c2@) by {
            assert(spec_pixel_rgba8(r, x, y) =~= rgba_at(r.data@, width, x, y));
        }
    }
    r
}

/// Different pixels of a row-major grid have different linear indices.
proof fn lemma_pixel_index_unique(w: int, x: int, y: int, x2: int, y2: int)
    requires
        0 <= x < w,
        0 <= x2 < w,
        0 <= y,
        0 <= y2,
        x != x2 || y != y2,
    ensures
        y * w + x != y2 * w + x2,
{
    if y == y2 {
    } else if y < y2 {
        assert(y * w + x < y2 * w + x2) by (nonlinear_arith)
            requires
                0 <= x < w,
                0 <= x2,
                y < y2,
        {
            assert(y2 * w >= (y + 1) * w);
        }
    } else {
        assert(y2 * w + x2 < y * w + x) by (nonlinear_arith)
            requires
                0 <= x2 < w,
                0 <= x,
                y2 < y,
        {
            assert(y * w >= (y2 + 1) * w);
        }
    }
}

proof fn lemma_quads_disjoint(i: int, j: int)
    requires
        i != j,
    ensures
        i * 4 + 3 < j * 4 || j * 4 + 3 < i * 4,
{
}

/// Reading a pixel of an RGBA8 texture gives back the bytes last written to it, and
/// writing a pixel leaves every other pixel as it was.
pub proof fn law_pixel_write_read(t: Texture2D, t2: Texture2D, x: u32, y: u32, c: Seq<u8>, x2: u32, y2: u32)
    requires
        t.format == TextureFormat::RGBA8,
        pixel_access_ok(t, x, y),
        pixel_access_ok(t, x2, y2),
        c.len() == 4,
        t2.width == t.width,
        t2.height == t.height,
        t2.format == t.format,
        t2.data@ == spec_written(t, x, y, c),
    ensures
        x < t.width && y < t.height ==> spec_pixel_rgba8(t2, x, y) == c,
        (x2 != x || y2 != y) ==> spec_pixel_rgba8(t2, x2, y2) == spec_pixel_rgba8(t, x2, y2),
{
    if x < t.width && y < t.height {
        assert(spec_pixel_rgba8(t2, x, y) =~= c);
    }
    if (x2 != x || y2 != y) && x2 < t.width && y2 < t.height && x < t.width && y < t.height {
        lemma_pixel_index_unique(t.width as int, x as int, y as int, x2 as int, y2 as int);
        let i = y * t.width + x;
        let j = y2 * t.width + x2;
        assert(pixel_offset(t, x, y) == i * 4);
        assert(pixel_offset(t, x2, y2) == j * 4);
        assert(i != j);
        lemma_quads_disjoint(i, j);
        assert(0 <= j * 4 && j * 4 + 3 < t.data@.len());
        let d = t.data@;
        let d2 = t2.data@;
        assert(d2 == d.update(i * 4, c[0]).update(i * 4 + 1, c[1]).update(i * 4 + 2, c[2]).update(i * 4 + 3, c[3]));
        assert(d2[j * 4] == d[j * 4]);
        assert(d2[j * 4 + 1] == d[j * 4 + 1]);
        assert(d2[j * 4 + 2] == d[j * 4 + 2]);
        assert(d2[j * 4 + 3] == d[j * 4 + 3]);
        assert(pixel_offset(t2, x2, y2) == j * 4);
        assert(spec_pixel_rgba8(t2, x2, y2) =~= spec_pixel_rgba8(t, x2, y2));
    }
}

/// Procedural texture generators (byte-level).
pub struct TextureGenerator;

impl TextureGenerator {
    /// An RGBA8 texture with every pixel `color`.
    pub fn solid_rgba8(width: u32, height: u32, color: [u8; 4]) -> (r: Texture2D)
        requires
            width * height <= u32::MAX,
            width * height * 4 <= usize::MAX,
        ensures
            r.width == width,
            r.height == height,
            r.format == TextureFormat::RGBA8,
            r.data@.len() == width * height * 4,
            forall|x: u32, y: u32|
                x < width && y < height ==> #[trigger] spec_pixel_rgba8(r, x, y) == color@,
    {
        checker_image(width, height, 1, color, color)
    }

    /// An RGBA8 checkerboard with squares of `checker_size` pixels, `color1` in the square
    /// at the origin.
    pub fn checkerboard_rgba8(
        width: u32,
        height: u32,
        checker_size: u32,
        color1: [u8; 4],
        color2: [u8; 4],
    ) -> (r: Texture2D)
        requires
            width * height <= u32::MAX,
            width * height * 4 <= usize::MAX,
            width > 0 && height > 0 ==> checker_size > 0,
        ensures
            r.width == width,
            r.height == height,
            r.format == TextureFormat::RGBA8,
            r.data@.len() == width * height * 4,
            forall|x: u32, y: u32|
                x < width && y < height ==> #[trigger] spec_pixel_rgba8(r, x, y) == checker_color(
                    x,
                    y,
                    checker_size,
                    color1@,
                    color2@,
                ),
    {
        checker_image(width, height, checker_size, color1, color2)
    }
}

// ============================================================================
// Index layouts of the primitive shapes
// ============================================================================

/// The six indices of cell `k` (two triangles) of an index list.
pub open spec fn cell_at(s: Seq<u32>, k: int) -> Seq<u32> {
    s.subrange(6 * k, 6 * k + 6)
}

/// The two triangles of cell `(row, col)` of a UV sphere whose rings hold `cols + 1`
/// vertices: `(current, next, current + 1)` and `(current + 1, next, next + 1)`.
pub open spec fn sphere_cell(cols: int, row: int, col: int) -> Seq<u32> {
    let current = row * (cols + 1) + col;
    let next = current + cols + 1;
    seq![
        current as u32,
        next as u32,
        (current + 1) as u32,
        (current + 1) as u32,
        next as u32,
        (next + 1) as u32,
    ]
}

/// The quad of cell `(row, col)` of a plane grid whose rows hold `cols + 1` vertices,
/// as the triangles ABC and ACD of `(i, i + 1, next_row + 1, next_row)`.
pub open spec fn plane_cell(cols: int, row: int, col: int) -> Seq<u32> {
    let i = row * (cols + 1) + col;
    let next_row = i + cols + 1;
    seq![
        i as u32,
        (i + 1) as u32,
        (next_row + 1) as u32,
        i as u32,
        (next_row + 1) as u32,
        next_row as u32,
    ]
}

/// The number of grid vertex `(r, c)` in a plane whose `cols` quads per row give rows of
/// `cols + 1` vertices, numbered row by row.
pub open spec fn grid_vertex(cols: int, r: int, c: int) -> int {
    r * (cols + 1) + c
}

/// The quad of plane cell `(row, col)` is made of the four grid vertices at its corners,
/// split into the triangles (top-left, top-right, bottom-right) and (top-left,
/// bottom-right, bottom-left); every index lies among the `(rows + 1) * (cols + 1)` grid
/// vertices; and neighbouring cells share their common corners: the right corners of a
/// cell are the left corners of the next cell in the row, and its bottom corners the top
/// corners of the cell below.
pub proof fn law_plane_cells_use_grid_corners(rows: u32, cols: u32, row: int, col: int)
    requires
        grid_fits(rows, cols),
        0 <= row < rows,
        0 <= col < cols,
    ensures
        plane_cell(cols as int, row, col)[0] as int == grid_vertex(cols as int, row, col),
        plane_cell(cols as int, row, col)[1] as int == grid_vertex(cols as int, row, col + 1),
        plane_cell(cols as int, row, col)[2] as int == grid_vertex(cols as int, row + 1, col + 1),
        plane_cell(cols as int, row, col)[3] as int == grid_vertex(cols as int, row, col),
        plane_cell(cols as int, row, col)[4] as int == grid_vertex(cols as int, row + 1, col + 1),
        plane_cell(cols as int, row, col)[5] as int == grid_vertex(cols as int, row + 1, col),
        forall|k: int| 0 <= k < 6 ==> (plane_cell(cols as int, row, col)[k] as int) < (rows + 1) * (cols + 1),
        col + 1 < cols ==> plane_cell(cols as int, row, col)[1] == plane_cell(cols as int, row, col + 1)[0]
            && plane_cell(cols as int, row, col)[2] == plane_cell(cols as int, row, col + 1)[5],
        row + 1 < rows ==> plane_cell(cols as int, row, col)[5] == plane_cell(cols as int, row + 1, col)[0]
            && plane_cell(cols as int, row, col)[2] == plane_cell(cols as int, row + 1, col)[1],
{
    let w = cols as int;
    let h = rows as int;
    assert(row * (w + 1) + col + w + 2 <= h * (w + 1) + w) by (nonlinear_arith)
        requires
            0 <= row < h,
            0 <= col < w,
    ;
    assert((row + 1) * (w + 1) == row * (w + 1) + w + 1) by (nonlinear_arith);
    assert((row + 2) * (w + 1) == row * (w + 1) + 2 * w + 2) by (nonlinear_arith);
    assert(h * (w + 1) + w < (h + 1) * (w + 1)) by (nonlinear_arith)
        requires
            0 <= w,
    ;
    assert(0 <= row * (w + 1)) by (nonlinear_arith)
        requires
            0 <= row,
            0 <= w,
    ;
    if row + 1 < rows {
        assert((row + 1) * (w + 1) + col + w + 2 <= h * (w + 1) + w) by (nonlinear_arith)
            requires
                0 <= row + 1 < h,
                0 <= col < w,
        ;
    }
}

/// The side quad `i` of a cylinder with `segments` segments, whose bottom and top
/// vertices alternate, wrapping around to the first pair after the last segment.
pub open spec fn cylinder_cell(segments: int, i: int) -> Seq<u32> {
    let bottom_curr = i * 2;
    let top_curr = bottom_curr + 1;
    let bottom_next = ((i + 1) % segments) * 2;
    let top_next = bottom_next + 1;
    seq![
        bottom_curr as u32,
        bottom_next as u32,
        top_next as u32,
        bottom_curr as u32,
        top_next as u32,
        top_curr as u32,
    ]
}

/// The two triangles of face `f` of a cube whose faces hold four vertices each.
pub open spec fn cube_face(f: int) -> Seq<u32> {
    let b = 4 * f;
    seq![b as u32, (b + 1) as u32, (b + 2) as u32, (b + 2) as u32, (b + 3) as u32, b as u32]
}

/// The largest index a grid of `rows` x `cols` cells uses fits in `u32`.
pub open spec fn grid_fits(rows: u32, cols: u32) -> bool {
    rows == 0 || cols == 0 || rows * (cols + 1) + cols <= u32::MAX
}

proof fn lemma_cell_push(before: Seq<u32>, after: Seq<u32>, k: int, cell: Seq<u32>)
    requires
        before.len() == 6 * k,
        cell.len() == 6,
        after == before + cell,
    ensures
        cell_at(after, k) == cell,
        forall|j: int| 0 <= j < k ==> cell_at(after, j) == cell_at(before, j),
{
    assert(cell_at(after, k) =~= cell);
    assert forall|j: int| 0 <= j < k implies cell_at(after, j) == cell_at(before, j) by {
        assert(cell_at(after, j) =~= cell_at(before, j));
    }
}

fn grid_indices(rows: u32, cols: u32, plane: bool) -> (r: Vec<u32>)
    requires
        grid_fits(rows, cols),
    ensures
        r@.len() == 6 * rows * cols,
        forall|row: int, col: int|
            0 <= row < rows && 0 <= col < cols ==> #[trigger] cell_at(r@, row * cols + col) == if plane {
                plane_cell(cols as int, row, col)
            } else {
                sphere_cell(cols as int, row, col)
            },
{
    let mut r: Vec<u32> = Vec::new();
    let mut row: u32 = 0;
    while row < rows
        invariant
            grid_fits(rows, cols),
            row <= rows,
            r@.len() == 6 * (row * cols),
            forall|row1: int, col1: int|
                0 <= row1 < row && 0 <= col1 < cols ==> #[trigger] cell_at(r@, row1 * cols + col1) == if plane {
                    plane_cell(cols as int, row1, col1)
                } else {
                    sphere_cell(cols as int, row1, col1)
                },
        decreases rows - row,
    {
        let mut col: u32 = 0;
        while col < cols
            invariant
                grid_fits(rows, cols),
                row < rows,
                col <= cols,
                r@.len() == 6 * (row * cols + col),
                forall|row1: int, col1: int|
                    0 <= col1 < cols && (0 <= row1 < row || (row1 == row && 0 <= col1 < col)) ==> #[trigger] cell_at(
                        r@,
                        row1 * cols + col1,
                    ) == if plane {
                        plane_cell(cols as int, row1, col1)
                    } else {
                        sphere_cell(cols as int, row1, col1)
                    },
            decreases cols - col,
        {
            assert(row * (cols + 1) + col + cols + 2 <= rows * (cols + 1) + cols) by (nonlinear_arith)
                requires
                    row < rows,
                    col < cols,
            ;
            let current = row * (cols + 1) + col;
            let next = current + cols + 1;
            let ghost before = r@;
            let ghost cell = if plane {
                plane_cell(cols as int, row as int, col as int)
            } else {
                sphere_cell(cols as int, row as int, col as int)
            };
            if plane {
                r.push(current);
                r.push(current + 1);
                r.push(next + 1);
                r.push(current);
                r.push(next + 1);
                r.push(next);
            } else {
                r.push(current);
                r.push(next);
                r.push(current + 1);
                r.push(current + 1);
                r.push(next);
                r.push(next + 1);
            }
            proof {
                assert(r@ =~= before + cell);
                lemma_cell_push(before, r@, (row * cols + col) as int, cell);
                assert forall|row1: int, col1: int|
                    0 <= col1 < cols && (0 <= row1 < row || (row1 == row && 0 <= col1 < col + 1)) implies #[trigger] cell_at(
                        r@,
                        row1 * cols + col1,
                    ) == if plane {
                        plane_cell(cols as int, row1, col1)
                    } else {
                        sphere_cell(cols as int, row1, col1)
                    } by {
                    if row1 == row && col1 == col {
                    } else {
                        lemma_row_major_before(cols as int, col1, row1, col as int, row as int);
                        assert(0 <= row1 * cols + col1) by (nonlinear_arith)
                            requires
                                0 <= row1,
                                0 <= col1,
                                0 <= cols,
                        ;
                    }
                }
            }
            col = col + 1;
        }
        assert((row + 1) * cols == row * cols + cols) by (nonlinear_arith);
        row = row + 1;
    }
    assert(6 * (rows * cols) == 6 * rows * cols) by (nonlinear_arith);
    r
}

/// Primitive geometry generators: the index layouts of the shapes.
pub struct Primitives;

impl Primitives {
    /// The triangle indices of a UV sphere with `long_segments` x `lat_segments` cells.
    pub fn sphere_indices(long_segments: u32, lat_segments: u32) -> (r: Vec<u32>)
        requires
            grid_fits(lat_segments, long_segments),
        ensures
            r@.len() == 6 * lat_segments * long_segments,
            forall|lat: int, lon: int|
                0 <= lat < lat_segments && 0 <= lon < long_segments ==> #[trigger] cell_at(
                    r@,
                    lat * long_segments + lon,
                ) == sphere_cell(long_segments as int, lat, lon),
    {
        grid_indices(lat_segments, long_segments, false)
    }

    /// The triangle indices of a plane with `w_segments` x `h_segments` quads.
    pub fn plane_indices(w_segments: u32, h_segments: u32) -> (r: Vec<u32>)
        requires
            grid_fits(h_segments, w_segments),
        ensures
            r@.len() == 6 * h_segments * w_segments,
            forall|y: int, x: int|
                0 <= y < h_segments && 0 <= x < w_segments ==> #[trigger] cell_at(
                    r@,
                    y * w_segments + x,
                ) == plane_cell(w_segments as int, y, x),
    {
        grid_indices(h_segments, w_segments, true)
    }

    /// The triangle indices of the side of a cylinder with `segments` segments.
    pub fn cylinder_indices(segments: u32) -> (r: Vec<u32>)
        requires
            segments == 0 || 2 * segments - 1 <= u32::MAX,
        ensures
            r@.len() == 6 * segments,
            forall|i: int| 0 <= i < segments ==> #[trigger] cell_at(r@, i) == cylinder_cell(segments as int, i),
    {
        let mut r: Vec<u32> = Vec::new();
        let mut i: u32 = 0;
        while i < segments
            invariant
                segments == 0 || 2 * segments - 1 <= u32::MAX,
                i <= segments,
                r@.len() == 6 * i,
                forall|k: int| 0 <= k < i ==> #[trigger] cell_at(r@, k) == cylinder_cell(segments as int, k),
            decreases segments - i,
        {
            let bottom_curr = i * 2;
            let top_curr = bottom_curr + 1;
            let bottom_next = ((i + 1) % segments) * 2;
            let top_next = bottom_next + 1;
            let ghost before = r@;
            r.push(bottom_curr);
            r.push(bottom_next);
            r.push(top_next);
            r.push(bottom_curr);
            r.push(top_next);
            r.push(top_curr);
            proof {
                assert(r@ =~= before + cylinder_cell(segments as int, i as int));
                lemma_cell_push(before, r@, i as int, cylinder_cell(segments as int, i as int));
            }
            i = i + 1;
        }
        r
    }

    /// The triangle indices of a cube whose six faces hold four vertices each.
    pub fn cube_indices() -> (r: Vec<u32>)
        ensures
            r@.len() == 36,
            forall|f: int| 0 <= f < 6 ==> #[trigger] cell_at(r@, f) == cube_face(f),
    {
        let mut r: Vec<u32> = Vec::new();
        let mut f: u32 = 0;
        while f < 6
            invariant
                f <= 6,
                r@.len() == 6 * f,
                forall|k: int| 0 <= k < f ==> #[trigger] cell_at(r@, k) == cube_face(k),
            decreases 6 - f,
        {
            let b = 4 * f;
            let ghost before = r@;
            r.push(b);
            r.push(b + 1);
            r.push(b + 2);
            r.push(b + 2);
            r.push(b + 3);
            r.push(b);
            proof {
                assert(r@ =~= before + cube_face(f as int));
                lemma_cell_push(before, r@, f as int, cube_face(f as int));
            }
            f = f + 1;
        }
        r
    }
}

/// Asset bundle for common rendering scenarios.
#[derive(Debug)]
pub struct AssetBundle<V: Vertex> {
    pub mesh: Mesh<V>,
    pub textures: Vec<Texture2D>,
}

/// PBR material asset generator.
pub struct PbrAssets;

/// Types that provide procedural meshes.
pub trait MeshProvider {
    type Vertex: Vertex;

    fn mesh() -> &'static Mesh<Self::Vertex>;
}

/// Types that provide procedural textures.
pub trait TextureProvider {
    fn texture() -> &'static Texture2D;
}

/// Asset bundle types.
pub trait BundleProvider {
    fn asset_count() -> usize;
}

} // verus!
