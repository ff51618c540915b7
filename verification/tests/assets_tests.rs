use macrokid_graphics::assets::{
    MeshBuilder, PrimitiveTopology, Primitives, Texture2D, TextureFormat, TextureGenerator, Vertex,
};

#[derive(Clone, Copy, Debug, PartialEq)]
struct P(u32);

impl Vertex for P {
    fn to_bytes(&self) -> Vec<u8> {
        self.0.to_le_bytes().to_vec()
    }
    fn byte_size() -> usize {
        4
    }
}

#[test]
fn mesh_builder_collects_vertices_and_indices() {
    let mut b: MeshBuilder<P> = MeshBuilder::new(PrimitiveTopology::TriangleList);
    assert_eq!(b.add_vertex(P(7)), 0);
    assert_eq!(b.add_vertices(&[P(8), P(9), P(10)]), vec![1, 2, 3]);
    b.add_triangle(0, 1, 2);
    b.add_quad(0, 1, 2, 3);
    let m = b.build();
    assert_eq!(m.vertices, vec![P(7), P(8), P(9), P(10)]);
    assert_eq!(m.vertices[2], P(9));
    assert_eq!(m.indices, vec![0, 1, 2, 0, 1, 2, 0, 2, 3]);
    assert_eq!(m.primitive_topology, PrimitiveTopology::TriangleList);
}

#[test]
fn texture_formats() {
    assert_eq!(TextureFormat::RGBA8.bytes_per_pixel(), 4);
    assert_eq!(TextureFormat::RGB8.bytes_per_pixel(), 3);
    assert_eq!(TextureFormat::RGBA8.channel_count(), 4);
}

#[test]
fn pixel_write_then_read() {
    let mut t = Texture2D::new(3, 2, TextureFormat::RGBA8);
    assert_eq!(t.data.len(), 24);
    t.set_pixel_rgba8(2, 1, [1, 2, 3, 4]);
    assert_eq!(t.pixel_rgba8(2, 1), [1, 2, 3, 4]);
    assert_eq!(t.pixel_rgba8(1, 1), [0, 0, 0, 0]);
    assert_eq!(t.pixel_rgba8(5, 5), [0, 0, 0, 0]);
    let mut r = Texture2D::new(2, 2, TextureFormat::RGB8);
    r.set_pixel_rgba8(0, 1, [9, 8, 7, 6]);
    assert_eq!(r.pixel_rgba8(0, 1), [9, 8, 7, 255]);
}

#[test]
fn generated_textures() {
    let s = TextureGenerator::solid_rgba8(2, 2, [5, 6, 7, 8]);
    assert_eq!(s.pixel_rgba8(1, 1), [5, 6, 7, 8]);
    let c = TextureGenerator::checkerboard_rgba8(4, 4, 2, [255, 255, 255, 255], [0, 0, 0, 255]);
    assert_eq!(c.pixel_rgba8(0, 0), [255, 255, 255, 255]);
    assert_eq!(c.pixel_rgba8(2, 0), [0, 0, 0, 255]);
    assert_eq!(c.pixel_rgba8(2, 2), [255, 255, 255, 255]);
}

#[test]
fn primitive_index_patterns() {
    assert_eq!(Primitives::plane_indices(1, 1), vec![0, 1, 3, 0, 3, 2]);
    assert_eq!(Primitives::sphere_indices(1, 1), vec![0, 2, 1, 1, 2, 3]);
    assert_eq!(Primitives::cylinder_indices(2), vec![0, 2, 3, 0, 3, 1, 2, 0, 1, 2, 1, 3]);
    let cube = Primitives::cube_indices();
    assert_eq!(cube.len(), 36);
    assert_eq!(&cube[0..6], &[0, 1, 2, 2, 3, 0]);
}
