//! The geometry types, the split evaluator, and the render-side state
//! records.

use raytracer::buffer::{IndexBuffer, VertexBuffer};
use raytracer::bvh::BVHBuilder;
use raytracer::framebuffer::Framebuffer;
use raytracer::geometry_set::{Attribute, GeometrySetBuilder};
use raytracer::gl_types::{AttributeType, TextureAttachment, TextureFilter, TextureFormat};
use raytracer::renderbuffer::Renderbuffer;
use raytracer::resource::Resource;
use raytracer::shader::{Shader, ShaderProgram, ShaderProgramBuilder};
use raytracer::texture::Texture;
use raytracer::texture_manager::TextureManager;
use raytracer::types::{Triangle, Vec3, AABB, AABBBuilder};

#[test]
fn aabb_builder_accumulates_extent() {
    let mut acc = AABBBuilder::new();
    acc.expand(&Vec3::new(1, 5, -2));
    acc.expand(&Vec3::new(-3, 2, 4));
    let bb = acc.build();
    assert_eq!(bb.min, Vec3::new(-3, 2, -2));
    assert_eq!(bb.max, Vec3::new(1, 5, 4));
}

#[test]
fn empty_accumulator_builds_zero_box_and_zero_area() {
    let acc = AABBBuilder::new();
    assert_eq!(acc.area(), 0);
    let bb = acc.build();
    assert_eq!(bb.min, Vec3::new(0, 0, 0));
    assert_eq!(bb.max, Vec3::new(0, 0, 0));
}

#[test]
fn area_is_half_surface_area() {
    // extents 2 x 3 x 4: the score is xy + yz + zx, half the true
    // surface area
    let bb = AABB::new(Vec3::new(0, 0, 0), Vec3::new(2, 3, 4));
    assert_eq!(bb.area(), 2 * 3 + 3 * 4 + 4 * 2);
}

#[test]
fn merging_accumulators() {
    let mut left = AABBBuilder::new();
    left.expand(&Vec3::new(0, 0, 0));
    let mut right = AABBBuilder::new();
    right.expand(&Vec3::new(10, -1, 3));
    left.expand_other(&right);
    let bb = left.build();
    assert_eq!(bb.min, Vec3::new(0, -1, 0));
    assert_eq!(bb.max, Vec3::new(10, 0, 3));
    // merging an empty accumulator changes nothing
    let empty = AABBBuilder::new();
    let before = bb;
    let mut acc = AABBBuilder::new();
    acc.expand(&bb.min);
    acc.expand(&bb.max);
    acc.expand_other(&empty);
    assert_eq!(acc.build(), before);
}

#[test]
fn evaluator_reports_no_split_only_for_coincident_centroids() {
    let positions = vec![Vec3::new(0, 0, 0), Vec3::new(6, 0, 0), Vec3::new(0, 6, 0)];
    let tris = vec![Triangle::new(0, 1, 2, 0), Triangle::new(0, 1, 2, 0)];
    let builder = BVHBuilder::new(&tris, positions);
    assert!(builder.find_best_split_binned(0, 2).is_none());

    let positions = vec![
        Vec3::new(0, 0, 0),
        Vec3::new(6, 0, 0),
        Vec3::new(0, 6, 0),
        Vec3::new(100, 0, 0),
        Vec3::new(106, 0, 0),
        Vec3::new(100, 6, 0),
    ];
    let tris = vec![Triangle::new(0, 1, 2, 0), Triangle::new(3, 4, 5, 0)];
    let builder = BVHBuilder::new(&tris, positions);
    let (axis, pos, _cost) = builder.find_best_split_binned(0, 2).expect("a viable split");
    assert_eq!(axis, 0, "the clusters separate along x");
    // centroid keys (vertex sums) are 6 and 306; the split plane falls
    // between them
    assert!(6 < pos && pos <= 306);
}

#[test]
fn index_buffer_records_upload_size() {
    let mut ib = IndexBuffer::new(17);
    assert_eq!(ib.id(), 17);
    assert_eq!(ib.size(), 0);
    ib.buffer_data(36);
    assert_eq!(ib.size(), 36);
    let vb = VertexBuffer::new(4);
    assert_eq!(vb.id(), 4);
}

#[test]
fn attribute_type_sizes() {
    assert_eq!(AttributeType::Byte.size(), 1);
    assert_eq!(AttributeType::UByte.size(), 1);
    assert_eq!(AttributeType::Short.size(), 2);
    assert_eq!(AttributeType::UShort.size(), 2);
    assert_eq!(AttributeType::Int.size(), 4);
    assert_eq!(AttributeType::UInt.size(), 4);
    assert_eq!(AttributeType::Half.size(), 2);
    assert_eq!(AttributeType::Float.size(), 4);
    assert_eq!(AttributeType::Double.size(), 8);
}

#[test]
fn geometry_layout_strides_and_offsets() {
    let pos_vbo = VertexBuffer::new(1);
    let builder = GeometrySetBuilder::new()
        .add_buffer(&pos_vbo)
        .add_attribute(3, AttributeType::Float)
        .add_attribute(2, AttributeType::Float)
        .add_attribute(4, AttributeType::UByte);
    let layouts = builder.buffer_layouts();
    assert_eq!(layouts.len(), 1);
    let buf = &layouts[0];
    assert_eq!(buf.vbo, 1);
    assert_eq!(buf.stride(), 12 + 8 + 4);
    assert_eq!(buf.offset_of(0), 0);
    assert_eq!(buf.offset_of(1), 12);
    assert_eq!(buf.offset_of(2), 20);
    assert_eq!(
        Attribute { dimension: 3, attr_type: AttributeType::Float }.size(),
        12
    );
}

#[test]
fn add_attribute_without_buffer_is_ignored() {
    let builder = GeometrySetBuilder::new().add_attribute(3, AttributeType::Float);
    assert!(builder.buffer_layouts().is_empty());
}

#[test]
fn framebuffer_attachment_bookkeeping() {
    let tex = Texture::new(5, 640, 480, TextureFormat::RGBA8, TextureFilter::Nearest);
    let rbo = Renderbuffer::new(6, 640, 480, TextureFormat::Depth);
    let mut fb = Framebuffer::new(9);
    fb.attach_texture(&tex, TextureAttachment::Color(0));
    fb.attach_texture(&tex, TextureAttachment::Color(1));
    fb.attach_renderbuffer(&rbo, TextureAttachment::Depth);
    let list = fb.draw_buffer_list();
    assert_eq!(
        list,
        vec![
            TextureAttachment::Color(0),
            TextureAttachment::Color(1),
            TextureAttachment::Depth,
        ]
    );
}

#[test]
fn texture_state_changes_only_on_difference() {
    let mut tex = Texture::new(1, 640, 480, TextureFormat::RGBA8, TextureFilter::Nearest);
    assert!(!tex.needs_reformat(640, 480, &TextureFormat::RGBA8));
    assert!(tex.needs_reformat(800, 600, &TextureFormat::RGBA8));
    tex.resize(800, 600);
    assert_eq!((tex.width(), tex.height()), (800, 600));
    tex.reformat(800, 600, TextureFormat::RGB32F);
    assert_eq!(tex.format, TextureFormat::RGB32F);
    tex.change_filter(TextureFilter::Linear);
    assert_eq!(tex.filter, TextureFilter::Linear);
}

#[test]
fn renderbuffer_resize_keeps_format() {
    let mut rbo = Renderbuffer::new(2, 100, 100, TextureFormat::DepthStencil);
    rbo.resize(50, 60);
    assert_eq!((rbo.width, rbo.height), (50, 60));
    assert_eq!(rbo.format, TextureFormat::DepthStencil);
    assert!(!rbo.needs_reformat(50, 60, &TextureFormat::DepthStencil));
}

#[test]
fn shader_program_uniform_cache() {
    let mut program = ShaderProgram::new(3);
    assert!(program.cached_location(&String::from("light")).is_none());
    program.store_location(String::from("light"), 7);
    assert_eq!(program.cached_location(&String::from("light")), Some(7));
    // a second store under the same name keeps the first entry
    program.store_location(String::from("light"), 9);
    assert_eq!(program.cached_location(&String::from("light")), Some(7));
    let builder = ShaderProgramBuilder::new()
        .add_shader(&Shader::new(11))
        .add_shader(&Shader::new(12));
    assert_eq!(builder.shader_ids(), &vec![11, 12]);
}

#[test]
fn texture_manager_caches_first_load() {
    let mut tm = TextureManager::new();
    assert!(tm.get_texture("noise.png").is_none());
    tm.add_texture(
        String::from("noise.png"),
        Texture::new(1, 64, 64, TextureFormat::RGBA8, TextureFilter::Linear),
    );
    tm.add_texture(
        String::from("noise.png"),
        Texture::new(2, 32, 32, TextureFormat::RGBA8, TextureFilter::Linear),
    );
    let t = tm.get_texture("noise.png").expect("cached");
    assert_eq!(t.id(), 1, "the first texture wins");
    assert!(tm.get_texture("other.png").is_none());
}

#[test]
fn resource_paths_join_with_slash() {
    let res = Resource::new(String::from("res/models"));
    assert_eq!(res.resource_path("f16.obj"), "res/models/f16.obj");
}

#[test]
fn square_geometry_records() {
    let (gs, ib, vb, layout) = GeometrySetBuilder::create_square_geometry(7, 8, 9);
    assert_eq!(gs.vao(), 7);
    assert_eq!(gs.draw_count(), 6);
    assert_eq!(ib.id(), 8);
    assert_eq!(ib.size(), 6);
    assert_eq!(vb.id(), 9);
    let layouts = layout.buffer_layouts();
    assert_eq!(layouts.len(), 1);
    assert_eq!(layouts[0].vbo, 9);
    assert_eq!(
        layouts[0].attributes,
        vec![Attribute { dimension: 2, attr_type: AttributeType::Float }]
    );
    assert_eq!(layouts[0].stride(), 8, "one two-component float attribute");
    assert_eq!(raytracer::geometry_set::square_indices(), vec![0, 2, 1, 0, 2, 3]);
    assert_eq!(
        raytracer::geometry_set::square_corners(),
        vec![(-1, -1), (-1, 1), (1, 1), (1, -1)]
    );
}
