use render_core::bindings::{BindingTypeList, ResourceBindingList, UniformBindingType, UniformBindingsDesc};
use render_core::circle::{circle_members_meta, CirclePipleine, CIRCLE_ATTRIBUTES_SIZE};
use render_core::layout::{GlslTypeVariant, MemberMeta};
use render_core::object_handles::{get_new_object_id, get_new_uniform_id, HandleCounters};
use render_core::pipeline::{
    descriptor_set_layout_bindings, descriptor_type, DescriptorSlot, spirv_words, VertexAssembly, VertexAttribute,
    VertexBinding, VertexInputDesc,
};

static VS: [u8; 8] = [3, 2, 0x23, 7, 0, 0, 1, 0];
static FS: [u8; 4] = [3, 2, 0x23, 7];

#[test]
fn object_ids_count_up_from_zero() {
    let mut c = HandleCounters::new();
    assert_eq!(get_new_object_id(&mut c), 0);
    assert_eq!(get_new_object_id(&mut c), 1);
    assert_eq!(get_new_uniform_id(&mut c), 0);
    assert_eq!(get_new_object_id(&mut c), 2);
    assert_eq!(get_new_uniform_id(&mut c), 1);
}

#[test]
fn consecutive_ids_differ() {
    let mut c = HandleCounters::new();
    let a = get_new_uniform_id(&mut c);
    let b = get_new_uniform_id(&mut c);
    assert_ne!(a, b);
}

#[test]
fn glsl_formats() {
    assert_eq!(GlslTypeVariant::Vec2.format(), 103);
    assert_eq!(GlslTypeVariant::Vec3.format(), 106);
    assert_eq!(GlslTypeVariant::Vec4.format(), 109);
    assert_eq!(GlslTypeVariant::Float.format(), 100);
    assert_eq!(GlslTypeVariant::Uint.format(), 98);
}

#[test]
fn topologies_and_descriptor_types() {
    assert_eq!(VertexAssembly::TriangleStrip.topology(), 4);
    assert_eq!(VertexAssembly::TriangleList.topology(), 3);
    assert_eq!(descriptor_type(UniformBindingType::UniformBuffer), 6);
    assert_eq!(descriptor_type(UniformBindingType::CombinedImageSampler), 1);
}

#[test]
fn vertex_input_of_circle_layout() {
    let m = circle_members_meta();
    let d = VertexInputDesc::new(&m, CIRCLE_ATTRIBUTES_SIZE);
    assert_eq!(
        d.binding_descriptions(),
        &[VertexBinding { binding: 0, stride: 32, input_rate: 1 }]
    );
    assert_eq!(
        d.attribute_descriptions(),
        &[
            VertexAttribute { location: 0, binding: 0, format: 109, offset: 0 },
            VertexAttribute { location: 1, binding: 0, format: 103, offset: 16 },
            VertexAttribute { location: 2, binding: 0, format: 98, offset: 24 },
        ]
    );
    let c = d.clone();
    assert_eq!(c.attribute_descriptions(), d.attribute_descriptions());
    assert_eq!(c.binding_descriptions(), d.binding_descriptions());
}

#[test]
fn vertex_input_of_empty_layout() {
    let m: Vec<MemberMeta> = Vec::new();
    let d = VertexInputDesc::new(&m, 0);
    assert!(d.attribute_descriptions().is_empty());
    assert_eq!(d.binding_descriptions().len(), 1);
}

#[test]
fn binding_lists_keep_order() {
    let mut l = ResourceBindingList::new();
    assert!(l.as_slice().is_empty());
    l.push(0, 10);
    l.push(1, 11);
    assert_eq!(l.as_slice(), &[(0, 10), (1, 11)]);
    let mut t = BindingTypeList::new();
    t.push(2, UniformBindingType::CombinedImageSampler);
    t.push(0, UniformBindingType::UniformBuffer);
    let c = t.clone();
    assert_eq!(
        c.as_slice(),
        &[(2, UniformBindingType::CombinedImageSampler), (0, UniformBindingType::UniformBuffer)]
    );
}

#[test]
fn bindings_desc_from_pairs() {
    let d = UniformBindingsDesc::from_pairs(&[(0, 4), (1, 5)], &[(2, 6)]);
    assert_eq!(d.buffer_bindings.as_slice(), &[(0, 4), (1, 5)]);
    assert_eq!(d.image_bindings.as_slice(), &[(2, 6)]);
    let c = d.clone();
    assert_eq!(c.buffer_bindings.as_slice(), &[(0, 4), (1, 5)]);
    assert_eq!(c.image_bindings.as_slice(), &[(2, 6)]);
}

#[test]
fn descriptor_set_layout_of_circle() {
    let b = CirclePipleine::get_uniform_bindings();
    let slot = |binding: u32, descriptor_type: i32| DescriptorSlot {
        binding,
        descriptor_type,
        descriptor_count: 1,
        stage_flags: 0x11,
    };
    assert_eq!(descriptor_set_layout_bindings(&b), vec![slot(0, 6), slot(1, 6), slot(2, 1)]);
}

#[test]
fn circle_pipeline_description() {
    let p = CirclePipleine::collect(7, "circle", &VS, &FS);
    assert_eq!(p.id, 7);
    assert_eq!(p.name, "circle");
    assert_eq!(p.vertex_assembly, VertexAssembly::TriangleStrip);
    assert_eq!(p.vertices_per_instance, 4);
    assert_eq!(p.vertex_shader, &VS);
    assert_eq!(p.fragment_shader, &FS);
    assert_eq!(p.attributes.attribute_descriptions().len(), 3);
    assert_eq!(p.attributes.binding_descriptions()[0].stride, 32);
    assert_eq!(
        p.uniform_bindings.as_slice(),
        &[
            (0, UniformBindingType::UniformBuffer),
            (1, UniformBindingType::UniformBuffer),
            (2, UniformBindingType::CombinedImageSampler),
        ]
    );
    let c = p.clone();
    assert_eq!(c.id, 7);
    assert_eq!(c.attributes.attribute_descriptions(), p.attributes.attribute_descriptions());
    assert_eq!(CirclePipleine::VERTICES_PER_INSTANCE, 4);
    assert_eq!(CirclePipleine::VERTEX_ASSEMBLY, VertexAssembly::TriangleStrip);
}

#[test]
fn spirv_words_little_endian() {
    assert_eq!(spirv_words(&VS), Some(vec![0x0723_0203, 0x0001_0000]));
    assert_eq!(spirv_words(&[]), Some(vec![]));
}

#[test]
fn spirv_words_rejects_ragged_length() {
    assert_eq!(spirv_words(&[1, 2, 3]), None);
    assert_eq!(spirv_words(&[1, 2, 3, 4, 5]), None);
}
