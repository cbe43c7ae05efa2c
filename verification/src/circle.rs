use crate::bindings::{
    binding_types, BindingTypeList, ResourceBindingList, UniformBindingType, UniformBindingsDesc,
};
use crate::layout::{
    layout_size, member_range, members_end, GlslTypeVariant, MemberMeta, le_bytes, u32_le_bytes,
};
use crate::pipeline::{
    PipelineDescWrapper, VertexAssembly, VertexAttribute, VertexBinding,
    VertexInputDesc, VERTEX_INPUT_RATE_INSTANCE,
};
use crate::state::{merged_range, StateUpdatesBytes};
use crate::uniform::{UniformBufferState, UniformImageState};
use std::ops::Range;
use vstd::prelude::*;

verus! {

/// Size in bytes of the per-instance attributes of a circle: a `vec4` colour at 0, a `vec2`
/// position at 16 and a `uint` trigger time at 24, padded to 32.
pub const CIRCLE_ATTRIBUTES_SIZE: usize = 32;

/// The members of the circle attributes: colour, position and trigger time.
pub open spec fn circle_members_spec() -> Seq<(Range<usize>, GlslTypeVariant)> {
    seq![
        (Range { start: 0usize, end: 16usize }, GlslTypeVariant::Vec4),
        (Range { start: 16usize, end: 24usize }, GlslTypeVariant::Vec2),
        (Range { start: 24usize, end: 28usize }, GlslTypeVariant::Uint),
    ]
}

/// The member types of the circle attributes, in order.
pub open spec fn circle_types() -> Seq<GlslTypeVariant> {
    seq![GlslTypeVariant::Vec4, GlslTypeVariant::Vec2, GlslTypeVariant::Uint]
}

/// The ranges of the circle attributes and their size are those of the C layout of a `vec4`,
/// a `vec2` and a `uint`.
pub proof fn lemma_circle_layout()
    ensures
        forall|i: int|
            0 <= i < 3 ==> (#[trigger] circle_members_spec()[i]).0 == member_range(
                circle_types(),
                i as nat,
            ) && circle_members_spec()[i].1 == circle_types()[i],
        layout_size(circle_types()) == CIRCLE_ATTRIBUTES_SIZE,
{
    let ts = circle_types();
    assert(members_end(ts, 0) == 0);
    assert(members_end(ts, 1) == 16);
    assert(members_end(ts, 2) == 24);
    assert(members_end(ts, 3) == 28);
    assert(member_range(ts, 0) == (Range { start: 0usize, end: 16usize }));
    assert(member_range(ts, 1) == (Range { start: 16usize, end: 24usize }));
    assert(member_range(ts, 2) == (Range { start: 24usize, end: 28usize }));
}

/// The member list of the circle attributes.
pub fn circle_members_meta() -> (m: Vec<MemberMeta>)
    ensures
        m@.len() == 3,
        forall|i: int|
            0 <= i < 3 ==> (#[trigger] m@[i]).range == circle_members_spec()[i].0 && m@[i].ty
                == circle_members_spec()[i].1,
        m@[0].name@ == "color"@,
        m@[1].name@ == "pos"@,
        m@[2].name@ == "trig_time"@,
{
    let mut m: Vec<MemberMeta> = Vec::new();
    m.push(MemberMeta { name: "color", range: Range { start: 0, end: 16 }, ty: GlslTypeVariant::Vec4 });
    m.push(MemberMeta { name: "pos", range: Range { start: 16, end: 24 }, ty: GlslTypeVariant::Vec2 });
    m.push(
        MemberMeta { name: "trig_time", range: Range { start: 24, end: 28 }, ty: GlslTypeVariant::Uint },
    );
    m
}

/// Sets the trigger time of a circle's attributes.
pub fn set_trig_time(state: &mut StateUpdatesBytes, trig_time: u32)
    requires
        old(state).bytes().len() == CIRCLE_ATTRIBUTES_SIZE,
    ensures
        final(state).bytes() == old(state).bytes().subrange(0, 24) + le_bytes(trig_time)
            + old(state).bytes().subrange(28, 32),
        final(state).modified() == Some(
            merged_range(old(state).modified(), Range { start: 24usize, end: 28usize }),
        ),
{
    let b = u32_le_bytes(trig_time);
    state.modify_field(Range { start: 24, end: 28 }, b.as_slice());
}

/// The pipeline that draws every circle: instanced triangle strips of four vertices, reading
/// the time and the map statistics from uniform buffers at bindings 0 and 1 and sampling an
/// image at binding 2.
#[derive(Default)]
pub struct CirclePipleine;

impl CirclePipleine {
    /// Each instance is drawn as one triangle strip.
    pub const VERTEX_ASSEMBLY: VertexAssembly = VertexAssembly::TriangleStrip;

    /// A circle is drawn on a quad: four strip vertices.
    pub const VERTICES_PER_INSTANCE: usize = 4;

    /// The bindings of one circle: the time buffer at 0, the map statistics buffer at 1 and the
    /// image at 2.
    pub fn get_uniform_ids(
        time: &UniformBufferState,
        map_stats: &UniformBufferState,
        image: &UniformImageState,
    ) -> (d: UniformBindingsDesc)
        ensures
            d.buffers() == seq![(0u32, time.id_spec()), (1u32, map_stats.id_spec())],
            d.images() == seq![(2u32, image.image_id())],
    {
        let mut buffer_bindings = ResourceBindingList::new();
        buffer_bindings.push(0, time.id());
        buffer_bindings.push(1, map_stats.id());
        let mut image_bindings = ResourceBindingList::new();
        image_bindings.push(2, image.id());
        UniformBindingsDesc { buffer_bindings, image_bindings }
    }

    /// The binding slots of the pipeline: two uniform buffers and one sampled image.
    pub fn get_uniform_bindings() -> (b: BindingTypeList)
        ensures
            binding_types(b) == seq![
                (0u32, UniformBindingType::UniformBuffer),
                (1u32, UniformBindingType::UniformBuffer),
                (2u32, UniformBindingType::CombinedImageSampler),
            ],
    {
        let mut b = BindingTypeList::new();
        b.push(0, UniformBindingType::UniformBuffer);
        b.push(1, UniformBindingType::UniformBuffer);
        b.push(2, UniformBindingType::CombinedImageSampler);
        b
    }

    /// The full description of the pipeline, under the given id and name, with the given
    /// compiled shaders.
    pub fn collect(
        id: u64,
        name: &'static str,
        vertex_shader: &'static [u8],
        fragment_shader: &'static [u8],
    ) -> (p: PipelineDescWrapper)
        ensures
            p@.id == id,
            p@.name == name@,
            p@.vertex_assembly == VertexAssembly::TriangleStrip,
            p@.vertices_per_instance == 4,
            p@.vertex_shader == vertex_shader@,
            p@.fragment_shader == fragment_shader@,
            p@.attributes.len() == 3,
            forall|i: int|
                0 <= i < 3 ==> #[trigger] p@.attributes[i] == (VertexAttribute {
                    location: i as u32,
                    binding: 0,
                    format: circle_members_spec()[i].1.format_spec(),
                    offset: circle_members_spec()[i].0.start as u32,
                }),
            p@.vertex_bindings == seq![
                VertexBinding { binding: 0, stride: 32, input_rate: VERTEX_INPUT_RATE_INSTANCE },
            ],
            p@.uniform_bindings == seq![
                (0u32, UniformBindingType::UniformBuffer),
                (1u32, UniformBindingType::UniformBuffer),
                (2u32, UniformBindingType::CombinedImageSampler),
            ],
    {
        let members = circle_members_meta();
        let attributes = VertexInputDesc::new(members.as_slice(), CIRCLE_ATTRIBUTES_SIZE);
        PipelineDescWrapper {
            id,
            name,
            vertex_assembly: Self::VERTEX_ASSEMBLY,
            vertices_per_instance: Self::VERTICES_PER_INSTANCE,
            vertex_shader,
            fragment_shader,
            attributes,
            uniform_bindings: Self::get_uniform_bindings(),
        }
    }
}

} // verus!
