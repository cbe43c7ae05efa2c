use crate::bindings::{binding_types, BindingTypeList, UniformBindingType};
use crate::layout::MemberMeta;
use smallvec::SmallVec;
use vstd::prelude::*;

verus! {

/// How the vertices of one instance are assembled into primitives.
#[derive(Debug, Copy, Clone, PartialEq, Eq, Structural)]
pub enum VertexAssembly {
    TriangleStrip,
    TriangleList,
}

/// Vulkan primitive topology codes (`VkPrimitiveTopology`).
pub const TOPOLOGY_TRIANGLE_LIST: i32 = 3;
pub const TOPOLOGY_TRIANGLE_STRIP: i32 = 4;

/// Vulkan descriptor type codes (`VkDescriptorType`).
pub const DESCRIPTOR_COMBINED_IMAGE_SAMPLER: i32 = 1;
pub const DESCRIPTOR_UNIFORM_BUFFER: i32 = 6;

/// Vulkan vertex input rate code for per-instance data (`VK_VERTEX_INPUT_RATE_INSTANCE`).
pub const VERTEX_INPUT_RATE_INSTANCE: i32 = 1;

impl VertexAssembly {
    /// The primitive topology that assembles vertices this way.
    pub open spec fn topology_spec(self) -> i32 {
        match self {
            VertexAssembly::TriangleStrip => TOPOLOGY_TRIANGLE_STRIP,
            VertexAssembly::TriangleList => TOPOLOGY_TRIANGLE_LIST,
        }
    }

    /// The Vulkan primitive topology code (`VkPrimitiveTopology`); primitive restart stays off.
    pub fn topology(&self) -> (t: i32)
        ensures
            t == self.topology_spec(),
    {
        match self {
            VertexAssembly::TriangleStrip => TOPOLOGY_TRIANGLE_STRIP,
            VertexAssembly::TriangleList => TOPOLOGY_TRIANGLE_LIST,
        }
    }
}

/// The descriptor type that fills a binding slot of the given kind.
pub open spec fn descriptor_type_spec(t: UniformBindingType) -> i32 {
    match t {
        UniformBindingType::UniformBuffer => DESCRIPTOR_UNIFORM_BUFFER,
        UniformBindingType::CombinedImageSampler => DESCRIPTOR_COMBINED_IMAGE_SAMPLER,
    }
}

/// The Vulkan descriptor type code (`VkDescriptorType`) of a binding slot.
pub fn descriptor_type(t: UniformBindingType) -> (d: i32)
    ensures
        d == descriptor_type_spec(t),
{
    match t {
        UniformBindingType::UniformBuffer => DESCRIPTOR_UNIFORM_BUFFER,
        UniformBindingType::CombinedImageSampler => DESCRIPTOR_COMBINED_IMAGE_SAMPLER,
    }
}

/// Vulkan shader stage bits (`VkShaderStageFlagBits`).
pub const SHADER_STAGE_VERTEX: u32 = 1;
pub const SHADER_STAGE_FRAGMENT: u32 = 16;

/// One slot of a descriptor-set layout: binding number, descriptor type, number of
/// descriptors and the shader stages that see it.
#[derive(Debug, Copy, Clone, PartialEq, Eq, Structural)]
pub struct DescriptorSlot {
    pub binding: u32,
    pub descriptor_type: i32,
    pub descriptor_count: u32,
    pub stage_flags: u32,
}

/// The slots of a descriptor-set layout, one per binding in order: its descriptor type, one
/// descriptor, visible to the vertex and fragment stages.
pub fn descriptor_set_layout_bindings(bindings: &BindingTypeList) -> (r: Vec<DescriptorSlot>)
    ensures
        r@.len() == binding_types(*bindings).len(),
        forall|i: int|
            0 <= i < r@.len() ==> #[trigger] r@[i] == (DescriptorSlot {
                binding: binding_types(*bindings)[i].0,
                descriptor_type: descriptor_type_spec(binding_types(*bindings)[i].1),
                descriptor_count: 1,
                stage_flags: SHADER_STAGE_VERTEX | SHADER_STAGE_FRAGMENT,
            }),
{
    let s = bindings.as_slice();
    let mut r: Vec<DescriptorSlot> = Vec::new();
    let mut i: usize = 0;
    while i < s.len()
        invariant
            s@ == binding_types(*bindings),
            i <= s@.len(),
            r@.len() == i,
            forall|k: int|
                0 <= k < i ==> #[trigger] r@[k] == (DescriptorSlot {
                    binding: s@[k].0,
                    descriptor_type: descriptor_type_spec(s@[k].1),
                    descriptor_count: 1,
                    stage_flags: SHADER_STAGE_VERTEX | SHADER_STAGE_FRAGMENT,
                }),
        decreases s@.len() - i,
    {
        let (slot, ty) = s[i];
        r.push(
            DescriptorSlot {
                binding: slot,
                descriptor_type: descriptor_type(ty),
                descriptor_count: 1,
                stage_flags: SHADER_STAGE_VERTEX | SHADER_STAGE_FRAGMENT,
            },
        );
        i = i + 1;
    }
    r
}

/// One per-instance vertex attribute: shader location, binding, format and byte offset.
#[derive(Debug, Copy, Clone, PartialEq, Eq, Structural)]
pub struct VertexAttribute {
    pub location: u32,
    pub binding: u32,
    pub format: i32,
    pub offset: u32,
}

/// One vertex buffer binding: binding number, stride and input rate.
#[derive(Debug, Copy, Clone, PartialEq, Eq, Structural)]
pub struct VertexBinding {
    pub binding: u32,
    pub stride: u32,
    pub input_rate: i32,
}

/// The vertex input state of a pipeline: one per-instance buffer at binding 0 that holds one
/// layout value per instance.
pub struct VertexInputDesc {
    attrib_desc: AttributeList,
    binding_desc: VertexBindingList,
}

/// The attribute descriptions of a vertex input state, kept inline in a `SmallVec`.
#[verifier::external_body]
pub struct AttributeList {
    inner: SmallVec<[VertexAttribute; 1]>,
}

/// The binding descriptions of a vertex input state, kept inline in a `SmallVec`.
#[verifier::external_body]
pub struct VertexBindingList {
    inner: SmallVec<[VertexBinding; 1]>,
}

/// What a list of attribute descriptions holds, in order.
pub uninterp spec fn attribute_list(v: AttributeList) -> Seq<VertexAttribute>;

/// What a list of binding descriptions holds, in order.
pub uninterp spec fn vertex_binding_list(v: VertexBindingList) -> Seq<VertexBinding>;

/// `SmallVec::new`: an empty list of attribute descriptions.
#[verifier::external_body]
fn attribute_list_new() -> (v: AttributeList)
    ensures
        attribute_list(v) == Seq::<VertexAttribute>::empty(),
{
    AttributeList { inner: SmallVec::new() }
}

/// `SmallVec::push`: appends one description at the end. `push` panics ("capacity overflow")
/// only when growing would need a capacity whose byte size passes `isize::MAX`; a description
/// takes 16 bytes, so below `usize::MAX / 128` descriptions that never happens.
#[verifier::external_body]
fn attribute_list_push(v: &mut AttributeList, x: VertexAttribute)
    requires
        attribute_list(*old(v)).len() < usize::MAX / 128,
    ensures
        attribute_list(*final(v)) == attribute_list(*old(v)).push(x),
{
    v.inner.push(x)
}

/// `SmallVec::clone`: a list with the same descriptions in the same order.
#[verifier::external_body]
fn attribute_list_clone(v: &AttributeList) -> (r: AttributeList)
    ensures
        attribute_list(r) == attribute_list(*v),
{
    AttributeList { inner: v.inner.clone() }
}

/// `SmallVec::as_slice`: the descriptions as a slice, in order.
#[verifier::external_body]
fn attribute_list_slice(v: &AttributeList) -> (r: &[VertexAttribute])
    ensures
        r@ == attribute_list(*v),
{
    v.inner.as_slice()
}

/// `SmallVec::new`: an empty list of binding descriptions.
#[verifier::external_body]
fn vertex_binding_list_new() -> (v: VertexBindingList)
    ensures
        vertex_binding_list(v) == Seq::<VertexBinding>::empty(),
{
    VertexBindingList { inner: SmallVec::new() }
}

/// `SmallVec::push`: appends one description at the end. `push` panics ("capacity overflow")
/// only when growing would need a capacity whose byte size passes `isize::MAX`; a description
/// takes 12 bytes, so below `usize::MAX / 128` descriptions that never happens.
#[verifier::external_body]
fn vertex_binding_list_push(v: &mut VertexBindingList, x: VertexBinding)
    requires
        vertex_binding_list(*old(v)).len() < usize::MAX / 128,
    ensures
        vertex_binding_list(*final(v)) == vertex_binding_list(*old(v)).push(x),
{
    v.inner.push(x)
}

/// `SmallVec::clone`: a list with the same descriptions in the same order.
#[verifier::external_body]
fn vertex_binding_list_clone(v: &VertexBindingList) -> (r: VertexBindingList)
    ensures
        vertex_binding_list(r) == vertex_binding_list(*v),
{
    VertexBindingList { inner: v.inner.clone() }
}

/// `SmallVec::as_slice`: the descriptions as a slice, in order.
#[verifier::external_body]
fn vertex_binding_list_slice(v: &VertexBindingList) -> (r: &[VertexBinding])
    ensures
        r@ == vertex_binding_list(*v),
{
    v.inner.as_slice()
}

/// The attribute that describes member `i` of a layout.
pub open spec fn attribute_for(i: int, m: MemberMeta) -> VertexAttribute {
    VertexAttribute {
        location: i as u32,
        binding: 0,
        format: m.ty.format_spec(),
        offset: m.range.start as u32,
    }
}

impl VertexInputDesc {
    /// The attribute descriptions, one per member.
    pub closed spec fn attributes(&self) -> Seq<VertexAttribute> {
        attribute_list(self.attrib_desc)
    }

    /// The binding descriptions.
    pub closed spec fn bindings(&self) -> Seq<VertexBinding> {
        vertex_binding_list(self.binding_desc)
    }

    /// Describes a layout of `size` bytes whose members are `members_meta`: member `i` is read
    /// at location `i` from its offset in binding 0, which advances by `size` per instance.
    pub fn new(members_meta: &[MemberMeta], size: usize) -> (d: Self)
        requires
            members_meta@.len() < usize::MAX / 128,
        ensures
            d.bindings() == seq![
                VertexBinding { binding: 0, stride: size as u32, input_rate: VERTEX_INPUT_RATE_INSTANCE },
            ],
            d.attributes().len() == members_meta@.len(),
            forall|i: int|
                0 <= i < members_meta@.len() ==> #[trigger] d.attributes()[i] == attribute_for(
                    i,
                    members_meta@[i],
                ),
    {
        let mut binding_desc = vertex_binding_list_new();
        vertex_binding_list_push(
            &mut binding_desc,
            VertexBinding {
                binding: 0,
                stride: size as u32,
                input_rate: VERTEX_INPUT_RATE_INSTANCE,
            },
        );
        let mut attrib_desc = attribute_list_new();
        let mut i: usize = 0;
        while i < members_meta.len()
            invariant
                i <= members_meta@.len(),
                members_meta@.len() < usize::MAX / 128,
                attribute_list(attrib_desc).len() == i,
                forall|k: int|
                    0 <= k < i ==> #[trigger] attribute_list(attrib_desc)[k] == attribute_for(
                        k,
                        members_meta@[k],
                    ),
            decreases members_meta@.len() - i,
        {
            let member = &members_meta[i];
            attribute_list_push(
                &mut attrib_desc,
                VertexAttribute {
                    location: i as u32,
                    binding: 0,
                    format: member.ty.format(),
                    offset: member.range.start as u32,
                },
            );
            i = i + 1;
        }
        assert(vertex_binding_list(binding_desc) =~= seq![
            VertexBinding { binding: 0, stride: size as u32, input_rate: VERTEX_INPUT_RATE_INSTANCE },
        ]);
        VertexInputDesc { attrib_desc, binding_desc }
    }

    /// The attribute descriptions, in location order.
    pub fn attribute_descriptions(&self) -> (r: &[VertexAttribute])
        ensures
            r@ == self.attributes(),
    {
        attribute_list_slice(&self.attrib_desc)
    }

    /// The binding descriptions.
    pub fn binding_descriptions(&self) -> (r: &[VertexBinding])
        ensures
            r@ == self.bindings(),
    {
        vertex_binding_list_slice(&self.binding_desc)
    }

    /// A copy with the same descriptions.
    pub fn clone(&self) -> (d: Self)
        ensures
            d.attributes() == self.attributes(),
            d.bindings() == self.bindings(),
    {
        VertexInputDesc {
            attrib_desc: attribute_list_clone(&self.attrib_desc),
            binding_desc: vertex_binding_list_clone(&self.binding_desc),
        }
    }
}

/// Everything the renderer needs to build the graphics pipeline of one kind of object.
pub struct PipelineDescWrapper {
    /// Identifies the kind of pipeline; objects with equal ids share one pipeline.
    pub id: u64,
    pub name: &'static str,
    pub vertex_assembly: VertexAssembly,
    pub vertices_per_instance: usize,
    pub vertex_shader: &'static [u8],
    pub fragment_shader: &'static [u8],
    pub attributes: VertexInputDesc,
    pub uniform_bindings: BindingTypeList,
}

/// The plain content of a pipeline description.
pub struct PipelineView {
    pub id: u64,
    pub name: Seq<char>,
    pub vertex_assembly: VertexAssembly,
    pub vertices_per_instance: usize,
    pub vertex_shader: Seq<u8>,
    pub fragment_shader: Seq<u8>,
    pub attributes: Seq<VertexAttribute>,
    pub vertex_bindings: Seq<VertexBinding>,
    pub uniform_bindings: Seq<(u32, UniformBindingType)>,
}

impl View for PipelineDescWrapper {
    type V = PipelineView;

    open spec fn view(&self) -> PipelineView {
        PipelineView {
            id: self.id,
            name: self.name@,
            vertex_assembly: self.vertex_assembly,
            vertices_per_instance: self.vertices_per_instance,
            vertex_shader: self.vertex_shader@,
            fragment_shader: self.fragment_shader@,
            attributes: self.attributes.attributes(),
            vertex_bindings: self.attributes.bindings(),
            uniform_bindings: binding_types(self.uniform_bindings),
        }
    }
}

impl PipelineDescWrapper {
    /// A copy that agrees in every field.
    pub fn clone(&self) -> (d: Self)
        ensures
            d@ == self@,
    {
        PipelineDescWrapper {
            id: self.id,
            name: self.name,
            vertex_assembly: self.vertex_assembly,
            vertices_per_instance: self.vertices_per_instance,
            vertex_shader: self.vertex_shader,
            fragment_shader: self.fragment_shader,
            attributes: self.attributes.clone(),
            uniform_bindings: self.uniform_bindings.clone(),
        }
    }
}

/// Packs SPIR-V bytes into 32-bit little-endian words, as shader modules take them; `None`
/// when the length is not a multiple of four.
pub open spec fn spirv_word(code: Seq<u8>, i: int) -> u32 {
    (code[4 * i] as int + code[4 * i + 1] as int * 256 + code[4 * i + 2] as int * 65536
        + code[4 * i + 3] as int * 16777216) as u32
}

/// The shader code as 32-bit little-endian words; `None` when its length is not a multiple of
/// four.
pub fn spirv_words(code: &[u8]) -> (r: Option<Vec<u32>>)
    ensures
        code@.len() % 4 != 0 <==> r is None,
        r matches Some(w) ==> w@.len() == code@.len() / 4 && forall|i: int|
            0 <= i < w@.len() ==> #[trigger] w@[i] == spirv_word(code@, i),
{
    if code.len() % 4 != 0 {
        return None;
    }
    let n = code.len() / 4;
    let mut words: Vec<u32> = Vec::new();
    let mut i: usize = 0;
    while i < n
        invariant
            n == code@.len() / 4,
            code@.len() % 4 == 0,
            i <= n,
            words@.len() == i,
            forall|k: int| 0 <= k < i ==> #[trigger] words@[k] == spirv_word(code@, k),
        decreases n - i,
    {
        assert(4 * i + 3 < code@.len()) by (nonlinear_arith)
            requires
                i < n,
                n == code@.len() / 4,
                code@.len() % 4 == 0,
        ;
        assert(code@.len() == code.len());
        let base: usize = 4 * i;
        let w: u32 = (code[base] as u32) + (code[base + 1] as u32) * 256 + (code[base + 2] as u32)
            * 65536 + (code[base + 3] as u32) * 16777216;
        words.push(w);
        i = i + 1;
    }
    Some(words)
}

} // verus!
