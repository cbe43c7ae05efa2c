use std::mem::MaybeUninit;
use std::ops::Range;
use crate::state::{merged_range, StateUpdatesBytes};
use vstd::prelude::*;

verus! {

/// The GLSL type of one member of a vertex or uniform layout.
#[derive(Debug, Copy, Clone, PartialEq, Eq, Structural)]
pub enum GlslTypeVariant {
    Vec2,
    Vec3,
    Vec4,
    Float,
    Uint,
}

/// Vulkan format codes (`VkFormat`) of the member types.
pub const FORMAT_R32_UINT: i32 = 98;
pub const FORMAT_R32_SFLOAT: i32 = 100;
pub const FORMAT_R32G32_SFLOAT: i32 = 103;
pub const FORMAT_R32G32B32_SFLOAT: i32 = 106;
pub const FORMAT_R32G32B32A32_SFLOAT: i32 = 109;

impl GlslTypeVariant {
    /// The Vulkan vertex-attribute format of a member of this type.
    pub open spec fn format_spec(self) -> i32 {
        match self {
            GlslTypeVariant::Vec2 => FORMAT_R32G32_SFLOAT,
            GlslTypeVariant::Vec3 => FORMAT_R32G32B32_SFLOAT,
            GlslTypeVariant::Vec4 => FORMAT_R32G32B32A32_SFLOAT,
            GlslTypeVariant::Float => FORMAT_R32_SFLOAT,
            GlslTypeVariant::Uint => FORMAT_R32_UINT,
        }
    }

    /// The Vulkan format code (`VkFormat`) used for a vertex attribute of this type.
    pub fn format(&self) -> (f: i32)
        ensures
            f == self.format_spec(),
    {
        match self {
            GlslTypeVariant::Vec2 => FORMAT_R32G32_SFLOAT,
            GlslTypeVariant::Vec3 => FORMAT_R32G32B32_SFLOAT,
            GlslTypeVariant::Vec4 => FORMAT_R32G32B32A32_SFLOAT,
            GlslTypeVariant::Float => FORMAT_R32_SFLOAT,
            GlslTypeVariant::Uint => FORMAT_R32_UINT,
        }
    }
}

/// Size in bytes of a member of the given type: the vector types are aligned to 8 (`vec2`) or
/// 16 bytes (`vec3`, `vec4`), so a `vec3` takes 16.
pub open spec fn glsl_size(t: GlslTypeVariant) -> nat {
    match t {
        GlslTypeVariant::Vec2 => 8,
        GlslTypeVariant::Vec3 => 16,
        GlslTypeVariant::Vec4 => 16,
        GlslTypeVariant::Float => 4,
        GlslTypeVariant::Uint => 4,
    }
}

/// Alignment in bytes of a member of the given type.
pub open spec fn glsl_align(t: GlslTypeVariant) -> nat {
    match t {
        GlslTypeVariant::Vec2 => 8,
        GlslTypeVariant::Vec3 => 16,
        GlslTypeVariant::Vec4 => 16,
        GlslTypeVariant::Float => 4,
        GlslTypeVariant::Uint => 4,
    }
}

/// `x` rounded up to a multiple of `a`.
pub open spec fn round_up(x: nat, a: nat) -> nat {
    if a == 0 || x % a == 0 {
        x
    } else {
        (x + a - x % a) as nat
    }
}

/// Where the first `n` members of a layout end, each member placed at the first offset after
/// the one before that its alignment allows (the C layout of the members in order).
pub open spec fn members_end(ts: Seq<GlslTypeVariant>, n: nat) -> nat
    decreases n,
{
    if n == 0 {
        0
    } else {
        round_up(members_end(ts, (n - 1) as nat), glsl_align(ts[n - 1])) + glsl_size(ts[n - 1])
    }
}

/// The byte range of member `i` of a layout with member types `ts`.
pub open spec fn member_range(ts: Seq<GlslTypeVariant>, i: nat) -> Range<usize> {
    let start = round_up(members_end(ts, i), glsl_align(ts[i as int]));
    Range { start: start as usize, end: (start + glsl_size(ts[i as int])) as usize }
}

/// The size of a layout with member types `ts`: the end of its last member rounded up to the
/// 16-byte alignment of every layout.
pub open spec fn layout_size(ts: Seq<GlslTypeVariant>) -> nat {
    round_up(members_end(ts, ts.len()), 16)
}

/// Name, byte range and type of one member of a layout.
#[derive(Debug)]
pub struct MemberMeta {
    pub name: &'static str,
    pub range: Range<usize>,
    pub ty: GlslTypeVariant,
}

/// A GLSL scalar or vector type with its Rust representation.
pub trait GlslType {
    /// The GLSL type.
    const T: GlslTypeVariant;

    /// The Rust type of the value.
    type Inner;
}

/// A GLSL `uint`, followed by `P` words of padding.
#[allow(non_camel_case_types)]
#[derive(Copy, Clone)]
pub struct uint<const P: usize>(u32, MaybeUninit<[u32; P]>);

impl<const P: usize> GlslType for uint<P> {
    const T: GlslTypeVariant = GlslTypeVariant::Uint;

    type Inner = u32;
}

impl<const P: usize> uint<P> {
    /// The value held.
    pub closed spec fn value(self) -> u32 {
        self.0
    }

    /// Wraps a value; the padding stays uninitialised.
    pub fn new(v: u32) -> (r: Self)
        ensures
            r.value() == v,
    {
        uint(v, MaybeUninit::uninit())
    }

    /// The value held.
    pub fn get(&self) -> (v: u32)
        ensures
            v == self.value(),
    {
        self.0
    }
}

/// The little-endian bytes of a 32-bit word.
pub open spec fn le_bytes(x: u32) -> Seq<u8> {
    seq![
        (x % 256) as u8,
        ((x / 256) % 256) as u8,
        ((x / 65536) % 256) as u8,
        ((x / 16777216) % 256) as u8,
    ]
}

/// The little-endian bytes of a 32-bit word, as written into a GPU buffer.
pub fn u32_le_bytes(x: u32) -> (b: Vec<u8>)
    ensures
        b@ == le_bytes(x),
{
    let mut b: Vec<u8> = Vec::with_capacity(4);
    b.push((x % 256) as u8);
    b.push(((x / 256) % 256) as u8);
    b.push(((x / 65536) % 256) as u8);
    b.push(((x / 16777216) % 256) as u8);
    assert(b@ =~= le_bytes(x));
    b
}

/// The uniform block holding the elapsed time, laid out as std140: one `uint` at offset 0,
/// padded to 16 bytes.
#[derive(Copy, Clone)]
pub struct Time {
    pub time: uint<0>,
}

/// Size in bytes of `Time`.
pub const TIME_SIZE: usize = 16;

/// The range of `time` and the size of `Time` are those of the C layout of its one `uint`.
pub proof fn lemma_time_layout()
    ensures
        member_range(seq![GlslTypeVariant::Uint], 0) == (Range { start: 0usize, end: 4usize }),
        layout_size(seq![GlslTypeVariant::Uint]) == TIME_SIZE,
{
    let ts = seq![GlslTypeVariant::Uint];
    assert(members_end(ts, 0) == 0);
    assert(members_end(ts, 1) == 4);
}

impl Time {
    /// The member list of the layout: `time` at bytes 0..4.
    pub fn members_meta() -> (m: Vec<MemberMeta>)
        ensures
            m@.len() == 1,
            m@[0].name@ == "time"@,
            m@[0].range == (Range { start: 0usize, end: 4usize }),
            m@[0].ty == GlslTypeVariant::Uint,
    {
        let mut m: Vec<MemberMeta> = Vec::new();
        m.push(MemberMeta { name: "time", range: Range { start: 0, end: 4 }, ty: GlslTypeVariant::Uint });
        m
    }

    /// The byte image of the block: the time in little-endian order, then zero padding.
    pub open spec fn bytes_spec(self) -> Seq<u8> {
        le_bytes(self.time.value()) + Seq::new(12, |i: int| 0u8)
    }

    /// The byte image of the block.
    pub fn as_bytes(&self) -> (b: Vec<u8>)
        ensures
            b@ == self.bytes_spec(),
            b@.len() == TIME_SIZE,
    {
        let mut b = u32_le_bytes(self.time.get());
        let mut i: usize = 0;
        while i < 12
            invariant
                i <= 12,
                b@ == le_bytes(self.time.value()) + Seq::new(i as nat, |k: int| 0u8),
            decreases 12 - i,
        {
            b.push(0u8);
            i = i + 1;
            assert(b@ =~= le_bytes(self.time.value()) + Seq::new(i as nat, |k: int| 0u8));
        }
        b
    }
}

/// Sets the time held by the tracked bytes of a `Time` block.
pub fn set_time(state: &mut StateUpdatesBytes, time: u32)
    requires
        old(state).bytes().len() == TIME_SIZE,
    ensures
        final(state).bytes() == le_bytes(time) + old(state).bytes().subrange(4, 16),
        final(state).modified() == Some(
            merged_range(old(state).modified(), Range { start: 0usize, end: 4usize }),
        ),
{
    let b = u32_le_bytes(time);
    state.modify_field(Range { start: 0, end: 4 }, b.as_slice());
    assert(old(state).bytes().subrange(0, 0) + le_bytes(time) =~= le_bytes(time));
}

} // verus!
