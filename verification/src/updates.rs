use crate::bindings::UniformBindingsDesc;
use crate::object_handles::{ObjectId, UniformResourceId};
use crate::pipeline::{PipelineDescWrapper, PipelineView};
use std::ops::Range;
use vstd::prelude::*;

verus! {

/// Bytes to write into a GPU buffer, and the offset at which they go.
#[derive(Debug)]
pub struct BufferUpdateData<'a> {
    pub modified_bytes: &'a [u8],
    pub buffer_offset: usize,
}

/// A change to the contents of a GPU buffer.
pub enum BufferUpdateCmd<'a> {
    /// Overwrite part of the buffer.
    Update(BufferUpdateData<'a>),
    /// Resize the buffer to the given length.
    Resize(usize),
    /// Move ranges of the buffer to new offsets.
    Rearrange(Vec<(Range<usize>, usize)>),
}

/// A change to one drawable object.
pub enum ObjectUpdate2DCmd<'a> {
    Create {
        pipeline_desc: PipelineDescWrapper,
        uniform_bindings_desc: UniformBindingsDesc,
        initial_state: BufferUpdateData<'a>,
    },
    AttribUpdate(BufferUpdateCmd<'a>),
    Destroy,
}

/// A change to one uniform buffer.
pub enum UniformBufferCmd<'a> {
    Create(BufferUpdateData<'a>),
    Update(BufferUpdateCmd<'a>),
    Destroy,
}

/// A change to one image resource; an image is created from the resource path it is loaded from.
pub enum ImageCmd {
    Create(String),
    Destroy,
}

/// One command of the stream that carries draw-state changes to the renderer.
pub enum GraphicsUpdateCmd<'a> {
    Object2D(ObjectId, ObjectUpdate2DCmd<'a>),
    UniformBuffer(UniformResourceId, UniformBufferCmd<'a>),
    Image(UniformResourceId, ImageCmd),
}

/// The plain content of a buffer change.
pub enum BufferUpdateView {
    Update { bytes: Seq<u8>, offset: usize },
    Resize(usize),
    Rearrange(Seq<(Range<usize>, usize)>),
}

/// The plain content of one update command.
#[allow(inconsistent_fields)]
pub enum UpdateView {
    CreateObject {
        id: ObjectId,
        pipeline: PipelineView,
        buffers: Seq<(u32, usize)>,
        images: Seq<(u32, usize)>,
        bytes: Seq<u8>,
        offset: usize,
    },
    UpdateObject { id: ObjectId, update: BufferUpdateView },
    DestroyObject { id: ObjectId },
    CreateUniformBuffer { id: UniformResourceId, bytes: Seq<u8>, offset: usize },
    UpdateUniformBuffer { id: UniformResourceId, update: BufferUpdateView },
    DestroyUniformBuffer { id: UniformResourceId },
    CreateImage { id: UniformResourceId, path: Seq<char> },
    DestroyImage { id: UniformResourceId },
}

impl<'a> BufferUpdateCmd<'a> {
    /// The plain content of the change.
    pub open spec fn view(&self) -> BufferUpdateView {
        match self {
            BufferUpdateCmd::Update(d) => BufferUpdateView::Update {
                bytes: d.modified_bytes@,
                offset: d.buffer_offset,
            },
            BufferUpdateCmd::Resize(n) => BufferUpdateView::Resize(*n),
            BufferUpdateCmd::Rearrange(v) => BufferUpdateView::Rearrange(v@),
        }
    }
}

impl<'a> GraphicsUpdateCmd<'a> {
    /// The plain content of the command.
    pub open spec fn view(&self) -> UpdateView {
        match self {
            GraphicsUpdateCmd::Object2D(id, cmd) => match cmd {
                ObjectUpdate2DCmd::Create { pipeline_desc, uniform_bindings_desc, initial_state } =>
                    UpdateView::CreateObject {
                    id: *id,
                    pipeline: pipeline_desc@,
                    buffers: uniform_bindings_desc.buffers(),
                    images: uniform_bindings_desc.images(),
                    bytes: initial_state.modified_bytes@,
                    offset: initial_state.buffer_offset,
                },
                ObjectUpdate2DCmd::AttribUpdate(u) => UpdateView::UpdateObject {
                    id: *id,
                    update: u.view(),
                },
                ObjectUpdate2DCmd::Destroy => UpdateView::DestroyObject { id: *id },
            },
            GraphicsUpdateCmd::UniformBuffer(id, cmd) => match cmd {
                UniformBufferCmd::Create(d) => UpdateView::CreateUniformBuffer {
                    id: *id,
                    bytes: d.modified_bytes@,
                    offset: d.buffer_offset,
                },
                UniformBufferCmd::Update(u) => UpdateView::UpdateUniformBuffer {
                    id: *id,
                    update: u.view(),
                },
                UniformBufferCmd::Destroy => UpdateView::DestroyUniformBuffer { id: *id },
            },
            GraphicsUpdateCmd::Image(id, cmd) => match cmd {
                ImageCmd::Create(path) => UpdateView::CreateImage { id: *id, path: path@ },
                ImageCmd::Destroy => UpdateView::DestroyImage { id: *id },
            },
        }
    }

    /// A command for object `id`.
    pub fn object_update_2d(id: ObjectId, cmd: ObjectUpdate2DCmd<'a>) -> (c: Self)
        ensures
            c == GraphicsUpdateCmd::Object2D(id, cmd),
    {
        GraphicsUpdateCmd::Object2D(id, cmd)
    }

    /// A command for uniform buffer `id`.
    pub fn uniform_buffer_update(id: UniformResourceId, cmd: UniformBufferCmd<'a>) -> (c: Self)
        ensures
            c == GraphicsUpdateCmd::UniformBuffer(id, cmd),
    {
        GraphicsUpdateCmd::UniformBuffer(id, cmd)
    }

    /// A command for image `id`.
    pub fn image_update(id: UniformResourceId, cmd: ImageCmd) -> (c: Self)
        ensures
            c == GraphicsUpdateCmd::Image(id, cmd),
    {
        GraphicsUpdateCmd::Image(id, cmd)
    }
}

/// The plain contents of a list of commands, in order.
pub open spec fn views<'a>(cmds: Seq<GraphicsUpdateCmd<'a>>) -> Seq<UpdateView> {
    cmds.map_values(|c: GraphicsUpdateCmd<'a>| c.view())
}

/// Something that holds draw state and hands out the changes made to it since they were last
/// cleared.
pub trait CollectDrawStateUpdates {
    /// The commands that describe the changes not yet handed out.
    spec fn pending_updates(&self) -> Seq<UpdateView>;

    /// The state is consistent; every value the type hands out is.
    spec fn wf(&self) -> bool;

    /// The commands that carry the pending changes, in order.
    fn collect_updates(&self) -> (r: Vec<GraphicsUpdateCmd<'_>>)
        requires
            self.wf(),
        ensures
            views(r@) == self.pending_updates(),
    ;

    /// Marks every pending change as handed out.
    fn clear_updates(&mut self)
        requires
            old(self).wf(),
        ensures
            final(self).wf(),
            final(self).pending_updates() == Seq::<UpdateView>::empty(),
    ;
}

} // verus!
