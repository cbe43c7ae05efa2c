use crate::bindings::UniformBindingsDesc;
use crate::object_handles::{get_new_object_id, HandleCounters, ObjectId};
use crate::pipeline::PipelineDescWrapper;
use crate::state::{merged_range, range_within, StateUpdatesBytes};
use crate::uniform::full_range;
use crate::updates::{
    BufferUpdateCmd, BufferUpdateView, CollectDrawStateUpdates, GraphicsUpdateCmd, ObjectUpdate2DCmd,
    UpdateView,
};
use std::ops::Range;
use vstd::prelude::*;

verus! {

/// One drawable object: its per-instance attributes, the pipeline that draws it and the
/// uniforms it binds.
pub struct SingleObject {
    pipeline_desc: PipelineDescWrapper,
    per_ins_attrib: StateUpdatesBytes,
    uniform_bindings: UniformBindingsDesc,
    object_id: ObjectId,
    is_first: bool,
}

impl SingleObject {
    /// The current attribute bytes.
    pub closed spec fn bytes(&self) -> Seq<u8> {
        self.per_ins_attrib.bytes()
    }

    /// The attribute bytes changed since the changes were last handed out.
    pub closed spec fn modified(&self) -> Option<Range<usize>> {
        self.per_ins_attrib.modified()
    }

    /// The id of the object.
    pub closed spec fn id_spec(&self) -> ObjectId {
        self.object_id
    }

    /// The renderer has not been told to create the object yet.
    pub closed spec fn is_first(&self) -> bool {
        self.is_first
    }

    /// The pipeline that draws the object.
    pub closed spec fn pipeline(&self) -> crate::pipeline::PipelineView {
        self.pipeline_desc@
    }

    /// The uniform buffers the object binds, with their slots.
    pub closed spec fn buffers(&self) -> Seq<(u32, usize)> {
        self.uniform_bindings.buffers()
    }

    /// The images the object binds, with their slots.
    pub closed spec fn images(&self) -> Seq<(u32, usize)> {
        self.uniform_bindings.images()
    }

    /// A new object with the given attributes, drawn by `pipeline_desc` with the uniforms of
    /// `uniform_bindings`, under a fresh object id.
    pub fn new(
        attributes: Vec<u8>,
        pipeline_desc: PipelineDescWrapper,
        uniform_bindings: UniformBindingsDesc,
        counters: &mut HandleCounters,
    ) -> (s: Self)
        ensures
            s.wf(),
            s.is_first(),
            s.bytes() == attributes@,
            s.pipeline() == pipeline_desc@,
            s.buffers() == uniform_bindings.buffers(),
            s.images() == uniform_bindings.images(),
            s.id_spec() == old(counters).next_object(),
            final(counters).next_object() == crate::object_handles::next_counter(
                old(counters).next_object(),
            ),
            final(counters).next_uniform() == old(counters).next_uniform(),
    {
        let object_id = get_new_object_id(counters);
        SingleObject {
            pipeline_desc,
            per_ins_attrib: StateUpdatesBytes::new(attributes),
            uniform_bindings,
            object_id,
            is_first: true,
        }
    }

    /// The id of the object.
    pub fn id(&self) -> (id: ObjectId)
        ensures
            id == self.id_spec(),
    {
        self.object_id
    }

    /// A copy of the description of the pipeline that draws the object.
    pub fn get_pipeline_info(&self) -> (p: PipelineDescWrapper)
        ensures
            p@ == self.pipeline(),
    {
        self.pipeline_desc.clone()
    }

    /// The tracked attributes.
    pub fn attributes(&self) -> (s: &StateUpdatesBytes)
        ensures
            s.bytes() == self.bytes(),
            s.modified() == self.modified(),
    {
        &self.per_ins_attrib
    }

    /// Replaces all attributes; every byte counts as modified.
    pub fn set(&mut self, v: Vec<u8>)
        requires
            old(self).wf(),
            v@.len() == old(self).bytes().len(),
        ensures
            final(self).wf(),
            final(self).bytes() == v@,
            final(self).modified() == Some(full_range(v@.len())),
            final(self).id_spec() == old(self).id_spec(),
            final(self).is_first() == old(self).is_first(),
            final(self).pipeline() == old(self).pipeline(),
            final(self).buffers() == old(self).buffers(),
            final(self).images() == old(self).images(),
    {
        self.per_ins_attrib.set(v);
    }

    /// Overwrites the bytes of one attribute and widens the modified range to cover it.
    pub fn modify_field(&mut self, range: Range<usize>, value: &[u8])
        requires
            old(self).wf(),
            range_within(range, old(self).bytes().len()),
            value@.len() == range.end - range.start,
        ensures
            final(self).wf(),
            final(self).bytes() == old(self).bytes().subrange(0, range.start as int) + value@
                + old(self).bytes().subrange(range.end as int, old(self).bytes().len() as int),
            final(self).modified() == Some(merged_range(old(self).modified(), range)),
            final(self).id_spec() == old(self).id_spec(),
            final(self).is_first() == old(self).is_first(),
            final(self).pipeline() == old(self).pipeline(),
            final(self).buffers() == old(self).buffers(),
            final(self).images() == old(self).images(),
    {
        self.per_ins_attrib.modify_field(range, value);
    }
}

impl CollectDrawStateUpdates for SingleObject {
    /// Until the object has been handed out once, it is created with all its attributes;
    /// afterwards only its modified attribute bytes are written.
    open spec fn pending_updates(&self) -> Seq<UpdateView> {
        if self.is_first() {
            seq![
                UpdateView::CreateObject {
                    id: self.id_spec(),
                    pipeline: self.pipeline(),
                    buffers: self.buffers(),
                    images: self.images(),
                    bytes: self.bytes(),
                    offset: 0usize,
                },
            ]
        } else {
            match self.modified() {
                Some(r) => seq![
                    UpdateView::UpdateObject {
                        id: self.id_spec(),
                        update: BufferUpdateView::Update {
                            bytes: self.bytes().subrange(r.start as int, r.end as int),
                            offset: r.start,
                        },
                    },
                ],
                None => Seq::empty(),
            }
        }
    }

    /// Before the first hand-out every byte counts as modified.
    open spec fn wf(&self) -> bool {
        &&& self.bytes().len() <= usize::MAX
        &&& self.is_first() ==> self.modified() == Some(full_range(self.bytes().len()))
        &&& self.modified() matches Some(r) ==> range_within(r, self.bytes().len())
    }

    fn collect_updates(&self) -> (r: Vec<GraphicsUpdateCmd<'_>>) {
        let mut r: Vec<GraphicsUpdateCmd<'_>> = Vec::new();
        let id = self.id();
        if self.is_first {
            match self.per_ins_attrib.modified_bytes() {
                Some(s) => {
                    let pipeline_info = self.get_pipeline_info();
                    r.push(
                        GraphicsUpdateCmd::object_update_2d(
                            id,
                            ObjectUpdate2DCmd::Create {
                                pipeline_desc: pipeline_info,
                                uniform_bindings_desc: self.uniform_bindings.clone(),
                                initial_state: s,
                            },
                        ),
                    );
                    assert(self.bytes().subrange(0, self.bytes().len() as int) =~= self.bytes());
                },
                None => {},
            }
        } else {
            match self.per_ins_attrib.modified_bytes() {
                Some(s) => {
                    r.push(
                        GraphicsUpdateCmd::object_update_2d(
                            id,
                            ObjectUpdate2DCmd::AttribUpdate(BufferUpdateCmd::Update(s)),
                        ),
                    );
                },
                None => {},
            }
        }
        assert(crate::updates::views(r@) =~= self.pending_updates());
        r
    }

    fn clear_updates(&mut self)
        ensures
            final(self).id_spec() == old(self).id_spec(),
            final(self).bytes() == old(self).bytes(),
            !final(self).is_first(),
            final(self).modified() is None,
            final(self).pipeline() == old(self).pipeline(),
            final(self).buffers() == old(self).buffers(),
            final(self).images() == old(self).images(),
    {
        self.per_ins_attrib.clear_modified();
        self.is_first = false;
    }
}

} // verus!
