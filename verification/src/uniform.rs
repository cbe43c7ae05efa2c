use crate::object_handles::{get_new_uniform_id, HandleCounters, UniformResourceId};
use crate::state::{range_within, StateUpdatesBytes};
use crate::updates::{
    BufferUpdateCmd, BufferUpdateView, CollectDrawStateUpdates, GraphicsUpdateCmd, ImageCmd,
    UniformBufferCmd, UpdateView,
};
use std::ops::Range;
use vstd::prelude::*;

verus! {

/// The whole of a value of `len` bytes.
pub open spec fn full_range(len: nat) -> Range<usize> {
    Range { start: 0usize, end: len as usize }
}

/// The contents of a uniform buffer on the application side, with the changes that the
/// renderer has not seen yet.
pub struct UniformBufferState {
    state: StateUpdatesBytes,
    id: UniformResourceId,
    is_first: bool,
}

impl UniformBufferState {
    /// The current bytes of the buffer.
    pub closed spec fn bytes(&self) -> Seq<u8> {
        self.state.bytes()
    }

    /// The byte range changed since the changes were last handed out.
    pub closed spec fn modified(&self) -> Option<Range<usize>> {
        self.state.modified()
    }

    /// The id of the uniform buffer.
    pub closed spec fn id_spec(&self) -> UniformResourceId {
        self.id
    }

    /// The renderer has not been told to create the buffer yet.
    pub closed spec fn is_first(&self) -> bool {
        self.is_first
    }

    /// A new uniform buffer holding `v`, with a fresh id.
    pub fn new(v: Vec<u8>, counters: &mut HandleCounters) -> (s: Self)
        ensures
            s.wf(),
            s.bytes() == v@,
            s.is_first(),
            s.id_spec() == old(counters).next_uniform(),
            final(counters).next_uniform() == crate::object_handles::next_counter(
                old(counters).next_uniform(),
            ),
            final(counters).next_object() == old(counters).next_object(),
            s.pending_updates() == seq![
                UpdateView::CreateUniformBuffer { id: s.id_spec(), bytes: v@, offset: 0usize },
            ],
    {
        let id = get_new_uniform_id(counters);
        UniformBufferState { state: StateUpdatesBytes::new(v), id, is_first: true }
    }

    /// The id of the uniform buffer.
    pub fn id(&self) -> (id: UniformResourceId)
        ensures
            id == self.id_spec(),
    {
        self.id
    }

    /// The tracked contents.
    pub fn state(&self) -> (s: &StateUpdatesBytes)
        ensures
            s.bytes() == self.bytes(),
            s.modified() == self.modified(),
    {
        &self.state
    }

    /// Replaces the whole contents; every byte counts as modified.
    pub fn set(&mut self, v: Vec<u8>)
        requires
            old(self).wf(),
            v@.len() == old(self).bytes().len(),
        ensures
            final(self).wf(),
            final(self).bytes() == v@,
            final(self).modified() == Some(full_range(v@.len())),
            final(self).id_spec() == old(self).id_spec(),
            final(self).is_first() == old(self).is_first(),
    {
        self.state.set(v);
    }

    /// Overwrites the bytes of one field and widens the modified range to cover it.
    pub fn modify_field(&mut self, range: Range<usize>, value: &[u8])
        requires
            old(self).wf(),
            range_within(range, old(self).bytes().len()),
            value@.len() == range.end - range.start,
        ensures
            final(self).wf(),
            final(self).bytes() == old(self).bytes().subrange(0, range.start as int) + value@
                + old(self).bytes().subrange(range.end as int, old(self).bytes().len() as int),
            final(self).modified() == Some(
                crate::state::merged_range(old(self).modified(), range),
            ),
            final(self).id_spec() == old(self).id_spec(),
            final(self).is_first() == old(self).is_first(),
    {
        self.state.modify_field(range, value);
    }
}

impl CollectDrawStateUpdates for UniformBufferState {
    /// Until the buffer has been handed out once, it is created with its whole contents;
    /// afterwards only its modified bytes are written.
    open spec fn pending_updates(&self) -> Seq<UpdateView> {
        if self.is_first() {
            seq![UpdateView::CreateUniformBuffer { id: self.id_spec(), bytes: self.bytes(), offset: 0usize }]
        } else {
            match self.modified() {
                Some(r) => seq![
                    UpdateView::UpdateUniformBuffer {
                        id: self.id_spec(),
                        update: BufferUpdateView::Update {
                            bytes: self.bytes().subrange(r.start as int, r.end as int),
                            offset: r.start,
                        },
                    },
                ],
                None => Seq::empty(),
            }
        }
    }

    /// Before the first hand-out every byte counts as modified.
    open spec fn wf(&self) -> bool {
        &&& self.bytes().len() <= usize::MAX
        &&& self.is_first() ==> self.modified() == Some(full_range(self.bytes().len()))
        &&& self.modified() matches Some(r) ==> range_within(r, self.bytes().len())
    }

    fn collect_updates(&self) -> (r: Vec<GraphicsUpdateCmd<'_>>) {
        let mut r: Vec<GraphicsUpdateCmd<'_>> = Vec::new();
        if self.is_first {
            match self.state.modified_bytes() {
                Some(d) => {
                    r.push(GraphicsUpdateCmd::uniform_buffer_update(self.id, UniformBufferCmd::Create(d)));
                    assert(self.bytes().subrange(0, self.bytes().len() as int) =~= self.bytes());
                },
                None => {},
            }
        } else {
            match self.state.modified_bytes() {
                Some(d) => {
                    r.push(
                        GraphicsUpdateCmd::uniform_buffer_update(
                            self.id,
                            UniformBufferCmd::Update(BufferUpdateCmd::Update(d)),
                        ),
                    );
                },
                None => {},
            }
        }
        assert(crate::updates::views(r@) =~= self.pending_updates());
        r
    }

    fn clear_updates(&mut self)
        ensures
            final(self).id_spec() == old(self).id_spec(),
            final(self).bytes() == old(self).bytes(),
            !final(self).is_first(),
            final(self).modified() is None,
    {
        self.state.clear_modified();
        self.is_first = false;
    }
}

/// An image that objects sample, identified by the resource path it is loaded from.
pub struct UniformImageState {
    pub id: UniformResourceId,
    pub new_image_path: Option<String>,
    is_first: bool,
}

impl UniformImageState {
    /// The id of the image.
    pub closed spec fn image_id(&self) -> UniformResourceId {
        self.id
    }

    /// The path the image is still to be loaded from, if any.
    pub closed spec fn path(&self) -> Option<String> {
        self.new_image_path
    }

    /// The renderer has not been told to create the image yet.
    pub closed spec fn is_first(&self) -> bool {
        self.is_first
    }

    /// A new image loaded from `path`, with a fresh id.
    pub fn new(path: String, counters: &mut HandleCounters) -> (s: Self)
        ensures
            s.wf(),
            s.is_first(),
            s.image_id() == old(counters).next_uniform(),
            s.path() == Some(path),
            final(counters).next_uniform() == crate::object_handles::next_counter(
                old(counters).next_uniform(),
            ),
            final(counters).next_object() == old(counters).next_object(),
            s.pending_updates() == seq![UpdateView::CreateImage { id: s.image_id(), path: path@ }],
    {
        let id = get_new_uniform_id(counters);
        UniformImageState { id, new_image_path: Some(path), is_first: true }
    }

    /// The id of the image.
    pub fn id(&self) -> (id: UniformResourceId)
        ensures
            id == self.image_id(),
    {
        self.id
    }
}

impl CollectDrawStateUpdates for UniformImageState {
    /// The image is created once, from its path; nothing is sent afterwards.
    open spec fn pending_updates(&self) -> Seq<UpdateView> {
        if self.is_first() {
            seq![UpdateView::CreateImage { id: self.image_id(), path: self.path()->Some_0@ }]
        } else {
            Seq::empty()
        }
    }

    /// Until the image has been handed out, its path is known.
    open spec fn wf(&self) -> bool {
        self.is_first() ==> self.path() is Some
    }

    fn collect_updates(&self) -> (r: Vec<GraphicsUpdateCmd<'_>>) {
        let mut r: Vec<GraphicsUpdateCmd<'_>> = Vec::new();
        if self.is_first {
            match &self.new_image_path {
                Some(path) => {
                    let p = path.clone();
                    assert(p@ == self.path()->Some_0@);
                    r.push(GraphicsUpdateCmd::Image(self.id, ImageCmd::Create(p)));
                    assert(r@[0].view() == UpdateView::CreateImage { id: self.image_id(), path: self.path()->Some_0@ });
                },
                None => {},
            }
        }
        assert(crate::updates::views(r@) =~= self.pending_updates());
        r
    }

    fn clear_updates(&mut self)
        ensures
            final(self).image_id() == old(self).image_id(),
            !final(self).is_first(),
            final(self).path() is None,
    {
        self.new_image_path = None;
        self.is_first = false;
    }
}

} // verus!
