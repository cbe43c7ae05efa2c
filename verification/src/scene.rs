use crate::circle::CirclePipleine;
use crate::object_handles::HandleCounters;
use crate::object_pool::{EntryView, OrderedObjectPool};
use crate::pipeline::PipelineDescWrapper;
use crate::single_object::SingleObject;
use crate::uniform::{UniformBufferState, UniformImageState};
use crate::updates::{CollectDrawStateUpdates, GraphicsUpdateCmd, UpdateView};
use vstd::prelude::*;

verus! {

/// The draw state of the demo scene: two uniform buffers, an image, one lamp and a trail of
/// circles ordered by the time they were made.
pub struct Scene {
    pub time: UniformBufferState,
    pub map_stats: UniformBufferState,
    pub image: UniformImageState,
    pub mirror_lamp: SingleObject,
    pub trail: OrderedObjectPool,
}

impl Scene {
    /// A new scene. The uniforms are made first (time, map statistics, then the image loaded
    /// from `image_path`), then the lamp with `lamp_attributes`, all bound as the circle
    /// pipeline binds them; trail circles made by `entry` start with `trail_default`.
    pub fn new(
        time: Vec<u8>,
        map_stats: Vec<u8>,
        image_path: String,
        lamp_attributes: Vec<u8>,
        trail_default: Vec<u8>,
        circle_pipeline: PipelineDescWrapper,
        counters: &mut HandleCounters,
    ) -> (s: Self)
        ensures
            s.wf(),
            s.time.is_first() && s.time.bytes() == time@,
            s.map_stats.is_first() && s.map_stats.bytes() == map_stats@,
            s.image.is_first() && s.image.path() == Some(image_path),
            s.mirror_lamp.is_first() && s.mirror_lamp.bytes() == lamp_attributes@,
            s.time.id_spec() == old(counters).next_uniform(),
            s.map_stats.id_spec() == crate::object_handles::next_counter(old(counters).next_uniform()),
            s.image.image_id() == crate::object_handles::next_counter(
                crate::object_handles::next_counter(old(counters).next_uniform()),
            ),
            s.mirror_lamp.id_spec() == old(counters).next_object(),
            s.mirror_lamp.pipeline() == circle_pipeline@,
            s.mirror_lamp.buffers() == seq![(0u32, s.time.id_spec()), (1u32, s.map_stats.id_spec())],
            s.mirror_lamp.images() == seq![(2u32, s.image.image_id())],
            s.trail.entries().len() == 0,
            s.trail.removed().len() == 0,
            s.trail.pipeline() == circle_pipeline@,
            s.trail.buffers() == s.mirror_lamp.buffers(),
            s.trail.images() == s.mirror_lamp.images(),
            s.trail.default_attrib() == trail_default@,
    {
        let time = UniformBufferState::new(time, counters);
        let map_stats = UniformBufferState::new(map_stats, counters);
        let image = UniformImageState::new(image_path, counters);
        let lamp_pipeline = circle_pipeline.clone();
        let mirror_lamp = SingleObject::new(
            lamp_attributes,
            lamp_pipeline,
            CirclePipleine::get_uniform_ids(&time, &map_stats, &image),
            counters,
        );
        let trail = OrderedObjectPool::new(
            circle_pipeline,
            CirclePipleine::get_uniform_ids(&time, &map_stats, &image),
            trail_default,
        );
        Scene { time, map_stats, image, mirror_lamp, trail }
    }
}

impl Scene {
    /// What clearing the pending changes of `before` leaves: the same parts under the same
    /// ids and with the same bytes, all handed out, nothing modified and nothing removed.
    pub open spec fn cleared_from(&self, before: &Scene) -> bool {
        &&& self.time.id_spec() == before.time.id_spec()
        &&& self.time.bytes() == before.time.bytes()
        &&& !self.time.is_first()
        &&& self.time.modified() is None
        &&& self.map_stats.id_spec() == before.map_stats.id_spec()
        &&& self.map_stats.bytes() == before.map_stats.bytes()
        &&& !self.map_stats.is_first()
        &&& self.map_stats.modified() is None
        &&& self.image.image_id() == before.image.image_id()
        &&& !self.image.is_first()
        &&& self.mirror_lamp.id_spec() == before.mirror_lamp.id_spec()
        &&& self.mirror_lamp.bytes() == before.mirror_lamp.bytes()
        &&& !self.mirror_lamp.is_first()
        &&& self.mirror_lamp.modified() is None
        &&& self.mirror_lamp.pipeline() == before.mirror_lamp.pipeline()
        &&& self.mirror_lamp.buffers() == before.mirror_lamp.buffers()
        &&& self.mirror_lamp.images() == before.mirror_lamp.images()
        &&& self.trail.entries().len() == before.trail.entries().len()
        &&& forall|j: int|
            0 <= j < before.trail.entries().len() ==> #[trigger] self.trail.entries()[j] == (
            EntryView { modified: None, is_new: false, ..before.trail.entries()[j] })
        &&& self.trail.removed() == Seq::<usize>::empty()
        &&& self.trail.same_setup(&before.trail)
    }
}

impl CollectDrawStateUpdates for Scene {
    /// The pending commands of every part, part by part in field order.
    open spec fn pending_updates(&self) -> Seq<UpdateView> {
        self.time.pending_updates() + self.map_stats.pending_updates()
            + self.image.pending_updates() + self.mirror_lamp.pending_updates()
            + self.trail.pending_updates()
    }

    /// Every part is consistent.
    open spec fn wf(&self) -> bool {
        &&& self.time.wf()
        &&& self.map_stats.wf()
        &&& self.image.wf()
        &&& self.mirror_lamp.wf()
        &&& self.trail.wf()
    }

    fn collect_updates(&self) -> (r: Vec<GraphicsUpdateCmd<'_>>) {
        let mut r = self.time.collect_updates();
        let mut m = self.map_stats.collect_updates();
        r.append(&mut m);
        let mut i = self.image.collect_updates();
        r.append(&mut i);
        let mut l = self.mirror_lamp.collect_updates();
        r.append(&mut l);
        let mut t = self.trail.collect_updates();
        r.append(&mut t);
        assert(crate::updates::views(r@) =~= self.pending_updates());
        r
    }

    fn clear_updates(&mut self)
        ensures
            final(self).cleared_from(&*old(self)),
    {
        self.time.clear_updates();
        self.map_stats.clear_updates();
        self.image.clear_updates();
        self.mirror_lamp.clear_updates();
        self.trail.clear_updates();
        assert(self.pending_updates() =~= Seq::<UpdateView>::empty());
    }
}

} // verus!
