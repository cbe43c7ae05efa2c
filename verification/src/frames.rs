use crate::object_handles::ObjectId;
use crate::object_pool::{
    destroy_updates, entries_updates, entry_updates, handed_out_ids, EntryView, OrderedObjectPool,
};
use crate::scene::Scene;
use crate::single_object::SingleObject;
use crate::uniform::UniformBufferState;
use crate::updates::CollectDrawStateUpdates;
use crate::pipeline::PipelineView;
use crate::registry::{
    apply_update, first_missing, has_object, id_lower_bound, ids_sorted, lemma_id_lower_bound,
    registry_wf, run_updates, DrawRecord, RegistryView, ResourceAction,
};
use crate::updates::{BufferUpdateView, UpdateView};
use vstd::prelude::*;

verus! {

/// Object `id` is among the objects of `s`.
pub open spec fn holds_object(s: Seq<(ObjectId, DrawRecord)>, id: ObjectId) -> bool {
    exists|j: int| 0 <= j < s.len() && (#[trigger] s[j]).0 == id
}

/// In a sequence sorted by id, the position search finds exactly the objects held.
pub proof fn lemma_has_object_holds(s: Seq<(ObjectId, DrawRecord)>, id: ObjectId)
    requires
        ids_sorted(s),
    ensures
        has_object(s, id) == holds_object(s, id),
{
    lemma_id_lower_bound(s, id);
    if holds_object(s, id) {
        let j = choose|j: int| 0 <= j < s.len() && (#[trigger] s[j]).0 == id;
        let p = id_lower_bound(s, id) as int;
        if j < p {
            assert(s[j].0 < id);
        }
        if j > p {
            assert(s[p].0 < s[j].0);
        }
    }
}

/// Processing commands one after the other: running over `a + b` runs over `a`, then, unless
/// `a` was refused, over `b` from where `a` left the registry.
pub proof fn lemma_run_updates_append(r: RegistryView, a: Seq<UpdateView>, b: Seq<UpdateView>)
    ensures
        run_updates(r, a + b) == if run_updates(r, a).2 is None {
            let rb = run_updates(run_updates(r, a).1, b);
            (run_updates(r, a).0 + rb.0, rb.1, rb.2)
        } else {
            run_updates(r, a)
        },
    decreases a.len(),
{
    if a.len() == 0 {
        assert(a + b =~= b);
        assert(Seq::<ResourceAction>::empty() + run_updates(r, b).0 =~= run_updates(r, b).0);
    } else {
        assert((a + b)[0] == a[0]);
        assert((a + b).drop_first() =~= a.drop_first() + b);
        match apply_update(r, a[0]) {
            Ok((x, next)) => {
                lemma_run_updates_append(next, a.drop_first(), b);
                let ra = run_updates(next, a.drop_first());
                if ra.2 is None {
                    let rb = run_updates(ra.1, b);
                    assert(seq![x] + (ra.0 + rb.0) =~= (seq![x] + ra.0) + rb.0);
                }
            },
            Err(e) => {},
        }
    }
}

/// Creating an object the registry accepts adds exactly that object and keeps the registry
/// consistent; the uniform buffers and images stay as they were.
pub proof fn lemma_create_object_effect(r: RegistryView, c: UpdateView)
    requires
        registry_wf(r),
        c is CreateObject,
        apply_update(r, c) is Ok,
    ensures
        ({
            let r2 = apply_update(r, c)->Ok_0.1;
            &&& registry_wf(r2)
            &&& r2.uniform_buffers == r.uniform_buffers
            &&& r2.images == r.images
            &&& forall|x: ObjectId|
                #[trigger] holds_object(r2.objects, x) == (holds_object(r.objects, x) || x
                    == c->CreateObject_id)
        }),
{
    let id = c->CreateObject_id;
    let pipeline = c->CreateObject_pipeline;
    let rec = DrawRecord {
        vertex_count: pipeline.vertices_per_instance,
        instance_count: 1,
        pipeline_id: pipeline.id,
    };
    let r2 = apply_update(r, c)->Ok_0.1;
    lemma_id_lower_bound(r.objects, id);
    let p = id_lower_bound(r.objects, id) as int;
    let s = r.objects;
    let t = s.insert(p, (id, rec));
    assert(r2.objects == t);
    assert(ids_sorted(t)) by {
        assert forall|a: int, b: int| 0 <= a < b < t.len() implies #[trigger] t[a].0
            < #[trigger] t[b].0 by {
            if a < p && b == p {
            } else if a == p && b > p {
                assert(t[b] == s[b - 1]);
                lemma_has_object_holds(s, id);
                if b - 1 != p {
                    assert(s[p].0 < s[b - 1].0);
                }
            } else if a < p && b > p {
                assert(t[b] == s[b - 1]);
            } else if a > p {
                assert(t[a] == s[a - 1]);
                assert(t[b] == s[b - 1]);
            }
        }
    }
    assert(r2.pipelines.contains(pipeline.id)) by {
        if !r.pipelines.contains(pipeline.id) {
            assert(r2.pipelines[r2.pipelines.len() - 1] == pipeline.id);
        }
    }
    assert forall|x: u64| r.pipelines.contains(x) implies #[trigger] r2.pipelines.contains(x) by {
        let w = choose|w: int| 0 <= w < r.pipelines.len() && r.pipelines[w] == x;
        assert(r2.pipelines[w] == x);
    }
    assert forall|k: int| 0 <= k < t.len() implies r2.pipelines.contains(
        #[trigger] t[k].1.pipeline_id,
    ) by {
        if k < p {
            assert(t[k] == s[k]);
            assert(r.pipelines.contains(s[k].1.pipeline_id));
        } else if k > p {
            assert(t[k] == s[k - 1]);
            assert(r.pipelines.contains(s[k - 1].1.pipeline_id));
        }
    }
    assert(r2.pipelines.no_duplicates()) by {
        if !r.pipelines.contains(pipeline.id) {
            assert forall|a: int, b: int|
                0 <= a < b < r2.pipelines.len() implies r2.pipelines[a] != r2.pipelines[b] by {
                if b == r2.pipelines.len() - 1 {
                    assert(r.pipelines[a] != pipeline.id);
                }
            }
        }
    }
    assert forall|x: ObjectId| holds_object(t, x) == (holds_object(s, x) || x == id) by {
        if holds_object(t, x) {
            let j = choose|j: int| 0 <= j < t.len() && (#[trigger] t[j]).0 == x;
            if j < p {
                assert(t[j] == s[j]);
            } else if j > p {
                assert(t[j] == s[j - 1]);
            }
        }
        if holds_object(s, x) {
            let j = choose|j: int| 0 <= j < s.len() && (#[trigger] s[j]).0 == x;
            if j < p {
                assert(t[j] == s[j]);
            } else {
                assert(t[j + 1] == s[j]);
            }
        }
        if x == id {
            assert(t[p].0 == id);
        }
    }
}

/// Destroying an object the registry holds removes exactly that object and keeps the registry
/// consistent; the uniform buffers and images stay as they were.
pub proof fn lemma_destroy_object_effect(r: RegistryView, id: ObjectId)
    requires
        registry_wf(r),
        holds_object(r.objects, id),
    ensures
        apply_update(r, UpdateView::DestroyObject { id }) is Ok,
        ({
            let r2 = apply_update(r, UpdateView::DestroyObject { id })->Ok_0.1;
            &&& registry_wf(r2)
            &&& r2.uniform_buffers == r.uniform_buffers
            &&& r2.images == r.images
            &&& forall|x: ObjectId|
                #[trigger] holds_object(r2.objects, x) == (holds_object(r.objects, x) && x != id)
        }),
{
    lemma_has_object_holds(r.objects, id);
    lemma_id_lower_bound(r.objects, id);
    let p = id_lower_bound(r.objects, id) as int;
    let s = r.objects;
    let t = s.remove(p);
    let r2 = apply_update(r, UpdateView::DestroyObject { id })->Ok_0.1;
    assert(r2.objects == t);
    assert forall|a: int, b: int| 0 <= a < b < t.len() implies #[trigger] t[a].0
        < #[trigger] t[b].0 by {
        if a >= p {
            assert(t[a] == s[a + 1]);
        }
        if b >= p {
            assert(t[b] == s[b + 1]);
        }
    }
    assert forall|k: int| 0 <= k < t.len() implies r2.pipelines.contains(
        #[trigger] t[k].1.pipeline_id,
    ) by {
        if k < p {
            assert(t[k] == s[k]);
        } else {
            assert(t[k] == s[k + 1]);
        }
    }
    assert forall|x: ObjectId| holds_object(t, x) == (holds_object(s, x) && x != id) by {
        if holds_object(t, x) {
            let j = choose|j: int| 0 <= j < t.len() && (#[trigger] t[j]).0 == x;
            if j < p {
                assert(t[j] == s[j]);
                assert(s[j].0 < s[p].0);
            } else {
                assert(t[j] == s[j + 1]);
                assert(s[p].0 < s[j + 1].0);
            }
        }
        if holds_object(s, x) && x != id {
            let j = choose|j: int| 0 <= j < s.len() && (#[trigger] s[j]).0 == x;
            assert(j != p);
            if j < p {
                assert(t[j] == s[j]);
            } else {
                assert(t[j - 1] == s[j]);
            }
        }
    }
}

/// Running over no command refuses nothing and changes nothing.
proof fn lemma_run_updates_empty(r: RegistryView)
    ensures
        run_updates(r, Seq::<UpdateView>::empty()) == (Seq::<ResourceAction>::empty(), r, None::<
            crate::registry::UpdateError,
        >),
{
}

/// Running over one accepted command takes its action and leaves its registry.
proof fn lemma_run_updates_single(r: RegistryView, c: UpdateView)
    requires
        apply_update(r, c) is Ok,
    ensures
        run_updates(r, seq![c]).2 is None,
        run_updates(r, seq![c]).1 == apply_update(r, c)->Ok_0.1,
{
    assert(seq![c].drop_first() =~= Seq::<UpdateView>::empty());
    lemma_run_updates_empty(apply_update(r, c)->Ok_0.1);
}

/// Destroying distinct objects that the registry all holds is accepted in full and removes
/// exactly those objects.
pub proof fn lemma_destroys_accepted(r: RegistryView, ids: Seq<ObjectId>)
    requires
        registry_wf(r),
        ids.no_duplicates(),
        forall|k: int| 0 <= k < ids.len() ==> holds_object(r.objects, #[trigger] ids[k]),
    ensures
        run_updates(r, destroy_updates(ids)).2 is None,
        ({
            let r2 = run_updates(r, destroy_updates(ids)).1;
            &&& registry_wf(r2)
            &&& r2.uniform_buffers == r.uniform_buffers
            &&& r2.images == r.images
            &&& forall|x: ObjectId|
                #[trigger] holds_object(r2.objects, x) == (holds_object(r.objects, x)
                    && !ids.contains(x))
        }),
    decreases ids.len(),
{
    let d = destroy_updates(ids);
    if ids.len() == 0 {
        assert(d =~= Seq::<UpdateView>::empty());
        lemma_run_updates_empty(r);
    } else {
        assert(d[0] == UpdateView::DestroyObject { id: ids[0] });
        assert(d.drop_first() =~= destroy_updates(ids.drop_first()));
        lemma_destroy_object_effect(r, ids[0]);
        let r1 = apply_update(r, d[0])->Ok_0.1;
        let rest = ids.drop_first();
        assert forall|k: int| 0 <= k < rest.len() implies holds_object(
            r1.objects,
            #[trigger] rest[k],
        ) by {
            assert(rest[k] == ids[k + 1]);
            assert(ids[k + 1] != ids[0]);
            assert(holds_object(r.objects, ids[k + 1]));
        }
        assert(rest.no_duplicates()) by {
            assert forall|a: int, b: int| 0 <= a < b < rest.len() implies rest[a] != rest[b] by {
                assert(rest[a] == ids[a + 1] && rest[b] == ids[b + 1]);
            }
        }
        lemma_destroys_accepted(r1, rest);
        let r2 = run_updates(r1, destroy_updates(rest)).1;
        assert(run_updates(r, d).1 == r2);
        assert(run_updates(r, d).2 is None);
        assert forall|x: ObjectId|
            #[trigger] holds_object(r2.objects, x) == (holds_object(r.objects, x) && !ids.contains(
                x,
            )) by {
            assert(holds_object(r2.objects, x) == (holds_object(r1.objects, x) && !rest.contains(x)));
            assert(holds_object(r1.objects, x) == (holds_object(r.objects, x) && x != ids[0]));
            if ids.contains(x) && x != ids[0] {
                let k = choose|k: int| 0 <= k < ids.len() && ids[k] == x;
                assert(rest[k - 1] == x);
            }
            if rest.contains(x) {
                let k = choose|k: int| 0 <= k < rest.len() && rest[k] == x;
                assert(ids[k + 1] == x);
            }
            if x == ids[0] {
                assert(ids.contains(x));
            }
        }
    }
}

/// Object ids are distinct along a sequence of pool objects.
pub open spec fn entry_ids_distinct(s: Seq<EntryView>) -> bool {
    forall|a: int, b: int| 0 <= a < b < s.len() ==> (#[trigger] s[a]).id != (#[trigger] s[b]).id
}

/// Some new object of `s` has id `x`.
pub open spec fn new_with_id(s: Seq<EntryView>, x: ObjectId) -> bool {
    exists|j: int| 0 <= j < s.len() && (#[trigger] s[j]).is_new && s[j].id == x
}

/// The commands of pool objects are accepted in full when the registry holds exactly the
/// objects already handed out (not the new ones) and every binding: the new objects are added.
pub proof fn lemma_entries_accepted(
    r: RegistryView,
    s: Seq<EntryView>,
    pipeline: PipelineView,
    buffers: Seq<(u32, usize)>,
    images: Seq<(u32, usize)>,
)
    requires
        registry_wf(r),
        first_missing(buffers, r.uniform_buffers) is None,
        first_missing(images, r.images) is None,
        entry_ids_distinct(s),
        forall|j: int|
            0 <= j < s.len() ==> (#[trigger] s[j]).is_new != holds_object(r.objects, s[j].id),
    ensures
        run_updates(r, entries_updates(s, pipeline, buffers, images)).2 is None,
        ({
            let r2 = run_updates(r, entries_updates(s, pipeline, buffers, images)).1;
            &&& registry_wf(r2)
            &&& r2.uniform_buffers == r.uniform_buffers
            &&& r2.images == r.images
            &&& forall|x: ObjectId|
                #[trigger] holds_object(r2.objects, x) == (holds_object(r.objects, x)
                    || new_with_id(s, x))
        }),
    decreases s.len(),
{
    if s.len() == 0 {
        lemma_run_updates_empty(r);
    } else {
        let t = s.drop_last();
        let e = s.last();
        assert forall|j: int| 0 <= j < t.len() implies (#[trigger] t[j]).is_new != holds_object(
            r.objects,
            t[j].id,
        ) by {
            assert(t[j] == s[j]);
        }
        assert forall|a: int, b: int| 0 <= a < b < t.len() implies (#[trigger] t[a]).id != (
        #[trigger] t[b]).id by {
            assert(t[a] == s[a] && t[b] == s[b]);
        }
        lemma_entries_accepted(r, t, pipeline, buffers, images);
        let et = entries_updates(t, pipeline, buffers, images);
        let ee = entry_updates(e, pipeline, buffers, images);
        assert(entries_updates(s, pipeline, buffers, images) == et + ee);
        lemma_run_updates_append(r, et, ee);
        let rt = run_updates(r, et).1;
        assert(e == s[s.len() - 1]);
        assert forall|x: ObjectId| new_with_id(s, x) == (new_with_id(t, x) || (e.is_new && e.id == x)) by {
            if new_with_id(s, x) {
                let j = choose|j: int| 0 <= j < s.len() && (#[trigger] s[j]).is_new && s[j].id == x;
                if j < t.len() {
                    assert(t[j] == s[j]);
                }
            }
            if new_with_id(t, x) {
                let j = choose|j: int| 0 <= j < t.len() && (#[trigger] t[j]).is_new && t[j].id == x;
                assert(s[j] == t[j]);
            }
        }
        if e.is_new {
            let c = UpdateView::CreateObject {
                id: e.id,
                pipeline,
                buffers,
                images,
                bytes: e.bytes,
                offset: 0usize,
            };
            assert(ee == seq![c]);
            assert(!holds_object(rt.objects, e.id)) by {
                if new_with_id(t, e.id) {
                    let j = choose|j: int| 0 <= j < t.len() && (#[trigger] t[j]).is_new && t[j].id
                        == e.id;
                    assert(t[j] == s[j]);
                }
            }
            lemma_has_object_holds(rt.objects, e.id);
            assert(apply_update(rt, c) is Ok);
            lemma_create_object_effect(rt, c);
            lemma_run_updates_single(rt, c);
        } else {
            assert(holds_object(r.objects, e.id));
            match e.modified {
                Some(g) => {
                    let c = UpdateView::UpdateObject {
                        id: e.id,
                        update: BufferUpdateView::Update {
                            bytes: e.bytes.subrange(g.start as int, g.end as int),
                            offset: g.start,
                        },
                    };
                    assert(ee == seq![c]);
                    assert(registry_wf(rt));
                    assert(holds_object(rt.objects, e.id) == (holds_object(r.objects, e.id)
                        || new_with_id(t, e.id)));
                    assert(holds_object(rt.objects, e.id));
                    lemma_has_object_holds(rt.objects, e.id);
                    assert(has_object(rt.objects, e.id));
                    assert(apply_update(rt, c) is Ok);
                    lemma_run_updates_single(rt, c);
                },
                None => {
                    assert(ee == Seq::<UpdateView>::empty());
                    lemma_run_updates_empty(rt);
                },
            }
        }
    }
}

/// A pool's pending commands suit the registry: every binding exists, the removed objects are
/// distinct and all held, the objects have distinct ids, none of them removed, and the
/// registry holds exactly those already handed out.
pub open spec fn pool_ready(p: OrderedObjectPool, r: RegistryView) -> bool {
    &&& first_missing(p.buffers(), r.uniform_buffers) is None
    &&& first_missing(p.images(), r.images) is None
    &&& p.removed().no_duplicates()
    &&& forall|k: int| 0 <= k < p.removed().len() ==> holds_object(r.objects, #[trigger] p.removed()[k])
    &&& entry_ids_distinct(p.entries())
    &&& forall|j: int|
        0 <= j < p.entries().len() ==> (#[trigger] p.entries()[j]).is_new != holds_object(
            r.objects,
            p.entries()[j].id,
        )
    &&& forall|j: int|
        0 <= j < p.entries().len() ==> !p.removed().contains((#[trigger] p.entries()[j]).id)
}

/// A pool's pending commands are accepted in full by a registry they suit; afterwards the
/// registry holds the objects it held, less the removed ones, plus the new ones.
pub proof fn lemma_pool_accepted(r: RegistryView, p: OrderedObjectPool)
    requires
        registry_wf(r),
        pool_ready(p, r),
    ensures
        run_updates(r, p.pending_updates()).2 is None,
        ({
            let r2 = run_updates(r, p.pending_updates()).1;
            &&& registry_wf(r2)
            &&& r2.uniform_buffers == r.uniform_buffers
            &&& r2.images == r.images
            &&& forall|x: ObjectId|
                #[trigger] holds_object(r2.objects, x) == ((holds_object(r.objects, x)
                    && !p.removed().contains(x)) || new_with_id(p.entries(), x))
        }),
{
    let d = destroy_updates(p.removed());
    let e = entries_updates(p.entries(), p.pipeline(), p.buffers(), p.images());
    assert(p.pending_updates() == d + e);
    lemma_destroys_accepted(r, p.removed());
    let rd = run_updates(r, d).1;
    assert forall|j: int| 0 <= j < p.entries().len() implies (#[trigger] p.entries()[j]).is_new
        != holds_object(rd.objects, p.entries()[j].id) by {
        assert(holds_object(rd.objects, p.entries()[j].id) == (holds_object(
            r.objects,
            p.entries()[j].id,
        ) && !p.removed().contains(p.entries()[j].id)));
    }
    lemma_entries_accepted(rd, p.entries(), p.pipeline(), p.buffers(), p.images());
    lemma_run_updates_append(r, d, e);
    let r2 = run_updates(rd, e).1;
    assert forall|x: ObjectId|
        #[trigger] holds_object(r2.objects, x) == ((holds_object(r.objects, x)
            && !p.removed().contains(x)) || new_with_id(p.entries(), x)) by {
        assert(holds_object(r2.objects, x) == (holds_object(rd.objects, x) || new_with_id(
            p.entries(),
            x,
        )));
        assert(holds_object(rd.objects, x) == (holds_object(r.objects, x)
            && !p.removed().contains(x)));
    }
}

/// The pending commands of a uniform buffer already created are accepted and change nothing.
proof fn lemma_uniform_part(r: RegistryView, u: UniformBufferState)
    requires
        !u.is_first(),
        r.uniform_buffers.contains(u.id_spec()),
    ensures
        run_updates(r, u.pending_updates()).2 is None,
        run_updates(r, u.pending_updates()).1 == r,
{
    match u.modified() {
        Some(g) => lemma_run_updates_single(r, u.pending_updates()[0]),
        None => lemma_run_updates_empty(r),
    }
}

/// The pending commands of an object already created are accepted and change nothing.
proof fn lemma_object_part(r: RegistryView, o: SingleObject)
    requires
        registry_wf(r),
        !o.is_first(),
        holds_object(r.objects, o.id_spec()),
    ensures
        run_updates(r, o.pending_updates()).2 is None,
        run_updates(r, o.pending_updates()).1 == r,
{
    lemma_has_object_holds(r.objects, o.id_spec());
    match o.modified() {
        Some(g) => lemma_run_updates_single(r, o.pending_updates()[0]),
        None => lemma_run_updates_empty(r),
    }
}

/// A scene whose uniforms, image and lamp have been handed out suits the registry: the
/// registry is consistent, holds the uniform buffers and the lamp, and suits the trail; the
/// lamp is none of the trail's objects.
pub open spec fn scene_ready(s: Scene, r: RegistryView) -> bool {
    &&& registry_wf(r)
    &&& !s.time.is_first()
    &&& !s.map_stats.is_first()
    &&& !s.image.is_first()
    &&& !s.mirror_lamp.is_first()
    &&& r.uniform_buffers.contains(s.time.id_spec())
    &&& r.uniform_buffers.contains(s.map_stats.id_spec())
    &&& holds_object(r.objects, s.mirror_lamp.id_spec())
    &&& pool_ready(s.trail, r)
    &&& !s.trail.removed().contains(s.mirror_lamp.id_spec())
    &&& forall|j: int|
        0 <= j < s.trail.entries().len() ==> (#[trigger] s.trail.entries()[j]).id
            != s.mirror_lamp.id_spec()
}

/// Every frame of a scene that suits the renderer is accepted in full; afterwards the
/// renderer holds the objects it held, less the removed trail circles, plus the new ones.
pub proof fn law_ready_frame_accepted(s: Scene, r: RegistryView)
    requires
        scene_ready(s, r),
    ensures
        run_updates(r, s.pending_updates()).2 is None,
        ({
            let r2 = run_updates(r, s.pending_updates()).1;
            &&& registry_wf(r2)
            &&& r2.uniform_buffers == r.uniform_buffers
            &&& r2.images == r.images
            &&& forall|x: ObjectId|
                #[trigger] holds_object(r2.objects, x) == ((holds_object(r.objects, x)
                    && !s.trail.removed().contains(x)) || new_with_id(s.trail.entries(), x))
        }),
{
    let t = s.time.pending_updates();
    let m = s.map_stats.pending_updates();
    let i = s.image.pending_updates();
    let l = s.mirror_lamp.pending_updates();
    let p = s.trail.pending_updates();
    lemma_uniform_part(r, s.time);
    lemma_uniform_part(r, s.map_stats);
    assert(i == Seq::<UpdateView>::empty());
    lemma_run_updates_empty(r);
    lemma_object_part(r, s.mirror_lamp);
    lemma_pool_accepted(r, s.trail);
    lemma_run_updates_append(r, t, m);
    lemma_run_updates_append(r, t + m, i);
    lemma_run_updates_append(r, t + m + i, l);
    lemma_run_updates_append(r, t + m + i + l, p);
}

/// Once a frame of a scene that suits the renderer has been accepted and the scene's changes
/// cleared, the scene suits the renderer as the frame left it: frames keep being accepted.
pub proof fn law_cleared_scene_ready(s: Scene, s2: Scene, r: RegistryView)
    requires
        scene_ready(s, r),
        s2.cleared_from(&s),
    ensures
        scene_ready(s2, run_updates(r, s.pending_updates()).1),
{
    law_ready_frame_accepted(s, r);
    let r2 = run_updates(r, s.pending_updates()).1;
    let e = s.trail.entries();
    let e2 = s2.trail.entries();
    let lamp = s.mirror_lamp.id_spec();
    assert(holds_object(r2.objects, lamp));
    assert(s2.trail.removed() =~= Seq::<usize>::empty());
    assert forall|j: int| 0 <= j < e2.len() implies (#[trigger] e2[j]).is_new != holds_object(
        r2.objects,
        e2[j].id,
    ) by {
        assert(e2[j] == (EntryView { modified: None, is_new: false, ..e[j] }));
        assert(holds_object(r2.objects, e[j].id) == ((holds_object(r.objects, e[j].id)
            && !s.trail.removed().contains(e[j].id)) || new_with_id(e, e[j].id)));
        if e[j].is_new {
            assert(new_with_id(e, e[j].id));
        }
    }
    assert forall|a: int, b: int| 0 <= a < b < e2.len() implies (#[trigger] e2[a]).id != (
    #[trigger] e2[b]).id by {
        assert(e2[a].id == e[a].id && e2[b].id == e[b].id);
    }
    assert forall|j: int| 0 <= j < e2.len() implies (#[trigger] e2[j]).id != s2.mirror_lamp.id_spec() by {
        assert(e2[j].id == e[j].id);
    }
}

/// A registry that holds no resource.
pub open spec fn empty_registry() -> RegistryView {
    RegistryView {
        pipelines: Seq::empty(),
        objects: Seq::empty(),
        uniform_buffers: Seq::empty(),
        images: Seq::empty(),
    }
}

/// Bindings whose ids are all available have none missing.
proof fn lemma_first_missing_none(b: Seq<(u32, usize)>, available: Seq<usize>)
    requires
        forall|k: int| 0 <= k < b.len() ==> available.contains(#[trigger] b[k].1),
    ensures
        first_missing(b, available) is None,
    decreases b.len(),
{
    if b.len() > 0 {
        assert(available.contains(b[0].1));
        assert forall|k: int| 0 <= k < b.drop_first().len() implies available.contains(
            #[trigger] b.drop_first()[k].1,
        ) by {
            assert(b.drop_first()[k] == b[k + 1]);
        }
        lemma_first_missing_none(b.drop_first(), available);
    }
}

/// A freshly made scene: nothing handed out yet, the two uniform buffers distinct, every
/// binding of the lamp and of the trail naming one of them or the image, and the trail's
/// objects all new, with distinct ids other than the lamp's.
pub open spec fn scene_fresh(s: Scene) -> bool {
    &&& s.time.is_first()
    &&& s.map_stats.is_first()
    &&& s.image.is_first()
    &&& s.mirror_lamp.is_first()
    &&& s.time.id_spec() != s.map_stats.id_spec()
    &&& forall|k: int|
        0 <= k < s.mirror_lamp.buffers().len() ==> (#[trigger] s.mirror_lamp.buffers()[k]).1
            == s.time.id_spec() || s.mirror_lamp.buffers()[k].1 == s.map_stats.id_spec()
    &&& forall|k: int|
        0 <= k < s.mirror_lamp.images().len() ==> (#[trigger] s.mirror_lamp.images()[k]).1
            == s.image.image_id()
    &&& s.trail.buffers() == s.mirror_lamp.buffers()
    &&& s.trail.images() == s.mirror_lamp.images()
    &&& s.trail.removed().len() == 0
    &&& entry_ids_distinct(s.trail.entries())
    &&& forall|j: int|
        0 <= j < s.trail.entries().len() ==> (#[trigger] s.trail.entries()[j]).is_new
            && s.trail.entries()[j].id != s.mirror_lamp.id_spec()
}

/// The first frame of a freshly made scene is accepted in full by a renderer that holds no
/// resources (the uniforms and the image are created before the objects that bind them), and
/// once its changes are cleared the scene suits the renderer as that frame left it.
pub proof fn law_first_frame(s: Scene, s2: Scene, n: int)
    requires
        scene_fresh(s),
    ensures
        run_updates(empty_registry(), s.pending_updates()).2 is None,
        s2.cleared_from(&s) ==> scene_ready(s2, run_updates(empty_registry(), s.pending_updates()).1),
        s2.cleared_from(&s) && ids_below(s, empty_registry(), n) ==> ids_below(
            s2,
            run_updates(empty_registry(), s.pending_updates()).1,
            n,
        ),
{
    let tid = s.time.id_spec();
    let mid = s.map_stats.id_spec();
    let iid = s.image.image_id();
    let lamp = s.mirror_lamp.id_spec();
    let t = s.time.pending_updates();
    let m = s.map_stats.pending_updates();
    let i = s.image.pending_updates();
    let l = s.mirror_lamp.pending_updates();
    let p = s.trail.pending_updates();
    let r0 = empty_registry();
    let r1 = RegistryView { uniform_buffers: seq![tid], ..r0 };
    let r2 = RegistryView { uniform_buffers: seq![tid, mid], ..r0 };
    let r3 = RegistryView { uniform_buffers: seq![tid, mid], images: seq![iid], ..r0 };
    assert(r0.uniform_buffers.push(tid) =~= seq![tid]);
    lemma_run_updates_single(r0, t[0]);
    assert(!r1.uniform_buffers.contains(mid)) by {
        if r1.uniform_buffers.contains(mid) {
            assert(r1.uniform_buffers[0] == mid);
        }
    }
    assert(r1.uniform_buffers.push(mid) =~= seq![tid, mid]);
    lemma_run_updates_single(r1, m[0]);
    assert(r2.images.push(iid) =~= seq![iid]);
    lemma_run_updates_single(r2, i[0]);
    assert(r3.uniform_buffers.contains(tid)) by {
        assert(r3.uniform_buffers[0] == tid);
    }
    assert(r3.uniform_buffers.contains(mid)) by {
        assert(r3.uniform_buffers[1] == mid);
    }
    assert(r3.images.contains(iid)) by {
        assert(r3.images[0] == iid);
    }
    lemma_first_missing_none(s.mirror_lamp.buffers(), r3.uniform_buffers);
    lemma_first_missing_none(s.mirror_lamp.images(), r3.images);
    assert(registry_wf(r3)) by {
        assert(r3.uniform_buffers.no_duplicates());
    }
    lemma_has_object_holds(r3.objects, lamp);
    assert(apply_update(r3, l[0]) is Ok);
    lemma_create_object_effect(r3, l[0]);
    lemma_run_updates_single(r3, l[0]);
    let r4 = apply_update(r3, l[0])->Ok_0.1;
    assert forall|x: ObjectId| #[trigger] holds_object(r4.objects, x) == (x == lamp) by {
        assert(holds_object(r4.objects, x) == (holds_object(r3.objects, x) || x == lamp));
    }
    assert(s.trail.removed() =~= Seq::<usize>::empty());
    assert(pool_ready(s.trail, r4)) by {
        assert forall|j: int| 0 <= j < s.trail.entries().len() implies (
        #[trigger] s.trail.entries()[j]).is_new != holds_object(
            r4.objects,
            s.trail.entries()[j].id,
        ) by {
            assert(holds_object(r4.objects, s.trail.entries()[j].id) == (s.trail.entries()[j].id
                == lamp));
        }
    }
    lemma_pool_accepted(r4, s.trail);
    lemma_run_updates_append(r0, t, m);
    lemma_run_updates_append(r0, t + m, i);
    lemma_run_updates_append(r0, t + m + i, l);
    lemma_run_updates_append(r0, t + m + i + l, p);
    let r5 = run_updates(r4, p).1;
    assert(run_updates(r0, s.pending_updates()).1 == r5);
    if s2.cleared_from(&s) {
        let e = s.trail.entries();
        let e2 = s2.trail.entries();
        assert(r5.uniform_buffers.contains(tid));
        assert(r5.uniform_buffers.contains(mid));
        assert(holds_object(r5.objects, lamp) == ((holds_object(r4.objects, lamp)
            && !s.trail.removed().contains(lamp)) || new_with_id(e, lamp)));
        assert(s2.trail.removed() =~= Seq::<usize>::empty());
        assert forall|j: int| 0 <= j < e2.len() implies (#[trigger] e2[j]).is_new != holds_object(
            r5.objects,
            e2[j].id,
        ) by {
            assert(e2[j] == (EntryView { modified: None, is_new: false, ..e[j] }));
            assert(new_with_id(e, e[j].id));
            assert(holds_object(r5.objects, e[j].id) == ((holds_object(r4.objects, e[j].id)
                && !s.trail.removed().contains(e[j].id)) || new_with_id(e, e[j].id)));
        }
        assert forall|a: int, b: int| 0 <= a < b < e2.len() implies (#[trigger] e2[a]).id != (
        #[trigger] e2[b]).id by {
            assert(e2[a].id == e[a].id && e2[b].id == e[b].id);
        }
        assert forall|j: int| 0 <= j < e2.len() implies (#[trigger] e2[j]).id
            != s2.mirror_lamp.id_spec() by {
            assert(e2[j].id == e[j].id);
        }
        if ids_below(s, empty_registry(), n) {
            assert forall|x: ObjectId| #[trigger] holds_object(r5.objects, x) implies x < n by {
                assert(holds_object(r5.objects, x) == ((holds_object(r4.objects, x)
                    && !s.trail.removed().contains(x)) || new_with_id(e, x)));
                if new_with_id(e, x) {
                    let j = choose|j: int| 0 <= j < e.len() && (#[trigger] e[j]).is_new && e[j].id
                        == x;
                }
            }
            assert forall|j: int| 0 <= j < e2.len() implies (#[trigger] e2[j]).id < n by {
                assert(e2[j].id == e[j].id);
            }
        }
    }
}

/// Every object id in sight (held by the registry, the lamp's, the trail's and the removed
/// ones) is below `n`, the next id the counters hand out.
pub open spec fn ids_below(s: Scene, r: RegistryView, n: int) -> bool {
    &&& forall|x: ObjectId| #[trigger] holds_object(r.objects, x) ==> x < n
    &&& s.mirror_lamp.id_spec() < n
    &&& forall|j: int| 0 <= j < s.trail.entries().len() ==> (#[trigger] s.trail.entries()[j]).id < n
    &&& forall|k: int| 0 <= k < s.trail.removed().len() ==> #[trigger] s.trail.removed()[k] < n
}

/// `s2` has the same uniforms, image and lamp as `s`, as far as the renderer can tell: the
/// same ids, and all handed out.
pub open spec fn same_handed_out_parts(s: Scene, s2: Scene) -> bool {
    &&& s2.time.id_spec() == s.time.id_spec()
    &&& !s2.time.is_first()
    &&& s2.map_stats.id_spec() == s.map_stats.id_spec()
    &&& !s2.map_stats.is_first()
    &&& s2.image.image_id() == s.image.image_id()
    &&& !s2.image.is_first()
    &&& s2.mirror_lamp.id_spec() == s.mirror_lamp.id_spec()
    &&& !s2.mirror_lamp.is_first()
    &&& s2.trail.same_setup(&s.trail)
}

/// A frame accepted from a scene whose ids are all below `n` leaves ids below `n`.
pub proof fn law_frame_keeps_ids_below(s: Scene, s2: Scene, r: RegistryView, n: int)
    requires
        scene_ready(s, r),
        ids_below(s, r, n),
        s2.cleared_from(&s),
    ensures
        ids_below(s2, run_updates(r, s.pending_updates()).1, n),
{
    law_ready_frame_accepted(s, r);
    let r2 = run_updates(r, s.pending_updates()).1;
    let e = s.trail.entries();
    let e2 = s2.trail.entries();
    assert forall|x: ObjectId| #[trigger] holds_object(r2.objects, x) implies x < n by {
        if new_with_id(e, x) {
            let j = choose|j: int| 0 <= j < e.len() && (#[trigger] e[j]).is_new && e[j].id == x;
        }
    }
    assert forall|j: int| 0 <= j < e2.len() implies (#[trigger] e2[j]).id < n by {
        assert(e2[j].id == e[j].id);
    }
    assert(s2.trail.removed() =~= Seq::<usize>::empty());
}

/// Editing a scene between frames without touching what the renderer tracks (field writes on
/// the uniforms, the lamp or trail objects) keeps it suited to the renderer.
pub proof fn law_edit_keeps_ready(s: Scene, s2: Scene, r: RegistryView, n: int)
    requires
        scene_ready(s, r),
        ids_below(s, r, n),
        same_handed_out_parts(s, s2),
        s2.trail.removed() == s.trail.removed(),
        s2.trail.entries().len() == s.trail.entries().len(),
        forall|j: int|
            0 <= j < s.trail.entries().len() ==> (#[trigger] s2.trail.entries()[j]).id
                == s.trail.entries()[j].id && s2.trail.entries()[j].is_new
                == s.trail.entries()[j].is_new,
    ensures
        scene_ready(s2, r),
        ids_below(s2, r, n),
{
    let e = s.trail.entries();
    let e2 = s2.trail.entries();
    assert forall|a: int, b: int| 0 <= a < b < e2.len() implies (#[trigger] e2[a]).id != (
    #[trigger] e2[b]).id by {
        assert(e2[a].id == e[a].id && e2[b].id == e[b].id);
    }
    assert forall|j: int| 0 <= j < e2.len() implies (#[trigger] e2[j]).is_new != holds_object(
        r.objects,
        e2[j].id,
    ) by {
        assert(e2[j].id == e[j].id && e2[j].is_new == e[j].is_new);
    }
    assert forall|j: int| 0 <= j < e2.len() implies !s2.trail.removed().contains(
        (#[trigger] e2[j]).id,
    ) by {
        assert(e2[j].id == e[j].id);
        assert(!s.trail.removed().contains(e[j].id));
    }
    assert forall|j: int| 0 <= j < e2.len() implies (#[trigger] e2[j]).id
        != s2.mirror_lamp.id_spec() by {
        assert(e2[j].id == e[j].id);
    }
    assert forall|j: int| 0 <= j < e2.len() implies (#[trigger] e2[j]).id < n by {
        assert(e2[j].id == e[j].id);
    }
}

/// Adding a new trail object under the next id the counters hand out keeps the scene suited
/// to the renderer; every id is then below the following one.
pub proof fn law_new_trail_object_keeps_ready(
    s: Scene,
    s2: Scene,
    r: RegistryView,
    n: int,
    i: int,
    e: EntryView,
)
    requires
        scene_ready(s, r),
        ids_below(s, r, n),
        same_handed_out_parts(s, s2),
        s2.trail.removed() == s.trail.removed(),
        0 <= i <= s.trail.entries().len(),
        e.id == n,
        e.is_new,
        s2.trail.entries() == s.trail.entries().insert(i, e),
    ensures
        scene_ready(s2, r),
        ids_below(s2, r, n + 1),
{
    let old_e = s.trail.entries();
    let e2 = s2.trail.entries();
    assert forall|j: int| 0 <= j < e2.len() implies (j < i ==> e2[j] == old_e[j]) && (j > i
        ==> e2[j] == old_e[j - 1]) && (j == i ==> e2[j] == e) by {}
    assert forall|a: int, b: int| 0 <= a < b < e2.len() implies (#[trigger] e2[a]).id != (
    #[trigger] e2[b]).id by {
        if a != i && b != i {
            let a0 = if a < i { a } else { a - 1 };
            let b0 = if b < i { b } else { b - 1 };
            assert(e2[a] == old_e[a0] && e2[b] == old_e[b0]);
        } else if a == i {
            let b0 = b - 1;
            assert(e2[b] == old_e[b0]);
            assert(old_e[b0].id < n);
        } else {
            assert(e2[a] == old_e[a]);
            assert(old_e[a].id < n);
        }
    }
    assert forall|j: int| 0 <= j < e2.len() implies (#[trigger] e2[j]).is_new != holds_object(
        r.objects,
        e2[j].id,
    ) by {
        if j == i {
            if holds_object(r.objects, n as ObjectId) {
                assert(n < n);
            }
        } else {
            let j0 = if j < i { j } else { j - 1 };
            assert(e2[j] == old_e[j0]);
        }
    }
    assert forall|j: int| 0 <= j < e2.len() implies !s2.trail.removed().contains(
        (#[trigger] e2[j]).id,
    ) by {
        if j == i {
            if s.trail.removed().contains(n as ObjectId) {
                let k = choose|k: int| 0 <= k < s.trail.removed().len() && s.trail.removed()[k]
                    == n;
                assert(s.trail.removed()[k] < n);
            }
        } else {
            let j0 = if j < i { j } else { j - 1 };
            assert(e2[j] == old_e[j0]);
        }
    }
    assert forall|j: int| 0 <= j < e2.len() implies (#[trigger] e2[j]).id
        != s2.mirror_lamp.id_spec() by {
        if j != i {
            let j0 = if j < i { j } else { j - 1 };
            assert(e2[j] == old_e[j0]);
        }
    }
    assert forall|j: int| 0 <= j < e2.len() implies (#[trigger] e2[j]).id < n + 1 by {
        if j != i {
            let j0 = if j < i { j } else { j - 1 };
            assert(e2[j] == old_e[j0]);
        }
    }
}

/// Removing a trail object that has been handed out keeps the scene suited to the renderer.
/// (A trail object removed before its creation was handed out would have its destruction
/// refused.)
pub proof fn law_remove_handed_out_keeps_ready(s: Scene, s2: Scene, r: RegistryView, n: int, i: int)
    requires
        scene_ready(s, r),
        ids_below(s, r, n),
        same_handed_out_parts(s, s2),
        0 <= i < s.trail.entries().len(),
        !s.trail.entries()[i].is_new,
        s2.trail.entries() == s.trail.entries().remove(i),
        s2.trail.removed() == s.trail.removed().push(s.trail.entries()[i].id),
    ensures
        scene_ready(s2, r),
        ids_below(s2, r, n),
{
    let old_e = s.trail.entries();
    let e2 = s2.trail.entries();
    let gone = old_e[i];
    let rem = s2.trail.removed();
    assert forall|j: int| 0 <= j < e2.len() implies e2[j] == old_e[if j < i { j } else { j + 1 }] by {}
    assert(rem.no_duplicates()) by {
        assert forall|a: int, b: int| 0 <= a < b < rem.len() implies rem[a] != rem[b] by {
            if b == rem.len() - 1 {
                assert(rem[a] == s.trail.removed()[a]);
                assert(!s.trail.removed().contains(gone.id));
            } else {
                assert(rem[a] == s.trail.removed()[a] && rem[b] == s.trail.removed()[b]);
            }
        }
    }
    assert forall|k: int| 0 <= k < rem.len() implies holds_object(r.objects, #[trigger] rem[k]) by {
        if k < rem.len() - 1 {
            assert(rem[k] == s.trail.removed()[k]);
        } else {
            assert(rem[k] == gone.id);
            assert(gone.is_new != holds_object(r.objects, gone.id));
        }
    }
    assert forall|k: int| 0 <= k < rem.len() implies #[trigger] rem[k] < n by {
        if k < rem.len() - 1 {
            assert(rem[k] == s.trail.removed()[k]);
        }
    }
    assert forall|a: int, b: int| 0 <= a < b < e2.len() implies (#[trigger] e2[a]).id != (
    #[trigger] e2[b]).id by {
        let a0 = if a < i { a } else { a + 1 };
        let b0 = if b < i { b } else { b + 1 };
        assert(e2[a] == old_e[a0] && e2[b] == old_e[b0]);
    }
    assert forall|j: int| 0 <= j < e2.len() implies (#[trigger] e2[j]).is_new != holds_object(
        r.objects,
        e2[j].id,
    ) by {
        let j0 = if j < i { j } else { j + 1 };
        assert(e2[j] == old_e[j0]);
    }
    assert forall|j: int| 0 <= j < e2.len() implies !rem.contains((#[trigger] e2[j]).id) by {
        let j0 = if j < i { j } else { j + 1 };
        assert(e2[j] == old_e[j0]);
        assert(old_e[j0].id != gone.id);
        if rem.contains(e2[j].id) {
            let k = choose|k: int| 0 <= k < rem.len() && rem[k] == e2[j].id;
            if k < rem.len() - 1 {
                assert(rem[k] == s.trail.removed()[k]);
            }
        }
    }
    assert forall|j: int| 0 <= j < e2.len() implies (#[trigger] e2[j]).id
        != s2.mirror_lamp.id_spec() by {
        let j0 = if j < i { j } else { j + 1 };
        assert(e2[j] == old_e[j0]);
    }
    assert(!rem.contains(s2.mirror_lamp.id_spec())) by {
        if rem.contains(s2.mirror_lamp.id_spec()) {
            let k = choose|k: int| 0 <= k < rem.len() && rem[k] == s2.mirror_lamp.id_spec();
            if k < rem.len() - 1 {
                assert(rem[k] == s.trail.removed()[k]);
            }
        }
    }
    assert forall|j: int| 0 <= j < e2.len() implies (#[trigger] e2[j]).id < n by {
        let j0 = if j < i { j } else { j + 1 };
        assert(e2[j] == old_e[j0]);
    }
}

/// The handed-out ids of a sequence of objects are ids of its handed-out objects, and distinct
/// when the objects' ids are.
proof fn lemma_handed_out_ids(t: Seq<EntryView>)
    ensures
        forall|k: int|
            0 <= k < handed_out_ids(t).len() ==> exists|j: int|
                0 <= j < t.len() && !(#[trigger] t[j]).is_new && t[j].id == #[trigger] handed_out_ids(
                    t,
                )[k],
        entry_ids_distinct(t) ==> handed_out_ids(t).no_duplicates(),
    decreases t.len(),
{
    if t.len() > 0 {
        let u = t.drop_last();
        lemma_handed_out_ids(u);
        let h = handed_out_ids(t);
        let hu = handed_out_ids(u);
        assert forall|k: int| 0 <= k < h.len() implies exists|j: int|
            0 <= j < t.len() && !(#[trigger] t[j]).is_new && t[j].id == #[trigger] h[k] by {
            if k < hu.len() {
                assert(h[k] == hu[k]);
                let j = choose|j: int| 0 <= j < u.len() && !(#[trigger] u[j]).is_new && u[j].id
                    == hu[k];
                assert(t[j] == u[j]);
            } else {
                assert(t[t.len() - 1] == t.last());
            }
        }
        if entry_ids_distinct(t) {
            assert forall|a: int, b: int| 0 <= a < b < u.len() implies (#[trigger] u[a]).id != (
            #[trigger] u[b]).id by {
                assert(u[a] == t[a] && u[b] == t[b]);
            }
            assert forall|a: int, b: int| 0 <= a < b < h.len() implies h[a] != h[b] by {
                if b < hu.len() {
                    assert(h[a] == hu[a] && h[b] == hu[b]);
                } else {
                    assert(h[a] == hu[a]);
                    let j = choose|j: int| 0 <= j < u.len() && !(#[trigger] u[j]).is_new && u[j].id
                        == hu[a];
                    assert(t[j] == u[j]);
                    assert(h[b] == t.last().id);
                    assert(t[t.len() - 1] == t.last());
                }
            }
        }
    }
}

/// Dropping the trail objects below a key threshold keeps the scene suited to the renderer:
/// the destruction of those already handed out is queued, the new ones vanish.
pub proof fn law_auto_remove_keeps_ready(s: Scene, s2: Scene, r: RegistryView, n: int, p: int)
    requires
        scene_ready(s, r),
        ids_below(s, r, n),
        same_handed_out_parts(s, s2),
        0 <= p <= s.trail.entries().len(),
        s2.trail.entries() == s.trail.entries().skip(p),
        s2.trail.removed() == s.trail.removed() + handed_out_ids(s.trail.entries().take(p)),
    ensures
        scene_ready(s2, r),
        ids_below(s2, r, n),
{
    let old_e = s.trail.entries();
    let t = old_e.take(p);
    let h = handed_out_ids(t);
    let old_rem = s.trail.removed();
    let rem = s2.trail.removed();
    let e2 = s2.trail.entries();
    assert forall|a: int, b: int| 0 <= a < b < t.len() implies (#[trigger] t[a]).id != (
    #[trigger] t[b]).id by {
        assert(t[a] == old_e[a] && t[b] == old_e[b]);
    }
    lemma_handed_out_ids(t);
    assert forall|k: int| #![trigger h[k]] 0 <= k < h.len() implies exists|j: int|
        0 <= j < p && !(#[trigger] old_e[j]).is_new && old_e[j].id == h[k] by {
        let j = choose|j: int| 0 <= j < t.len() && !(#[trigger] t[j]).is_new && t[j].id == h[k];
        assert(t[j] == old_e[j]);
    }
    assert forall|k: int| 0 <= k < rem.len() implies holds_object(r.objects, #[trigger] rem[k])
        && rem[k] < n && rem[k] != s.mirror_lamp.id_spec() by {
        if k < old_rem.len() {
            assert(rem[k] == old_rem[k]);
            assert(old_rem.contains(old_rem[k]));
        } else {
            assert(rem[k] == h[k - old_rem.len()]);
            let j = choose|j: int| 0 <= j < p && !(#[trigger] old_e[j]).is_new && old_e[j].id
                == h[k - old_rem.len()];
        }
    }
    assert(rem.no_duplicates()) by {
        assert forall|a: int, b: int| 0 <= a < b < rem.len() implies rem[a] != rem[b] by {
            if b < old_rem.len() {
                assert(rem[a] == old_rem[a] && rem[b] == old_rem[b]);
            } else if a >= old_rem.len() {
                assert(rem[a] == h[a - old_rem.len()] && rem[b] == h[b - old_rem.len()]);
            } else {
                assert(rem[a] == old_rem[a] && rem[b] == h[b - old_rem.len()]);
                let j = choose|j: int| 0 <= j < p && !(#[trigger] old_e[j]).is_new && old_e[j].id
                    == h[b - old_rem.len()];
                assert(!old_rem.contains(old_e[j].id));
            }
        }
    }
    assert forall|j: int| 0 <= j < e2.len() implies e2[j] == old_e[j + p] by {}
    assert forall|a: int, b: int| 0 <= a < b < e2.len() implies (#[trigger] e2[a]).id != (
    #[trigger] e2[b]).id by {
        assert(e2[a] == old_e[a + p] && e2[b] == old_e[b + p]);
    }
    assert forall|j: int| 0 <= j < e2.len() implies (#[trigger] e2[j]).is_new != holds_object(
        r.objects,
        e2[j].id,
    ) by {
        assert(e2[j] == old_e[j + p]);
    }
    assert forall|j: int| 0 <= j < e2.len() implies !rem.contains((#[trigger] e2[j]).id) by {
        assert(e2[j] == old_e[j + p]);
        assert(!old_rem.contains(old_e[j + p].id));
        if rem.contains(e2[j].id) {
            let k = choose|k: int| 0 <= k < rem.len() && rem[k] == e2[j].id;
            if k < old_rem.len() {
                assert(rem[k] == old_rem[k]);
            } else {
                assert(rem[k] == h[k - old_rem.len()]);
                let i = choose|i: int| 0 <= i < p && !(#[trigger] old_e[i]).is_new && old_e[i].id
                    == h[k - old_rem.len()];
                assert(old_e[i].id != old_e[j + p].id);
            }
        }
    }
    assert(!rem.contains(s2.mirror_lamp.id_spec())) by {
        if rem.contains(s2.mirror_lamp.id_spec()) {
            let k = choose|k: int| 0 <= k < rem.len() && rem[k] == s2.mirror_lamp.id_spec();
        }
    }
    assert forall|j: int| 0 <= j < e2.len() implies (#[trigger] e2[j]).id
        != s2.mirror_lamp.id_spec() && e2[j].id < n by {
        assert(e2[j] == old_e[j + p]);
    }
}

} // verus!
