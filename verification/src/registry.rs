use crate::object_handles::{ObjectId, UniformResourceId};
use crate::updates::{
    views, BufferUpdateCmd, GraphicsUpdateCmd, ImageCmd, ObjectUpdate2DCmd, UniformBufferCmd,
    UpdateView, BufferUpdateView,
};
use crate::ordered::{lemma_increasing_same_values, lemma_increasing_usize_keys};
use std::collections::{BTreeMap, BTreeSet};
use vstd::prelude::*;
use vstd::std_specs::btree::spec_btree_map_iter;
use vstd::std_specs::iter::IteratorSpec;

verus! {

/// How one object is drawn: vertex and instance counts and the pipeline that draws it.
#[derive(Debug, Copy, Clone, PartialEq, Eq, Structural)]
pub struct DrawRecord {
    pub vertex_count: usize,
    pub instance_count: usize,
    pub pipeline_id: u64,
}

/// What the renderer must do with its GPU resources for one accepted update command.
#[allow(inconsistent_fields)]
#[derive(Debug, Copy, Clone, PartialEq, Eq, Structural)]
pub enum ResourceAction {
    /// Build the pipeline first when `create_pipeline`; then a descriptor set with the
    /// object's bindings and a vertex buffer holding its initial attributes.
    CreateObject { id: ObjectId, pipeline_id: u64, create_pipeline: bool, record: DrawRecord },
    /// Write the command's bytes into the object's vertex buffer at `offset`.
    WriteObject { id: ObjectId, offset: usize },
    /// Free the object's descriptor set and vertex buffer.
    DestroyObject { id: ObjectId },
    /// Create a uniform buffer holding the command's bytes.
    CreateUniformBuffer { id: UniformResourceId },
    /// Write the command's bytes into the uniform buffer at `offset`.
    WriteUniformBuffer { id: UniformResourceId, offset: usize },
    /// Load the image from the command's path and create it with a sampler.
    CreateImage { id: UniformResourceId },
}

/// Why an update command is refused.
#[derive(Debug, Copy, Clone, PartialEq, Eq, Structural)]
pub enum UpdateError {
    /// An object with this id already exists.
    ObjectExists(ObjectId),
    /// There is no object with this id.
    ObjectMissing(ObjectId),
    /// Creation data must start at offset 0.
    NonZeroOffset(usize),
    /// A uniform buffer with this id already exists.
    UniformBufferExists(UniformResourceId),
    /// There is no uniform buffer with this id.
    UniformBufferMissing(UniformResourceId),
    /// An image with this id already exists.
    ImageExists(UniformResourceId),
    /// There is no image with this id.
    ImageMissing(UniformResourceId),
    /// The renderer does not handle this kind of command.
    Unimplemented,
}

/// The plain content of a registry.
pub struct RegistryView {
    pub pipelines: Seq<u64>,
    pub objects: Seq<(ObjectId, DrawRecord)>,
    pub uniform_buffers: Seq<UniformResourceId>,
    pub images: Seq<UniformResourceId>,
}

/// Object ids strictly increase along the sequence.
pub open spec fn ids_sorted(s: Seq<(ObjectId, DrawRecord)>) -> bool {
    forall|i: int, j: int| 0 <= i < j < s.len() ==> #[trigger] s[i].0 < #[trigger] s[j].0
}

/// The position at which object `id` stands, or would be inserted, in a sequence sorted by id.
pub open spec fn id_lower_bound(s: Seq<(ObjectId, DrawRecord)>, id: ObjectId) -> nat
    decreases s.len(),
{
    if s.len() == 0 {
        0
    } else if s[0].0 >= id {
        0
    } else {
        1 + id_lower_bound(s.drop_first(), id)
    }
}

/// The sequence holds object `id`.
pub open spec fn has_object(s: Seq<(ObjectId, DrawRecord)>, id: ObjectId) -> bool {
    id_lower_bound(s, id) < s.len() && s[id_lower_bound(s, id) as int].0 == id
}

/// The first id bound in `bindings` that `available` lacks, if any.
pub open spec fn first_missing(bindings: Seq<(u32, usize)>, available: Seq<usize>) -> Option<usize>
    decreases bindings.len(),
{
    if bindings.len() == 0 {
        None
    } else if !available.contains(bindings[0].1) {
        Some(bindings[0].1)
    } else {
        first_missing(bindings.drop_first(), available)
    }
}

/// The outcome of one update command on a registry: the action the renderer takes and the
/// registry afterwards, or why the command is refused.
pub open spec fn apply_update(r: RegistryView, c: UpdateView) -> Result<
    (ResourceAction, RegistryView),
    UpdateError,
> {
    match c {
        UpdateView::CreateObject { id, pipeline, buffers, images, bytes, offset } => {
            if has_object(r.objects, id) {
                Err(UpdateError::ObjectExists(id))
            } else if offset != 0 {
                Err(UpdateError::NonZeroOffset(offset))
            } else if first_missing(buffers, r.uniform_buffers) is Some {
                Err(UpdateError::UniformBufferMissing(first_missing(buffers, r.uniform_buffers)->0))
            } else if first_missing(images, r.images) is Some {
                Err(UpdateError::ImageMissing(first_missing(images, r.images)->0))
            } else {
                let record = DrawRecord {
                    vertex_count: pipeline.vertices_per_instance,
                    instance_count: 1,
                    pipeline_id: pipeline.id,
                };
                let create_pipeline = !r.pipelines.contains(pipeline.id);
                Ok(
                    (
                        ResourceAction::CreateObject {
                            id,
                            pipeline_id: pipeline.id,
                            create_pipeline,
                            record,
                        },
                        RegistryView {
                            pipelines: if create_pipeline {
                                r.pipelines.push(pipeline.id)
                            } else {
                                r.pipelines
                            },
                            objects: r.objects.insert(id_lower_bound(r.objects, id) as int, (id, record)),
                            ..r
                        },
                    ),
                )
            }
        },
        UpdateView::UpdateObject { id, update } => match update {
            BufferUpdateView::Update { bytes, offset } => if has_object(r.objects, id) {
                Ok((ResourceAction::WriteObject { id, offset }, r))
            } else {
                Err(UpdateError::ObjectMissing(id))
            },
            _ => Err(UpdateError::Unimplemented),
        },
        UpdateView::DestroyObject { id } => if has_object(r.objects, id) {
            Ok(
                (
                    ResourceAction::DestroyObject { id },
                    RegistryView {
                        objects: r.objects.remove(id_lower_bound(r.objects, id) as int),
                        ..r
                    },
                ),
            )
        } else {
            Err(UpdateError::ObjectMissing(id))
        },
        UpdateView::CreateUniformBuffer { id, bytes, offset } => if offset != 0 {
            Err(UpdateError::NonZeroOffset(offset))
        } else if r.uniform_buffers.contains(id) {
            Err(UpdateError::UniformBufferExists(id))
        } else {
            Ok(
                (
                    ResourceAction::CreateUniformBuffer { id },
                    RegistryView { uniform_buffers: r.uniform_buffers.push(id), ..r },
                ),
            )
        },
        UpdateView::UpdateUniformBuffer { id, update } => match update {
            BufferUpdateView::Update { bytes, offset } => if r.uniform_buffers.contains(id) {
                Ok((ResourceAction::WriteUniformBuffer { id, offset }, r))
            } else {
                Err(UpdateError::UniformBufferMissing(id))
            },
            _ => Err(UpdateError::Unimplemented),
        },
        UpdateView::DestroyUniformBuffer { id } => Err(UpdateError::Unimplemented),
        UpdateView::CreateImage { id, path } => if r.images.contains(id) {
            Err(UpdateError::ImageExists(id))
        } else {
            Ok(
                (
                    ResourceAction::CreateImage { id },
                    RegistryView { images: r.images.push(id), ..r },
                ),
            )
        },
        UpdateView::DestroyImage { id } => Err(UpdateError::Unimplemented),
    }
}

/// Processing commands in order, up to the first refused one: the actions of the accepted
/// commands, the registry afterwards, and the refusal that stopped the run, if any.
pub open spec fn run_updates(r: RegistryView, cmds: Seq<UpdateView>) -> (
    Seq<ResourceAction>,
    RegistryView,
    Option<UpdateError>,
)
    decreases cmds.len(),
{
    if cmds.len() == 0 {
        (Seq::empty(), r, None)
    } else {
        match apply_update(r, cmds[0]) {
            Ok((a, next)) => {
                let rest = run_updates(next, cmds.drop_first());
                (seq![a] + rest.0, rest.1, rest.2)
            },
            Err(e) => (Seq::empty(), r, Some(e)),
        }
    }
}

/// The registry is consistent: objects are sorted by id, no pipeline or uniform resource is
/// listed twice, and every object's pipeline exists.
pub open spec fn registry_wf(r: RegistryView) -> bool {
    &&& ids_sorted(r.objects)
    &&& r.pipelines.no_duplicates()
    &&& r.uniform_buffers.no_duplicates()
    &&& r.images.no_duplicates()
    &&& forall|i: int| 0 <= i < r.objects.len() ==> r.pipelines.contains(#[trigger] r.objects[i].1.pipeline_id)
}

/// In a sequence sorted by id, `id_lower_bound` splits it into the ids below `id` and the rest.
pub proof fn lemma_id_lower_bound(s: Seq<(ObjectId, DrawRecord)>, id: ObjectId)
    requires
        ids_sorted(s),
    ensures
        id_lower_bound(s, id) <= s.len(),
        forall|j: int| 0 <= j < id_lower_bound(s, id) ==> #[trigger] s[j].0 < id,
        forall|j: int| id_lower_bound(s, id) <= j < s.len() ==> #[trigger] s[j].0 >= id,
    decreases s.len(),
{
    if s.len() > 0 && s[0].0 < id {
        let t = s.drop_first();
        assert(ids_sorted(t));
        lemma_id_lower_bound(t, id);
        assert forall|j: int| 0 <= j < id_lower_bound(s, id) implies #[trigger] s[j].0 < id by {
            if j > 0 {
                assert(s[j] == t[j - 1]);
            }
        }
        assert forall|j: int| id_lower_bound(s, id) <= j < s.len() implies #[trigger] s[j].0 >= id by {
            assert(s[j] == t[j - 1]);
        }
    } else if s.len() > 0 {
        assert forall|j: int| id_lower_bound(s, id) <= j < s.len() implies #[trigger] s[j].0 >= id by {
            if j > 0 {
                assert(s[0].0 < s[j].0);
            }
        }
    }
}

/// The position that splits a sorted sequence around `id` is `id_lower_bound(s, id)`.
pub proof fn lemma_id_lower_bound_unique(s: Seq<(ObjectId, DrawRecord)>, id: ObjectId, i: int)
    requires
        ids_sorted(s),
        0 <= i <= s.len(),
        forall|j: int| 0 <= j < i ==> #[trigger] s[j].0 < id,
        i < s.len() ==> s[i].0 >= id,
    ensures
        id_lower_bound(s, id) == i,
    decreases s.len(),
{
    if s.len() > 0 && s[0].0 < id {
        let t = s.drop_first();
        assert(ids_sorted(t));
        assert forall|j: int| 0 <= j < i - 1 implies #[trigger] t[j].0 < id by {
            assert(t[j] == s[j + 1]);
        }
        lemma_id_lower_bound_unique(t, id, i - 1);
    }
}

} // verus!


verus! {

/// The map holds exactly the objects of `s`, each under its id.
pub open spec fn indexes_objects(m: Map<ObjectId, DrawRecord>, s: Seq<(ObjectId, DrawRecord)>) -> bool {
    &&& forall|i: int|
        0 <= i < s.len() ==> m.contains_key((#[trigger] s[i]).0) && m[s[i].0] == s[i].1
    &&& forall|k: ObjectId| #[trigger] m.contains_key(k) ==> exists|i: int| 0 <= i < s.len() && (#[trigger] s[i]).0 == k
}

/// Adding `x` to the set and to the end of `s` keeps them holding the same values.
proof fn lemma_push_same_members<T>(set: Set<T>, s: Seq<T>, x: T)
    requires
        same_members(set, s),
    ensures
        same_members(set.insert(x), s.push(x)),
{
    let t = s.push(x);
    assert forall|y: T| #![trigger set.insert(x).contains(y)] #![trigger t.contains(y)]
        set.insert(x).contains(y) <==> t.contains(y) by {
        if y == x {
            assert(t[s.len() as int] == y);
        } else if t.contains(y) {
            let w = choose|w: int| 0 <= w < t.len() && t[w] == y;
            assert(s[w] == y);
        } else if set.contains(y) {
            let w = choose|w: int| 0 <= w < s.len() && s[w] == y;
            assert(t[w] == y);
        }
    }
}

/// The set holds exactly the values of `s`.
pub open spec fn same_members<T>(set: Set<T>, s: Seq<T>) -> bool {
    forall|x: T| #![trigger set.contains(x)] #![trigger s.contains(x)] set.contains(x) <==> s.contains(x)
}

/// In a sequence sorted by id, the map that indexes it holds `id` exactly when the sequence does.
proof fn lemma_has_object_iff(m: Map<ObjectId, DrawRecord>, s: Seq<(ObjectId, DrawRecord)>, id: ObjectId)
    requires
        ids_sorted(s),
        indexes_objects(m, s),
    ensures
        m.contains_key(id) <==> has_object(s, id),
        id_lower_bound(s, id) <= s.len(),
{
    lemma_id_lower_bound(s, id);
    let lb = id_lower_bound(s, id) as int;
    if m.contains_key(id) {
        let i = choose|i: int| 0 <= i < s.len() && (#[trigger] s[i]).0 == id;
        if i < lb {
            assert(s[i].0 < id);
        } else if i > lb {
            assert(s[lb].0 < s[i].0);
        }
    }
    if has_object(s, id) {
        assert(m.contains_key(s[lb].0));
    }
}

/// The first id bound in `bindings` that `available` lacks, if any.
fn find_missing(
    bindings: &[(u32, usize)],
    available: &BTreeSet<usize>,
    Ghost(listed): Ghost<Seq<usize>>,
) -> (m: Option<usize>)
    requires
        same_members(available@, listed),
    ensures
        m == first_missing(bindings@, listed),
{
    assert(bindings@.skip(0) =~= bindings@);
    let mut i: usize = 0;
    while i < bindings.len()
        invariant
            same_members(available@, listed),
            i <= bindings@.len(),
            first_missing(bindings@, listed) == first_missing(bindings@.skip(i as int), listed),
        decreases bindings@.len() - i,
    {
        let (_, id) = bindings[i];
        assert(bindings@.skip(i as int)[0] == bindings@[i as int]);
        assert(bindings@.skip(i as int).drop_first() =~= bindings@.skip(i + 1));
        if !available.contains(&id) {
            return Some(id);
        }
        i = i + 1;
    }
    assert(bindings@.skip(i as int) =~= Seq::<(u32, usize)>::empty());
    None
}

/// Walking the object map in order of id meets the objects in the order of `s`.
proof fn lemma_objects_walk_in_order<'a>(
    m: &'a BTreeMap<ObjectId, DrawRecord>,
    s: Seq<(ObjectId, DrawRecord)>,
    v: Seq<(&'a ObjectId, &'a DrawRecord)>,
)
    requires
        ids_sorted(s),
        indexes_objects(m@, s),
        v == spec_btree_map_iter(m).remaining(),
        forall|i: int, j: int| 0 <= i < j < v.len() ==> *v[i].0 < *v[j].0,
    ensures
        v.len() == s.len(),
        forall|i: int| 0 <= i < s.len() ==> *v[i].0 == s[i].0 && *v[i].1 == s[i].1,
{
    let ks = Seq::new(v.len(), |i: int| *v[i].0 as int);
    let kt = Seq::new(s.len(), |i: int| s[i].0 as int);
    assert forall|i: int, j: int| 0 <= i < j < kt.len() implies kt[i] < kt[j] by {
        assert(s[i].0 < s[j].0);
    }
    assert forall|i: int| 0 <= i < ks.len() implies kt.contains(#[trigger] ks[i]) by {
        assert(m@.contains_key(*v[i].0));
        let k = choose|k: int| 0 <= k < s.len() && (#[trigger] s[k]).0 == *v[i].0;
        assert(kt[k] == ks[i]);
    }
    assert forall|j: int| 0 <= j < kt.len() implies ks.contains(#[trigger] kt[j]) by {
        let key = s[j].0;
        assert(m@.contains_key(key));
        assert(v.contains((&key, &m@[key])));
        let i = choose|i: int| 0 <= i < v.len() && v[i] == (&key, &m@[key]);
        assert(ks[i] == kt[j]);
    }
    lemma_increasing_same_values(ks, kt);
    assert forall|i: int| 0 <= i < s.len() implies *v[i].0 == s[i].0 && *v[i].1 == s[i].1 by {
        assert(ks[i] == kt[i]);
        assert(m@.contains_key(*v[i].0) && m@[*v[i].0] == *v[i].1);
    }
}

/// The renderer's record of which GPU resources exist: the pipelines by id, the objects by id
/// with how they are drawn, and the uniform buffers and images by id, each in an ordered
/// collection.
pub struct ObjectResourcePool {
    pipelines: BTreeSet<u64>,
    objects: BTreeMap<ObjectId, DrawRecord>,
    uniform_buffers: BTreeSet<UniformResourceId>,
    image_resources: BTreeSet<UniformResourceId>,
    state: Ghost<RegistryView>,
}

impl View for ObjectResourcePool {
    type V = RegistryView;

    closed spec fn view(&self) -> RegistryView {
        self.state@
    }
}

impl ObjectResourcePool {
    /// The registry is consistent and its collections hold exactly what its view lists.
    pub closed spec fn wf(&self) -> bool {
        &&& registry_wf(self.state@)
        &&& same_members(self.pipelines@, self.state@.pipelines)
        &&& indexes_objects(self.objects@, self.state@.objects)
        &&& same_members(self.uniform_buffers@, self.state@.uniform_buffers)
        &&& same_members(self.image_resources@, self.state@.images)
    }

    /// A registry with no resources.
    pub fn new() -> (r: Self)
        ensures
            r.wf(),
            registry_wf(r@),
            r@.pipelines == Seq::<u64>::empty(),
            r@.objects == Seq::<(ObjectId, DrawRecord)>::empty(),
            r@.uniform_buffers == Seq::<UniformResourceId>::empty(),
            r@.images == Seq::<UniformResourceId>::empty(),
    {
        ObjectResourcePool {
            pipelines: BTreeSet::new(),
            objects: BTreeMap::new(),
            uniform_buffers: BTreeSet::new(),
            image_resources: BTreeSet::new(),
            state: Ghost(
                RegistryView {
                    pipelines: Seq::empty(),
                    objects: Seq::empty(),
                    uniform_buffers: Seq::empty(),
                    images: Seq::empty(),
                },
            ),
        }
    }

    /// Whether object `id` exists.
    fn object_exists(&self, id: ObjectId) -> (b: bool)
        requires
            self.wf(),
        ensures
            b == has_object(self@.objects, id),
            id_lower_bound(self@.objects, id) <= self@.objects.len(),
    {
        proof {
            lemma_has_object_iff(self.objects@, self.state@.objects, id);
        }
        self.objects.contains_key(&id)
    }

    /// `apply` for the creation of an object.
    fn create_object(&mut self, cmd: &GraphicsUpdateCmd) -> (res: Result<ResourceAction, UpdateError>)
        requires
            old(self).wf(),
            cmd matches GraphicsUpdateCmd::Object2D(_, ObjectUpdate2DCmd::Create { .. }),
        ensures
            final(self).wf(),
            match apply_update(old(self)@, cmd.view()) {
                Ok((a, r)) => res == Ok::<ResourceAction, UpdateError>(a) && final(self)@ == r,
                Err(e) => res == Err::<ResourceAction, UpdateError>(e) && final(self)@ == old(self)@,
            },
    {
        match cmd {
            GraphicsUpdateCmd::Object2D(id, object_cmd) => match object_cmd {
                ObjectUpdate2DCmd::Create { pipeline_desc, uniform_bindings_desc, initial_state } => {
                    let id = *id;
                    if self.object_exists(id) {
                        return Err(UpdateError::ObjectExists(id));
                    }
                    if initial_state.buffer_offset != 0 {
                        return Err(UpdateError::NonZeroOffset(initial_state.buffer_offset));
                    }
                    let buffers = uniform_bindings_desc.buffer_bindings.as_slice();
                    match find_missing(buffers, &self.uniform_buffers, Ghost(self.state@.uniform_buffers)) {
                        Some(missing) => {
                            return Err(UpdateError::UniformBufferMissing(missing));
                        },
                        None => {},
                    }
                    let images = uniform_bindings_desc.image_bindings.as_slice();
                    match find_missing(images, &self.image_resources, Ghost(self.state@.images)) {
                        Some(missing) => {
                            return Err(UpdateError::ImageMissing(missing));
                        },
                        None => {},
                    }
                    let record = DrawRecord {
                        vertex_count: pipeline_desc.vertices_per_instance,
                        instance_count: 1,
                        pipeline_id: pipeline_desc.id,
                    };
                    let create_pipeline = !self.pipelines.contains(&pipeline_desc.id);
                    let ghost old_view = self@;
                    let ghost old_objects = self.objects@;
                    let ghost pos = id_lower_bound(old_view.objects, id);
                    proof {
                        lemma_id_lower_bound(old_view.objects, id);
                        lemma_has_object_iff(old_objects, old_view.objects, id);
                    }
                    if create_pipeline {
                        self.pipelines.insert(pipeline_desc.id);
                    }
                    self.objects.insert(id, record);
                    let ghost new_view = RegistryView {
                        pipelines: if create_pipeline {
                            old_view.pipelines.push(pipeline_desc.id)
                        } else {
                            old_view.pipelines
                        },
                        objects: old_view.objects.insert(pos as int, (id, record)),
                        uniform_buffers: old_view.uniform_buffers,
                        images: old_view.images,
                    };
                    proof {
                        let s = old_view.objects;
                        let t = new_view.objects;
                        let i = pos as int;
                        assert forall|a: int, b: int| 0 <= a < b < t.len() implies #[trigger] t[a].0
                            < #[trigger] t[b].0 by {
                            if a < i && b == i {
                            } else if a == i && b > i {
                                assert(t[b] == s[b - 1]);
                                if b - 1 != i {
                                    assert(s[i].0 < s[b - 1].0);
                                }
                            } else if a < i && b > i {
                                assert(t[b] == s[b - 1]);
                            } else if a > i {
                                assert(t[a] == s[a - 1]);
                                assert(t[b] == s[b - 1]);
                            }
                        }
                        assert forall|x: u64| old_view.pipelines.contains(x) implies #[trigger] new_view.pipelines.contains(x) by {
                            let w = choose|w: int| 0 <= w < old_view.pipelines.len() && old_view.pipelines[w] == x;
                            assert(new_view.pipelines[w] == x);
                        }
                        assert(new_view.pipelines.contains(pipeline_desc.id)) by {
                            if create_pipeline {
                                assert(new_view.pipelines[new_view.pipelines.len() - 1] == pipeline_desc.id);
                            }
                        }
                        assert forall|k: int| 0 <= k < t.len() implies new_view.pipelines.contains(
                            #[trigger] t[k].1.pipeline_id,
                        ) by {
                            if k < i {
                                assert(t[k] == s[k]);
                                assert(old_view.pipelines.contains(s[k].1.pipeline_id));
                            } else if k > i {
                                assert(t[k] == s[k - 1]);
                                assert(old_view.pipelines.contains(s[k - 1].1.pipeline_id));
                            }
                        }
                        if create_pipeline {
                            assert forall|a: int, b: int|
                                0 <= a < b < new_view.pipelines.len() implies new_view.pipelines[a]
                                != new_view.pipelines[b] by {
                                if b == new_view.pipelines.len() - 1 {
                                    assert(old_view.pipelines[a] != pipeline_desc.id);
                                }
                            }
                        }
                        assert forall|x: u64| #![trigger self.pipelines@.contains(x)] #![trigger new_view.pipelines.contains(x)]
                            self.pipelines@.contains(x) <==> new_view.pipelines.contains(x) by {
                            if create_pipeline && x == pipeline_desc.id {
                                assert(new_view.pipelines[new_view.pipelines.len() - 1] == x);
                            } else if new_view.pipelines.contains(x) {
                                let w = choose|w: int| 0 <= w < new_view.pipelines.len() && new_view.pipelines[w] == x;
                                assert(old_view.pipelines[w] == x);
                            }
                        }
                        assert forall|k: int| 0 <= k < t.len() implies self.objects@.contains_key(
                            (#[trigger] t[k]).0,
                        ) && self.objects@[t[k].0] == t[k].1 by {
                            if k < i {
                                assert(t[k] == s[k]);
                            } else if k > i {
                                assert(t[k] == s[k - 1]);
                            }
                        }
                        assert forall|q: ObjectId| #[trigger] self.objects@.contains_key(q) implies exists|
                            k: int,
                        | 0 <= k < t.len() && (#[trigger] t[k]).0 == q by {
                            if q == id {
                                assert(t[i].0 == q);
                            } else {
                                let k = choose|k: int| 0 <= k < s.len() && (#[trigger] s[k]).0 == q;
                                if k < i {
                                    assert(t[k] == s[k]);
                                } else {
                                    assert(t[k + 1] == s[k]);
                                }
                            }
                        }
                    }
                    self.state = Ghost(new_view);
                    Ok(
                        ResourceAction::CreateObject {
                            id,
                            pipeline_id: pipeline_desc.id,
                            create_pipeline,
                            record,
                        },
                    )
                },
                _ => {
                    assert(false);
                    Err(UpdateError::Unimplemented)
                },
            },
            _ => {
                assert(false);
                Err(UpdateError::Unimplemented)
            },
        }
    }

    /// `apply` for the destruction of an object.
    fn destroy_object(&mut self, cmd: &GraphicsUpdateCmd) -> (res: Result<ResourceAction, UpdateError>)
        requires
            old(self).wf(),
            cmd matches GraphicsUpdateCmd::Object2D(_, ObjectUpdate2DCmd::Destroy),
        ensures
            final(self).wf(),
            match apply_update(old(self)@, cmd.view()) {
                Ok((a, r)) => res == Ok::<ResourceAction, UpdateError>(a) && final(self)@ == r,
                Err(e) => res == Err::<ResourceAction, UpdateError>(e) && final(self)@ == old(self)@,
            },
    {
        match cmd {
            GraphicsUpdateCmd::Object2D(id, object_cmd) => match object_cmd {
                ObjectUpdate2DCmd::Destroy => {
                    let id = *id;
                    if !self.object_exists(id) {
                        return Err(UpdateError::ObjectMissing(id));
                    }
                    let ghost old_view = self@;
                    let ghost pos = id_lower_bound(old_view.objects, id);
                    proof {
                        lemma_id_lower_bound(old_view.objects, id);
                    }
                    self.objects.remove(&id);
                    let ghost new_view = RegistryView {
                        pipelines: old_view.pipelines,
                        objects: old_view.objects.remove(pos as int),
                        uniform_buffers: old_view.uniform_buffers,
                        images: old_view.images,
                    };
                    proof {
                        let s = old_view.objects;
                        let t = new_view.objects;
                        let i = pos as int;
                        assert(s[i].0 == id);
                        assert forall|a: int, b: int| 0 <= a < b < t.len() implies #[trigger] t[a].0
                            < #[trigger] t[b].0 by {
                            if a >= i {
                                assert(t[a] == s[a + 1]);
                            }
                            if b >= i {
                                assert(t[b] == s[b + 1]);
                            }
                        }
                        assert forall|k: int| 0 <= k < t.len() implies new_view.pipelines.contains(
                            #[trigger] t[k].1.pipeline_id,
                        ) by {
                            if k < i {
                                assert(t[k] == s[k]);
                            } else {
                                assert(t[k] == s[k + 1]);
                            }
                        }
                        assert forall|k: int| 0 <= k < t.len() implies self.objects@.contains_key(
                            (#[trigger] t[k]).0,
                        ) && self.objects@[t[k].0] == t[k].1 by {
                            if k < i {
                                assert(t[k] == s[k]);
                                assert(s[k].0 < s[i].0);
                            } else {
                                assert(t[k] == s[k + 1]);
                                assert(s[i].0 < s[k + 1].0);
                            }
                        }
                        assert forall|q: ObjectId| #[trigger] self.objects@.contains_key(q) implies exists|
                            k: int,
                        | 0 <= k < t.len() && (#[trigger] t[k]).0 == q by {
                            let k = choose|k: int| 0 <= k < s.len() && (#[trigger] s[k]).0 == q;
                            if k < i {
                                assert(t[k] == s[k]);
                            } else {
                                assert(k != i);
                                assert(t[k - 1] == s[k]);
                            }
                        }
                    }
                    self.state = Ghost(new_view);
                    Ok(ResourceAction::DestroyObject { id })
                },
                _ => {
                    assert(false);
                    Err(UpdateError::Unimplemented)
                },
            },
            _ => {
                assert(false);
                Err(UpdateError::Unimplemented)
            },
        }
    }

    /// Checks one update command against the resources that exist and records its effect: the
    /// action the renderer takes, or why the command is refused, in which case nothing changes.
    fn apply(&mut self, cmd: &GraphicsUpdateCmd) -> (res: Result<ResourceAction, UpdateError>)
        requires
            old(self).wf(),
        ensures
            final(self).wf(),
            match apply_update(old(self)@, cmd.view()) {
                Ok((a, r)) => res == Ok::<ResourceAction, UpdateError>(a) && final(self)@ == r,
                Err(e) => res == Err::<ResourceAction, UpdateError>(e) && final(self)@ == old(self)@,
            },
    {
        match cmd {
            GraphicsUpdateCmd::Object2D(id, object_cmd) => match object_cmd {
                ObjectUpdate2DCmd::Create { .. } => self.create_object(cmd),
                ObjectUpdate2DCmd::AttribUpdate(buffer_update) => match buffer_update {
                    BufferUpdateCmd::Update(data) => {
                        if self.object_exists(*id) {
                            Ok(ResourceAction::WriteObject { id: *id, offset: data.buffer_offset })
                        } else {
                            Err(UpdateError::ObjectMissing(*id))
                        }
                    },
                    _ => Err(UpdateError::Unimplemented),
                },
                ObjectUpdate2DCmd::Destroy => self.destroy_object(cmd),
            },
            GraphicsUpdateCmd::UniformBuffer(id, uniform_cmd) => match uniform_cmd {
                UniformBufferCmd::Create(data) => {
                    let id = *id;
                    if data.buffer_offset != 0 {
                        return Err(UpdateError::NonZeroOffset(data.buffer_offset));
                    }
                    if self.uniform_buffers.contains(&id) {
                        return Err(UpdateError::UniformBufferExists(id));
                    }
                    let ghost old_view = self@;
                    let ghost old_set = self.uniform_buffers@;
                    self.uniform_buffers.insert(id);
                    let ghost new_view = RegistryView {
                        uniform_buffers: old_view.uniform_buffers.push(id),
                        ..old_view
                    };
                    proof {
                        let t = new_view.uniform_buffers;
                        assert forall|a: int, b: int|
                            0 <= a < b < t.len() implies t[a] != t[b] by {
                            if b == t.len() - 1 {
                                assert(old_view.uniform_buffers.contains(old_view.uniform_buffers[a]));
                            }
                        }
                        lemma_push_same_members(old_set, old_view.uniform_buffers, id);
                    }
                    self.state = Ghost(new_view);
                    Ok(ResourceAction::CreateUniformBuffer { id })
                },
                UniformBufferCmd::Update(buffer_update) => match buffer_update {
                    BufferUpdateCmd::Update(data) => {
                        if self.uniform_buffers.contains(id) {
                            Ok(ResourceAction::WriteUniformBuffer { id: *id, offset: data.buffer_offset })
                        } else {
                            Err(UpdateError::UniformBufferMissing(*id))
                        }
                    },
                    _ => Err(UpdateError::Unimplemented),
                },
                UniformBufferCmd::Destroy => Err(UpdateError::Unimplemented),
            },
            GraphicsUpdateCmd::Image(id, image_cmd) => match image_cmd {
                ImageCmd::Create(_) => {
                    let id = *id;
                    if self.image_resources.contains(&id) {
                        return Err(UpdateError::ImageExists(id));
                    }
                    let ghost old_view = self@;
                    let ghost old_set = self.image_resources@;
                    self.image_resources.insert(id);
                    let ghost new_view = RegistryView { images: old_view.images.push(id), ..old_view };
                    proof {
                        let t = new_view.images;
                        assert forall|a: int, b: int|
                            0 <= a < b < t.len() implies t[a] != t[b] by {
                            if b == t.len() - 1 {
                                assert(old_view.images.contains(old_view.images[a]));
                            }
                        }
                        lemma_push_same_members(old_set, old_view.images, id);
                    }
                    self.state = Ghost(new_view);
                    Ok(ResourceAction::CreateImage { id })
                },
                ImageCmd::Destroy => Err(UpdateError::Unimplemented),
            },
        }
    }

    /// Runs the commands in order and stops at the first refused one: the actions of the
    /// accepted commands, in order, and the refusal, if any.
    fn run(&mut self, cmds: &[GraphicsUpdateCmd]) -> (res: (
        Vec<ResourceAction>,
        Option<UpdateError>,
    ))
        requires
            old(self).wf(),
        ensures
            final(self).wf(),
            (res.0@, final(self)@, res.1) == run_updates(old(self)@, views(cmds@)),
    {
        let ghost all = views(cmds@);
        let mut actions: Vec<ResourceAction> = Vec::new();
        let mut i: usize = 0;
        assert(all.skip(0) =~= all);
        assert(Seq::<ResourceAction>::empty() + run_updates(self@, all).0 =~= run_updates(self@, all).0);
        while i < cmds.len()
            invariant
                self.wf(),
                all == views(cmds@),
                i <= cmds@.len(),
                run_updates(old(self)@, all) == (
                    actions@ + run_updates(self@, all.skip(i as int)).0,
                    run_updates(self@, all.skip(i as int)).1,
                    run_updates(self@, all.skip(i as int)).2,
                ),
            decreases cmds@.len() - i,
        {
            let ghost before = self@;
            let ghost rest = all.skip(i as int);
            assert(rest[0] == cmds@[i as int].view());
            assert(rest.drop_first() =~= all.skip(i + 1));
            match self.apply(&cmds[i]) {
                Ok(a) => {
                    let ghost tail = run_updates(self@, all.skip(i + 1));
                    assert(actions@.push(a) + tail.0 =~= actions@ + (seq![a] + tail.0));
                    actions.push(a);
                    i = i + 1;
                },
                Err(e) => {
                    assert(actions@ + Seq::<ResourceAction>::empty() =~= actions@);
                    return (actions, Some(e));
                },
            }
        }
        assert(all.skip(i as int) =~= Seq::<UpdateView>::empty());
        assert(actions@ + Seq::<ResourceAction>::empty() =~= actions@);
        (actions, None)
    }

    /// A copy of the registry.
    fn copy(&self) -> (c: Self)
        requires
            self.wf(),
        ensures
            c.wf(),
            c@ == self@,
    {
        ObjectResourcePool {
            pipelines: self.pipelines.clone(),
            objects: self.objects.clone(),
            uniform_buffers: self.uniform_buffers.clone(),
            image_resources: self.image_resources.clone(),
            state: Ghost(self.state@),
        }
    }

    /// Why the command would be refused, if it would: an object that already exists or is
    /// missing, a creation at a non-zero offset, a missing binding, a command the renderer does
    /// not implement. Nothing changes.
    pub fn refusal(&self, cmd: &GraphicsUpdateCmd) -> (r: Option<UpdateError>)
        requires
            self.wf(),
        ensures
            r == match apply_update(self@, cmd.view()) {
                Ok(_) => None::<UpdateError>,
                Err(e) => Some(e),
            },
    {
        let mut c = self.copy();
        match c.apply(cmd) {
            Ok(_) => None,
            Err(e) => Some(e),
        }
    }

    /// Records the effect of an accepted update command and returns the action the renderer
    /// takes. The command must be one the registry accepts (`refusal` gives `None`); on any other
    /// the renderer stops.
    pub fn process(&mut self, cmd: &GraphicsUpdateCmd) -> (a: ResourceAction)
        requires
            old(self).wf(),
            apply_update(old(self)@, cmd.view()) is Ok,
        ensures
            final(self).wf(),
            registry_wf(final(self)@),
            (a, final(self)@) == apply_update(old(self)@, cmd.view())->Ok_0,
    {
        match self.apply(cmd) {
            Ok(a) => a,
            Err(_) => {
                assert(false);
                ResourceAction::DestroyObject { id: 0 }
            },
        }
    }

    /// The refusal that would stop the commands, run in order, if any: the first refused
    /// command's reason. Nothing changes.
    pub fn first_refusal(&self, cmds: &[GraphicsUpdateCmd]) -> (r: Option<UpdateError>)
        requires
            self.wf(),
        ensures
            r == run_updates(self@, views(cmds@)).2,
    {
        let mut c = self.copy();
        let (_, r) = c.run(cmds);
        r
    }

    /// Processes the commands in order: the actions of the commands, in order, with the effect
    /// of every command recorded. The commands must all be accepted in turn (`first_refusal`
    /// gives `None`); on any other the renderer stops.
    pub fn update_objects(&mut self, cmds: &[GraphicsUpdateCmd]) -> (actions: Vec<ResourceAction>)
        requires
            old(self).wf(),
            run_updates(old(self)@, views(cmds@)).2 is None,
        ensures
            final(self).wf(),
            registry_wf(final(self)@),
            actions@ == run_updates(old(self)@, views(cmds@)).0,
            final(self)@ == run_updates(old(self)@, views(cmds@)).1,
    {
        let (actions, _) = self.run(cmds);
        actions
    }

    /// The objects to draw, with how each is drawn, from the highest id to the lowest.
    pub fn draw_list(&self) -> (r: Vec<(ObjectId, DrawRecord)>)
        requires
            self.wf(),
        ensures
            r@ == self@.objects.reverse(),
    {
        let ghost s = self.state@.objects;
        let iter = self.objects.iter();
        let ghost v = iter.remaining();
        proof {
            lemma_increasing_usize_keys(v);
            lemma_objects_walk_in_order(&self.objects, s, v);
        }
        let mut ascending: Vec<(ObjectId, DrawRecord)> = Vec::new();
        for entry in it: iter
            invariant
                it.seq() == v,
                v.len() == s.len(),
                forall|j: int| 0 <= j < s.len() ==> *v[j].0 == s[j].0 && *v[j].1 == s[j].1,
                ascending@ == s.subrange(0, it.index()),
        {
            let ghost i = it.index();
            ascending.push((*entry.0, *entry.1));
            assert(ascending@ =~= s.subrange(0, i + 1));
        }
        assert(ascending@ =~= s);
        let n = ascending.len();
        let mut r: Vec<(ObjectId, DrawRecord)> = Vec::new();
        let mut i: usize = n;
        while i > 0
            invariant
                i <= n,
                n == s.len(),
                ascending@ == s,
                r@.len() == n - i,
                forall|k: int| 0 <= k < n - i ==> #[trigger] r@[k] == s[n - 1 - k],
            decreases i,
        {
            i = i - 1;
            r.push(ascending[i]);
        }
        assert(r@ =~= s.reverse());
        r
    }
}

} // verus!
