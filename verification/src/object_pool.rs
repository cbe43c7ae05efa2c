use crate::bindings::UniformBindingsDesc;
use crate::object_handles::{get_new_object_id, next_counter, HandleCounters, ObjectId};
use crate::pipeline::{PipelineDescWrapper, PipelineView};
use crate::state::StateUpdatesBytes;
use crate::uniform::full_range;
use crate::updates::{
    BufferUpdateCmd, BufferUpdateView, CollectDrawStateUpdates, GraphicsUpdateCmd, ObjectUpdate2DCmd,
    UpdateView,
};
use crate::util::copy_vec;
use std::ops::Range;
use vstd::prelude::*;

verus! {

/// The plain content of one object of a pool.
pub struct EntryView {
    pub key: u64,
    pub id: ObjectId,
    pub bytes: Seq<u8>,
    pub modified: Option<Range<usize>>,
    pub is_new: bool,
}

/// The keys strictly increase along the sequence.
pub open spec fn keys_sorted(s: Seq<EntryView>) -> bool {
    forall|i: int, j: int| 0 <= i < j < s.len() ==> #[trigger] s[i].key < #[trigger] s[j].key
}

/// The position at which `k` stands, or would be inserted, in a sequence sorted by key: the
/// number of leading entries whose key is below `k`.
pub open spec fn lower_bound(s: Seq<EntryView>, k: u64) -> nat
    decreases s.len(),
{
    if s.len() == 0 {
        0
    } else if s[0].key >= k {
        0
    } else {
        1 + lower_bound(s.drop_first(), k)
    }
}

/// The sequence holds an entry with key `k`.
pub open spec fn has_key(s: Seq<EntryView>, k: u64) -> bool {
    lower_bound(s, k) < s.len() && s[lower_bound(s, k) as int].key == k
}

/// A fresh object: created with every byte modified and not yet handed out.
pub open spec fn new_entry(key: u64, id: ObjectId, bytes: Seq<u8>) -> EntryView {
    EntryView {
        key,
        id,
        bytes,
        modified: Some(full_range(bytes.len())),
        is_new: true,
    }
}

/// The object with key `k` if there is one, else the object that `entry` makes for it.
pub open spec fn entry_before(s: Seq<EntryView>, k: u64, next_id: ObjectId, default: Seq<u8>) -> EntryView {
    if has_key(s, k) {
        s[lower_bound(s, k) as int]
    } else {
        new_entry(k, next_id, default)
    }
}

/// The objects once `entry` has made sure that one with key `k` exists.
pub open spec fn entries_with_key(s: Seq<EntryView>, k: u64, next_id: ObjectId, default: Seq<u8>) -> Seq<
    EntryView,
> {
    if has_key(s, k) {
        s
    } else {
        s.insert(lower_bound(s, k) as int, new_entry(k, next_id, default))
    }
}

/// One object is consistent: its bytes have the pool's size, and until it is handed out every
/// byte counts as modified.
pub open spec fn entry_wf(e: EntryView, size: nat) -> bool {
    &&& e.bytes.len() == size
    &&& e.is_new ==> e.modified == Some(full_range(size))
}

/// The commands that one object contributes: its creation while it is new, otherwise a write
/// of its modified bytes if any.
pub open spec fn entry_updates(
    e: EntryView,
    pipeline: PipelineView,
    buffers: Seq<(u32, usize)>,
    images: Seq<(u32, usize)>,
) -> Seq<UpdateView> {
    if e.is_new {
        seq![
            UpdateView::CreateObject {
                id: e.id,
                pipeline,
                buffers,
                images,
                bytes: e.bytes,
                offset: 0usize,
            },
        ]
    } else {
        match e.modified {
            Some(r) => seq![
                UpdateView::UpdateObject {
                    id: e.id,
                    update: BufferUpdateView::Update {
                        bytes: e.bytes.subrange(r.start as int, r.end as int),
                        offset: r.start,
                    },
                },
            ],
            None => Seq::empty(),
        }
    }
}

/// The commands of a sequence of objects, object by object in order.
pub open spec fn entries_updates(
    s: Seq<EntryView>,
    pipeline: PipelineView,
    buffers: Seq<(u32, usize)>,
    images: Seq<(u32, usize)>,
) -> Seq<UpdateView>
    decreases s.len(),
{
    if s.len() == 0 {
        Seq::empty()
    } else {
        entries_updates(s.drop_last(), pipeline, buffers, images) + entry_updates(
            s.last(),
            pipeline,
            buffers,
            images,
        )
    }
}

/// One destroy command per removed id, in order.
pub open spec fn destroy_updates(ids: Seq<ObjectId>) -> Seq<UpdateView> {
    ids.map_values(|id: ObjectId| UpdateView::DestroyObject { id })
}

/// The ids of the objects of `s` that were already handed out, in order.
pub open spec fn handed_out_ids(s: Seq<EntryView>) -> Seq<ObjectId>
    decreases s.len(),
{
    if s.len() == 0 {
        Seq::empty()
    } else if s.last().is_new {
        handed_out_ids(s.drop_last())
    } else {
        handed_out_ids(s.drop_last()).push(s.last().id)
    }
}

/// In a sequence sorted by key, `lower_bound` splits it into the keys below `k` and the rest.
pub proof fn lemma_lower_bound(s: Seq<EntryView>, k: u64)
    requires
        keys_sorted(s),
    ensures
        lower_bound(s, k) <= s.len(),
        forall|j: int| 0 <= j < lower_bound(s, k) ==> #[trigger] s[j].key < k,
        forall|j: int| lower_bound(s, k) <= j < s.len() ==> #[trigger] s[j].key >= k,
    decreases s.len(),
{
    if s.len() > 0 && s[0].key < k {
        let t = s.drop_first();
        assert(keys_sorted(t));
        lemma_lower_bound(t, k);
        assert forall|j: int| 0 <= j < lower_bound(s, k) implies #[trigger] s[j].key < k by {
            if j > 0 {
                assert(s[j] == t[j - 1]);
            }
        }
        assert forall|j: int| lower_bound(s, k) <= j < s.len() implies #[trigger] s[j].key >= k by {
            assert(s[j] == t[j - 1]);
        }
    } else if s.len() > 0 {
        assert forall|j: int| lower_bound(s, k) <= j < s.len() implies #[trigger] s[j].key >= k by {
            if j > 0 {
                assert(s[0].key < s[j].key);
            }
        }
    }
}

/// The position that splits a sorted sequence around `k` is `lower_bound(s, k)`.
pub proof fn lemma_lower_bound_unique(s: Seq<EntryView>, k: u64, i: int)
    requires
        keys_sorted(s),
        0 <= i <= s.len(),
        forall|j: int| 0 <= j < i ==> #[trigger] s[j].key < k,
        i < s.len() ==> s[i].key >= k,
    ensures
        lower_bound(s, k) == i,
    decreases s.len(),
{
    if s.len() > 0 && s[0].key < k {
        let t = s.drop_first();
        assert(keys_sorted(t));
        assert forall|j: int| 0 <= j < i - 1 implies #[trigger] t[j].key < k by {
            assert(t[j] == s[j + 1]);
        }
        lemma_lower_bound_unique(t, k, i - 1);
    }
}

/// Inserting an entry at the position of its key keeps a sorted sequence sorted.
pub proof fn lemma_insert_sorted(s: Seq<EntryView>, e: EntryView)
    requires
        keys_sorted(s),
        !has_key(s, e.key),
    ensures
        keys_sorted(s.insert(lower_bound(s, e.key) as int, e)),
{
    lemma_lower_bound(s, e.key);
    let i = lower_bound(s, e.key) as int;
    let t = s.insert(i, e);
    assert forall|a: int, b: int| 0 <= a < b < t.len() implies #[trigger] t[a].key < #[trigger] t[b].key by {
        if a < i && b == i {
        } else if a == i && b > i {
            assert(t[b] == s[b - 1]);
            assert(s[b - 1].key >= e.key);
            if b - 1 == i {
                assert(s[i].key != e.key);
            } else {
                assert(s[i].key < s[b - 1].key);
            }
        } else if a < i && b > i {
            assert(t[b] == s[b - 1]);
        } else if a > i {
            assert(t[a] == s[a - 1]);
            assert(t[b] == s[b - 1]);
        }
    }
}

/// Replacing one object by a consistent object with the same key keeps the objects sorted and
/// consistent.
pub proof fn lemma_update_wf(s: Seq<EntryView>, i: int, e: EntryView, size: nat)
    requires
        keys_sorted(s),
        forall|j: int| 0 <= j < s.len() ==> #[trigger] entry_wf(s[j], size),
        0 <= i < s.len(),
        e.key == s[i].key,
    ensures
        entry_wf(e, size) ==> keys_sorted(s.update(i, e)) && forall|j: int|
            0 <= j < s.len() ==> #[trigger] entry_wf(s.update(i, e)[j], size),
{
    if entry_wf(e, size) {
        let t = s.update(i, e);
        assert forall|a: int, b: int| 0 <= a < b < t.len() implies #[trigger] t[a].key
            < #[trigger] t[b].key by {
            assert(s[a].key < s[b].key);
        }
        assert forall|j: int| 0 <= j < s.len() implies #[trigger] entry_wf(t[j], size) by {
            if j != i {
                assert(entry_wf(s[j], size));
            }
        }
    }
}

/// `entries_updates` distributes over concatenation.
pub proof fn lemma_entries_updates_append(
    s: Seq<EntryView>,
    e: EntryView,
    pipeline: PipelineView,
    buffers: Seq<(u32, usize)>,
    images: Seq<(u32, usize)>,
)
    ensures
        entries_updates(s.push(e), pipeline, buffers, images) == entries_updates(
            s,
            pipeline,
            buffers,
            images,
        ) + entry_updates(e, pipeline, buffers, images),
{
    assert(s.push(e).drop_last() =~= s);
}

/// Objects that have all been handed out and carry no modification contribute no commands.
pub proof fn lemma_entries_updates_quiet(
    s: Seq<EntryView>,
    pipeline: PipelineView,
    buffers: Seq<(u32, usize)>,
    images: Seq<(u32, usize)>,
)
    requires
        forall|j: int| 0 <= j < s.len() ==> !(#[trigger] s[j]).is_new && s[j].modified is None,
    ensures
        entries_updates(s, pipeline, buffers, images) == Seq::<UpdateView>::empty(),
    decreases s.len(),
{
    if s.len() > 0 {
        let t = s.drop_last();
        assert forall|j: int| 0 <= j < t.len() implies !(#[trigger] t[j]).is_new && t[j].modified is None by {
            assert(t[j] == s[j]);
        }
        lemma_entries_updates_quiet(t, pipeline, buffers, images);
        assert(s.last() == s[s.len() - 1]);
    }
}

struct PoolEntry {
    key: u64,
    id: ObjectId,
    state: StateUpdatesBytes,
    is_new: bool,
}

impl PoolEntry {
    spec fn view(&self) -> EntryView {
        EntryView {
            key: self.key,
            id: self.id,
            bytes: self.state.bytes(),
            modified: self.state.modified(),
            is_new: self.is_new,
        }
    }
}

/// A set of objects of one pipeline, kept in the order of their keys (for instance the time at
/// which each was made), so that the oldest can be dropped together.
pub struct OrderedObjectPool {
    pipeline_desc: PipelineDescWrapper,
    objects_per_ins_attrib: Vec<PoolEntry>,
    uniform_bindings: UniformBindingsDesc,
    default_attrib: Vec<u8>,
    removed_ids: Vec<ObjectId>,
}

impl OrderedObjectPool {
    /// The objects, in key order.
    pub closed spec fn entries(&self) -> Seq<EntryView> {
        self.objects_per_ins_attrib@.map_values(|e: PoolEntry| e.view())
    }

    /// The ids of the removed objects whose destruction is still to be handed out.
    pub closed spec fn removed(&self) -> Seq<ObjectId> {
        self.removed_ids@
    }

    /// The attributes a new object gets when it is made by `entry`.
    pub closed spec fn default_attrib(&self) -> Seq<u8> {
        self.default_attrib@
    }

    /// The pipeline that draws the objects.
    pub closed spec fn pipeline(&self) -> PipelineView {
        self.pipeline_desc@
    }

    /// The uniform buffers each object binds.
    pub closed spec fn buffers(&self) -> Seq<(u32, usize)> {
        self.uniform_bindings.buffers()
    }

    /// The images each object binds.
    pub closed spec fn images(&self) -> Seq<(u32, usize)> {
        self.uniform_bindings.images()
    }

    /// The size in bytes of the attributes of one object.
    pub open spec fn size(&self) -> nat {
        self.default_attrib().len()
    }

    /// Every part of the pool other than its objects, removed ids and counters is as in `other`.
    pub open spec fn same_setup(&self, other: &Self) -> bool {
        &&& self.default_attrib() == other.default_attrib()
        &&& self.pipeline() == other.pipeline()
        &&& self.buffers() == other.buffers()
        &&& self.images() == other.images()
    }

    /// A new empty pool whose objects are drawn by `pipeline_desc` with the uniforms of
    /// `uniform_bindings`; objects made by `entry` start with `default_attrib`.
    pub fn new(
        pipeline_desc: PipelineDescWrapper,
        uniform_bindings: UniformBindingsDesc,
        default_attrib: Vec<u8>,
    ) -> (p: Self)
        ensures
            p.wf(),
            p.entries() == Seq::<EntryView>::empty(),
            p.removed() == Seq::<ObjectId>::empty(),
            p.default_attrib() == default_attrib@,
            p.pipeline() == pipeline_desc@,
            p.buffers() == uniform_bindings.buffers(),
            p.images() == uniform_bindings.images(),
    {
        let n = default_attrib.len();
        assert(default_attrib@.len() == n);
        let p = OrderedObjectPool {
            pipeline_desc,
            objects_per_ins_attrib: Vec::new(),
            uniform_bindings,
            default_attrib,
            removed_ids: Vec::new(),
        };
        assert(p.entries() =~= Seq::<EntryView>::empty());
        p
    }

    /// The position of `key` among the objects, or where it would be inserted.
    fn position(&self, key: u64) -> (i: usize)
        requires
            self.wf(),
        ensures
            i == lower_bound(self.entries(), key),
            i <= self.entries().len(),
    {
        let mut i: usize = 0;
        while i < self.objects_per_ins_attrib.len() && self.objects_per_ins_attrib[i].key < key
            invariant
                self.wf(),
                i <= self.entries().len(),
                forall|j: int| 0 <= j < i ==> #[trigger] self.entries()[j].key < key,
            decreases self.entries().len() - i,
        {
            i = i + 1;
        }
        proof {
            lemma_lower_bound_unique(self.entries(), key, i as int);
        }
        i
    }

    /// The attributes of the object with the given key; if there is none, an object is created
    /// with the default attributes and a fresh id first.
    pub fn entry(&mut self, key: u64, counters: &mut HandleCounters) -> (r: &mut StateUpdatesBytes)
        requires
            old(self).wf(),
        ensures
            r.bytes() == entry_before(old(self).entries(), key, old(counters).next_object(), old(self).default_attrib()).bytes,
            r.modified() == entry_before(old(self).entries(), key, old(counters).next_object(), old(self).default_attrib()).modified,
            final(self).entries() == entries_with_key(
                old(self).entries(),
                key,
                old(counters).next_object(),
                old(self).default_attrib(),
            ).update(
                lower_bound(old(self).entries(), key) as int,
                (EntryView {
                    bytes: final(r).bytes(),
                    modified: final(r).modified(),
                    ..entry_before(old(self).entries(), key, old(counters).next_object(), old(self).default_attrib())
                }),
            ),
            has_key(old(self).entries(), key) ==> *final(counters) == *old(counters),
            !has_key(old(self).entries(), key) ==> final(counters).next_object() == next_counter(
                old(counters).next_object(),
            ) && final(counters).next_uniform() == old(counters).next_uniform(),
            keys_sorted(entries_with_key(
                old(self).entries(),
                key,
                old(counters).next_object(),
                old(self).default_attrib(),
            )),
            forall|j: int|
                0 <= j < entries_with_key(
                    old(self).entries(),
                    key,
                    old(counters).next_object(),
                    old(self).default_attrib(),
                ).len() ==> #[trigger] entry_wf(
                    entries_with_key(
                        old(self).entries(),
                        key,
                        old(counters).next_object(),
                        old(self).default_attrib(),
                    )[j],
                    old(self).size(),
                ),
            lower_bound(old(self).entries(), key) < entries_with_key(
                old(self).entries(),
                key,
                old(counters).next_object(),
                old(self).default_attrib(),
            ).len(),
            final(self).removed() == old(self).removed(),
            final(self).same_setup(&*old(self)),
    {
        let i = self.position(key);
        proof {
            lemma_lower_bound(self.entries(), key);
        }
        if i == self.objects_per_ins_attrib.len() || self.objects_per_ins_attrib[i].key != key {
            let id = get_new_object_id(counters);
            let state = StateUpdatesBytes::new(copy_vec(&self.default_attrib));
            let e = PoolEntry { key, id, state, is_new: true };
            proof {
                lemma_insert_sorted(self.entries(), e.view());
            }
            self.objects_per_ins_attrib.insert(i, e);
            assert(self.entries() =~= old(self).entries().insert(i as int, e.view()));
        }
        let ghost mid = self.entries();
        assert(mid[i as int] == self.objects_per_ins_attrib@[i as int].view());
        assert(forall|j: int| 0 <= j < mid.len() ==> #[trigger] entry_wf(mid[j], self.size()));
        let r = &mut self.objects_per_ins_attrib[i].state;
        r
    }

    /// Creates an object with the given key and attributes under a fresh id; if an object with
    /// that key already exists, nothing changes.
    pub fn create(&mut self, key: u64, attrib: Vec<u8>, counters: &mut HandleCounters)
        requires
            old(self).wf(),
            attrib@.len() == old(self).size(),
        ensures
            final(self).wf(),
            has_key(old(self).entries(), key) ==> final(self).entries() == old(self).entries()
                && *final(counters) == *old(counters),
            !has_key(old(self).entries(), key) ==> final(self).entries() == old(
                self,
            ).entries().insert(
                lower_bound(old(self).entries(), key) as int,
                new_entry(key, old(counters).next_object(), attrib@),
            ) && final(counters).next_object() == next_counter(old(counters).next_object())
                && final(counters).next_uniform() == old(counters).next_uniform(),
            final(self).removed() == old(self).removed(),
            final(self).same_setup(&*old(self)),
    {
        let i = self.position(key);
        proof {
            lemma_lower_bound(self.entries(), key);
        }
        if i < self.objects_per_ins_attrib.len() && self.objects_per_ins_attrib[i].key == key {
            return ;
        }
        let id = get_new_object_id(counters);
        let e = PoolEntry { key, id, state: StateUpdatesBytes::new(attrib), is_new: true };
        proof {
            lemma_insert_sorted(self.entries(), e.view());
        }
        self.objects_per_ins_attrib.insert(i, e);
        assert(self.entries() =~= old(self).entries().insert(i as int, e.view()));
    }

    /// Removes the object with the given key and queues its destruction; `false` when there is
    /// no such object.
    pub fn remove(&mut self, key: &u64) -> (removed: bool)
        requires
            old(self).wf(),
        ensures
            final(self).wf(),
            removed == has_key(old(self).entries(), *key),
            removed ==> final(self).entries() == old(self).entries().remove(
                lower_bound(old(self).entries(), *key) as int,
            ) && final(self).removed() == old(self).removed().push(
                old(self).entries()[lower_bound(old(self).entries(), *key) as int].id,
            ),
            !removed ==> final(self).entries() == old(self).entries() && final(self).removed()
                == old(self).removed(),
            final(self).same_setup(&*old(self)),
    {
        let i = self.position(*key);
        if i < self.objects_per_ins_attrib.len() && self.objects_per_ins_attrib[i].key == *key {
            let e = self.objects_per_ins_attrib.remove(i);
            self.removed_ids.push(e.id);
            assert(self.entries() =~= old(self).entries().remove(i as int));
            true
        } else {
            false
        }
    }

    /// Removes every object whose key is below `key_threshold`; the destruction of those that
    /// were already handed out is queued, in key order.
    pub fn auto_remove(&mut self, key_threshold: u64)
        requires
            old(self).wf(),
        ensures
            final(self).wf(),
            final(self).entries() == old(self).entries().skip(
                lower_bound(old(self).entries(), key_threshold) as int,
            ),
            final(self).removed() == old(self).removed() + handed_out_ids(
                old(self).entries().take(lower_bound(old(self).entries(), key_threshold) as int),
            ),
            final(self).same_setup(&*old(self)),
    {
        let p = self.position(key_threshold);
        proof {
            lemma_lower_bound(self.entries(), key_threshold);
        }
        if p == 0 {
            assert(self.entries().skip(0) =~= self.entries());
            assert(self.entries().take(0) =~= Seq::<EntryView>::empty());
            assert(self.removed() + Seq::<ObjectId>::empty() =~= self.removed());
            return ;
        }
        let ghost before = self.entries();
        let retained = self.objects_per_ins_attrib.split_off(p);
        let mut i: usize = 0;
        while i < p
            invariant
                i <= p,
                p <= before.len(),
                self.objects_per_ins_attrib@.len() == p,
                self.same_setup(&*old(self)),
                forall|j: int| 0 <= j < p ==> #[trigger] self.objects_per_ins_attrib@[j].view() == before[j],
                self.removed_ids@ == old(self).removed_ids@ + handed_out_ids(before.take(i as int)),
            decreases p - i,
        {
            let ghost prev_removed = self.removed_ids@;
            assert(before.take(i + 1).drop_last() =~= before.take(i as int));
            assert(before.take(i + 1).last() == before[i as int]);
            assert(self.objects_per_ins_attrib@[i as int].view() == before[i as int]);
            if !self.objects_per_ins_attrib[i].is_new {
                self.removed_ids.push(self.objects_per_ins_attrib[i].id);
                assert(self.removed_ids@ =~= old(self).removed_ids@ + handed_out_ids(
                    before.take(i + 1),
                ));
            } else {
                assert(handed_out_ids(before.take(i + 1)) == handed_out_ids(before.take(i as int)));
            }
            i = i + 1;
        }
        self.objects_per_ins_attrib = retained;
        assert(self.entries() =~= before.skip(p as int));
        proof {
            assert forall|a: int, b: int|
                0 <= a < b < self.entries().len() implies #[trigger] self.entries()[a].key
                < #[trigger] self.entries()[b].key by {
                assert(self.entries()[a] == before[a + p]);
                assert(self.entries()[b] == before[b + p]);
            }
            assert forall|j: int| 0 <= j < self.entries().len() implies #[trigger] entry_wf(
                self.entries()[j],
                self.size(),
            ) by {
                assert(self.entries()[j] == before[j + p]);
                assert(entry_wf(before[j + p], self.size()));
            }
        }
    }

    /// A copy of the description of the pipeline that draws the objects.
    pub fn get_pipeline_info(&self) -> (p: PipelineDescWrapper)
        ensures
            p@ == self.pipeline(),
    {
        self.pipeline_desc.clone()
    }
}

impl CollectDrawStateUpdates for OrderedObjectPool {
    /// First the destruction of every removed object, in removal order; then each object in key
    /// order: its creation while new, otherwise a write of its modified bytes.
    open spec fn pending_updates(&self) -> Seq<UpdateView> {
        destroy_updates(self.removed()) + entries_updates(
            self.entries(),
            self.pipeline(),
            self.buffers(),
            self.images(),
        )
    }

    /// Keys are sorted and unique, and every object is consistent with the pool's size.
    open spec fn wf(&self) -> bool {
        &&& keys_sorted(self.entries())
        &&& self.size() <= usize::MAX
        &&& forall|j: int|
            0 <= j < self.entries().len() ==> #[trigger] entry_wf(self.entries()[j], self.size())
    }

    fn collect_updates(&self) -> (r: Vec<GraphicsUpdateCmd<'_>>) {
        let mut r: Vec<GraphicsUpdateCmd<'_>> = Vec::new();
        let mut k: usize = 0;
        while k < self.removed_ids.len()
            invariant
                k <= self.removed().len(),
                r@.len() == k,
                forall|j: int|
                    0 <= j < k ==> (#[trigger] r@[j]).view() == (UpdateView::DestroyObject {
                        id: self.removed()[j],
                    }),
            decreases self.removed().len() - k,
        {
            r.push(GraphicsUpdateCmd::object_update_2d(self.removed_ids[k], ObjectUpdate2DCmd::Destroy));
            k = k + 1;
        }
        assert(crate::updates::views(r@) =~= destroy_updates(self.removed()));
        let ghost head = crate::updates::views(r@);
        let mut i: usize = 0;
        while i < self.objects_per_ins_attrib.len()
            invariant
                self.wf(),
                i <= self.entries().len(),
                head == destroy_updates(self.removed()),
                crate::updates::views(r@) == head + entries_updates(
                    self.entries().take(i as int),
                    self.pipeline(),
                    self.buffers(),
                    self.images(),
                ),
            decreases self.entries().len() - i,
        {
            let ghost before = r@;
            let ghost before_views = crate::updates::views(r@);
            let e = &self.objects_per_ins_attrib[i];
            assert(e.view() == self.entries()[i as int]);
            assert(entry_wf(self.entries()[i as int], self.size()));
            if e.is_new {
                match e.state.modified_bytes() {
                    Some(s) => {
                        r.push(
                            GraphicsUpdateCmd::object_update_2d(
                                e.id,
                                ObjectUpdate2DCmd::Create {
                                    pipeline_desc: self.get_pipeline_info(),
                                    uniform_bindings_desc: self.uniform_bindings.clone(),
                                    initial_state: s,
                                },
                            ),
                        );
                        assert(e.state.bytes().subrange(0, e.state.bytes().len() as int)
                            =~= e.state.bytes());
                    },
                    None => {},
                }
            } else {
                match e.state.modified_bytes() {
                    Some(s) => {
                        r.push(
                            GraphicsUpdateCmd::object_update_2d(
                                e.id,
                                ObjectUpdate2DCmd::AttribUpdate(BufferUpdateCmd::Update(s)),
                            ),
                        );
                    },
                    None => {},
                }
            }
            proof {
                lemma_entries_updates_append(
                    self.entries().take(i as int),
                    self.entries()[i as int],
                    self.pipeline(),
                    self.buffers(),
                    self.images(),
                );
                assert(self.entries().take(i + 1) =~= self.entries().take(i as int).push(
                    self.entries()[i as int],
                ));
            }
            assert(crate::updates::views(r@) =~= before_views + entry_updates(
                self.entries()[i as int],
                self.pipeline(),
                self.buffers(),
                self.images(),
            ));
            i = i + 1;
            assert(crate::updates::views(r@) =~= head + entries_updates(
                self.entries().take(i as int),
                self.pipeline(),
                self.buffers(),
                self.images(),
            ));
        }
        assert(self.entries().take(i as int) =~= self.entries());
        r
    }

    fn clear_updates(&mut self)
        ensures
            final(self).entries().len() == old(self).entries().len(),
            forall|j: int|
                0 <= j < old(self).entries().len() ==> #[trigger] final(self).entries()[j] == (
                EntryView { modified: None, is_new: false, ..old(self).entries()[j] }),
            final(self).removed() == Seq::<ObjectId>::empty(),
            final(self).same_setup(&*old(self)),
    {
        let ghost before = self.entries();
        let mut i: usize = 0;
        while i < self.objects_per_ins_attrib.len()
            invariant
                i <= before.len(),
                self.objects_per_ins_attrib@.len() == before.len(),
                self.same_setup(&*old(self)),
                self.removed_ids == old(self).removed_ids,
                forall|j: int|
                    0 <= j < i ==> (#[trigger] self.objects_per_ins_attrib@[j].view()) == (EntryView {
                        modified: None,
                        is_new: false,
                        ..before[j]
                    }),
                forall|j: int|
                    i <= j < before.len() ==> #[trigger] self.objects_per_ins_attrib@[j].view()
                        == before[j],
            decreases before.len() - i,
        {
            let ghost prev = self.objects_per_ins_attrib@;
            let e = &mut self.objects_per_ins_attrib[i];
            e.state.clear_modified();
            e.is_new = false;
            assert(self.objects_per_ins_attrib@[i as int].view() == (EntryView {
                modified: None,
                is_new: false,
                ..prev[i as int].view()
            }));
            assert(forall|j: int|
                0 <= j < prev.len() && j != i ==> self.objects_per_ins_attrib@[j] == prev[j]);
            i = i + 1;
        }
        self.removed_ids.clear();
        proof {
            assert forall|j: int| 0 <= j < self.entries().len() implies #[trigger] self.entries()[j]
                == (EntryView { modified: None, is_new: false, ..before[j] }) by {
                assert(self.entries()[j] == self.objects_per_ins_attrib@[j].view());
            }
            assert forall|a: int, b: int|
                0 <= a < b < self.entries().len() implies #[trigger] self.entries()[a].key
                < #[trigger] self.entries()[b].key by {
                assert(before[a].key < before[b].key);
            }
            assert forall|j: int|
                0 <= j < self.entries().len() implies !(#[trigger] self.entries()[j]).is_new
                && self.entries()[j].modified is None by {
            }
            assert forall|j: int| 0 <= j < self.entries().len() implies #[trigger] entry_wf(
                self.entries()[j],
                self.size(),
            ) by {
                assert(entry_wf(before[j], self.size()));
            }
            lemma_entries_updates_quiet(self.entries(), self.pipeline(), self.buffers(), self.images());
            assert(destroy_updates(self.removed()) =~= Seq::<UpdateView>::empty());
            assert(self.pending_updates() =~= Seq::<UpdateView>::empty());
        }
    }
}

} // verus!
