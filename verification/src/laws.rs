use crate::object_handles::{advance, next_counter};
use crate::object_pool::{
    entry_wf, has_key, keys_sorted, lemma_insert_sorted, lemma_lower_bound, lemma_lower_bound_unique,
    lemma_update_wf, lower_bound, new_entry, EntryView, OrderedObjectPool,
};
use crate::registry::{
    apply_update, first_missing, has_object, id_lower_bound, ids_sorted, lemma_id_lower_bound,
    lemma_id_lower_bound_unique, registry_wf, DrawRecord, RegistryView, ResourceAction,
};
use crate::single_object::SingleObject;
use crate::app_control::{is_best_video_mode, video_mode_score};
use crate::device::{
    buffer_memory_score, is_best_buffer_memory_type, last_timestamp, recorded_type,
    sample_count_flag, type_allowed, MEMORY_DEVICE_LOCAL, MEMORY_HOST_COHERENT,
    MEMORY_HOST_VISIBLE, TIME_DOMAIN_CLOCK_MONOTONIC, TIME_DOMAIN_DEVICE,
};
use crate::staging::{allocations_wf, disjoint, first_fit, first_fit_from};
use crate::state::{merged_range, range_within};
use crate::uniform::UniformBufferState;
use crate::updates::{CollectDrawStateUpdates, UpdateView};
use std::ops::Range;
use vstd::arithmetic::power2::{lemma2_to64, pow2};
use vstd::prelude::*;

verus! {

/// Merging modified ranges does not depend on the order in which the ranges come.
pub proof fn law_merge_order_independent(r: Option<Range<usize>>, a: Range<usize>, b: Range<usize>)
    ensures
        merged_range(Some(merged_range(r, a)), b) == merged_range(Some(merged_range(r, b)), a),
{
}

/// The merged range covers both ranges that were merged, and starts and ends at one of their
/// bounds.
pub proof fn law_merge_covers(r: Range<usize>, a: Range<usize>)
    ensures
        merged_range(Some(r), a).start <= r.start,
        merged_range(Some(r), a).start <= a.start,
        merged_range(Some(r), a).end >= r.end,
        merged_range(Some(r), a).end >= a.end,
        merged_range(Some(r), a).start == r.start || merged_range(Some(r), a).start == a.start,
        merged_range(Some(r), a).end == r.end || merged_range(Some(r), a).end == a.end,
{
}

/// Two ids handed out one after the other by the same counter differ.
pub proof fn law_consecutive_ids_differ(n: usize)
    ensures
        next_counter(n) != n,
{
}

/// Once a uniform buffer has been created in the renderer, every later change to it is
/// accepted.
pub proof fn law_uniform_updates_accepted(r: RegistryView, u: UniformBufferState)
    requires
        registry_wf(r),
        u.wf(),
        !u.is_first(),
        r.uniform_buffers.contains(u.id_spec()),
    ensures
        forall|k: int|
            0 <= k < u.pending_updates().len() ==> apply_update(r, #[trigger] u.pending_updates()[k])
                is Ok,
{
}

/// Once an object has been created in the renderer, every later change to its attributes is
/// accepted.
pub proof fn law_object_updates_accepted(r: RegistryView, o: SingleObject)
    requires
        registry_wf(r),
        o.wf(),
        !o.is_first(),
        has_object(r.objects, o.id_spec()),
    ensures
        forall|k: int|
            0 <= k < o.pending_updates().len() ==> apply_update(r, #[trigger] o.pending_updates()[k])
                is Ok,
{
}

/// Creating an object and then destroying it leaves the renderer's objects as they were
/// (the pipeline built for it stays).
pub proof fn law_create_then_destroy_object(
    r: RegistryView,
    id: usize,
    pipeline: crate::pipeline::PipelineView,
    buffers: Seq<(u32, usize)>,
    images: Seq<(u32, usize)>,
    bytes: Seq<u8>,
)
    requires
        registry_wf(r),
        apply_update(
            r,
            UpdateView::CreateObject { id, pipeline, buffers, images, bytes, offset: 0 },
        ) is Ok,
    ensures
        ({
            let r1 = apply_update(
                r,
                UpdateView::CreateObject { id, pipeline, buffers, images, bytes, offset: 0 },
            )->Ok_0.1;
            &&& apply_update(r1, UpdateView::DestroyObject { id }) matches Ok((a, r2))
            &&& a == ResourceAction::DestroyObject { id }
            &&& r2.objects == r.objects
            &&& r2.uniform_buffers == r.uniform_buffers
            &&& r2.images == r.images
        }),
{
    let rec = DrawRecord {
        vertex_count: pipeline.vertices_per_instance,
        instance_count: 1,
        pipeline_id: pipeline.id,
    };
    lemma_id_lower_bound(r.objects, id);
    let p = id_lower_bound(r.objects, id) as int;
    let s1 = r.objects.insert(p, (id, rec));
    assert(ids_sorted(s1)) by {
        assert forall|a: int, b: int| 0 <= a < b < s1.len() implies #[trigger] s1[a].0
            < #[trigger] s1[b].0 by {
            if a < p && b == p {
            } else if a == p && b > p {
                assert(s1[b] == r.objects[b - 1]);
                if b - 1 != p {
                    assert(r.objects[p].0 < r.objects[b - 1].0);
                }
            } else if a < p && b > p {
                assert(s1[b] == r.objects[b - 1]);
            } else if a > p {
                assert(s1[a] == r.objects[a - 1]);
                assert(s1[b] == r.objects[b - 1]);
            }
        }
    }
    assert forall|j: int| 0 <= j < p implies #[trigger] s1[j].0 < id by {
        assert(s1[j] == r.objects[j]);
    }
    lemma_id_lower_bound_unique(s1, id, p);
    assert(s1.remove(p) =~= r.objects);
}

/// Creating a trail circle under a new key and then removing that key leaves the pool's
/// objects as they were, and queues the destruction of the circle that was made.
pub proof fn law_create_then_remove(
    entries: Seq<EntryView>,
    key: u64,
    id: usize,
    attrib: Seq<u8>,
)
    requires
        keys_sorted(entries),
        !has_key(entries, key),
    ensures
        ({
            let e1 = entries.insert(lower_bound(entries, key) as int, new_entry(key, id, attrib));
            &&& has_key(e1, key)
            &&& e1.remove(lower_bound(e1, key) as int) == entries
            &&& e1[lower_bound(e1, key) as int].id == id
        }),
{
    let p = lower_bound(entries, key) as int;
    let e = new_entry(key, id, attrib);
    lemma_lower_bound(entries, key);
    lemma_insert_sorted(entries, e);
    let e1 = entries.insert(p, e);
    assert forall|j: int| 0 <= j < p implies #[trigger] e1[j].key < key by {
        assert(e1[j] == entries[j]);
    }
    lemma_lower_bound_unique(e1, key, p);
    assert(e1.remove(p) =~= entries);
}

/// Writing an object's attributes through `entry` keeps the pool consistent, as long as the
/// attributes keep the pool's size (and a new object stays wholly modified): `s` are the
/// objects that `entry` reports, `e` the object after the write.
pub proof fn law_entry_write_keeps_pool_wf(
    q: OrderedObjectPool,
    s: Seq<EntryView>,
    i: int,
    e: EntryView,
)
    requires
        keys_sorted(s),
        forall|j: int| 0 <= j < s.len() ==> #[trigger] entry_wf(s[j], q.size()),
        q.size() <= usize::MAX,
        0 <= i < s.len(),
        e.key == s[i].key,
        entry_wf(e, q.size()),
        q.entries() == s.update(i, e),
    ensures
        q.wf(),
{
    lemma_update_wf(s, i, e, q.size());
}

/// After dropping the keys below a threshold, every key left is at least the threshold and
/// every object at or above it is still there.
pub proof fn law_auto_remove_threshold(entries: Seq<EntryView>, threshold: u64)
    requires
        keys_sorted(entries),
    ensures
        forall|j: int|
            0 <= j < entries.skip(lower_bound(entries, threshold) as int).len() ==> #[trigger] entries.skip(
                lower_bound(entries, threshold) as int,
            )[j].key >= threshold,
        forall|j: int|
            0 <= j < entries.len() && entries[j].key >= threshold ==> entries.skip(
                lower_bound(entries, threshold) as int,
            ).contains(#[trigger] entries[j]),
{
    lemma_lower_bound(entries, threshold);
    let p = lower_bound(entries, threshold) as int;
    assert forall|j: int|
        0 <= j < entries.len() && entries[j].key >= threshold implies entries.skip(p).contains(
        #[trigger] entries[j],
    ) by {
        assert(j >= p);
        assert(entries.skip(p)[j - p] == entries[j]);
    }
}

/// A range handed out by the staging allocator lies inside the staging buffer and overlaps
/// none of the ranges already handed out.
pub proof fn law_staging_range_disjoint(a: Seq<Range<u64>>, size: u64, total: u64)
    requires
        allocations_wf(a, total),
    ensures
        first_fit(a, size, total) matches Some((k, g)) ==> {
            &&& g + size <= total
            &&& forall|j: int| 0 <= j < a.len() ==> disjoint(
                #[trigger] a[j],
                Range { start: g, end: (g + size) as u64 },
            )
        },
{
    lemma_first_fit_from(a, 0, 0, size, total);
}

/// First fit from position `i` lands after every allocation before `i` and in a gap before
/// every allocation from `i` on.
proof fn lemma_first_fit_from(a: Seq<Range<u64>>, i: nat, end: u64, size: u64, total: u64)
    requires
        allocations_wf(a, total),
        i <= a.len(),
        end <= total,
        i == 0 ==> end == 0,
        i > 0 ==> end == a[i - 1].end,
    ensures
        first_fit_from(a, i, end, size, total) matches Some((k, g)) ==> {
            &&& g + size <= total
            &&& forall|j: int| 0 <= j < a.len() ==> disjoint(
                #[trigger] a[j],
                Range { start: g, end: (g + size) as u64 },
            )
        },
    decreases a.len() - i,
{
    if i < a.len() {
        if a[i as int].start - end >= size {
            assert forall|j: int| 0 <= j < a.len() implies disjoint(
                #[trigger] a[j],
                Range { start: end, end: (end + size) as u64 },
            ) by {
                if j < i {
                    if j < i - 1 {
                        assert(a[j].end <= a[i - 1].start);
                        assert(a[i - 1].start <= a[i - 1].end);
                    }
                } else if j > i {
                    assert(a[i as int].end <= a[j].start);
                    assert(a[i as int].start <= a[i as int].end);
                }
            }
        } else {
            lemma_first_fit_from(a, i + 1, a[i as int].end, size, total);
        }
    } else {
        assert forall|j: int| 0 <= j < a.len() implies disjoint(
            #[trigger] a[j],
            Range { start: end, end: (end + size) as u64 },
        ) by {
            if j < i - 1 {
                assert(a[j].end <= a[i - 1].start);
                assert(a[i - 1].start <= a[i - 1].end);
            }
        }
    }
}

/// With nothing allocated, any request that fits the staging buffer starts at offset 0.
pub proof fn law_staging_empty_allocates_at_zero(size: u64, total: u64)
    requires
        size <= total,
    ensures
        first_fit(Seq::<Range<u64>>::empty(), size, total) == Some((0nat, 0u64)),
{
}

/// The bytes of `m` with `data` written over them from `offset` on.
pub open spec fn write_at(m: Seq<u8>, data: Seq<u8>, offset: int) -> Seq<u8> {
    m.subrange(0, offset) + data + m.subrange(offset + data.len(), m.len() as int)
}

/// A copy `m` of a value's bytes (such as the GPU buffer that mirrors them) agrees with
/// `bytes` everywhere outside the range still marked as modified.
pub open spec fn in_step_outside(
    m: Seq<u8>,
    bytes: Seq<u8>,
    modified: Option<Range<usize>>,
) -> bool {
    &&& m.len() == bytes.len()
    &&& forall|j: int|
        0 <= j < m.len() && !(modified matches Some(r) && r.start <= j < r.end) ==> #[trigger] m[j]
            == bytes[j]
}

/// A freshly made value marks all its bytes as modified, so any copy of the right length is in
/// step with it.
pub proof fn law_fresh_value_in_step(m: Seq<u8>, bytes: Seq<u8>)
    requires
        m.len() == bytes.len(),
        bytes.len() <= usize::MAX,
    ensures
        in_step_outside(m, bytes, Some(Range { start: 0usize, end: bytes.len() as usize })),
{
}

/// Writing a field keeps a copy in step: the bytes that differ lie inside the widened modified
/// range.
pub proof fn law_field_write_keeps_copy_in_step(
    m: Seq<u8>,
    bytes: Seq<u8>,
    modified: Option<Range<usize>>,
    range: Range<usize>,
    value: Seq<u8>,
)
    requires
        in_step_outside(m, bytes, modified),
        range_within(range, bytes.len()),
        value.len() == range.end - range.start,
    ensures
        in_step_outside(
            m,
            bytes.subrange(0, range.start as int) + value + bytes.subrange(
                range.end as int,
                bytes.len() as int,
            ),
            Some(merged_range(modified, range)),
        ),
{
    let after = bytes.subrange(0, range.start as int) + value + bytes.subrange(
        range.end as int,
        bytes.len() as int,
    );
    assert(after.len() == bytes.len());
    let mr = merged_range(modified, range);
    assert forall|j: int|
        0 <= j < m.len() && !(mr.start <= j < mr.end) implies #[trigger] m[j] == after[j] by {
        assert(!(range.start <= j < range.end));
        if j < range.start {
            assert(after[j] == bytes[j]);
        } else {
            assert(after[j] == bytes[j]);
        }
    }
}

/// Writing the modified bytes at their offset into a copy that is in step makes the copy equal
/// to the value: what the changes carry is exactly what the copy lacks.
pub proof fn law_modified_write_syncs_copy(
    m: Seq<u8>,
    bytes: Seq<u8>,
    modified: Option<Range<usize>>,
)
    requires
        in_step_outside(m, bytes, modified),
        modified matches Some(r) ==> range_within(r, bytes.len()),
    ensures
        match modified {
            Some(r) => write_at(
                m,
                bytes.subrange(r.start as int, r.end as int),
                r.start as int,
            ) == bytes,
            None => m == bytes,
        },
{
    match modified {
        Some(r) => {
            let w = write_at(m, bytes.subrange(r.start as int, r.end as int), r.start as int);
            assert(w.len() == bytes.len());
            assert forall|j: int| 0 <= j < bytes.len() implies #[trigger] w[j] == bytes[j] by {
                if j < r.start {
                    assert(w[j] == m[j]);
                } else if j < r.end {
                    assert(w[j] == bytes.subrange(r.start as int, r.end as int)[j - r.start]);
                } else {
                    assert(w[j] == m[j]);
                }
            }
            assert(w =~= bytes);
        },
        None => {
            assert(m =~= bytes);
        },
    }
}

/// The change a uniform buffer hands out after its creation, written into a GPU copy that was
/// in step, makes that copy equal to the buffer's bytes.
pub proof fn law_uniform_update_syncs_copy(u: UniformBufferState, m: Seq<u8>)
    requires
        u.wf(),
        !u.is_first(),
        in_step_outside(m, u.bytes(), u.modified()),
    ensures
        u.pending_updates().len() == 0 ==> m == u.bytes(),
        u.pending_updates().len() == 1 ==> (u.pending_updates()[0] matches UpdateView::UpdateUniformBuffer {
            id,
            update: crate::updates::BufferUpdateView::Update { bytes, offset },
        } && id == u.id_spec() && write_at(m, bytes, offset as int) == u.bytes()),
        u.pending_updates().len() <= 1,
{
    law_modified_write_syncs_copy(m, u.bytes(), u.modified());
}

/// The change an object hands out after its creation, written into a GPU copy of its
/// attributes that was in step, makes that copy equal to the object's attributes.
pub proof fn law_object_update_syncs_copy(o: SingleObject, m: Seq<u8>)
    requires
        o.wf(),
        !o.is_first(),
        in_step_outside(m, o.bytes(), o.modified()),
    ensures
        o.pending_updates().len() == 0 ==> m == o.bytes(),
        o.pending_updates().len() == 1 ==> (o.pending_updates()[0] matches UpdateView::UpdateObject {
            id,
            update: crate::updates::BufferUpdateView::Update { bytes, offset },
        } && id == o.id_spec() && write_at(m, bytes, offset as int) == o.bytes()),
        o.pending_updates().len() <= 1,
{
    law_modified_write_syncs_copy(m, o.bytes(), o.modified());
}

/// Once a memory type has been recorded for a kind of buffer, it is the one found for that
/// kind from then on, whatever is recorded later for other kinds: the lookup for buffers of
/// the same usage and flags gives the same index without looking again.
pub proof fn law_recorded_memory_type_stays(
    s: Seq<((u32, u32), u32)>,
    key: (u32, u32),
    m: u32,
    later: Seq<((u32, u32), u32)>,
)
    requires
        forall|j: int| 0 <= j < later.len() ==> (#[trigger] later[j]).0 != key,
    ensures
        recorded_type(s.push((key, m)) + later, key) == Some(m),
    decreases later.len(),
{
    if later.len() == 0 {
        assert(s.push((key, m)) + later =~= s.push((key, m)));
    } else {
        let t = s.push((key, m)) + later;
        assert(t.drop_last() =~= s.push((key, m)) + later.drop_last());
        assert(t.last() == later[later.len() - 1]);
        assert forall|j: int| 0 <= j < later.drop_last().len() implies (
        #[trigger] later.drop_last()[j]).0 != key by {
            assert(later.drop_last()[j] == later[j]);
        }
        law_recorded_memory_type_stays(s, key, m, later.drop_last());
    }
}

/// Ids handed out by one counter with other hand-outs in between differ, as long as the
/// counter does not wrap around: the id handed out `k` hand-outs after `n` is `n + k`. (Two
/// uniform resources made by separate `new` calls on the same counters get such ids.)
pub proof fn law_ids_handed_out_apart_differ(n: usize, k: nat)
    requires
        0 < k,
        n + k <= usize::MAX,
    ensures
        advance(n, k) == n + k,
        advance(n, k) != n,
    decreases k,
{
    if k > 1 {
        law_ids_handed_out_apart_differ(n, (k - 1) as nat);
    } else {
        assert(advance(n, 0) == n);
    }
    assert(advance(n, k) == next_counter(advance(n, (k - 1) as nat)));
}

/// The memory type chosen for a buffer is one the requirements allow whenever any is allowed,
/// and a device-local one among those whenever an allowed type is device-local.
pub proof fn law_best_memory_type_prefers_allowed_device_local(
    memory_type_bits: u32,
    flags: Seq<u32>,
    m: int,
)
    requires
        is_best_buffer_memory_type(memory_type_bits, flags, m),
    ensures
        (exists|j: int| 0 <= j < flags.len() && #[trigger] type_allowed(memory_type_bits, j))
            ==> type_allowed(memory_type_bits, m),
        (exists|j: int|
            0 <= j < flags.len() && #[trigger] type_allowed(memory_type_bits, j) && flags[j]
                & MEMORY_DEVICE_LOCAL != 0) ==> type_allowed(memory_type_bits, m) && flags[m]
            & MEMORY_DEVICE_LOCAL != 0,
{
    if exists|j: int| 0 <= j < flags.len() && #[trigger] type_allowed(memory_type_bits, j) {
        let j = choose|j: int| 0 <= j < flags.len() && #[trigger] type_allowed(memory_type_bits, j);
        assert(buffer_memory_score(memory_type_bits, flags[j], j) <= buffer_memory_score(
            memory_type_bits,
            flags[m],
            m,
        ));
    }
    if exists|j: int|
        0 <= j < flags.len() && #[trigger] type_allowed(memory_type_bits, j) && flags[j]
            & MEMORY_DEVICE_LOCAL != 0 {
        let j = choose|j: int|
            0 <= j < flags.len() && #[trigger] type_allowed(memory_type_bits, j) && flags[j]
                & MEMORY_DEVICE_LOCAL != 0;
        assert(buffer_memory_score(memory_type_bits, flags[j], j) <= buffer_memory_score(
            memory_type_bits,
            flags[m],
            m,
        ));
    }
}

/// Among the memory types the requirements allow, one that is host-visible and host-coherent
/// is chosen over one that is not, when both are equally device-local: a buffer is placed where
/// it can be filled by mapping whenever such memory is allowed.
pub proof fn law_best_memory_type_prefers_host_access(
    memory_type_bits: u32,
    flags: Seq<u32>,
    m: int,
    j: int,
)
    requires
        is_best_buffer_memory_type(memory_type_bits, flags, m),
        0 <= j < flags.len(),
        type_allowed(memory_type_bits, j),
        flags[j] & MEMORY_DEVICE_LOCAL == flags[m] & MEMORY_DEVICE_LOCAL,
        flags[j] & MEMORY_HOST_VISIBLE != 0,
        flags[j] & MEMORY_HOST_COHERENT != 0,
    ensures
        flags[m] & MEMORY_HOST_VISIBLE != 0,
        flags[m] & MEMORY_HOST_COHERENT != 0,
{
    law_best_memory_type_prefers_allowed_device_local(memory_type_bits, flags, m);
    assert(buffer_memory_score(memory_type_bits, flags[j], j) <= buffer_memory_score(
        memory_type_bits,
        flags[m],
        m,
    ));
}

/// Asking for a power-of-two sample count up to 64 gets exactly that many samples, and the
/// sample-count flag is always a single bit.
pub proof fn law_sample_count_flag(n: u32)
    ensures
        (n == 1 || n == 2 || n == 4 || n == 8 || n == 16 || n == 32 || n == 64) ==> sample_count_flag(n)
            == n,
        exists|k: nat| k <= 6 && sample_count_flag(n) == #[trigger] pow2(k),
{
    lemma2_to64();
    let f = sample_count_flag(n);
    if f == 1 {
        assert(f == pow2(0));
    } else if f == 2 {
        assert(f == pow2(1));
    } else if f == 4 {
        assert(f == pow2(2));
    } else if f == 8 {
        assert(f == pow2(3));
    } else if f == 16 {
        assert(f == pow2(4));
    } else if f == 32 {
        assert(f == pow2(5));
    } else {
        assert(f == pow2(6));
    }
}

/// The timestamp taken for a time domain is that of the last sample of exactly that domain,
/// and there is none only when no sample has that domain.
pub proof fn law_timestamp_is_latest_of_domain(samples: Seq<(i32, u64)>, domain: i32)
    ensures
        last_timestamp(samples, domain) matches Some(t) ==> exists|i: int|
            0 <= i < samples.len() && #[trigger] samples[i] == (domain, t) && forall|j: int|
                i < j < samples.len() ==> (#[trigger] samples[j]).0 != domain,
        last_timestamp(samples, domain) is None ==> forall|i: int|
            0 <= i < samples.len() ==> (#[trigger] samples[i]).0 != domain,
    decreases samples.len(),
{
    if samples.len() > 0 {
        let n = samples.len() - 1;
        let rest = samples.drop_last();
        law_timestamp_is_latest_of_domain(rest, domain);
        if samples.last().0 == domain {
            assert(samples[n] == samples.last());
        } else {
            assert forall|i: int| 0 <= i < n implies samples[i] == #[trigger] rest[i] by {}
            if let Some(t) = last_timestamp(samples, domain) {
                let i = choose|i: int|
                    0 <= i < rest.len() && #[trigger] rest[i] == (domain, t) && forall|j: int|
                        i < j < rest.len() ==> (#[trigger] rest[j]).0 != domain;
                assert(samples[i] == rest[i]);
                assert forall|j: int| i < j < samples.len() implies (#[trigger] samples[j]).0
                    != domain by {
                    if j < n {
                        assert(samples[j] == rest[j]);
                    }
                }
            } else {
                assert forall|i: int| 0 <= i < samples.len() implies (#[trigger] samples[i]).0
                    != domain by {
                    if i < n {
                        assert(samples[i] == rest[i]);
                    }
                }
            }
        }
    }
}

/// A sample of any time domain other than the device and the host monotonic clock changes
/// neither the device time nor the host time of the pair.
pub proof fn law_other_time_domains_ignored(samples: Seq<(i32, u64)>, domain: i32, t: u64)
    requires
        domain != TIME_DOMAIN_DEVICE,
        domain != TIME_DOMAIN_CLOCK_MONOTONIC,
    ensures
        last_timestamp(samples.push((domain, t)), TIME_DOMAIN_DEVICE) == last_timestamp(
            samples,
            TIME_DOMAIN_DEVICE,
        ),
        last_timestamp(samples.push((domain, t)), TIME_DOMAIN_CLOCK_MONOTONIC) == last_timestamp(
            samples,
            TIME_DOMAIN_CLOCK_MONOTONIC,
        ),
{
    assert(samples.push((domain, t)).drop_last() =~= samples);
}

/// Of two fullscreen modes of the same width, the one with the lower refresh rate is never
/// chosen.
pub proof fn law_faster_mode_of_same_width_preferred(modes: Seq<(u32, u32)>, k: int, a: int, b: int)
    requires
        is_best_video_mode(modes, k),
        0 <= a < modes.len(),
        0 <= b < modes.len(),
        modes[a].0 == modes[b].0,
        modes[a].1 > modes[b].1,
    ensures
        k != b,
{
    assert(video_mode_score(modes[a]) <= video_mode_score(modes[k]));
}

/// The first missing binding is the id of a binding whose resource does not exist, with every
/// binding before it present; there is none exactly when every bound resource exists.
pub proof fn law_first_missing_binding(bindings: Seq<(u32, usize)>, available: Seq<usize>)
    ensures
        first_missing(bindings, available) is None <==> forall|k: int|
            0 <= k < bindings.len() ==> available.contains(#[trigger] bindings[k].1),
        first_missing(bindings, available) matches Some(x) ==> exists|k: int|
            0 <= k < bindings.len() && #[trigger] bindings[k].1 == x && !available.contains(x)
                && forall|j: int| 0 <= j < k ==> available.contains(#[trigger] bindings[j].1),
    decreases bindings.len(),
{
    if bindings.len() > 0 {
        let rest = bindings.drop_first();
        law_first_missing_binding(rest, available);
        assert forall|k: int| 0 < k < bindings.len() implies bindings[k] == #[trigger] rest[k - 1] by {}
        if available.contains(bindings[0].1) {
            if let Some(x) = first_missing(bindings, available) {
                let k = choose|k: int|
                    0 <= k < rest.len() && #[trigger] rest[k].1 == x && !available.contains(x)
                        && forall|j: int| 0 <= j < k ==> available.contains(#[trigger] rest[j].1);
                assert(bindings[k + 1].1 == x);
                assert forall|j: int| 0 <= j < k + 1 implies available.contains(
                    #[trigger] bindings[j].1,
                ) by {
                    if j > 0 {
                        assert(bindings[j] == rest[j - 1]);
                    }
                }
            } else {
                assert forall|k: int| 0 <= k < bindings.len() implies available.contains(
                    #[trigger] bindings[k].1,
                ) by {
                    if k > 0 {
                        assert(bindings[k] == rest[k - 1]);
                    }
                }
            }
        } else {
            assert(bindings[0].1 == bindings[0].1);
        }
    }
}

/// An object is created only when every uniform buffer and every image it binds exists.
pub proof fn law_created_object_has_every_binding(r: RegistryView, c: UpdateView)
    requires
        apply_update(r, c) is Ok,
    ensures
        c matches UpdateView::CreateObject { buffers, images, .. } ==> (forall|k: int|
            0 <= k < buffers.len() ==> r.uniform_buffers.contains(#[trigger] buffers[k].1)) && (
        forall|k: int| 0 <= k < images.len() ==> r.images.contains(#[trigger] images[k].1)),
{
    match c {
        UpdateView::CreateObject { buffers, images, .. } => {
            law_first_missing_binding(buffers, r.uniform_buffers);
            law_first_missing_binding(images, r.images);
        },
        _ => {},
    }
}

} // verus!
