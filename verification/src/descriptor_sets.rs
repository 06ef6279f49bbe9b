//! Descriptor set write scheduling: the data model and its laws.
//!
//! A write targets one binding of one logical descriptor set. Writes are
//! deferred: they queue up tagged with an expiry frame and are re-applied on
//! every update until the running frame-in-flight index reaches the expiry,
//! so that every replicated per-frame copy of the set receives the new
//! contents exactly while the GPU is not reading it.
//!
//! When several writes target the same (set, binding) pair before expiry,
//! flushing coalesces them and only the most recently scheduled value is
//! applied; the spec functions and lemmas here state that law.

use vstd::prelude::*;
use vstd::pervasive::arbitrary;
use crate::frame_index::FrameInFlightIndex;
use crate::frame_index::MAX_FRAMES_IN_FLIGHT;
use crate::frame_index::MAX_FRAMES_IN_FLIGHT_PLUS_1;
use crate::frame_index::spec_add_to_frame_in_flight_index;
use crate::slab::RawSlabKey;

verus! {

/// Identifies one binding within a descriptor set layout.
#[derive(Clone, Copy, PartialEq, Eq, Structural, Debug)]
pub struct DescriptorSetElementKey {
    pub dst_binding: u32,
}

/// A device descriptor set, as the driver that allocated it names it.
#[derive(Clone, Copy, PartialEq, Eq, Structural, Debug)]
pub struct DescriptorSetHandle(pub u64);

/// A device descriptor pool, as the driver's pool allocator names it.
#[derive(Clone, Copy, PartialEq, Eq, Structural, Debug)]
pub struct DescriptorPoolHandle(pub u64);

/// A device sampler.
#[derive(Clone, Copy, PartialEq, Eq, Structural, Debug)]
pub struct SamplerHandle(pub u64);

/// A device image view.
#[derive(Clone, Copy, PartialEq, Eq, Structural, Debug)]
pub struct ImageViewHandle(pub u64);

/// The descriptor types this core schedules writes for.
#[derive(Clone, Copy, PartialEq, Eq, Structural, Debug)]
pub enum DescriptorType {
    Sampler,
    CombinedImageSampler,
    SampledImage,
    UniformBuffer,
    StorageBuffer,
}

/// One shader-visible image/sampler entry of a binding's new contents.
#[derive(Clone, Copy, PartialEq, Eq, Structural, Debug)]
pub struct DescriptorImageInfo {
    pub sampler: Option<SamplerHandle>,
    pub image_view: Option<ImageViewHandle>,
}

/// The new contents for one binding of a descriptor set.
#[derive(Debug)]
pub struct DescriptorSetElementWrite {
    /// The layout bakes the sampler in, so sampler entries must not be
    /// written at flush time.
    pub has_immutable_sampler: bool,
    pub descriptor_type: DescriptorType,
    pub image_info: Vec<DescriptorImageInfo>,
}

/// New contents for any number of bindings of one logical descriptor set,
/// in scheduling order: a later entry for the same binding supersedes an
/// earlier one.
#[derive(Debug)]
pub struct DescriptorSetWriteSet {
    pub elements: Vec<(DescriptorSetElementKey, DescriptorSetElementWrite)>,
}

/// New bytes for the backing buffers of any number of bindings of one
/// logical descriptor set.
#[derive(Debug)]
pub struct DescriptorSetWriteBuffer {
    pub elements: Vec<(DescriptorSetElementKey, Vec<u8>)>,
}

/// The slab element type that registered descriptor sets live under; the
/// registry owning the slab sits outside the pool chunk, which only ever
/// sees the keys.
#[derive(Debug)]
pub struct RegisteredDescriptorSet {}

/// A content write that has been scheduled and stays queued until the
/// frame-in-flight index reaches its expiry.
#[derive(Debug)]
pub struct PendingDescriptorSetWriteSet {
    pub slab_key: RawSlabKey<RegisteredDescriptorSet>,
    pub write_set: DescriptorSetWriteSet,
    pub live_until_frame: FrameInFlightIndex,
}

/// A buffer-data write that has been scheduled and stays queued until the
/// frame-in-flight index reaches its expiry.
#[derive(Debug)]
pub struct PendingDescriptorSetWriteBuffer {
    pub slab_key: RawSlabKey<RegisteredDescriptorSet>,
    pub write_buffer: DescriptorSetWriteBuffer,
    pub live_until_frame: FrameInFlightIndex,
}

/// The coalescing key: one logical descriptor set slot and one binding.
#[derive(Clone, Copy, PartialEq, Eq, Structural, Debug)]
pub struct SlabElementKey {
    pub slab_index: u32,
    pub element: DescriptorSetElementKey,
}

// ---------------------------------------------------------------------------
// Association lists keyed by SlabElementKey: the coalescing structure.
// ---------------------------------------------------------------------------

/// Whether the association list holds the key.
pub open spec fn assoc_has_key<V>(entries: Seq<(SlabElementKey, V)>, key: SlabElementKey) -> bool {
    exists|t: int| 0 <= t < entries.len() && (#[trigger] entries[t]).0 == key
}

/// The first position holding the key (the lists built here keep keys
/// unique, so it is the only one).
pub open spec fn assoc_key_index<V>(
    entries: Seq<(SlabElementKey, V)>,
    key: SlabElementKey,
) -> int
    decreases entries.len(),
{
    if entries.len() == 0 {
        0
    } else if entries[0].0 == key {
        0
    } else {
        1 + assoc_key_index(entries.drop_first(), key)
    }
}

/// The value stored under the key.
pub open spec fn assoc_value<V>(entries: Seq<(SlabElementKey, V)>, key: SlabElementKey) -> V
    recommends
        assoc_has_key(entries, key),
{
    entries[assoc_key_index(entries, key)].1
}

/// Insert-or-replace: an existing entry keeps its position and takes the new
/// value, a new key goes to the back.
pub open spec fn assoc_upsert<V>(
    entries: Seq<(SlabElementKey, V)>,
    key: SlabElementKey,
    value: V,
) -> Seq<(SlabElementKey, V)> {
    if assoc_has_key(entries, key) {
        entries.update(assoc_key_index(entries, key), (key, value))
    } else {
        entries.push((key, value))
    }
}

/// No key occurs twice.
pub open spec fn assoc_keys_unique<V>(entries: Seq<(SlabElementKey, V)>) -> bool {
    forall|t1: int, t2: int|
        0 <= t1 < t2 < entries.len() ==> (#[trigger] entries[t1]).0 != (#[trigger] entries[t2]).0
}

/// Where the key occurs, `assoc_key_index` really points at its first
/// occurrence.
pub proof fn lemma_assoc_key_index<V>(entries: Seq<(SlabElementKey, V)>, key: SlabElementKey)
    requires
        assoc_has_key(entries, key),
    ensures
        0 <= assoc_key_index(entries, key) < entries.len(),
        entries[assoc_key_index(entries, key)].0 == key,
        forall|t: int| 0 <= t < assoc_key_index(entries, key) ==> (#[trigger] entries[t]).0 != key,
    decreases entries.len(),
{
    if entries[0].0 == key {
    } else {
        let w = choose|t: int| 0 <= t < entries.len() && (#[trigger] entries[t]).0 == key;
        assert(entries.drop_first()[w - 1] == entries[w]);
        lemma_assoc_key_index(entries.drop_first(), key);
        assert forall|t: int| 0 <= t < assoc_key_index(entries, key) implies (
        #[trigger] entries[t]).0 != key by {
            if t > 0 {
                assert(entries.drop_first()[t - 1] == entries[t]);
            }
        }
    }
}

/// What one upsert does to lookups, and that it keeps keys unique.
pub proof fn lemma_assoc_upsert<V>(
    entries: Seq<(SlabElementKey, V)>,
    key: SlabElementKey,
    value: V,
    query: SlabElementKey,
)
    requires
        assoc_keys_unique(entries),
    ensures
        assoc_keys_unique(assoc_upsert(entries, key, value)),
        assoc_has_key(assoc_upsert(entries, key, value), query) <==> (assoc_has_key(entries, query)
            || query == key),
        query == key ==> assoc_value(assoc_upsert(entries, key, value), query) == value,
        query != key && assoc_has_key(entries, query) ==> assoc_value(
            assoc_upsert(entries, key, value),
            query,
        ) == assoc_value(entries, query),
{
    let out = assoc_upsert(entries, key, value);
    if assoc_has_key(entries, key) {
        lemma_assoc_key_index(entries, key);
        let i = assoc_key_index(entries, key);
        assert forall|t1: int, t2: int| 0 <= t1 < t2 < out.len() implies (#[trigger] out[t1]).0 != (
        #[trigger] out[t2]).0 by {
            assert(entries[t1].0 != entries[t2].0);
        }
        assert(out[i].0 == key);
        if query == key {
            assert(assoc_has_key(out, query)) by {
                assert((#[trigger] out[i]).0 == query);
            }
            lemma_assoc_key_index_same_keys(entries, out, query);
            lemma_assoc_key_index(out, query);
        } else if assoc_has_key(entries, query) {
            lemma_assoc_key_index(entries, query);
            let q = assoc_key_index(entries, query);
            assert(out[q] == entries[q]);
            lemma_assoc_key_index_same_keys(entries, out, query);
        } else {
            if assoc_has_key(out, query) {
                let w = choose|t: int|
                    0 <= t < out.len() && (#[trigger] out[t]).0 == query;
                assert(entries[w].0 == query);
            }
        }
    } else {
        assert(out == entries.push((key, value)));
        assert forall|t1: int, t2: int| 0 <= t1 < t2 < out.len() implies (#[trigger] out[t1]).0 != (
        #[trigger] out[t2]).0 by {
            if t2 < entries.len() {
                assert(entries[t1].0 != entries[t2].0);
            } else {
                assert(out[t2].0 == key);
                assert(out[t1] == entries[t1]);
            }
        }
        if query == key {
            assert(assoc_has_key(out, query)) by {
                assert((#[trigger] out[entries.len() as int]).0 == query);
            }
            lemma_assoc_key_index(out, query);
            let i = assoc_key_index(out, query);
            if i < entries.len() {
                assert(entries[i].0 == key);
            }
        } else {
            if assoc_has_key(out, query) {
                let w = choose|t: int|
                    0 <= t < out.len() && (#[trigger] out[t]).0 == query;
                assert(w < entries.len());
                assert(entries[w].0 == query);
            }
            if assoc_has_key(entries, query) {
                lemma_assoc_key_index(entries, query);
                let q = assoc_key_index(entries, query);
                assert(out[q] == entries[q]);
                lemma_assoc_key_index_push(entries, (key, value), query);
            }
        }
    }
}

/// Two lists with the same keys in the same places index any key at the
/// same position.
proof fn lemma_assoc_key_index_same_keys<V1, V2>(
    a: Seq<(SlabElementKey, V1)>,
    b: Seq<(SlabElementKey, V2)>,
    key: SlabElementKey,
)
    requires
        a.len() == b.len(),
        forall|t: int| 0 <= t < a.len() ==> (#[trigger] a[t]).0 == (#[trigger] b[t]).0,
    ensures
        assoc_key_index(a, key) == assoc_key_index(b, key),
    decreases a.len(),
{
    if a.len() > 0 {
        assert(a[0].0 == b[0].0);
        if a[0].0 != key {
            assert forall|t: int| 0 <= t < a.drop_first().len() implies (
            #[trigger] a.drop_first()[t]).0 == (#[trigger] b.drop_first()[t]).0 by {
                assert(a.drop_first()[t] == a[t + 1]);
                assert(b.drop_first()[t] == b[t + 1]);
            }
            lemma_assoc_key_index_same_keys(a.drop_first(), b.drop_first(), key);
        }
    }
}

/// Appending an entry does not move an existing key.
proof fn lemma_assoc_key_index_push<V>(
    entries: Seq<(SlabElementKey, V)>,
    entry: (SlabElementKey, V),
    query: SlabElementKey,
)
    requires
        assoc_has_key(entries, query),
    ensures
        assoc_key_index(entries.push(entry), query) == assoc_key_index(entries, query),
    decreases entries.len(),
{
    lemma_assoc_key_index(entries, query);
    if entries[0].0 != query {
        let w = choose|t: int| 0 <= t < entries.len() && (#[trigger] entries[t]).0 == query;
        assert(entries.drop_first()[w - 1] == entries[w]);
        lemma_assoc_key_index_push(entries.drop_first(), entry, query);
        assert(entries.push(entry).drop_first() =~= entries.drop_first().push(entry));
    }
}

// ---------------------------------------------------------------------------
// Coalescing: fold every queued write into one association list.
// ---------------------------------------------------------------------------

/// Fold the elements of one write into the list, in scheduling order.
pub open spec fn coalesce_elements<V>(
    acc: Seq<(SlabElementKey, V)>,
    slab_index: u32,
    elements: Seq<(DescriptorSetElementKey, V)>,
) -> Seq<(SlabElementKey, V)>
    decreases elements.len(),
{
    if elements.len() == 0 {
        acc
    } else {
        coalesce_elements(
            assoc_upsert(
                acc,
                SlabElementKey { slab_index, element: elements[0].0 },
                elements[0].1,
            ),
            slab_index,
            elements.drop_first(),
        )
    }
}

/// Fold every queued content write, oldest first, so that later writes to
/// the same (set, binding) pair supersede earlier ones.
pub open spec fn coalesced_set_writes_from(
    acc: Seq<(SlabElementKey, DescriptorSetElementWrite)>,
    pending: Seq<PendingDescriptorSetWriteSet>,
) -> Seq<(SlabElementKey, DescriptorSetElementWrite)>
    decreases pending.len(),
{
    if pending.len() == 0 {
        acc
    } else {
        coalesced_set_writes_from(
            coalesce_elements(
                acc,
                pending[0].slab_key.spec_index(),
                pending[0].write_set.elements@,
            ),
            pending.drop_first(),
        )
    }
}

/// The coalesced view of the queued content writes.
pub open spec fn coalesced_set_writes(pending: Seq<PendingDescriptorSetWriteSet>) -> Seq<
    (SlabElementKey, DescriptorSetElementWrite),
> {
    coalesced_set_writes_from(Seq::empty(), pending)
}

/// Fold every queued buffer write the same way.
pub open spec fn coalesced_buffer_writes_from(
    acc: Seq<(SlabElementKey, Vec<u8>)>,
    pending: Seq<PendingDescriptorSetWriteBuffer>,
) -> Seq<(SlabElementKey, Vec<u8>)>
    decreases pending.len(),
{
    if pending.len() == 0 {
        acc
    } else {
        coalesced_buffer_writes_from(
            coalesce_elements(
                acc,
                pending[0].slab_key.spec_index(),
                pending[0].write_buffer.elements@,
            ),
            pending.drop_first(),
        )
    }
}

/// The coalesced view of the queued buffer writes.
pub open spec fn coalesced_buffer_writes(pending: Seq<PendingDescriptorSetWriteBuffer>) -> Seq<
    (SlabElementKey, Vec<u8>),
> {
    coalesced_buffer_writes_from(Seq::empty(), pending)
}

// ---------------------------------------------------------------------------
// The most recently scheduled value per key.
// ---------------------------------------------------------------------------

/// Whether any element of the write targets the binding.
pub open spec fn elements_has_key<V>(
    elements: Seq<(DescriptorSetElementKey, V)>,
    element: DescriptorSetElementKey,
) -> bool {
    exists|t: int| 0 <= t < elements.len() && (#[trigger] elements[t]).0 == element
}

/// The value of the last element targeting the binding: whenever the rest
/// of the list holds the binding again, that later value wins.
pub open spec fn elements_last_value<V>(
    elements: Seq<(DescriptorSetElementKey, V)>,
    element: DescriptorSetElementKey,
) -> V
    recommends
        elements_has_key(elements, element),
    decreases elements.len(),
{
    if elements.len() == 0 {
        arbitrary()
    } else if elements_has_key(elements.drop_first(), element) {
        elements_last_value(elements.drop_first(), element)
    } else if elements[0].0 == element {
        elements[0].1
    } else {
        arbitrary()
    }
}

/// Whether any queued content write targets the key.
pub open spec fn pending_set_writes_has(
    pending: Seq<PendingDescriptorSetWriteSet>,
    key: SlabElementKey,
) -> bool {
    exists|i: int|
        0 <= i < pending.len() && (#[trigger] pending[i]).slab_key.spec_index() == key.slab_index
            && elements_has_key(pending[i].write_set.elements@, key.element)
}

/// The most recently scheduled content for the key: whenever a later queued
/// write targets the key again, that later write wins.
pub open spec fn last_scheduled_set_write(
    pending: Seq<PendingDescriptorSetWriteSet>,
    key: SlabElementKey,
) -> DescriptorSetElementWrite
    recommends
        pending_set_writes_has(pending, key),
    decreases pending.len(),
{
    if pending.len() == 0 {
        arbitrary()
    } else if pending_set_writes_has(pending.drop_first(), key) {
        last_scheduled_set_write(pending.drop_first(), key)
    } else if pending[0].slab_key.spec_index() == key.slab_index && elements_has_key(
        pending[0].write_set.elements@,
        key.element,
    ) {
        elements_last_value(pending[0].write_set.elements@, key.element)
    } else {
        arbitrary()
    }
}

/// Whether any queued buffer write targets the key.
pub open spec fn pending_buffer_writes_has(
    pending: Seq<PendingDescriptorSetWriteBuffer>,
    key: SlabElementKey,
) -> bool {
    exists|i: int|
        0 <= i < pending.len() && (#[trigger] pending[i]).slab_key.spec_index() == key.slab_index
            && elements_has_key(pending[i].write_buffer.elements@, key.element)
}

/// The most recently scheduled bytes for the key.
pub open spec fn last_scheduled_buffer_write(
    pending: Seq<PendingDescriptorSetWriteBuffer>,
    key: SlabElementKey,
) -> Vec<u8>
    recommends
        pending_buffer_writes_has(pending, key),
    decreases pending.len(),
{
    if pending.len() == 0 {
        arbitrary()
    } else if pending_buffer_writes_has(pending.drop_first(), key) {
        last_scheduled_buffer_write(pending.drop_first(), key)
    } else if pending[0].slab_key.spec_index() == key.slab_index && elements_has_key(
        pending[0].write_buffer.elements@,
        key.element,
    ) {
        elements_last_value(pending[0].write_buffer.elements@, key.element)
    } else {
        arbitrary()
    }
}

/// Folding one write's elements looks up like this: keys of the write take
/// the value of their last element, other keys keep the accumulator's value.
proof fn lemma_coalesce_elements<V>(
    acc: Seq<(SlabElementKey, V)>,
    slab_index: u32,
    elements: Seq<(DescriptorSetElementKey, V)>,
    query: SlabElementKey,
)
    requires
        assoc_keys_unique(acc),
    ensures
        assoc_keys_unique(coalesce_elements(acc, slab_index, elements)),
        assoc_has_key(coalesce_elements(acc, slab_index, elements), query) <==> (assoc_has_key(
            acc,
            query,
        ) || (query.slab_index == slab_index && elements_has_key(elements, query.element))),
        query.slab_index == slab_index && elements_has_key(elements, query.element)
            ==> assoc_value(coalesce_elements(acc, slab_index, elements), query)
            == elements_last_value(elements, query.element),
        !(query.slab_index == slab_index && elements_has_key(elements, query.element))
            && assoc_has_key(acc, query) ==> assoc_value(
            coalesce_elements(acc, slab_index, elements),
            query,
        ) == assoc_value(acc, query),
    decreases elements.len(),
{
    if elements.len() > 0 {
        let head_key = SlabElementKey { slab_index, element: elements[0].0 };
        let acc1 = assoc_upsert(acc, head_key, elements[0].1);
        lemma_assoc_upsert(acc, head_key, elements[0].1, query);
        lemma_coalesce_elements(acc1, slab_index, elements.drop_first(), query);
        if elements_has_key(elements, query.element) && !elements_has_key(
            elements.drop_first(),
            query.element,
        ) {
            let w = choose|t: int|
                0 <= t < elements.len() && (#[trigger] elements[t]).0 == query.element;
            if w > 0 {
                assert(elements.drop_first()[w - 1] == elements[w]);
            }
        }
        if elements_has_key(elements.drop_first(), query.element) {
            let w = choose|t: int|
                0 <= t < elements.drop_first().len() && (#[trigger] elements.drop_first()[t]).0
                    == query.element;
            assert(elements[w + 1] == elements.drop_first()[w]);
        }
    }
}

/// The law of coalescing (set writes): the coalesced list holds exactly the
/// keys some queued write targets, and under each key exactly the most
/// recently scheduled value.
pub proof fn lemma_coalesced_set_writes_last_wins(
    pending: Seq<PendingDescriptorSetWriteSet>,
    query: SlabElementKey,
)
    ensures
        assoc_keys_unique(coalesced_set_writes(pending)),
        assoc_has_key(coalesced_set_writes(pending), query) <==> pending_set_writes_has(
            pending,
            query,
        ),
        pending_set_writes_has(pending, query) ==> assoc_value(
            coalesced_set_writes(pending),
            query,
        ) == last_scheduled_set_write(pending, query),
{
    lemma_coalesced_set_writes_from(Seq::empty(), pending, query);
}

proof fn lemma_coalesced_set_writes_from(
    acc: Seq<(SlabElementKey, DescriptorSetElementWrite)>,
    pending: Seq<PendingDescriptorSetWriteSet>,
    query: SlabElementKey,
)
    requires
        assoc_keys_unique(acc),
    ensures
        assoc_keys_unique(coalesced_set_writes_from(acc, pending)),
        assoc_has_key(coalesced_set_writes_from(acc, pending), query) <==> (assoc_has_key(
            acc,
            query,
        ) || pending_set_writes_has(pending, query)),
        pending_set_writes_has(pending, query) ==> assoc_value(
            coalesced_set_writes_from(acc, pending),
            query,
        ) == last_scheduled_set_write(pending, query),
        !pending_set_writes_has(pending, query) && assoc_has_key(acc, query) ==> assoc_value(
            coalesced_set_writes_from(acc, pending),
            query,
        ) == assoc_value(acc, query),
    decreases pending.len(),
{
    if pending.len() > 0 {
        let acc1 = coalesce_elements(
            acc,
            pending[0].slab_key.spec_index(),
            pending[0].write_set.elements@,
        );
        lemma_coalesce_elements(
            acc,
            pending[0].slab_key.spec_index(),
            pending[0].write_set.elements@,
            query,
        );
        lemma_coalesced_set_writes_from(acc1, pending.drop_first(), query);
        if pending_set_writes_has(pending, query) && !pending_set_writes_has(
            pending.drop_first(),
            query,
        ) {
            let w = choose|i: int|
                0 <= i < pending.len() && (#[trigger] pending[i]).slab_key.spec_index()
                    == query.slab_index && elements_has_key(
                    pending[i].write_set.elements@,
                    query.element,
                );
            if w > 0 {
                assert(pending.drop_first()[w - 1] == pending[w]);
            }
        }
        if pending_set_writes_has(pending.drop_first(), query) {
            let w = choose|i: int|
                0 <= i < pending.drop_first().len() && (
                #[trigger] pending.drop_first()[i]).slab_key.spec_index() == query.slab_index
                    && elements_has_key(
                    pending.drop_first()[i].write_set.elements@,
                    query.element,
                );
            assert(pending[w + 1] == pending.drop_first()[w]);
        }
    }
}

/// The law of coalescing (buffer writes), stated the same way.
pub proof fn lemma_coalesced_buffer_writes_last_wins(
    pending: Seq<PendingDescriptorSetWriteBuffer>,
    query: SlabElementKey,
)
    ensures
        assoc_keys_unique(coalesced_buffer_writes(pending)),
        assoc_has_key(coalesced_buffer_writes(pending), query) <==> pending_buffer_writes_has(
            pending,
            query,
        ),
        pending_buffer_writes_has(pending, query) ==> assoc_value(
            coalesced_buffer_writes(pending),
            query,
        ) == last_scheduled_buffer_write(pending, query),
{
    lemma_coalesced_buffer_writes_from(Seq::empty(), pending, query);
}

proof fn lemma_coalesced_buffer_writes_from(
    acc: Seq<(SlabElementKey, Vec<u8>)>,
    pending: Seq<PendingDescriptorSetWriteBuffer>,
    query: SlabElementKey,
)
    requires
        assoc_keys_unique(acc),
    ensures
        assoc_keys_unique(coalesced_buffer_writes_from(acc, pending)),
        assoc_has_key(coalesced_buffer_writes_from(acc, pending), query) <==> (assoc_has_key(
            acc,
            query,
        ) || pending_buffer_writes_has(pending, query)),
        pending_buffer_writes_has(pending, query) ==> assoc_value(
            coalesced_buffer_writes_from(acc, pending),
            query,
        ) == last_scheduled_buffer_write(pending, query),
        !pending_buffer_writes_has(pending, query) && assoc_has_key(acc, query) ==> assoc_value(
            coalesced_buffer_writes_from(acc, pending),
            query,
        ) == assoc_value(acc, query),
    decreases pending.len(),
{
    if pending.len() > 0 {
        let acc1 = coalesce_elements(
            acc,
            pending[0].slab_key.spec_index(),
            pending[0].write_buffer.elements@,
        );
        lemma_coalesce_elements(
            acc,
            pending[0].slab_key.spec_index(),
            pending[0].write_buffer.elements@,
            query,
        );
        lemma_coalesced_buffer_writes_from(acc1, pending.drop_first(), query);
        if pending_buffer_writes_has(pending, query) && !pending_buffer_writes_has(
            pending.drop_first(),
            query,
        ) {
            let w = choose|i: int|
                0 <= i < pending.len() && (#[trigger] pending[i]).slab_key.spec_index()
                    == query.slab_index && elements_has_key(
                    pending[i].write_buffer.elements@,
                    query.element,
                );
            if w > 0 {
                assert(pending.drop_first()[w - 1] == pending[w]);
            }
        }
        if pending_buffer_writes_has(pending.drop_first(), query) {
            let w = choose|i: int|
                0 <= i < pending.drop_first().len() && (
                #[trigger] pending.drop_first()[i]).slab_key.spec_index() == query.slab_index
                    && elements_has_key(
                    pending.drop_first()[i].write_buffer.elements@,
                    query.element,
                );
            assert(pending[w + 1] == pending.drop_first()[w]);
        }
    }
}

// ---------------------------------------------------------------------------
// Draining: writes leave the queue exactly when the frame index reaches
// their expiry.
// ---------------------------------------------------------------------------

/// How many writes an update at `frame` drains: the longest prefix whose
/// expiry equals the frame exactly. Writes queue in non-decreasing expiry
/// order (seen from the running index), so the prefix scan removes every
/// expired write.
pub open spec fn spec_drain_count(lives: Seq<u32>, frame: u32) -> int
    decreases lives.len(),
{
    if lives.len() == 0 {
        0
    } else if lives[0] == frame {
        1 + spec_drain_count(lives.drop_first(), frame)
    } else {
        0
    }
}

/// How far a write's expiry lies ahead of the frame index `current`, in
/// frames, wrapping modulo the replica count.
pub open spec fn spec_frames_until_expiry(live_until_frame: u32, current: u32) -> int {
    (live_until_frame + MAX_FRAMES_IN_FLIGHT_PLUS_1 - current) % (
    MAX_FRAMES_IN_FLIGHT_PLUS_1 as int)
}

/// The queue discipline: expiries never decrease along the queue, measured
/// from the current frame index.
pub open spec fn spec_expiries_sorted(lives: Seq<u32>, current: u32) -> bool {
    forall|a: int, b: int|
        0 <= a <= b < lives.len() ==> spec_frames_until_expiry(#[trigger] lives[a], current)
            <= spec_frames_until_expiry(#[trigger] lives[b], current)
}

/// Total number of writes drained by consecutive updates at `start`,
/// `start + 1`, ..., `steps` of them in all, each update draining the
/// matching prefix of what the previous ones left.
pub open spec fn spec_drained_after(lives: Seq<u32>, start: u32, steps: nat) -> int
    decreases steps,
{
    if steps == 0 {
        0
    } else {
        let before = spec_drained_after(lives, start, (steps - 1) as nat);
        before + spec_drain_count(
            lives.skip(before),
            spec_add_to_frame_in_flight_index(start, (steps - 1) as u32),
        )
    }
}

/// Every expiry in the maximal drained prefix equals the frame, and the
/// entry after the prefix (if any) does not.
pub proof fn lemma_drain_count_prefix(lives: Seq<u32>, frame: u32)
    ensures
        0 <= spec_drain_count(lives, frame) <= lives.len(),
        forall|t: int| 0 <= t < spec_drain_count(lives, frame) ==> #[trigger] lives[t] == frame,
        spec_drain_count(lives, frame) < lives.len() ==> lives[spec_drain_count(lives, frame)]
            != frame,
    decreases lives.len(),
{
    if lives.len() > 0 && lives[0] == frame {
        lemma_drain_count_prefix(lives.drop_first(), frame);
        let c = spec_drain_count(lives, frame);
        assert forall|t: int| 0 <= t < c implies #[trigger] lives[t] == frame by {
            if t > 0 {
                assert(lives.drop_first()[t - 1] == lives[t]);
            }
        }
        if c < lives.len() {
            assert(lives.drop_first()[c - 1] == lives[c]);
        }
    }
}

/// The retention window (content and buffer writes alike): a write queued
/// with expiry `start + MAX_FRAMES_IN_FLIGHT` survives the updates at
/// `start`, `start + 1`, ..., `start + MAX_FRAMES_IN_FLIGHT - 1` and is
/// still present going into the update at `start + MAX_FRAMES_IN_FLIGHT`
/// (so each of those updates still applies it), and that update evicts it.
pub proof fn lemma_write_retention_window(lives: Seq<u32>, start: u32, j: int)
    requires
        start < MAX_FRAMES_IN_FLIGHT_PLUS_1,
        forall|t: int| 0 <= t < lives.len() ==> #[trigger] lives[t] < MAX_FRAMES_IN_FLIGHT_PLUS_1,
        spec_expiries_sorted(lives, start),
        0 <= j < lives.len(),
        lives[j] == spec_add_to_frame_in_flight_index(start, MAX_FRAMES_IN_FLIGHT),
    ensures
        forall|k: nat|
            k <= MAX_FRAMES_IN_FLIGHT ==> #[trigger] spec_drained_after(lives, start, k) <= j,
        spec_drained_after(lives, start, (MAX_FRAMES_IN_FLIGHT + 1) as nat) > j,
{
    assert forall|k: nat| k <= MAX_FRAMES_IN_FLIGHT + 1 implies #[trigger] spec_drained_after(
        lives,
        start,
        k,
    ) == spec_count_expiring_below(lives, start, k as int) by {
        lemma_drained_after_counts(lives, start, k);
    }
    lemma_count_expiring_below_bounds(lives, start, MAX_FRAMES_IN_FLIGHT as int, j);
    lemma_count_expiring_includes(lives, start, (MAX_FRAMES_IN_FLIGHT + 1) as int, j);
    assert forall|k: nat| k <= MAX_FRAMES_IN_FLIGHT implies #[trigger] spec_drained_after(
        lives,
        start,
        k,
    ) <= j by {
        lemma_count_expiring_monotonic(lives, start, k as int, MAX_FRAMES_IN_FLIGHT as int);
    }
}

/// The longest prefix whose entries all expire strictly fewer than `bound`
/// frames after `start`.
pub open spec fn spec_count_expiring_below(lives: Seq<u32>, start: u32, bound: int) -> int
    decreases lives.len(),
{
    if lives.len() == 0 {
        0
    } else if spec_frames_until_expiry(lives[0], start) < bound {
        1 + spec_count_expiring_below(lives.drop_first(), start, bound)
    } else {
        0
    }
}

proof fn lemma_count_expiring_monotonic(lives: Seq<u32>, start: u32, b1: int, b2: int)
    requires
        b1 <= b2,
    ensures
        spec_count_expiring_below(lives, start, b1) <= spec_count_expiring_below(
            lives,
            start,
            b2,
        ),
    decreases lives.len(),
{
    lemma_count_expiring_split(lives, start, b2);
    if lives.len() > 0 {
        lemma_count_expiring_monotonic(lives.drop_first(), start, b1, b2);
    }
}

/// In a sorted queue, the prefix expiring below `bound` stops before any
/// entry expiring at `bound` or later.
proof fn lemma_count_expiring_below_bounds(lives: Seq<u32>, start: u32, bound: int, j: int)
    requires
        spec_expiries_sorted(lives, start),
        0 <= j < lives.len(),
        spec_frames_until_expiry(lives[j], start) >= bound,
    ensures
        spec_count_expiring_below(lives, start, bound) <= j,
    decreases lives.len(),
{
    if lives.len() > 0 && spec_frames_until_expiry(lives[0], start) < bound {
        assert(j > 0);
        assert forall|a: int, b: int| 0 <= a <= b < lives.drop_first().len() implies
            spec_frames_until_expiry(#[trigger] lives.drop_first()[a], start)
            <= spec_frames_until_expiry(#[trigger] lives.drop_first()[b], start) by {
            assert(lives.drop_first()[a] == lives[a + 1]);
            assert(lives.drop_first()[b] == lives[b + 1]);
        }
        assert(lives.drop_first()[j - 1] == lives[j]);
        lemma_count_expiring_below_bounds(lives.drop_first(), start, bound, j - 1);
    }
}

/// In a sorted queue, the prefix expiring below `bound` covers every entry
/// expiring strictly below `bound`.
proof fn lemma_count_expiring_includes(lives: Seq<u32>, start: u32, bound: int, j: int)
    requires
        spec_expiries_sorted(lives, start),
        0 <= j < lives.len(),
        spec_frames_until_expiry(lives[j], start) < bound,
    ensures
        spec_count_expiring_below(lives, start, bound) > j,
    decreases lives.len(),
{
    assert(spec_frames_until_expiry(lives[0], start) <= spec_frames_until_expiry(
        lives[j],
        start,
    ));
    lemma_count_expiring_split(lives.drop_first(), start, bound);
    if j > 0 {
        assert forall|a: int, b: int| 0 <= a <= b < lives.drop_first().len() implies
            spec_frames_until_expiry(#[trigger] lives.drop_first()[a], start)
            <= spec_frames_until_expiry(#[trigger] lives.drop_first()[b], start) by {
            assert(lives.drop_first()[a] == lives[a + 1]);
            assert(lives.drop_first()[b] == lives[b + 1]);
        }
        assert(lives.drop_first()[j - 1] == lives[j]);
        lemma_count_expiring_includes(lives.drop_first(), start, bound, j - 1);
    }
}

/// Each update drains exactly the entries expiring at its own frame, so the
/// total after `steps` updates is the prefix expiring below `steps`.
proof fn lemma_drained_after_counts(lives: Seq<u32>, start: u32, steps: nat)
    requires
        start < MAX_FRAMES_IN_FLIGHT_PLUS_1,
        steps <= MAX_FRAMES_IN_FLIGHT_PLUS_1,
        forall|t: int| 0 <= t < lives.len() ==> #[trigger] lives[t] < MAX_FRAMES_IN_FLIGHT_PLUS_1,
        spec_expiries_sorted(lives, start),
    ensures
        spec_drained_after(lives, start, steps) == spec_count_expiring_below(
            lives,
            start,
            steps as int,
        ),
        0 <= spec_drained_after(lives, start, steps) <= lives.len(),
    decreases steps,
{
    if steps == 0 {
        lemma_count_expiring_empty(lives, start);
    } else {
        lemma_drained_after_counts(lives, start, (steps - 1) as nat);
        let before = spec_drained_after(lives, start, (steps - 1) as nat);
        let frame = spec_add_to_frame_in_flight_index(start, (steps - 1) as u32);
        let rest = lives.skip(before);
        lemma_count_expiring_split(lives, start, (steps - 1) as int);
        assert forall|t: int| 0 <= t < rest.len() implies (
            spec_frames_until_expiry(#[trigger] rest[t], start) >= steps - 1 && rest[t]
            < MAX_FRAMES_IN_FLIGHT_PLUS_1) by {
            assert(rest[t] == lives[before + t]);
            if spec_frames_until_expiry(lives[before + t], start) < steps - 1 {
                lemma_count_expiring_includes(lives, start, (steps - 1) as int, before + t);
            }
        }
        assert forall|t: int| 0 <= t < rest.len() implies ((#[trigger] rest[t] == frame)
            <==> spec_frames_until_expiry(rest[t], start) == steps - 1) by {
            assert(rest[t] < MAX_FRAMES_IN_FLIGHT_PLUS_1);
        }
        lemma_drain_matches_expiry(rest, start, frame, (steps - 1) as int);
        lemma_count_expiring_split_sum(lives, start, (steps - 1) as int, steps as int);
        lemma_count_expiring_split(lives, start, steps as int);
    }
}

proof fn lemma_count_expiring_empty(lives: Seq<u32>, start: u32)
    ensures
        spec_count_expiring_below(lives, start, 0) == 0,
{
}

/// The prefix expiring below `bound` is itself counted by
/// `spec_count_expiring_below`, so the remainder starts right after it.
proof fn lemma_count_expiring_split(lives: Seq<u32>, start: u32, bound: int)
    ensures
        0 <= spec_count_expiring_below(lives, start, bound) <= lives.len(),
    decreases lives.len(),
{
    if lives.len() > 0 && spec_frames_until_expiry(lives[0], start) < bound {
        lemma_count_expiring_split(lives.drop_first(), start, bound);
    }
}

/// On a suffix whose entries all expire at `bound` frames or later, the
/// drain at the frame `bound` frames ahead removes exactly the prefix
/// expiring below `bound + 1`.
proof fn lemma_drain_matches_expiry(rest: Seq<u32>, start: u32, frame: u32, bound: int)
    requires
        forall|t: int|
            0 <= t < rest.len() ==> spec_frames_until_expiry(#[trigger] rest[t], start) >= bound,
        forall|t: int|
            0 <= t < rest.len() ==> ((#[trigger] rest[t] == frame) <==> spec_frames_until_expiry(
                rest[t],
                start,
            ) == bound),
    ensures
        spec_drain_count(rest, frame) == spec_count_expiring_below(rest, start, bound + 1),
    decreases rest.len(),
{
    if rest.len() > 0 {
        assert forall|t: int| 0 <= t < rest.drop_first().len() implies (
            spec_frames_until_expiry(#[trigger] rest.drop_first()[t], start) >= bound && ((
            rest.drop_first()[t] == frame) <==> spec_frames_until_expiry(
                rest.drop_first()[t],
                start,
            ) == bound)) by {
            assert(rest.drop_first()[t] == rest[t + 1]);
        }
        lemma_drain_matches_expiry(rest.drop_first(), start, frame, bound);
    }
}

/// Totals over consecutive bounds add up: what expires below `b2` is what
/// expires below `b1` plus, after that prefix, what expires below `b2`.
proof fn lemma_count_expiring_split_sum(lives: Seq<u32>, start: u32, b1: int, b2: int)
    requires
        0 <= b1 <= b2,
        spec_expiries_sorted(lives, start),
    ensures
        spec_count_expiring_below(lives, start, b2) == spec_count_expiring_below(lives, start, b1)
            + spec_count_expiring_below(
            lives.skip(spec_count_expiring_below(lives, start, b1)),
            start,
            b2,
        ),
    decreases lives.len(),
{
    let c1 = spec_count_expiring_below(lives, start, b1);
    lemma_count_expiring_split(lives, start, b1);
    if lives.len() == 0 {
        assert(lives.skip(0) =~= lives);
    } else if spec_frames_until_expiry(lives[0], start) < b1 {
        assert forall|a: int, b: int| 0 <= a <= b < lives.drop_first().len() implies
            spec_frames_until_expiry(#[trigger] lives.drop_first()[a], start)
            <= spec_frames_until_expiry(#[trigger] lives.drop_first()[b], start) by {
            assert(lives.drop_first()[a] == lives[a + 1]);
            assert(lives.drop_first()[b] == lives[b + 1]);
        }
        lemma_count_expiring_split(lives.drop_first(), start, b1);
        lemma_count_expiring_split_sum(lives.drop_first(), start, b1, b2);
        assert(lives.skip(c1) =~= lives.drop_first().skip(c1 - 1));
        lemma_count_expiring_monotonic(lives, start, b1, b2);
    } else {
        assert(lives.skip(0) =~= lives);
    }
}

/// A left fold processes an appended element last.
pub proof fn lemma_coalesce_elements_push<V>(
    acc: Seq<(SlabElementKey, V)>,
    slab_index: u32,
    elements: Seq<(DescriptorSetElementKey, V)>,
    last: (DescriptorSetElementKey, V),
)
    ensures
        coalesce_elements(acc, slab_index, elements.push(last)) == assoc_upsert(
            coalesce_elements(acc, slab_index, elements),
            SlabElementKey { slab_index, element: last.0 },
            last.1,
        ),
    decreases elements.len(),
{
    let key = SlabElementKey { slab_index, element: last.0 };
    if elements.len() == 0 {
        assert(elements.push(last)[0] == last);
        assert(elements.push(last).drop_first() =~= Seq::<(DescriptorSetElementKey, V)>::empty());
        assert(coalesce_elements(acc, slab_index, elements.push(last)) == coalesce_elements(
            assoc_upsert(acc, key, last.1),
            slab_index,
            elements.push(last).drop_first(),
        ));
        assert(coalesce_elements(
            assoc_upsert(acc, key, last.1),
            slab_index,
            Seq::<(DescriptorSetElementKey, V)>::empty(),
        ) == assoc_upsert(acc, key, last.1));
        assert(coalesce_elements(acc, slab_index, elements) == acc);
    } else {
        assert(elements.push(last)[0] == elements[0]);
        assert(elements.push(last).drop_first() =~= elements.drop_first().push(last));
        lemma_coalesce_elements_push(
            assoc_upsert(
                acc,
                SlabElementKey { slab_index, element: elements[0].0 },
                elements[0].1,
            ),
            slab_index,
            elements.drop_first(),
            last,
        );
    }
}

/// The queue-level fold processes an appended write last.
pub proof fn lemma_coalesced_set_writes_from_push(
    acc: Seq<(SlabElementKey, DescriptorSetElementWrite)>,
    pending: Seq<PendingDescriptorSetWriteSet>,
    last: PendingDescriptorSetWriteSet,
)
    ensures
        coalesced_set_writes_from(acc, pending.push(last)) == coalesce_elements(
            coalesced_set_writes_from(acc, pending),
            last.slab_key.spec_index(),
            last.write_set.elements@,
        ),
    decreases pending.len(),
{
    if pending.len() == 0 {
        assert(pending.push(last)[0] == last);
        assert(pending.push(last).drop_first()
            =~= Seq::<PendingDescriptorSetWriteSet>::empty());
        assert(coalesced_set_writes_from(acc, pending.push(last)) == coalesced_set_writes_from(
            coalesce_elements(acc, last.slab_key.spec_index(), last.write_set.elements@),
            pending.push(last).drop_first(),
        ));
        assert(coalesced_set_writes_from(
            coalesce_elements(acc, last.slab_key.spec_index(), last.write_set.elements@),
            Seq::<PendingDescriptorSetWriteSet>::empty(),
        ) == coalesce_elements(acc, last.slab_key.spec_index(), last.write_set.elements@));
        assert(coalesced_set_writes_from(acc, pending) == acc);
    } else {
        assert(pending.push(last)[0] == pending[0]);
        assert(pending.push(last).drop_first() =~= pending.drop_first().push(last));
        lemma_coalesced_set_writes_from_push(
            coalesce_elements(
                acc,
                pending[0].slab_key.spec_index(),
                pending[0].write_set.elements@,
            ),
            pending.drop_first(),
            last,
        );
    }
}

/// The queue-level fold processes an appended buffer write last.
pub proof fn lemma_coalesced_buffer_writes_from_push(
    acc: Seq<(SlabElementKey, Vec<u8>)>,
    pending: Seq<PendingDescriptorSetWriteBuffer>,
    last: PendingDescriptorSetWriteBuffer,
)
    ensures
        coalesced_buffer_writes_from(acc, pending.push(last)) == coalesce_elements(
            coalesced_buffer_writes_from(acc, pending),
            last.slab_key.spec_index(),
            last.write_buffer.elements@,
        ),
    decreases pending.len(),
{
    if pending.len() == 0 {
        assert(pending.push(last)[0] == last);
        assert(pending.push(last).drop_first()
            =~= Seq::<PendingDescriptorSetWriteBuffer>::empty());
        assert(coalesced_buffer_writes_from(acc, pending.push(last))
            == coalesced_buffer_writes_from(
            coalesce_elements(acc, last.slab_key.spec_index(), last.write_buffer.elements@),
            pending.push(last).drop_first(),
        ));
        assert(coalesced_buffer_writes_from(
            coalesce_elements(acc, last.slab_key.spec_index(), last.write_buffer.elements@),
            Seq::<PendingDescriptorSetWriteBuffer>::empty(),
        ) == coalesce_elements(acc, last.slab_key.spec_index(), last.write_buffer.elements@));
        assert(coalesced_buffer_writes_from(acc, pending) == acc);
    } else {
        assert(pending.push(last)[0] == pending[0]);
        assert(pending.push(last).drop_first() =~= pending.drop_first().push(last));
        lemma_coalesced_buffer_writes_from_push(
            coalesce_elements(
                acc,
                pending[0].slab_key.spec_index(),
                pending[0].write_buffer.elements@,
            ),
            pending.drop_first(),
            last,
        );
    }
}

} // verus!
