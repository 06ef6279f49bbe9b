//! A fixed-capacity chunk of descriptor sets, replicated per frame in flight.
//!
//! One chunk owns `MAX_DESCRIPTORS_PER_POOL` descriptor-set slots, each
//! allocated `MAX_FRAMES_IN_FLIGHT_PLUS_1` times (one copy per frame the GPU
//! may still be reading, plus one the CPU can always write), together with
//! the host-visible buffers backing every binding that needs one. Content
//! and buffer writes are scheduled against a logical slot and flushed by
//! `update` once per frame until their expiry frame arrives.
//!
//! The device half (the pool, the set handles, the device buffers and the
//! batched descriptor update call) belongs to the driver: construction takes
//! the handles the driver allocated, and `update` returns the descriptor
//! writes the driver must apply in its one batched device call.

use vstd::prelude::*;
use std::collections::VecDeque;
use crate::descriptor_sets::DescriptorImageInfo;
use crate::descriptor_sets::DescriptorPoolHandle;
use crate::descriptor_sets::DescriptorSetElementKey;
use crate::descriptor_sets::DescriptorSetElementWrite;
use crate::descriptor_sets::DescriptorSetHandle;
use crate::descriptor_sets::DescriptorSetWriteBuffer;
use crate::descriptor_sets::DescriptorSetWriteSet;
use crate::descriptor_sets::DescriptorType;
use crate::descriptor_sets::PendingDescriptorSetWriteBuffer;
use crate::descriptor_sets::PendingDescriptorSetWriteSet;
use crate::descriptor_sets::RegisteredDescriptorSet;
use crate::descriptor_sets::SlabElementKey;
use crate::descriptor_sets::assoc_has_key;
use crate::descriptor_sets::assoc_key_index;
use crate::descriptor_sets::assoc_keys_unique;
use crate::descriptor_sets::assoc_upsert;
use crate::descriptor_sets::coalesce_elements;
use crate::descriptor_sets::coalesced_buffer_writes;
use crate::descriptor_sets::coalesced_set_writes;
use crate::descriptor_sets::lemma_assoc_key_index;
use crate::descriptor_sets::lemma_assoc_upsert;
use crate::descriptor_sets::lemma_coalesce_elements_push;
use crate::descriptor_sets::lemma_coalesced_buffer_writes_from_push;
use crate::descriptor_sets::lemma_coalesced_buffer_writes_last_wins;
use crate::descriptor_sets::lemma_coalesced_set_writes_from_push;
use crate::descriptor_sets::lemma_coalesced_set_writes_last_wins;
use crate::descriptor_sets::lemma_drain_count_prefix;
use crate::descriptor_sets::spec_drain_count;
use crate::frame_index::FrameInFlightIndex;
use crate::frame_index::MAX_DESCRIPTORS_PER_POOL;
use crate::frame_index::MAX_FRAMES_IN_FLIGHT;
use crate::frame_index::MAX_FRAMES_IN_FLIGHT_PLUS_1;
use crate::frame_index::add_to_frame_in_flight_index;
use crate::frame_index::spec_add_to_frame_in_flight_index;
use crate::slab::RawSlabKey;

verus! {

/// What one binding of the layout needs in backing storage: which binding,
/// what descriptor type, how many bytes one descriptor reads, and at what
/// stride consecutive descriptor slots sit in the buffer.
#[derive(Clone, Copy, PartialEq, Eq, Structural, Debug)]
pub struct DescriptorSetPoolRequiredBufferInfo {
    pub dst_element: DescriptorSetElementKey,
    pub descriptor_type: DescriptorType,
    pub per_descriptor_size: u32,
    pub per_descriptor_stride: u32,
}

/// The host-visible storage for one binding: one buffer per frame copy,
/// each holding one `per_descriptor_stride`-sized slot per descriptor.
#[derive(Debug)]
pub struct DescriptorBindingBufferSet {
    pub buffer_info: DescriptorSetPoolRequiredBufferInfo,
    pub buffers: Vec<Vec<u8>>,
}

/// The backing buffers for every binding of the layout that needs one.
#[derive(Debug)]
pub struct DescriptorLayoutBufferSet {
    pub buffer_sets: Vec<DescriptorBindingBufferSet>,
}

/// One entry of the initial device update a fresh chunk needs: point one
/// descriptor set's binding at its slice of the binding's backing buffer.
#[derive(Clone, Copy, PartialEq, Eq, Structural, Debug)]
pub struct InitialBufferBinding {
    pub dst_set: DescriptorSetHandle,
    pub dst_binding: u32,
    pub descriptor_type: DescriptorType,
    pub frame_in_flight_index: u32,
    pub offset: u64,
    pub range: u32,
}

/// One descriptor write the driver must apply after a flush: the device
/// handle and contents, plus the logical slot it targets (`logical` names
/// the write for callers and logs; the device call uses the other fields).
#[derive(Debug)]
pub struct DeviceDescriptorWrite {
    pub logical: SlabElementKey,
    pub dst_set: DescriptorSetHandle,
    pub dst_binding: u32,
    pub descriptor_type: DescriptorType,
    pub image_info: Vec<DescriptorImageInfo>,
}

/// Why a buffer write was turned away before anything was queued.
#[derive(Clone, Copy, PartialEq, Eq, Structural, Debug)]
pub enum DescriptorSetWriteBufferError {
    /// The targeted binding has no backing buffer in this layout.
    UnknownBinding(DescriptorSetElementKey),
    /// The payload is larger than one descriptor's slot; writing it would
    /// corrupt the neighbouring slot.
    Oversize { element: DescriptorSetElementKey, data_len: usize, per_descriptor_size: u32 },
}

/// Whether some binding backs the key.
pub open spec fn spec_has_binding(
    infos: Seq<DescriptorSetPoolRequiredBufferInfo>,
    element: DescriptorSetElementKey,
) -> bool {
    exists|b: int| 0 <= b < infos.len() && (#[trigger] infos[b]).dst_element == element
}

/// The first binding backing the key.
pub open spec fn spec_binding_index(
    infos: Seq<DescriptorSetPoolRequiredBufferInfo>,
    element: DescriptorSetElementKey,
) -> int
    decreases infos.len(),
{
    if infos.len() == 0 {
        0
    } else if infos[0].dst_element == element {
        0
    } else {
        1 + spec_binding_index(infos.drop_first(), element)
    }
}

/// Where the key is backed, `spec_binding_index` really points at its first
/// backing binding.
pub proof fn lemma_binding_index(
    infos: Seq<DescriptorSetPoolRequiredBufferInfo>,
    element: DescriptorSetElementKey,
)
    requires
        spec_has_binding(infos, element),
    ensures
        0 <= spec_binding_index(infos, element) < infos.len(),
        infos[spec_binding_index(infos, element)].dst_element == element,
        forall|b: int|
            0 <= b < spec_binding_index(infos, element) ==> (#[trigger] infos[b]).dst_element
                != element,
    decreases infos.len(),
{
    if infos[0].dst_element == element {
    } else {
        let w = choose|b: int| 0 <= b < infos.len() && (#[trigger] infos[b]).dst_element == element;
        assert(infos.drop_first()[w - 1] == infos[w]);
        lemma_binding_index(infos.drop_first(), element);
        assert forall|b: int| 0 <= b < spec_binding_index(infos, element) implies (
        #[trigger] infos[b]).dst_element != element by {
            if b > 0 {
                assert(infos.drop_first()[b - 1] == infos[b]);
            }
        }
    }
}

/// One element of a buffer write is acceptable when some binding backs its
/// key and the payload fits one descriptor's slot.
pub open spec fn spec_buffer_element_fits(
    entry: (DescriptorSetElementKey, Vec<u8>),
    infos: Seq<DescriptorSetPoolRequiredBufferInfo>,
) -> bool {
    &&& spec_has_binding(infos, entry.0)
    &&& entry.1@.len() <= infos[spec_binding_index(infos, entry.0)].per_descriptor_size
}

/// The first reason to turn a buffer write away, scanning its elements in
/// order; `None` when every element fits.
pub open spec fn spec_buffer_write_rejection(
    elements: Seq<(DescriptorSetElementKey, Vec<u8>)>,
    infos: Seq<DescriptorSetPoolRequiredBufferInfo>,
) -> Option<DescriptorSetWriteBufferError>
    decreases elements.len(),
{
    if elements.len() == 0 {
        None
    } else if !spec_has_binding(infos, elements[0].0) {
        Some(DescriptorSetWriteBufferError::UnknownBinding(elements[0].0))
    } else if elements[0].1@.len() > infos[spec_binding_index(infos, elements[0].0)].per_descriptor_size {
        Some(
            DescriptorSetWriteBufferError::Oversize {
                element: elements[0].0,
                data_len: elements[0].1@.len() as usize,
                per_descriptor_size: infos[spec_binding_index(
                    infos,
                    elements[0].0,
                )].per_descriptor_size,
            },
        )
    } else {
        spec_buffer_write_rejection(elements.drop_first(), infos)
    }
}

/// Entry `idx` of a fresh chunk's initial device update, enumerated binding
/// by binding, frame by frame, slot by slot: point the slot's set copy at
/// its `per_descriptor_stride`-spaced slice of the binding's buffer.
pub open spec fn spec_initial_binding(
    infos: Seq<DescriptorSetPoolRequiredBufferInfo>,
    sets: Seq<Seq<DescriptorSetHandle>>,
    idx: int,
) -> InitialBufferBinding {
    let per_binding = (MAX_FRAMES_IN_FLIGHT_PLUS_1 * MAX_DESCRIPTORS_PER_POOL) as int;
    let b = idx / per_binding;
    let f = (idx % per_binding) / (MAX_DESCRIPTORS_PER_POOL as int);
    let d = idx % (MAX_DESCRIPTORS_PER_POOL as int);
    InitialBufferBinding {
        dst_set: sets[f][d],
        dst_binding: infos[b].dst_element.dst_binding,
        descriptor_type: infos[b].descriptor_type,
        frame_in_flight_index: f as u32,
        offset: (d * infos[b].per_descriptor_stride) as u64,
        range: infos[b].per_descriptor_size,
    }
}

/// A chunk of `MAX_DESCRIPTORS_PER_POOL` descriptor-set slots, replicated
/// once per frame copy, with the backing buffers and the queues of writes
/// waiting for their expiry frame.
pub struct RegisteredDescriptorSetPoolChunk {
    /// The pool every set in this chunk was allocated from; retired as a
    /// whole when the chunk is destroyed.
    pool: DescriptorPoolHandle,
    /// `descriptor_sets[frame][slot]`: the device handle of the slot's copy
    /// for that frame.
    descriptor_sets: Vec<Vec<DescriptorSetHandle>>,
    /// Host-visible backing storage per binding.
    buffers: DescriptorLayoutBufferSet,
    /// Content writes not yet expired, in scheduling order.
    pending_set_writes: VecDeque<PendingDescriptorSetWriteSet>,
    /// Buffer writes not yet expired, in scheduling order.
    pending_buffer_writes: VecDeque<PendingDescriptorSetWriteBuffer>,
}

impl RegisteredDescriptorSetPoolChunk {
    /// The pool the chunk's sets came from.
    pub closed spec fn spec_pool(self) -> DescriptorPoolHandle {
        self.pool
    }

    /// The set handles: one row per frame copy, one column per slot.
    pub closed spec fn sets(self) -> Seq<Seq<DescriptorSetHandle>> {
        self.descriptor_sets@.map_values(|v: Vec<DescriptorSetHandle>| v@)
    }

    /// The layout's buffer-backed bindings.
    pub closed spec fn buffer_infos(self) -> Seq<DescriptorSetPoolRequiredBufferInfo> {
        self.buffers.buffer_sets@.map_values(|b: DescriptorBindingBufferSet| b.buffer_info)
    }

    /// The bytes of one binding's backing buffer for one frame copy.
    pub closed spec fn buffer_bytes(self, binding: int, frame: int) -> Seq<u8> {
        self.buffers.buffer_sets@[binding].buffers@[frame]@
    }

    /// The queued content writes, in scheduling order.
    pub closed spec fn pending_set_writes(self) -> Seq<PendingDescriptorSetWriteSet> {
        self.pending_set_writes@
    }

    /// The queued buffer writes, in scheduling order.
    pub closed spec fn pending_buffer_writes(self) -> Seq<PendingDescriptorSetWriteBuffer> {
        self.pending_buffer_writes@
    }

    /// Shape and safety of the chunk: full replication of every slot, one
    /// backing buffer per binding and frame sized to hold every slot,
    /// payloads never larger than a slot, and every queued buffer write
    /// already checked against the layout, so flushing cannot write out of
    /// bounds.
    pub open spec fn wf(self) -> bool {
        &&& self.sets().len() == MAX_FRAMES_IN_FLIGHT_PLUS_1
        &&& forall|f: int|
            0 <= f < self.sets().len() ==> (#[trigger] self.sets()[f]).len()
                == MAX_DESCRIPTORS_PER_POOL
        &&& forall|b1: int, b2: int|
            0 <= b1 < b2 < self.buffer_infos().len() ==> (
            #[trigger] self.buffer_infos()[b1]).dst_element != (
            #[trigger] self.buffer_infos()[b2]).dst_element
        &&& forall|b: int|
            0 <= b < self.buffer_infos().len() ==> (
            #[trigger] self.buffer_infos()[b]).per_descriptor_size
                <= self.buffer_infos()[b].per_descriptor_stride
        &&& forall|b: int|
            0 <= b < self.buffer_infos().len() ==> (
            #[trigger] self.buffer_infos()[b]).per_descriptor_stride * MAX_DESCRIPTORS_PER_POOL
                <= usize::MAX
        &&& forall|b: int|
            0 <= b < self.buffer_infos().len() ==> (#[trigger] self.spec_binding_buffers(
                b,
            )).len() == MAX_FRAMES_IN_FLIGHT_PLUS_1
        &&& forall|b: int, f: int|
            0 <= b < self.buffer_infos().len() && 0 <= f < MAX_FRAMES_IN_FLIGHT_PLUS_1 ==> (
            #[trigger] self.buffer_bytes(b, f)).len() == self.buffer_infos()[
                b
            ].per_descriptor_stride * MAX_DESCRIPTORS_PER_POOL
        &&& forall|i: int, j: int|
            0 <= i < self.pending_buffer_writes().len() && 0 <= j < (
            #[trigger] self.pending_buffer_writes()[i]).write_buffer.elements@.len()
                ==> spec_buffer_element_fits(
                #[trigger] self.pending_buffer_writes()[i].write_buffer.elements@[j],
                self.buffer_infos(),
            )
    }

    /// The per-frame buffers of one binding.
    pub closed spec fn spec_binding_buffers(self, binding: int) -> Seq<Vec<u8>> {
        self.buffers.buffer_sets@[binding].buffers@
    }

    /// Build a chunk over the sets the driver allocated from `pool`, with
    /// zero-filled backing storage for every binding in `buffer_info`, and
    /// return the initial device writes that point every set's copy of
    /// every backed binding at its slice of the binding's buffer (binding
    /// by binding, frame by frame, slot by slot).
    pub fn new(
        pool: DescriptorPoolHandle,
        descriptor_sets: Vec<Vec<DescriptorSetHandle>>,
        buffer_info: &Vec<DescriptorSetPoolRequiredBufferInfo>,
    ) -> (r: (Self, Vec<InitialBufferBinding>))
        requires
            descriptor_sets@.len() == MAX_FRAMES_IN_FLIGHT_PLUS_1,
            forall|f: int|
                0 <= f < descriptor_sets@.len() ==> (#[trigger] descriptor_sets@[f])@.len()
                    == MAX_DESCRIPTORS_PER_POOL,
            forall|b1: int, b2: int|
                0 <= b1 < b2 < buffer_info@.len() ==> (#[trigger] buffer_info@[b1]).dst_element
                    != (#[trigger] buffer_info@[b2]).dst_element,
            forall|b: int|
                0 <= b < buffer_info@.len() ==> (#[trigger] buffer_info@[b]).per_descriptor_size
                    <= buffer_info@[b].per_descriptor_stride,
            forall|b: int|
                0 <= b < buffer_info@.len() ==> (#[trigger] buffer_info@[b]).per_descriptor_stride
                    * MAX_DESCRIPTORS_PER_POOL <= usize::MAX,
            buffer_info@.len() * (MAX_FRAMES_IN_FLIGHT_PLUS_1 * MAX_DESCRIPTORS_PER_POOL)
                <= usize::MAX,
        ensures
            r.0.wf(),
            r.0.spec_pool() == pool,
            r.0.sets() == descriptor_sets@.map_values(|v: Vec<DescriptorSetHandle>| v@),
            r.0.buffer_infos() == buffer_info@,
            r.0.pending_set_writes().len() == 0,
            r.0.pending_buffer_writes().len() == 0,
            forall|b: int, f: int, p: int|
                0 <= b < buffer_info@.len() && 0 <= f < MAX_FRAMES_IN_FLIGHT_PLUS_1 && 0 <= p
                    < r.0.buffer_bytes(b, f).len() ==> #[trigger] r.0.buffer_bytes(b, f)[p] == 0,
            r.1@.len() == buffer_info@.len() * (MAX_FRAMES_IN_FLIGHT_PLUS_1
                * MAX_DESCRIPTORS_PER_POOL),
            forall|idx: int|
                0 <= idx < r.1@.len() ==> #[trigger] r.1@[idx] == spec_initial_binding(
                    buffer_info@,
                    descriptor_sets@.map_values(|v: Vec<DescriptorSetHandle>| v@),
                    idx,
                ),
    {
        let mut buffer_sets: Vec<DescriptorBindingBufferSet> = Vec::new();
        let mut b: usize = 0;
        while b < buffer_info.len()
            invariant
                b <= buffer_info@.len(),
                buffer_sets@.len() == b,
                forall|t: int|
                    0 <= t < buffer_info@.len() ==> (#[trigger] buffer_info@[t]).per_descriptor_stride
                        * MAX_DESCRIPTORS_PER_POOL <= usize::MAX,
                forall|t: int|
                    0 <= t < b ==> (#[trigger] buffer_sets@[t]).buffer_info == buffer_info@[t],
                forall|t: int|
                    0 <= t < b ==> (#[trigger] buffer_sets@[t]).buffers@.len()
                        == MAX_FRAMES_IN_FLIGHT_PLUS_1,
                forall|t: int, f: int|
                    0 <= t < b && 0 <= f < MAX_FRAMES_IN_FLIGHT_PLUS_1 ==> (
                    #[trigger] buffer_sets@[t].buffers@[f])@.len() == buffer_info@[
                        t
                    ].per_descriptor_stride * MAX_DESCRIPTORS_PER_POOL,
                forall|t: int, f: int, p: int|
                    0 <= t < b && 0 <= f < MAX_FRAMES_IN_FLIGHT_PLUS_1 && 0 <= p
                        < buffer_sets@[t].buffers@[f]@.len() ==> #[trigger] buffer_sets@[t].buffers@[f]@[p]
                        == 0,
            decreases buffer_info@.len() - b,
        {
            let info = buffer_info[b];
            let byte_count = (info.per_descriptor_stride as usize) * (
            MAX_DESCRIPTORS_PER_POOL as usize);
            let mut frames: Vec<Vec<u8>> = Vec::new();
            let mut f: usize = 0;
            while f < MAX_FRAMES_IN_FLIGHT_PLUS_1 as usize
                invariant
                    f <= MAX_FRAMES_IN_FLIGHT_PLUS_1,
                    frames@.len() == f,
                    forall|t: int|
                        0 <= t < f ==> (#[trigger] frames@[t])@.len() == byte_count,
                    forall|t: int, p: int|
                        0 <= t < f && 0 <= p < byte_count ==> #[trigger] frames@[t]@[p] == 0,
                decreases MAX_FRAMES_IN_FLIGHT_PLUS_1 - f,
            {
                let zeroed: Vec<u8> = vec![0u8; byte_count];
                frames.push(zeroed);
                f = f + 1;
            }
            buffer_sets.push(DescriptorBindingBufferSet { buffer_info: info, buffers: frames });
            b = b + 1;
        }

        let mut bindings: Vec<InitialBufferBinding> = Vec::new();
        proof {
            assert(MAX_FRAMES_IN_FLIGHT_PLUS_1 * MAX_DESCRIPTORS_PER_POOL == 192)
                by (nonlinear_arith)
                requires
                    MAX_FRAMES_IN_FLIGHT_PLUS_1 == 3,
                    MAX_DESCRIPTORS_PER_POOL == 64,
            ;
        }
        let per_binding: usize = 192;
        let binding_count = buffer_info.len();
        let total = binding_count * per_binding;
        let ghost sets_view = descriptor_sets@.map_values(|v: Vec<DescriptorSetHandle>| v@);
        let mut idx: usize = 0;
        while idx < total
            invariant
                MAX_FRAMES_IN_FLIGHT_PLUS_1 * MAX_DESCRIPTORS_PER_POOL == 192,
                per_binding == 192,
                total == buffer_info@.len() * 192,
                idx <= total,
                sets_view == descriptor_sets@.map_values(|v: Vec<DescriptorSetHandle>| v@),
                descriptor_sets@.len() == MAX_FRAMES_IN_FLIGHT_PLUS_1,
                forall|f: int|
                    0 <= f < descriptor_sets@.len() ==> (#[trigger] descriptor_sets@[f])@.len()
                        == MAX_DESCRIPTORS_PER_POOL,
                bindings@.len() == idx,
                forall|k: int|
                    0 <= k < idx ==> #[trigger] bindings@[k] == spec_initial_binding(
                        buffer_info@,
                        sets_view,
                        k,
                    ),
            decreases total - idx,
        {
            let b = idx / per_binding;
            let f = (idx % per_binding) / (MAX_DESCRIPTORS_PER_POOL as usize);
            let d = idx % (MAX_DESCRIPTORS_PER_POOL as usize);
            proof {
                assert(b < buffer_info@.len() && f < 3 && d < 64 && (idx % 192) % 64 == idx % 64)
                    by (nonlinear_arith)
                    requires
                        per_binding == 192,
                        0 <= (idx as int) < buffer_info@.len() * 192,
                        b == (idx as int) / 192,
                        f == ((idx as int) % 192) / 64,
                        d == (idx as int) % 64,
                ;
                assert(sets_view[f as int] == descriptor_sets@[f as int]@);
                assert((d as int) * (buffer_info@[b as int].per_descriptor_stride as int)
                    < 0x40_0000_0000) by (nonlinear_arith)
                    requires
                        0 <= (d as int) < 64,
                        0 <= (buffer_info@[b as int].per_descriptor_stride as int)
                            < 0x1_0000_0000,
                ;
            }
            let info = buffer_info[b];
            let offset = (d as u64) * (info.per_descriptor_stride as u64);
            bindings.push(
                InitialBufferBinding {
                    dst_set: descriptor_sets[f][d],
                    dst_binding: info.dst_element.dst_binding,
                    descriptor_type: info.descriptor_type,
                    frame_in_flight_index: f as u32,
                    offset,
                    range: info.per_descriptor_size,
                },
            );
            idx = idx + 1;
        }
        proof {
            assert(MAX_FRAMES_IN_FLIGHT_PLUS_1 * MAX_DESCRIPTORS_PER_POOL == 192)
                by (nonlinear_arith)
                requires
                    MAX_FRAMES_IN_FLIGHT_PLUS_1 == 3,
                    MAX_DESCRIPTORS_PER_POOL == 64,
            ;
        }

        let chunk = RegisteredDescriptorSetPoolChunk {
            pool,
            descriptor_sets,
            buffers: DescriptorLayoutBufferSet { buffer_sets },
            pending_set_writes: VecDeque::new(),
            pending_buffer_writes: VecDeque::new(),
        };
        (chunk, bindings)
    }

    /// Retire the chunk: the caller returns the pool to its allocator's
    /// free list and moves each backing buffer (one per binding and frame
    /// copy) into a deferred-destruction sink keyed by a future frame,
    /// never destroying them synchronously — an in-flight frame's command
    /// buffer may still reference them.
    pub fn destroy(self) -> (pool: DescriptorPoolHandle)
        ensures
            pool == self.spec_pool(),
    {
        self.pool
    }

    /// The device handles of one slot, one per frame copy, so the caller
    /// can bind whichever copy is live.
    fn handles_for_slot(&self, slab_index: u32) -> (handles: Vec<DescriptorSetHandle>)
        requires
            self.wf(),
        ensures
            handles@.len() == MAX_FRAMES_IN_FLIGHT_PLUS_1,
            forall|f: int|
                0 <= f < handles@.len() ==> #[trigger] handles@[f] == self.sets()[f][(slab_index
                    % MAX_DESCRIPTORS_PER_POOL) as int],
    {
        let slot = (slab_index % MAX_DESCRIPTORS_PER_POOL) as usize;
        let mut handles: Vec<DescriptorSetHandle> = Vec::new();
        let mut f: usize = 0;
        while f < MAX_FRAMES_IN_FLIGHT_PLUS_1 as usize
            invariant
                self.wf(),
                f <= MAX_FRAMES_IN_FLIGHT_PLUS_1,
                slot == slab_index % MAX_DESCRIPTORS_PER_POOL,
                handles@.len() == f,
                forall|t: int|
                    0 <= t < f ==> #[trigger] handles@[t] == self.sets()[t][slot as int],
            decreases MAX_FRAMES_IN_FLIGHT_PLUS_1 - f,
        {
            proof {
                assert(self.sets()[f as int] == self.descriptor_sets@[f as int]@);
            }
            handles.push(self.descriptor_sets[f][slot]);
            f = f + 1;
        }
        handles
    }

    /// Queue new contents for the slot's bindings. The write expires
    /// `MAX_FRAMES_IN_FLIGHT` frames after the index it was issued on:
    /// every update until then re-applies it, so each frame copy of the
    /// slot catches up exactly once. Several writes to the same slot and
    /// binding before expiry are legal; flushing keeps only the most
    /// recent. Returns the slot's device handles, one per frame copy.
    pub fn schedule_write_set(
        &mut self,
        slab_key: RawSlabKey<RegisteredDescriptorSet>,
        write_set: DescriptorSetWriteSet,
        frame_in_flight_index: FrameInFlightIndex,
    ) -> (handles: Vec<DescriptorSetHandle>)
        requires
            old(self).wf(),
            frame_in_flight_index < MAX_FRAMES_IN_FLIGHT_PLUS_1,
        ensures
            final(self).wf(),
            final(self).pending_set_writes() == old(self).pending_set_writes().push(
                PendingDescriptorSetWriteSet {
                    slab_key,
                    write_set,
                    live_until_frame: spec_add_to_frame_in_flight_index(
                        frame_in_flight_index,
                        MAX_FRAMES_IN_FLIGHT,
                    ),
                },
            ),
            final(self).pending_buffer_writes() == old(self).pending_buffer_writes(),
            final(self).spec_pool() == old(self).spec_pool(),
            final(self).sets() == old(self).sets(),
            final(self).buffer_infos() == old(self).buffer_infos(),
            forall|b: int, f: int|
                0 <= b < old(self).buffer_infos().len() && 0 <= f < MAX_FRAMES_IN_FLIGHT_PLUS_1
                    ==> #[trigger] final(self).buffer_bytes(b, f) == old(self).buffer_bytes(b, f),
            handles@.len() == MAX_FRAMES_IN_FLIGHT_PLUS_1,
            forall|f: int|
                0 <= f < handles@.len() ==> #[trigger] handles@[f] == old(self).sets()[f][(
                slab_key.spec_index() % MAX_DESCRIPTORS_PER_POOL) as int],
    {
        // The write must stick around for this frame and the next
        // MAX_FRAMES_IN_FLIGHT ones: updates advance the index first and
        // then flush, so the expiry is the index this very write was
        // issued on, seen one full wrap later.
        let live_until_frame = add_to_frame_in_flight_index(
            frame_in_flight_index,
            MAX_FRAMES_IN_FLIGHT,
        );
        let pending_write = PendingDescriptorSetWriteSet {
            slab_key,
            write_set,
            live_until_frame,
        };
        self.pending_set_writes.push_back(pending_write);
        proof {
            assert(self.sets() == old(self).sets());
            assert(self.buffer_infos() == old(self).buffer_infos());
            assert(self.pending_buffer_writes@ == old(self).pending_buffer_writes@);
            assert forall|b: int|
                0 <= b < self.buffer_infos().len() implies (#[trigger] self.spec_binding_buffers(
                    b,
                )).len() == MAX_FRAMES_IN_FLIGHT_PLUS_1 by {
                assert(old(self).spec_binding_buffers(b).len() == MAX_FRAMES_IN_FLIGHT_PLUS_1);
            }
            assert forall|b: int, f: int|
                0 <= b < self.buffer_infos().len() && 0 <= f < MAX_FRAMES_IN_FLIGHT_PLUS_1
                implies (#[trigger] self.buffer_bytes(b, f)).len() == self.buffer_infos()[
                b
            ].per_descriptor_stride * MAX_DESCRIPTORS_PER_POOL by {
                assert(old(self).buffer_bytes(b, f).len() == old(self).buffer_infos()[
                    b
                ].per_descriptor_stride * MAX_DESCRIPTORS_PER_POOL);
            }
            assert forall|i: int, j2: int|
                0 <= i < self.pending_buffer_writes().len() && 0 <= j2 < (
                #[trigger] self.pending_buffer_writes()[i]).write_buffer.elements@.len()
                implies spec_buffer_element_fits(
                #[trigger] self.pending_buffer_writes()[i].write_buffer.elements@[j2],
                self.buffer_infos(),
            ) by {
                assert(spec_buffer_element_fits(
                    old(self).pending_buffer_writes()[i].write_buffer.elements@[j2],
                    old(self).buffer_infos(),
                ));
            }
            assert(self.wf());
        }
        self.handles_for_slot(slab_key.index())
    }

    /// Queue new bytes for the backing buffers of the slot's bindings, with
    /// the same expiry window as `schedule_write_set`. The payload is
    /// validated first: a binding the layout does not back, or a payload
    /// larger than one descriptor's slot, rejects the whole write before
    /// anything is queued or written. A shorter payload is accepted and
    /// leaves the rest of the slot's bytes alone.
    pub fn schedule_write_buffer(
        &mut self,
        slab_key: RawSlabKey<RegisteredDescriptorSet>,
        write_buffer: DescriptorSetWriteBuffer,
        frame_in_flight_index: FrameInFlightIndex,
    ) -> (r: Result<Vec<DescriptorSetHandle>, DescriptorSetWriteBufferError>)
        requires
            old(self).wf(),
            frame_in_flight_index < MAX_FRAMES_IN_FLIGHT_PLUS_1,
        ensures
            final(self).wf(),
            r is Err ==> {
                &&& *final(self) == *old(self)
                &&& Some(r->Err_0) == spec_buffer_write_rejection(
                    write_buffer.elements@,
                    old(self).buffer_infos(),
                )
            },
            r is Ok ==> {
                &&& spec_buffer_write_rejection(
                    write_buffer.elements@,
                    old(self).buffer_infos(),
                ) is None
                &&& final(self).pending_buffer_writes() == old(self).pending_buffer_writes().push(
                    PendingDescriptorSetWriteBuffer {
                        slab_key,
                        write_buffer,
                        live_until_frame: spec_add_to_frame_in_flight_index(
                            frame_in_flight_index,
                            MAX_FRAMES_IN_FLIGHT,
                        ),
                    },
                )
                &&& final(self).pending_set_writes() == old(self).pending_set_writes()
                &&& final(self).spec_pool() == old(self).spec_pool()
                &&& final(self).sets() == old(self).sets()
                &&& final(self).buffer_infos() == old(self).buffer_infos()
                &&& (forall|b: int, f: int|
                    0 <= b < old(self).buffer_infos().len() && 0 <= f
                        < MAX_FRAMES_IN_FLIGHT_PLUS_1 ==> #[trigger] final(self).buffer_bytes(b, f)
                        == old(self).buffer_bytes(b, f))
                &&& r->Ok_0@.len() == MAX_FRAMES_IN_FLIGHT_PLUS_1
                &&& (forall|f: int|
                    0 <= f < r->Ok_0@.len() ==> #[trigger] r->Ok_0@[f] == old(self).sets()[f][(
                    slab_key.spec_index() % MAX_DESCRIPTORS_PER_POOL) as int])
            },
    {
        let ghost infos = self.buffer_infos();
        proof {
            assert(write_buffer.elements@.skip(0) =~= write_buffer.elements@);
        }
        let mut j: usize = 0;
        while j < write_buffer.elements.len()
            invariant
                self.wf(),
                infos == self.buffer_infos(),
                j <= write_buffer.elements@.len(),
                spec_buffer_write_rejection(write_buffer.elements@, infos)
                    == spec_buffer_write_rejection(write_buffer.elements@.skip(j as int), infos),
                forall|t: int|
                    0 <= t < j ==> spec_buffer_element_fits(
                        #[trigger] write_buffer.elements@[t],
                        infos,
                    ),
            decreases write_buffer.elements@.len() - j,
        {
            let element = &write_buffer.elements[j];
            let ghost rest = write_buffer.elements@.skip(j as int);
            proof {
                assert(rest[0] == write_buffer.elements@[j as int]);
            }
            match self.find_binding(&element.0) {
                None => {
                    proof {
                        assert(rest.len() > 0);
                    }
                    return Err(DescriptorSetWriteBufferError::UnknownBinding(element.0));
                },
                Some(binding) => {
                    proof {
                        lemma_binding_index(infos, element.0);
                        assert(infos[binding as int]
                            == self.buffers.buffer_sets@[binding as int].buffer_info);
                    }
                    let size = self.buffers.buffer_sets[binding].buffer_info.per_descriptor_size;
                    if element.1.len() > size as usize {
                        return Err(
                            DescriptorSetWriteBufferError::Oversize {
                                element: element.0,
                                data_len: element.1.len(),
                                per_descriptor_size: size,
                            },
                        );
                    }
                    proof {
                        assert(spec_buffer_element_fits(write_buffer.elements@[j as int], infos));
                        assert(write_buffer.elements@.skip(j as int).drop_first()
                            =~= write_buffer.elements@.skip(j + 1));
                    }
                },
            }
            j = j + 1;
        }
        proof {
            assert(write_buffer.elements@.skip(write_buffer.elements@.len() as int).len() == 0);
        }
        let live_until_frame = add_to_frame_in_flight_index(
            frame_in_flight_index,
            MAX_FRAMES_IN_FLIGHT,
        );
        let slab_index = slab_key.index();
        let pending_write = PendingDescriptorSetWriteBuffer {
            slab_key,
            write_buffer,
            live_until_frame,
        };
        self.pending_buffer_writes.push_back(pending_write);
        proof {
            assert(self.sets() == old(self).sets());
            assert(self.buffer_infos() == old(self).buffer_infos());
            assert forall|b: int|
                0 <= b < self.buffer_infos().len() implies (#[trigger] self.spec_binding_buffers(
                    b,
                )).len() == MAX_FRAMES_IN_FLIGHT_PLUS_1 by {
                assert(old(self).spec_binding_buffers(b).len() == MAX_FRAMES_IN_FLIGHT_PLUS_1);
            }
            assert forall|b: int, f: int|
                0 <= b < self.buffer_infos().len() && 0 <= f < MAX_FRAMES_IN_FLIGHT_PLUS_1
                implies (#[trigger] self.buffer_bytes(b, f)).len() == self.buffer_infos()[
                b
            ].per_descriptor_stride * MAX_DESCRIPTORS_PER_POOL by {
                assert(old(self).buffer_bytes(b, f).len() == old(self).buffer_infos()[
                    b
                ].per_descriptor_stride * MAX_DESCRIPTORS_PER_POOL);
            }
            assert forall|i: int, j2: int|
                0 <= i < self.pending_buffer_writes@.len() && 0 <= j2 < (
                #[trigger] self.pending_buffer_writes@[i]).write_buffer.elements@.len()
                implies spec_buffer_element_fits(
                #[trigger] self.pending_buffer_writes@[i].write_buffer.elements@[j2],
                self.buffer_infos(),
            ) by {
                if i < old(self).pending_buffer_writes@.len() {
                    assert(self.pending_buffer_writes@[i]
                        == old(self).pending_buffer_writes@[i]);
                    assert(spec_buffer_element_fits(
                        old(self).pending_buffer_writes()[i].write_buffer.elements@[j2],
                        old(self).buffer_infos(),
                    ));
                } else {
                    assert(self.pending_buffer_writes@[i].write_buffer == write_buffer);
                    assert(spec_buffer_element_fits(write_buffer.elements@[j2], infos));
                }
            }
            assert(self.wf());
        }
        Ok(self.handles_for_slot(slab_index))
    }

    /// Find the binding backing the key, if any: the position in the
    /// layout's buffer list, which `spec_binding_index` names.
    fn find_binding(&self, element: &DescriptorSetElementKey) -> (r: Option<usize>)
        ensures
            match r {
                Some(b) => spec_has_binding(self.buffer_infos(), *element) && b as int
                    == spec_binding_index(self.buffer_infos(), *element),
                None => !spec_has_binding(self.buffer_infos(), *element),
            },
    {
        let mut b: usize = 0;
        while b < self.buffers.buffer_sets.len()
            invariant
                b <= self.buffer_infos().len(),
                forall|t: int|
                    0 <= t < b ==> (#[trigger] self.buffer_infos()[t]).dst_element != *element,
            decreases self.buffer_infos().len() - b,
        {
            if self.buffers.buffer_sets[b].buffer_info.dst_element.dst_binding
                == element.dst_binding {
                proof {
                    assert(self.buffer_infos()[b as int].dst_element == *element);
                    lemma_binding_index(self.buffer_infos(), *element);
                }
                return Some(b);
            }
            b = b + 1;
        }
        proof {
            if spec_has_binding(self.buffer_infos(), *element) {
                let w = choose|t: int|
                    0 <= t < self.buffer_infos().len() && (
                    #[trigger] self.buffer_infos()[t]).dst_element == *element;
                assert(false);
            }
        }
        None
    }
}

// ---------------------------------------------------------------------------
// Flushing: what one update applies and what it leaves behind.
// ---------------------------------------------------------------------------

/// The image entries a flush actually writes for one element: none at all
/// when the binding carries an immutable sampler and is a pure sampler
/// binding; otherwise every entry that has a sampler or an image view, with
/// the sampler blanked when the layout's sampler is immutable.
pub open spec fn spec_filtered_infos(
    infos: Seq<DescriptorImageInfo>,
    has_immutable_sampler: bool,
) -> Seq<DescriptorImageInfo>
    decreases infos.len(),
{
    if infos.len() == 0 {
        Seq::empty()
    } else {
        let rest = spec_filtered_infos(infos.drop_last(), has_immutable_sampler);
        let last = infos.last();
        if last.sampler is Some || last.image_view is Some {
            rest.push(
                DescriptorImageInfo {
                    sampler: if has_immutable_sampler {
                        None
                    } else {
                        last.sampler
                    },
                    image_view: last.image_view,
                },
            )
        } else {
            rest
        }
    }
}

/// The image entries a flush writes for one coalesced element.
pub open spec fn spec_element_write_infos(element: DescriptorSetElementWrite) -> Seq<
    DescriptorImageInfo,
> {
    if element.has_immutable_sampler && element.descriptor_type is Sampler {
        Seq::empty()
    } else {
        spec_filtered_infos(element.image_info@, element.has_immutable_sampler)
    }
}

/// The coalesced elements that produce a device write: those whose filtered
/// image entries are not empty (a write with a descriptor count of zero is
/// skipped).
pub open spec fn spec_visible_set_writes(
    coalesced: Seq<(SlabElementKey, DescriptorSetElementWrite)>,
) -> Seq<(SlabElementKey, DescriptorSetElementWrite)>
    decreases coalesced.len(),
{
    if coalesced.len() == 0 {
        Seq::empty()
    } else {
        let rest = spec_visible_set_writes(coalesced.drop_last());
        if spec_element_write_infos(coalesced.last().1).len() > 0 {
            rest.push(coalesced.last())
        } else {
            rest
        }
    }
}

/// Where in a binding's buffer a coalesced buffer write lands: the slot of
/// the logical set it targets, at the binding's stride.
pub open spec fn spec_write_offset(
    infos: Seq<DescriptorSetPoolRequiredBufferInfo>,
    key: SlabElementKey,
) -> int {
    infos[spec_binding_index(infos, key.element)].per_descriptor_stride * (key.slab_index
        % MAX_DESCRIPTORS_PER_POOL)
}

/// One byte of a binding's frame buffer after the coalesced buffer writes
/// are applied in order: the last write covering the position wins; a
/// position no write covers keeps its previous value.
pub open spec fn spec_byte_after_writes(
    writes: Seq<(SlabElementKey, Vec<u8>)>,
    infos: Seq<DescriptorSetPoolRequiredBufferInfo>,
    binding: int,
    p: int,
    previous: u8,
) -> u8
    decreases writes.len(),
{
    if writes.len() == 0 {
        previous
    } else {
        let (key, data) = writes.last();
        let offset = spec_write_offset(infos, key);
        if spec_has_binding(infos, key.element) && binding == spec_binding_index(
            infos,
            key.element,
        ) && offset <= p < offset + data@.len() {
            data@[p - offset]
        } else {
            spec_byte_after_writes(writes.drop_last(), infos, binding, p, previous)
        }
    }
}

/// A position no coalesced write covers keeps its previous value: flushing
/// buffer writes never touches a byte outside the written slot regions.
pub proof fn lemma_uncovered_byte_unchanged(
    writes: Seq<(SlabElementKey, Vec<u8>)>,
    infos: Seq<DescriptorSetPoolRequiredBufferInfo>,
    binding: int,
    p: int,
    previous: u8,
)
    requires
        forall|t: int|
            0 <= t < writes.len() ==> {
                let (key, data) = #[trigger] writes[t];
                let offset = spec_write_offset(infos, key);
                !(spec_has_binding(infos, key.element) && binding == spec_binding_index(
                    infos,
                    key.element,
                ) && offset <= p < offset + data@.len())
            },
    ensures
        spec_byte_after_writes(writes, infos, binding, p, previous) == previous,
    decreases writes.len(),
{
    if writes.len() > 0 {
        assert(writes[writes.len() - 1] == writes.last());
        assert forall|t: int| 0 <= t < writes.drop_last().len() implies {
            let (key, data) = #[trigger] writes.drop_last()[t];
            let offset = spec_write_offset(infos, key);
            !(spec_has_binding(infos, key.element) && binding == spec_binding_index(
                infos,
                key.element,
            ) && offset <= p < offset + data@.len())
        } by {
            assert(writes.drop_last()[t] == writes[t]);
        }
        lemma_uncovered_byte_unchanged(writes.drop_last(), infos, binding, p, previous);
    }
}

/// The expiry frames of the queued content writes, in queue order.
pub open spec fn spec_set_write_expiries(pending: Seq<PendingDescriptorSetWriteSet>) -> Seq<u32> {
    pending.map_values(|w: PendingDescriptorSetWriteSet| w.live_until_frame)
}

/// The expiry frames of the queued buffer writes, in queue order.
pub open spec fn spec_buffer_write_expiries(
    pending: Seq<PendingDescriptorSetWriteBuffer>,
) -> Seq<u32> {
    pending.map_values(|w: PendingDescriptorSetWriteBuffer| w.live_until_frame)
}

/// The index list stands for the coalesced list: same keys in the same
/// order, each index pair naming the queued element whose value the
/// coalesced entry holds.
pub open spec fn spec_set_indices_match(
    acc: Seq<(SlabElementKey, (usize, usize))>,
    pending: Seq<PendingDescriptorSetWriteSet>,
    coalesced: Seq<(SlabElementKey, DescriptorSetElementWrite)>,
) -> bool {
    &&& acc.len() == coalesced.len()
    &&& forall|t: int|
        0 <= t < acc.len() ==> {
            let at = (#[trigger] acc[t]).1;
            &&& acc[t].0 == coalesced[t].0
            &&& at.0 < pending.len()
            &&& at.1 < pending[at.0 as int].write_set.elements@.len()
            &&& pending[at.0 as int].slab_key.spec_index() == acc[t].0.slab_index
            &&& pending[at.0 as int].write_set.elements@[at.1 as int].0 == acc[t].0.element
            &&& pending[at.0 as int].write_set.elements@[at.1 as int].1 == coalesced[t].1
        }
}

/// The buffer-side analogue of `spec_set_indices_match`.
pub open spec fn spec_buffer_indices_match(
    acc: Seq<(SlabElementKey, (usize, usize))>,
    pending: Seq<PendingDescriptorSetWriteBuffer>,
    coalesced: Seq<(SlabElementKey, Vec<u8>)>,
) -> bool {
    &&& acc.len() == coalesced.len()
    &&& forall|t: int|
        0 <= t < acc.len() ==> {
            let at = (#[trigger] acc[t]).1;
            &&& acc[t].0 == coalesced[t].0
            &&& at.0 < pending.len()
            &&& at.1 < pending[at.0 as int].write_buffer.elements@.len()
            &&& pending[at.0 as int].slab_key.spec_index() == acc[t].0.slab_index
            &&& pending[at.0 as int].write_buffer.elements@[at.1 as int].0 == acc[t].0.element
            &&& pending[at.0 as int].write_buffer.elements@[at.1 as int].1 == coalesced[t].1
        }
}

/// Coalesce the queued content writes: flatten them, oldest first, into one
/// entry per (set, binding) pair, later writes replacing earlier values in
/// place. Returns index pairs into the queue instead of copies of the
/// values.
fn coalesce_set_write_indices(pending: &VecDeque<PendingDescriptorSetWriteSet>) -> (acc: Vec<
    (SlabElementKey, (usize, usize)),
>)
    ensures
        spec_set_indices_match(acc@, pending@, coalesced_set_writes(pending@)),
{
    let ghost full = pending@;
    let mut acc: Vec<(SlabElementKey, (usize, usize))> = Vec::new();
    proof {
        assert(full.take(0) =~= Seq::<PendingDescriptorSetWriteSet>::empty());
    }
    let mut pi: usize = 0;
    while pi < pending.len()
        invariant
            pending@ == full,
            pi <= full.len(),
            spec_set_indices_match(acc@, full, coalesced_set_writes(full.take(pi as int))),
            assoc_keys_unique(coalesced_set_writes(full.take(pi as int))),
        decreases full.len() - pi,
    {
        let entry = &pending[pi];
        let slab_index = entry.slab_key.index();
        let ghost base = coalesced_set_writes(full.take(pi as int));
        let ghost elems = entry.write_set.elements@;
        proof {
            assert(elems.take(0) =~= Seq::<(DescriptorSetElementKey,
                DescriptorSetElementWrite)>::empty());
        }
        let mut ei: usize = 0;
        while ei < entry.write_set.elements.len()
            invariant
                pending@ == full,
                pi < full.len(),
                *entry == full[pi as int],
                elems == entry.write_set.elements@,
                slab_index == full[pi as int].slab_key.spec_index(),
                ei <= elems.len(),
                base == coalesced_set_writes(full.take(pi as int)),
                assoc_keys_unique(base),
                spec_set_indices_match(
                    acc@,
                    full,
                    coalesce_elements(base, slab_index, elems.take(ei as int)),
                ),
                assoc_keys_unique(coalesce_elements(base, slab_index, elems.take(ei as int))),
            decreases elems.len() - ei,
        {
            let key = SlabElementKey { slab_index, element: entry.write_set.elements[ei].0 };
            let ghost cur = coalesce_elements(base, slab_index, elems.take(ei as int));
            let ghost value = elems[ei as int].1;
            proof {
                assert(elems.take(ei + 1) =~= elems.take(ei as int).push(elems[ei as int]));
                lemma_coalesce_elements_push(base, slab_index, elems.take(ei as int), elems[
                    ei as int
                ]);
                lemma_assoc_upsert(cur, key, value, key);
            }
            let mut t: usize = 0;
            while t < acc.len() && !(acc[t].0 == key)
                invariant
                    t <= acc@.len(),
                    forall|u: int| 0 <= u < t ==> (#[trigger] acc@[u]).0 != key,
                decreases acc@.len() - t,
            {
                t = t + 1;
            }
            if t < acc.len() {
                proof {
                    assert(cur[t as int].0 == key);
                    assert(assoc_has_key(cur, key)) by {
                        assert((#[trigger] cur[t as int]).0 == key);
                    }
                    lemma_assoc_key_index(cur, key);
                    assert forall|u: int| 0 <= u < t implies (#[trigger] cur[u]).0 != key by {
                        assert(acc@[u].0 != key);
                    }
                    assert(assoc_key_index(cur, key) == t);
                }
                acc.set(t, (key, (pi, ei)));
            } else {
                proof {
                    assert(!assoc_has_key(cur, key)) by {
                        if assoc_has_key(cur, key) {
                            let w = choose|u: int|
                                0 <= u < cur.len() && (#[trigger] cur[u]).0 == key;
                            assert(acc@[w].0 == key);
                        }
                    }
                }
                acc.push((key, (pi, ei)));
            }
            ei = ei + 1;
        }
        proof {
            assert(elems.take(elems.len() as int) =~= elems);
            assert(full.take(pi + 1) =~= full.take(pi as int).push(full[pi as int]));
            lemma_coalesced_set_writes_from_push(
                Seq::empty(),
                full.take(pi as int),
                full[pi as int],
            );
            lemma_coalesced_set_writes_last_wins(
                full.take(pi + 1),
                SlabElementKey { slab_index: 0, element: DescriptorSetElementKey { dst_binding: 0 } },
            );
        }
        pi = pi + 1;
    }
    proof {
        assert(full.take(full.len() as int) =~= full);
    }
    acc
}

/// Coalesce the queued buffer writes the same way.
fn coalesce_buffer_write_indices(pending: &VecDeque<PendingDescriptorSetWriteBuffer>) -> (acc: Vec<
    (SlabElementKey, (usize, usize)),
>)
    ensures
        spec_buffer_indices_match(acc@, pending@, coalesced_buffer_writes(pending@)),
{
    let ghost full = pending@;
    let mut acc: Vec<(SlabElementKey, (usize, usize))> = Vec::new();
    proof {
        assert(full.take(0) =~= Seq::<PendingDescriptorSetWriteBuffer>::empty());
    }
    let mut pi: usize = 0;
    while pi < pending.len()
        invariant
            pending@ == full,
            pi <= full.len(),
            spec_buffer_indices_match(acc@, full, coalesced_buffer_writes(full.take(pi as int))),
            assoc_keys_unique(coalesced_buffer_writes(full.take(pi as int))),
        decreases full.len() - pi,
    {
        let entry = &pending[pi];
        let slab_index = entry.slab_key.index();
        let ghost base = coalesced_buffer_writes(full.take(pi as int));
        let ghost elems = entry.write_buffer.elements@;
        proof {
            assert(elems.take(0) =~= Seq::<(DescriptorSetElementKey, Vec<u8>)>::empty());
        }
        let mut ei: usize = 0;
        while ei < entry.write_buffer.elements.len()
            invariant
                pending@ == full,
                pi < full.len(),
                *entry == full[pi as int],
                elems == entry.write_buffer.elements@,
                slab_index == full[pi as int].slab_key.spec_index(),
                ei <= elems.len(),
                base == coalesced_buffer_writes(full.take(pi as int)),
                assoc_keys_unique(base),
                spec_buffer_indices_match(
                    acc@,
                    full,
                    coalesce_elements(base, slab_index, elems.take(ei as int)),
                ),
                assoc_keys_unique(coalesce_elements(base, slab_index, elems.take(ei as int))),
            decreases elems.len() - ei,
        {
            let key = SlabElementKey { slab_index, element: entry.write_buffer.elements[ei].0 };
            let ghost cur = coalesce_elements(base, slab_index, elems.take(ei as int));
            let ghost value = elems[ei as int].1;
            proof {
                assert(elems.take(ei + 1) =~= elems.take(ei as int).push(elems[ei as int]));
                lemma_coalesce_elements_push(base, slab_index, elems.take(ei as int), elems[
                    ei as int
                ]);
                lemma_assoc_upsert(cur, key, value, key);
            }
            let mut t: usize = 0;
            while t < acc.len() && !(acc[t].0 == key)
                invariant
                    t <= acc@.len(),
                    forall|u: int| 0 <= u < t ==> (#[trigger] acc@[u]).0 != key,
                decreases acc@.len() - t,
            {
                t = t + 1;
            }
            if t < acc.len() {
                proof {
                    assert(cur[t as int].0 == key);
                    assert(assoc_has_key(cur, key)) by {
                        assert((#[trigger] cur[t as int]).0 == key);
                    }
                    lemma_assoc_key_index(cur, key);
                    assert forall|u: int| 0 <= u < t implies (#[trigger] cur[u]).0 != key by {
                        assert(acc@[u].0 != key);
                    }
                    assert(assoc_key_index(cur, key) == t);
                }
                acc.set(t, (key, (pi, ei)));
            } else {
                proof {
                    assert(!assoc_has_key(cur, key)) by {
                        if assoc_has_key(cur, key) {
                            let w = choose|u: int|
                                0 <= u < cur.len() && (#[trigger] cur[u]).0 == key;
                            assert(acc@[w].0 == key);
                        }
                    }
                }
                acc.push((key, (pi, ei)));
            }
            ei = ei + 1;
        }
        proof {
            assert(elems.take(elems.len() as int) =~= elems);
            assert(full.take(pi + 1) =~= full.take(pi as int).push(full[pi as int]));
            lemma_coalesced_buffer_writes_from_push(
                Seq::empty(),
                full.take(pi as int),
                full[pi as int],
            );
            lemma_coalesced_buffer_writes_last_wins(
                full.take(pi + 1),
                SlabElementKey { slab_index: 0, element: DescriptorSetElementKey { dst_binding: 0 } },
            );
        }
        pi = pi + 1;
    }
    proof {
        assert(full.take(full.len() as int) =~= full);
    }
    acc
}

/// How a flush's device writes relate to the coalesced content writes:
/// one write per visible coalesced element, in order, targeting the frame
/// copy of the element's logical slot.
pub open spec fn spec_device_writes_match(
    writes: Seq<DeviceDescriptorWrite>,
    visible: Seq<(SlabElementKey, DescriptorSetElementWrite)>,
    sets: Seq<Seq<DescriptorSetHandle>>,
    frame: u32,
) -> bool {
    &&& writes.len() == visible.len()
    &&& forall|j: int|
        0 <= j < writes.len() ==> {
            let key = (#[trigger] visible[j]).0;
            &&& writes[j].logical == key
            &&& writes[j].dst_set == sets[frame as int][(key.slab_index
                % MAX_DESCRIPTORS_PER_POOL) as int]
            &&& writes[j].dst_binding == key.element.dst_binding
            &&& writes[j].descriptor_type == visible[j].1.descriptor_type
            &&& writes[j].image_info@ == spec_element_write_infos(visible[j].1)
        }
}

/// Find the binding backing the key among a layout's buffer sets.
fn find_backed_binding(
    buffer_sets: &Vec<DescriptorBindingBufferSet>,
    element: &DescriptorSetElementKey,
) -> (r: Option<usize>)
    ensures
        ({
            let infos = buffer_sets@.map_values(
                |b: DescriptorBindingBufferSet| b.buffer_info,
            );
            match r {
                Some(b) => spec_has_binding(infos, *element) && b as int == spec_binding_index(
                    infos,
                    *element,
                ),
                None => !spec_has_binding(infos, *element),
            }
        }),
{
    let ghost infos = buffer_sets@.map_values(|b: DescriptorBindingBufferSet| b.buffer_info);
    let mut b: usize = 0;
    while b < buffer_sets.len()
        invariant
            infos == buffer_sets@.map_values(|bb: DescriptorBindingBufferSet| bb.buffer_info),
            b <= infos.len(),
            forall|t: int| 0 <= t < b ==> (#[trigger] infos[t]).dst_element != *element,
        decreases infos.len() - b,
    {
        if buffer_sets[b].buffer_info.dst_element.dst_binding == element.dst_binding {
            proof {
                assert(infos[b as int].dst_element == *element);
                lemma_binding_index(infos, *element);
            }
            return Some(b);
        }
        b = b + 1;
    }
    proof {
        if spec_has_binding(infos, *element) {
            let w = choose|t: int|
                0 <= t < infos.len() && (#[trigger] infos[t]).dst_element == *element;
            assert(false);
        }
    }
    None
}

/// Mutable access to one frame copy of one binding's buffer, leaving every
/// other buffer and every other field untouched.
fn binding_frame_bytes_slot(
    buffer_sets: &mut Vec<DescriptorBindingBufferSet>,
    b: usize,
    f: usize,
) -> (slot: &mut Vec<u8>)
    requires
        b < old(buffer_sets).len(),
        f < old(buffer_sets)@[b as int].buffers@.len(),
    ensures
        *slot == old(buffer_sets)@[b as int].buffers@[f as int],
        final(buffer_sets)@.len() == old(buffer_sets)@.len(),
        forall|x: int|
            0 <= x < old(buffer_sets)@.len() && x != b ==> #[trigger] final(buffer_sets)@[x]
                == old(buffer_sets)@[x],
        final(buffer_sets)@[b as int].buffer_info == old(buffer_sets)@[b as int].buffer_info,
        final(buffer_sets)@[b as int].buffers@.len() == old(buffer_sets)@[
            b as int
        ].buffers@.len(),
        forall|y: int|
            0 <= y < old(buffer_sets)@[b as int].buffers@.len() && y != f
                ==> #[trigger] final(buffer_sets)@[b as int].buffers@[y] == old(buffer_sets)@[
                b as int
            ].buffers@[y],
        final(buffer_sets)@[b as int].buffers@[f as int] == *final(slot),
{
    &mut buffer_sets[b].buffers[f]
}

/// Copy each coalesced buffer write into its slot of its binding's buffer
/// for the frame copy being flushed; later writes in the coalesced order
/// overwrite earlier ones where they overlap, and no byte outside a write's
/// slot region is touched.
fn apply_buffer_writes(
    buffers: &mut DescriptorLayoutBufferSet,
    pending: &VecDeque<PendingDescriptorSetWriteBuffer>,
    coalesced: &Vec<(SlabElementKey, (usize, usize))>,
    frame_in_flight_index: FrameInFlightIndex,
)
    requires
        frame_in_flight_index < MAX_FRAMES_IN_FLIGHT_PLUS_1,
        ({
            let infos = old(buffers).buffer_sets@.map_values(
                |bb: DescriptorBindingBufferSet| bb.buffer_info,
            );
            &&& (forall|b1: int, b2: int|
                0 <= b1 < b2 < infos.len() ==> (#[trigger] infos[b1]).dst_element != (
                #[trigger] infos[b2]).dst_element)
            &&& (forall|b: int|
                0 <= b < infos.len() ==> (#[trigger] infos[b]).per_descriptor_size <= infos[
                    b
                ].per_descriptor_stride)
            &&& (forall|b: int|
                0 <= b < infos.len() ==> (#[trigger] infos[b]).per_descriptor_stride
                    * MAX_DESCRIPTORS_PER_POOL <= usize::MAX)
            &&& (forall|b: int|
                0 <= b < infos.len() ==> (#[trigger] old(buffers).buffer_sets@[b]).buffers@.len()
                    == MAX_FRAMES_IN_FLIGHT_PLUS_1)
            &&& (forall|b: int, f: int|
                0 <= b < infos.len() && 0 <= f < MAX_FRAMES_IN_FLIGHT_PLUS_1 ==> (
                #[trigger] old(buffers).buffer_sets@[b].buffers@[f])@.len() == infos[
                    b
                ].per_descriptor_stride * MAX_DESCRIPTORS_PER_POOL)
            &&& (forall|i: int, j: int|
                0 <= i < pending@.len() && 0 <= j < (
                #[trigger] pending@[i]).write_buffer.elements@.len()
                    ==> spec_buffer_element_fits(
                    #[trigger] pending@[i].write_buffer.elements@[j],
                    infos,
                ))
            &&& spec_buffer_indices_match(coalesced@, pending@, coalesced_buffer_writes(pending@))
        }),
    ensures
        ({
            let infos = old(buffers).buffer_sets@.map_values(
                |bb: DescriptorBindingBufferSet| bb.buffer_info,
            );
            let co = coalesced_buffer_writes(pending@);
            &&& final(buffers).buffer_sets@.len() == old(buffers).buffer_sets@.len()
            &&& (forall|b: int|
                0 <= b < infos.len() ==> (#[trigger] final(buffers).buffer_sets@[b]).buffer_info
                    == old(buffers).buffer_sets@[b].buffer_info)
            &&& (forall|b: int|
                0 <= b < infos.len() ==> (#[trigger] final(buffers).buffer_sets@[b]).buffers@.len()
                    == MAX_FRAMES_IN_FLIGHT_PLUS_1)
            &&& (forall|b: int, f: int|
                0 <= b < infos.len() && 0 <= f < MAX_FRAMES_IN_FLIGHT_PLUS_1 && f
                    != frame_in_flight_index ==> (
                #[trigger] final(buffers).buffer_sets@[b].buffers@[f])@ == old(
                    buffers,
                ).buffer_sets@[b].buffers@[f]@)
            &&& (forall|b: int|
                0 <= b < infos.len() ==> (#[trigger] final(buffers).buffer_sets@[b].buffers@[
                    frame_in_flight_index as int
                ])@.len() == old(buffers).buffer_sets@[b].buffers@[
                    frame_in_flight_index as int
                ]@.len())
            &&& (forall|b: int, p: int|
                0 <= b < infos.len() && 0 <= p < old(buffers).buffer_sets@[b].buffers@[
                    frame_in_flight_index as int
                ]@.len() ==> (#[trigger] final(buffers).buffer_sets@[b].buffers@[
                    frame_in_flight_index as int
                ]@[p]) == spec_byte_after_writes(
                    co,
                    infos,
                    b,
                    p,
                    old(buffers).buffer_sets@[b].buffers@[frame_in_flight_index as int]@[p],
                ))
        }),
{
    let ghost infos = old(buffers).buffer_sets@.map_values(
        |bb: DescriptorBindingBufferSet| bb.buffer_info,
    );
    let ghost co = coalesced_buffer_writes(pending@);
    let ghost orig = old(buffers).buffer_sets@;
    let frame = frame_in_flight_index as usize;
    proof {
        assert(co.take(0) =~= Seq::<(SlabElementKey, Vec<u8>)>::empty());
    }
    let mut t: usize = 0;
    while t < coalesced.len()
        invariant
            frame == frame_in_flight_index < MAX_FRAMES_IN_FLIGHT_PLUS_1,
            infos == orig.map_values(|bb: DescriptorBindingBufferSet| bb.buffer_info),
            spec_buffer_indices_match(coalesced@, pending@, co),
            co == coalesced_buffer_writes(pending@),
            t <= coalesced@.len(),
            forall|b1: int, b2: int|
                0 <= b1 < b2 < infos.len() ==> (#[trigger] infos[b1]).dst_element != (
                #[trigger] infos[b2]).dst_element,
            forall|b: int|
                0 <= b < infos.len() ==> (#[trigger] infos[b]).per_descriptor_size <= infos[
                    b
                ].per_descriptor_stride,
            forall|b: int|
                0 <= b < infos.len() ==> (#[trigger] infos[b]).per_descriptor_stride
                    * MAX_DESCRIPTORS_PER_POOL <= usize::MAX,
            forall|i: int, j: int|
                0 <= i < pending@.len() && 0 <= j < (
                #[trigger] pending@[i]).write_buffer.elements@.len()
                    ==> spec_buffer_element_fits(
                    #[trigger] pending@[i].write_buffer.elements@[j],
                    infos,
                ),
            buffers.buffer_sets@.len() == orig.len(),
            forall|b: int|
                0 <= b < infos.len() ==> (#[trigger] buffers.buffer_sets@[b]).buffer_info == orig[
                    b
                ].buffer_info,
            forall|b: int|
                0 <= b < infos.len() ==> (#[trigger] buffers.buffer_sets@[b]).buffers@.len()
                    == MAX_FRAMES_IN_FLIGHT_PLUS_1,
            forall|b: int, f: int|
                0 <= b < infos.len() && 0 <= f < MAX_FRAMES_IN_FLIGHT_PLUS_1 && f != frame ==> (
                #[trigger] buffers.buffer_sets@[b].buffers@[f])@ == orig[b].buffers@[f]@,
            forall|b: int|
                0 <= b < infos.len() ==> (#[trigger] buffers.buffer_sets@[b].buffers@[
                    frame as int
                ])@.len() == orig[b].buffers@[frame as int]@.len(),
            forall|b: int, f: int|
                0 <= b < infos.len() && 0 <= f < MAX_FRAMES_IN_FLIGHT_PLUS_1 ==> (
                #[trigger] orig[b].buffers@[f])@.len() == infos[b].per_descriptor_stride
                    * MAX_DESCRIPTORS_PER_POOL,
            forall|b: int, p: int|
                0 <= b < infos.len() && 0 <= p < orig[b].buffers@[frame as int]@.len() ==> (
                #[trigger] buffers.buffer_sets@[b].buffers@[frame as int]@[p])
                    == spec_byte_after_writes(
                    co.take(t as int),
                    infos,
                    b,
                    p,
                    orig[b].buffers@[frame as int]@[p],
                ),
        decreases coalesced@.len() - t,
    {
        let (key, at) = coalesced[t];
        let pi = at.0;
        let ei = at.1;
        let data = &pending[pi].write_buffer.elements[ei].1;
        proof {
            assert(buffers.buffer_sets@.map_values(
                |bb: DescriptorBindingBufferSet| bb.buffer_info,
            ) =~= infos);
            assert(pending@[pi as int].write_buffer.elements@[ei as int].1 == co[t as int].1);
            assert(pending@[pi as int].write_buffer.elements@[ei as int].0 == key.element);
            assert(spec_buffer_element_fits(
                pending@[pi as int].write_buffer.elements@[ei as int],
                infos,
            ));
        }
        let binding = match find_backed_binding(&buffers.buffer_sets, &pending[pi]
            .write_buffer
            .elements[ei]
            .0) {
            Some(binding) => binding,
            None => {
                proof {
                    assert(false);
                }
                return ;
            },
        };
        proof {
            lemma_binding_index(infos, key.element);
        }
        let info = buffers.buffer_sets[binding].buffer_info;
        let slot = (key.slab_index % MAX_DESCRIPTORS_PER_POOL) as usize;
        proof {
            assert(info == infos[binding as int]);
            assert(data@.len() <= info.per_descriptor_size);
            assert((info.per_descriptor_stride as int) * (slot as int) + data@.len() <= (
            info.per_descriptor_stride as int) * 64 && (info.per_descriptor_stride as int) * (
            slot as int) >= 0) by (nonlinear_arith)
                requires
                    0 <= (slot as int) < 64,
                    0 <= data@.len() <= (info.per_descriptor_stride as int),
                    (info.per_descriptor_stride as int) >= 0,
            ;
            assert(orig[binding as int].buffers@[frame as int]@.len() == (
            info.per_descriptor_stride as int) * MAX_DESCRIPTORS_PER_POOL);
            assert((info.per_descriptor_stride as int) * MAX_DESCRIPTORS_PER_POOL <= usize::MAX);
        }
        let offset = (info.per_descriptor_stride as usize) * slot;
        let data_len = data.len();
        let ghost pre_sets = buffers.buffer_sets@;
        let frame_buf = binding_frame_bytes_slot(&mut buffers.buffer_sets, binding, frame);
        let ghost pre = frame_buf@;
        let mut q: usize = 0;
        while q < data_len
            invariant
                q <= data_len,
                data_len == data@.len(),
                offset + data_len <= pre.len(),
                offset + data_len <= usize::MAX,
                frame_buf@.len() == pre.len(),
                forall|p: int|
                    0 <= p < pre.len() ==> #[trigger] frame_buf@[p] == (if offset <= p < offset
                        + q {
                        data@[p - offset]
                    } else {
                        pre[p]
                    }),
            decreases data_len - q,
        {
            let byte = data[q];
            frame_buf.set(offset + q, byte);
            q = q + 1;
        }
        proof {
            assert(co.take(t + 1) =~= co.take(t as int).push(co[t as int]));
            assert(co.take(t + 1).drop_last() =~= co.take(t as int));
            assert forall|b: int, p: int|
                0 <= b < infos.len() && 0 <= p < orig[b].buffers@[frame as int]@.len() implies (
                #[trigger] buffers.buffer_sets@[b].buffers@[frame as int]@[p])
                == spec_byte_after_writes(
                co.take(t + 1),
                infos,
                b,
                p,
                orig[b].buffers@[frame as int]@[p],
            ) by {
                if b != binding as int {
                    assert(buffers.buffer_sets@[b] == pre_sets[b]);
                    if spec_has_binding(infos, key.element) && b == spec_binding_index(
                        infos,
                        key.element,
                    ) {
                        assert(false);
                    }
                }
            }
        }
        t = t + 1;
    }
    proof {
        assert(co.take(coalesced@.len() as int) =~= co);
    }
}

impl RegisteredDescriptorSetPoolChunk {
    /// Build the device writes one flush applies: one write per coalesced
    /// element whose filtered image entries are not empty, targeting the
    /// flushed frame's copy of the element's logical slot.
    fn collect_device_writes(
        &self,
        coalesced: &Vec<(SlabElementKey, (usize, usize))>,
        frame_in_flight_index: FrameInFlightIndex,
    ) -> (writes: Vec<DeviceDescriptorWrite>)
        requires
            self.wf(),
            frame_in_flight_index < MAX_FRAMES_IN_FLIGHT_PLUS_1,
            spec_set_indices_match(
                coalesced@,
                self.pending_set_writes(),
                coalesced_set_writes(self.pending_set_writes()),
            ),
        ensures
            spec_device_writes_match(
                writes@,
                spec_visible_set_writes(coalesced_set_writes(self.pending_set_writes())),
                self.sets(),
                frame_in_flight_index,
            ),
    {
        let ghost co = coalesced_set_writes(self.pending_set_writes());
        let mut writes: Vec<DeviceDescriptorWrite> = Vec::new();
        proof {
            assert(co.take(0) =~= Seq::<(SlabElementKey, DescriptorSetElementWrite)>::empty());
        }
        let mut t: usize = 0;
        while t < coalesced.len()
            invariant
                self.wf(),
                frame_in_flight_index < MAX_FRAMES_IN_FLIGHT_PLUS_1,
                spec_set_indices_match(coalesced@, self.pending_set_writes(), co),
                co == coalesced_set_writes(self.pending_set_writes()),
                t <= coalesced@.len(),
                spec_device_writes_match(
                    writes@,
                    spec_visible_set_writes(co.take(t as int)),
                    self.sets(),
                    frame_in_flight_index,
                ),
            decreases coalesced@.len() - t,
        {
            let (key, at) = coalesced[t];
            let pi = at.0;
            let ei = at.1;
            let element = &self.pending_set_writes[pi].write_set.elements[ei].1;
            proof {
                assert(*element == co[t as int].1);
                assert(co.take(t + 1) =~= co.take(t as int).push(co[t as int]));
                assert(co.take(t + 1).drop_last() =~= co.take(t as int));
            }
            let skip_element = element.has_immutable_sampler && element.descriptor_type
                == DescriptorType::Sampler;
            let mut infos: Vec<DescriptorImageInfo> = Vec::new();
            if !skip_element {
                let ghost src = element.image_info@;
                proof {
                    assert(src.take(0) =~= Seq::<DescriptorImageInfo>::empty());
                }
                let mut q: usize = 0;
                while q < element.image_info.len()
                    invariant
                        src == element.image_info@,
                        q <= src.len(),
                        infos@ == spec_filtered_infos(
                            src.take(q as int),
                            element.has_immutable_sampler,
                        ),
                    decreases src.len() - q,
                {
                    let info = element.image_info[q];
                    proof {
                        assert(src.take(q + 1) =~= src.take(q as int).push(src[q as int]));
                        assert(src.take(q + 1).drop_last() =~= src.take(q as int));
                    }
                    if info.sampler.is_some() || info.image_view.is_some() {
                        infos.push(
                            DescriptorImageInfo {
                                sampler: if element.has_immutable_sampler {
                                    None
                                } else {
                                    info.sampler
                                },
                                image_view: info.image_view,
                            },
                        );
                    }
                    q = q + 1;
                }
                proof {
                    assert(src.take(src.len() as int) =~= src);
                }
            }
            proof {
                assert(infos@ == spec_element_write_infos(co[t as int].1));
            }
            if infos.len() > 0 {
                let slot = (key.slab_index % MAX_DESCRIPTORS_PER_POOL) as usize;
                proof {
                    assert(self.sets()[frame_in_flight_index as int]
                        == self.descriptor_sets@[frame_in_flight_index as int]@);
                }
                let dst_set = self.descriptor_sets[frame_in_flight_index as usize][slot];
                writes.push(
                    DeviceDescriptorWrite {
                        logical: key,
                        dst_set,
                        dst_binding: key.element.dst_binding,
                        descriptor_type: element.descriptor_type,
                        image_info: infos,
                    },
                );
            }
            t = t + 1;
        }
        proof {
            assert(co.take(coalesced@.len() as int) =~= co);
        }
        writes
    }

    /// One flush of the chunk against the frame copy that just became
    /// writable: coalesce the queued content writes (the most recently
    /// scheduled value per slot and binding wins) and return the device
    /// writes for the caller's one batched update call; copy the coalesced
    /// buffer writes into their slots of the frame's backing buffers,
    /// touching no byte outside a written slot; then drain from the front
    /// of each queue exactly the writes whose expiry equals this frame
    /// index, which is correct because writes queue in non-decreasing
    /// expiry order. The drain compares for exact equality, so a skipped
    /// update tick would stall draining until the index wraps back to the
    /// missed expiry; the driver calls `update` once per produced frame.
    pub fn update(&mut self, frame_in_flight_index: FrameInFlightIndex) -> (writes: Vec<
        DeviceDescriptorWrite,
    >)
        requires
            old(self).wf(),
            frame_in_flight_index < MAX_FRAMES_IN_FLIGHT_PLUS_1,
        ensures
            final(self).wf(),
            final(self).spec_pool() == old(self).spec_pool(),
            final(self).sets() == old(self).sets(),
            final(self).buffer_infos() == old(self).buffer_infos(),
            spec_device_writes_match(
                writes@,
                spec_visible_set_writes(coalesced_set_writes(old(self).pending_set_writes())),
                old(self).sets(),
                frame_in_flight_index,
            ),
            final(self).pending_set_writes() == old(self).pending_set_writes().skip(
                spec_drain_count(
                    spec_set_write_expiries(old(self).pending_set_writes()),
                    frame_in_flight_index,
                ),
            ),
            final(self).pending_buffer_writes() == old(self).pending_buffer_writes().skip(
                spec_drain_count(
                    spec_buffer_write_expiries(old(self).pending_buffer_writes()),
                    frame_in_flight_index,
                ),
            ),
            forall|b: int, f: int|
                0 <= b < old(self).buffer_infos().len() && 0 <= f < MAX_FRAMES_IN_FLIGHT_PLUS_1
                    && f != frame_in_flight_index ==> #[trigger] final(self).buffer_bytes(b, f)
                    == old(self).buffer_bytes(b, f),
            forall|b: int|
                0 <= b < old(self).buffer_infos().len() ==> (#[trigger] final(self).buffer_bytes(
                    b,
                    frame_in_flight_index as int,
                )).len() == old(self).buffer_bytes(b, frame_in_flight_index as int).len(),
            forall|b: int, p: int|
                0 <= b < old(self).buffer_infos().len() && 0 <= p < old(self).buffer_bytes(
                    b,
                    frame_in_flight_index as int,
                ).len() ==> #[trigger] final(self).buffer_bytes(b, frame_in_flight_index as int)[p]
                    == spec_byte_after_writes(
                    coalesced_buffer_writes(old(self).pending_buffer_writes()),
                    old(self).buffer_infos(),
                    b,
                    p,
                    old(self).buffer_bytes(b, frame_in_flight_index as int)[p],
                ),
    {
        let coalesced_sets = coalesce_set_write_indices(&self.pending_set_writes);
        let writes = self.collect_device_writes(&coalesced_sets, frame_in_flight_index);

        let coalesced_buffers = coalesce_buffer_write_indices(&self.pending_buffer_writes);
        let mut buffers = DescriptorLayoutBufferSet { buffer_sets: Vec::new() };
        core::mem::swap(&mut buffers, &mut self.buffers);
        proof {
            assert(buffers == old(self).buffers);
            assert(buffers.buffer_sets@.map_values(
                |bb: DescriptorBindingBufferSet| bb.buffer_info,
            ) =~= old(self).buffer_infos());
            assert(self.pending_buffer_writes@ == old(self).pending_buffer_writes@);
            assert forall|b: int|
                0 <= b < old(self).buffer_infos().len() implies (
                #[trigger] buffers.buffer_sets@[b]).buffers@.len()
                    == MAX_FRAMES_IN_FLIGHT_PLUS_1 by {
                assert(old(self).spec_binding_buffers(b).len() == MAX_FRAMES_IN_FLIGHT_PLUS_1);
            }
            assert forall|b: int, f: int|
                0 <= b < old(self).buffer_infos().len() && 0 <= f < MAX_FRAMES_IN_FLIGHT_PLUS_1
                implies (#[trigger] buffers.buffer_sets@[b].buffers@[f])@.len() == old(
                self,
            ).buffer_infos()[b].per_descriptor_stride * MAX_DESCRIPTORS_PER_POOL by {
                assert(old(self).buffer_bytes(b, f).len() == old(self).buffer_infos()[
                    b
                ].per_descriptor_stride * MAX_DESCRIPTORS_PER_POOL);
            }
            let ghost infos = buffers.buffer_sets@.map_values(
                |bb: DescriptorBindingBufferSet| bb.buffer_info,
            );
            assert forall|b1: int, b2: int| 0 <= b1 < b2 < infos.len() implies (
            #[trigger] infos[b1]).dst_element != (#[trigger] infos[b2]).dst_element by {
                assert((old(self).buffer_infos()[b1]).dst_element != (old(
                    self,
                ).buffer_infos()[b2]).dst_element);
            }
            assert forall|b: int| 0 <= b < infos.len() implies (
            #[trigger] infos[b]).per_descriptor_size <= infos[b].per_descriptor_stride by {
                assert((old(self).buffer_infos()[b]).per_descriptor_size == infos[
                    b
                ].per_descriptor_size);
            }
            assert forall|b: int| 0 <= b < infos.len() implies (
            #[trigger] infos[b]).per_descriptor_stride * MAX_DESCRIPTORS_PER_POOL
                <= usize::MAX by {
                assert((old(self).buffer_infos()[b]).per_descriptor_stride == infos[
                    b
                ].per_descriptor_stride);
            }
            assert forall|i: int, j: int|
                0 <= i < self.pending_buffer_writes@.len() && 0 <= j < (
                #[trigger] self.pending_buffer_writes@[i]).write_buffer.elements@.len()
                implies spec_buffer_element_fits(
                #[trigger] self.pending_buffer_writes@[i].write_buffer.elements@[j],
                infos,
            ) by {
                assert(spec_buffer_element_fits(
                    old(self).pending_buffer_writes()[i].write_buffer.elements@[j],
                    old(self).buffer_infos(),
                ));
            }
        }
        apply_buffer_writes(
            &mut buffers,
            &self.pending_buffer_writes,
            &coalesced_buffers,
            frame_in_flight_index,
        );
        core::mem::swap(&mut buffers, &mut self.buffers);
        let ghost buffers_after = self.buffers;

        let ghost set_pend0 = self.pending_set_writes@;
        let ghost set_lives0 = spec_set_write_expiries(set_pend0);
        proof {
            assert(set_pend0.skip(0) =~= set_pend0);
            assert(spec_set_write_expiries(set_pend0.skip(0)) =~= set_lives0);
        }
        while self.pending_set_writes.len() > 0 && self.pending_set_writes[0].live_until_frame
            == frame_in_flight_index
            invariant
                self.pending_set_writes@.len() <= set_pend0.len(),
                self.pending_set_writes@ == set_pend0.skip(
                    set_pend0.len() - self.pending_set_writes@.len(),
                ),
                spec_drain_count(set_lives0, frame_in_flight_index) == (set_pend0.len()
                    - self.pending_set_writes@.len()) + spec_drain_count(
                    spec_set_write_expiries(self.pending_set_writes@),
                    frame_in_flight_index,
                ),
                self.pending_buffer_writes@ == old(self).pending_buffer_writes@,
                self.descriptor_sets == old(self).descriptor_sets,
                self.pool == old(self).pool,
                self.buffers == buffers_after,
            decreases self.pending_set_writes@.len(),
        {
            let ghost before = self.pending_set_writes@;
            let _ = self.pending_set_writes.pop_front();
            proof {
                assert(spec_set_write_expiries(before)[0] == before[0].live_until_frame);
                assert(spec_set_write_expiries(before).drop_first() =~= spec_set_write_expiries(
                    self.pending_set_writes@,
                ));
                assert(self.pending_set_writes@ =~= before.drop_first());
                assert(before.drop_first() =~= set_pend0.skip(
                    set_pend0.len() - before.len() + 1,
                ));
            }
        }
        proof {
            assert(spec_drain_count(
                spec_set_write_expiries(self.pending_set_writes@),
                frame_in_flight_index,
            ) == 0);
        }

        let ghost buf_pend0 = self.pending_buffer_writes@;
        let ghost buf_lives0 = spec_buffer_write_expiries(buf_pend0);
        proof {
            assert(buf_pend0.skip(0) =~= buf_pend0);
        }
        while self.pending_buffer_writes.len() > 0 && self.pending_buffer_writes[0]
            .live_until_frame == frame_in_flight_index
            invariant
                self.pending_buffer_writes@.len() <= buf_pend0.len(),
                self.pending_buffer_writes@ == buf_pend0.skip(
                    buf_pend0.len() - self.pending_buffer_writes@.len(),
                ),
                spec_drain_count(buf_lives0, frame_in_flight_index) == (buf_pend0.len()
                    - self.pending_buffer_writes@.len()) + spec_drain_count(
                    spec_buffer_write_expiries(self.pending_buffer_writes@),
                    frame_in_flight_index,
                ),
                self.pending_set_writes@ == set_pend0.skip(
                    spec_drain_count(set_lives0, frame_in_flight_index),
                ),
                self.descriptor_sets == old(self).descriptor_sets,
                self.pool == old(self).pool,
                self.buffers == buffers_after,
            decreases self.pending_buffer_writes@.len(),
        {
            let ghost before = self.pending_buffer_writes@;
            let _ = self.pending_buffer_writes.pop_front();
            proof {
                assert(spec_buffer_write_expiries(before)[0] == before[0].live_until_frame);
                assert(spec_buffer_write_expiries(before).drop_first()
                    =~= spec_buffer_write_expiries(self.pending_buffer_writes@));
                assert(self.pending_buffer_writes@ =~= before.drop_first());
                assert(before.drop_first() =~= buf_pend0.skip(
                    buf_pend0.len() - before.len() + 1,
                ));
            }
        }
        proof {
            assert(spec_drain_count(
                spec_buffer_write_expiries(self.pending_buffer_writes@),
                frame_in_flight_index,
            ) == 0);
            lemma_drain_count_prefix(buf_lives0, frame_in_flight_index);
            lemma_drain_count_prefix(set_lives0, frame_in_flight_index);
            assert(self.buffer_infos() =~= old(self).buffer_infos());
            let drained = spec_drain_count(buf_lives0, frame_in_flight_index);
            assert(buf_pend0 == old(self).pending_buffer_writes@);
            assert(drained == buf_pend0.len() - self.pending_buffer_writes@.len());
            assert forall|i: int, j: int|
                0 <= i < self.pending_buffer_writes@.len() && 0 <= j < (
                #[trigger] self.pending_buffer_writes@[i]).write_buffer.elements@.len()
                implies spec_buffer_element_fits(
                #[trigger] self.pending_buffer_writes@[i].write_buffer.elements@[j],
                self.buffer_infos(),
            ) by {
                assert(self.pending_buffer_writes@[i] == buf_pend0[i + drained]);
                assert(spec_buffer_element_fits(
                    old(self).pending_buffer_writes()[i + drained].write_buffer.elements@[j],
                    old(self).buffer_infos(),
                ));
            }
            assert forall|b: int|
                0 <= b < self.buffer_infos().len() implies (#[trigger] self.spec_binding_buffers(
                    b,
                )).len() == MAX_FRAMES_IN_FLIGHT_PLUS_1 by {
                assert(self.buffers.buffer_sets@[b].buffers@.len()
                    == MAX_FRAMES_IN_FLIGHT_PLUS_1);
            }
            assert forall|b: int, f: int|
                0 <= b < self.buffer_infos().len() && 0 <= f < MAX_FRAMES_IN_FLIGHT_PLUS_1
                implies (#[trigger] self.buffer_bytes(b, f)).len() == self.buffer_infos()[
                b
            ].per_descriptor_stride * MAX_DESCRIPTORS_PER_POOL by {
                if f != frame_in_flight_index {
                    assert(self.buffers.buffer_sets@[b].buffers@[f]@ == old(
                        self,
                    ).buffers.buffer_sets@[b].buffers@[f]@);
                    assert(old(self).buffer_bytes(b, f).len() == old(self).buffer_infos()[
                        b
                    ].per_descriptor_stride * MAX_DESCRIPTORS_PER_POOL);
                } else {
                    assert(old(self).buffer_bytes(b, f).len() == old(self).buffer_infos()[
                        b
                    ].per_descriptor_stride * MAX_DESCRIPTORS_PER_POOL);
                }
            }
            assert(self.wf());
            assert forall|b: int, f: int|
                0 <= b < old(self).buffer_infos().len() && 0 <= f < MAX_FRAMES_IN_FLIGHT_PLUS_1
                    && f != frame_in_flight_index implies #[trigger] self.buffer_bytes(b, f)
                == old(self).buffer_bytes(b, f) by {
                assert(buffers_after.buffer_sets@[b].buffers@[f]@ == old(
                    self,
                ).buffers.buffer_sets@[b].buffers@[f]@);
            }
            assert forall|b: int, p: int|
                0 <= b < old(self).buffer_infos().len() && 0 <= p < old(self).buffer_bytes(
                    b,
                    frame_in_flight_index as int,
                ).len() implies #[trigger] self.buffer_bytes(b, frame_in_flight_index as int)[p]
                == spec_byte_after_writes(
                coalesced_buffer_writes(old(self).pending_buffer_writes()),
                old(self).buffer_infos(),
                b,
                p,
                old(self).buffer_bytes(b, frame_in_flight_index as int)[p],
            ) by {
                assert(buffers_after.buffer_sets@[b].buffers@[frame_in_flight_index as int]@[p]
                    == spec_byte_after_writes(
                    coalesced_buffer_writes(old(self).pending_buffer_writes()),
                    old(self).buffer_infos(),
                    b,
                    p,
                    old(self).buffers.buffer_sets@[b].buffers@[frame_in_flight_index as int]@[p],
                ));
            }
        }
        writes
    }

    /// Read one binding's backing bytes for one frame copy.
    pub fn buffer_contents(&self, binding: usize, frame_in_flight_index: FrameInFlightIndex) -> (
    bytes: &Vec<u8>)
        requires
            self.wf(),
            binding < self.buffer_infos().len(),
            frame_in_flight_index < MAX_FRAMES_IN_FLIGHT_PLUS_1,
        ensures
            bytes@ == self.buffer_bytes(binding as int, frame_in_flight_index as int),
    {
        proof {
            assert(self.buffer_infos().len() == self.buffers.buffer_sets@.len());
            assert(self.spec_binding_buffers(binding as int).len()
                == MAX_FRAMES_IN_FLIGHT_PLUS_1);
        }
        &self.buffers.buffer_sets[binding].buffers[frame_in_flight_index as usize]
    }

    /// How many content writes are still queued.
    pub fn pending_set_write_count(&self) -> (n: usize)
        ensures
            n == self.pending_set_writes().len(),
    {
        self.pending_set_writes.len()
    }

    /// How many buffer writes are still queued.
    pub fn pending_buffer_write_count(&self) -> (n: usize)
        ensures
            n == self.pending_buffer_writes().len(),
    {
        self.pending_buffer_writes.len()
    }
}

} // verus!
