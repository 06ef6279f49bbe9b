//! Behaviour of the descriptor set pool chunk: coalescing, the retention
//! window, buffer-write validation, and the initial device bindings.

use renderer_streaming::descriptor_pool_chunk::DescriptorSetPoolRequiredBufferInfo;
use renderer_streaming::descriptor_pool_chunk::DescriptorSetWriteBufferError;
use renderer_streaming::descriptor_pool_chunk::RegisteredDescriptorSetPoolChunk;
use renderer_streaming::descriptor_sets::DescriptorImageInfo;
use renderer_streaming::descriptor_sets::DescriptorPoolHandle;
use renderer_streaming::descriptor_sets::DescriptorSetElementKey;
use renderer_streaming::descriptor_sets::DescriptorSetElementWrite;
use renderer_streaming::descriptor_sets::DescriptorSetHandle;
use renderer_streaming::descriptor_sets::DescriptorSetWriteBuffer;
use renderer_streaming::descriptor_sets::DescriptorSetWriteSet;
use renderer_streaming::descriptor_sets::DescriptorType;
use renderer_streaming::descriptor_sets::ImageViewHandle;
use renderer_streaming::descriptor_sets::SamplerHandle;
use renderer_streaming::frame_index::MAX_DESCRIPTORS_PER_POOL;
use renderer_streaming::frame_index::MAX_FRAMES_IN_FLIGHT_PLUS_1;
use renderer_streaming::slab::RawSlabKey;

fn set_handles() -> Vec<Vec<DescriptorSetHandle>> {
    let mut frames = Vec::new();
    for f in 0..MAX_FRAMES_IN_FLIGHT_PLUS_1 as u64 {
        let mut row = Vec::new();
        for d in 0..MAX_DESCRIPTORS_PER_POOL as u64 {
            row.push(DescriptorSetHandle(f * 1000 + d));
        }
        frames.push(row);
    }
    frames
}

fn uniform_binding(dst_binding: u32, size: u32, stride: u32) -> DescriptorSetPoolRequiredBufferInfo {
    DescriptorSetPoolRequiredBufferInfo {
        dst_element: DescriptorSetElementKey { dst_binding },
        descriptor_type: DescriptorType::UniformBuffer,
        per_descriptor_size: size,
        per_descriptor_stride: stride,
    }
}

fn combined_image_write(view: u64) -> DescriptorSetElementWrite {
    DescriptorSetElementWrite {
        has_immutable_sampler: false,
        descriptor_type: DescriptorType::CombinedImageSampler,
        image_info: vec![DescriptorImageInfo {
            sampler: Some(SamplerHandle(1)),
            image_view: Some(ImageViewHandle(view)),
        }],
    }
}

#[test]
fn initial_bindings_cover_every_binding_frame_and_slot() {
    let info = uniform_binding(2, 64, 64);
    let (chunk, bindings) = RegisteredDescriptorSetPoolChunk::new(
        DescriptorPoolHandle(7),
        set_handles(),
        &vec![info],
    );
    assert_eq!(bindings.len(), 192);
    // Entry 0: binding 0, frame 0, slot 0.
    assert_eq!(bindings[0].dst_set, DescriptorSetHandle(0));
    assert_eq!(bindings[0].dst_binding, 2);
    assert_eq!(bindings[0].frame_in_flight_index, 0);
    assert_eq!(bindings[0].offset, 0);
    assert_eq!(bindings[0].range, 64);
    // Entry 69 = frame 1, slot 5.
    assert_eq!(bindings[69].dst_set, DescriptorSetHandle(1005));
    assert_eq!(bindings[69].frame_in_flight_index, 1);
    assert_eq!(bindings[69].offset, 5 * 64);
    // A fresh chunk starts zero-filled with nothing queued.
    assert_eq!(chunk.pending_set_write_count(), 0);
    assert_eq!(chunk.pending_buffer_write_count(), 0);
    let bytes = chunk.buffer_contents(0, 0);
    assert_eq!(bytes.len(), 64 * 64);
    assert!(bytes.iter().all(|b| *b == 0));
}

#[test]
fn update_applies_only_the_most_recently_scheduled_value_per_slot() {
    let (mut chunk, _bindings) = RegisteredDescriptorSetPoolChunk::new(
        DescriptorPoolHandle(1),
        set_handles(),
        &Vec::new(),
    );
    let key = RawSlabKey::new(9);
    let element = DescriptorSetElementKey { dst_binding: 0 };
    let first = DescriptorSetWriteSet { elements: vec![(element, combined_image_write(10))] };
    let second = DescriptorSetWriteSet { elements: vec![(element, combined_image_write(20))] };
    let handles = chunk.schedule_write_set(key, first, 0);
    assert_eq!(handles.len(), 3);
    assert_eq!(handles[1], DescriptorSetHandle(1009));
    chunk.schedule_write_set(key, second, 0);
    assert_eq!(chunk.pending_set_write_count(), 2);

    let writes = chunk.update(0);
    assert_eq!(writes.len(), 1);
    assert_eq!(writes[0].dst_set, DescriptorSetHandle(9));
    assert_eq!(writes[0].dst_binding, 0);
    assert_eq!(writes[0].image_info.len(), 1);
    assert_eq!(writes[0].image_info[0].image_view, Some(ImageViewHandle(20)));
}

#[test]
fn flush_filters_immutable_samplers_and_empty_entries() {
    let (mut chunk, _bindings) = RegisteredDescriptorSetPoolChunk::new(
        DescriptorPoolHandle(1),
        set_handles(),
        &Vec::new(),
    );
    let key = RawSlabKey::new(0);
    let write = DescriptorSetWriteSet {
        elements: vec![
            // A pure sampler binding with an immutable sampler: skipped whole.
            (
                DescriptorSetElementKey { dst_binding: 0 },
                DescriptorSetElementWrite {
                    has_immutable_sampler: true,
                    descriptor_type: DescriptorType::Sampler,
                    image_info: vec![DescriptorImageInfo {
                        sampler: Some(SamplerHandle(5)),
                        image_view: None,
                    }],
                },
            ),
            // A combined binding with an immutable sampler: the view stays,
            // the sampler is blanked.
            (
                DescriptorSetElementKey { dst_binding: 1 },
                DescriptorSetElementWrite {
                    has_immutable_sampler: true,
                    descriptor_type: DescriptorType::CombinedImageSampler,
                    image_info: vec![DescriptorImageInfo {
                        sampler: Some(SamplerHandle(5)),
                        image_view: Some(ImageViewHandle(30)),
                    }],
                },
            ),
            // An entry with neither sampler nor view binds nothing.
            (
                DescriptorSetElementKey { dst_binding: 2 },
                DescriptorSetElementWrite {
                    has_immutable_sampler: false,
                    descriptor_type: DescriptorType::SampledImage,
                    image_info: vec![DescriptorImageInfo { sampler: None, image_view: None }],
                },
            ),
        ],
    };
    chunk.schedule_write_set(key, write, 1);
    let writes = chunk.update(1);
    assert_eq!(writes.len(), 1);
    assert_eq!(writes[0].dst_binding, 1);
    assert_eq!(writes[0].image_info.len(), 1);
    assert_eq!(writes[0].image_info[0].sampler, None);
    assert_eq!(writes[0].image_info[0].image_view, Some(ImageViewHandle(30)));
}

#[test]
fn oversize_buffer_write_is_rejected_before_anything_is_queued_or_written() {
    let info = uniform_binding(0, 16, 16);
    let (mut chunk, _bindings) = RegisteredDescriptorSetPoolChunk::new(
        DescriptorPoolHandle(1),
        set_handles(),
        &vec![info],
    );
    let key = RawSlabKey::new(0);
    let oversize = DescriptorSetWriteBuffer {
        elements: vec![(DescriptorSetElementKey { dst_binding: 0 }, vec![0xFF; 17])],
    };
    let rejected = chunk.schedule_write_buffer(key, oversize, 0);
    match rejected {
        Err(DescriptorSetWriteBufferError::Oversize { element, data_len, per_descriptor_size }) => {
            assert_eq!(element, DescriptorSetElementKey { dst_binding: 0 });
            assert_eq!(data_len, 17);
            assert_eq!(per_descriptor_size, 16);
        },
        _ => panic!("an oversize payload must be rejected"),
    }
    assert_eq!(chunk.pending_buffer_write_count(), 0);
    let _ = chunk.update(0);
    assert!(chunk.buffer_contents(0, 0).iter().all(|b| *b == 0));
}

#[test]
fn unknown_binding_buffer_write_is_rejected() {
    let info = uniform_binding(0, 16, 16);
    let (mut chunk, _bindings) = RegisteredDescriptorSetPoolChunk::new(
        DescriptorPoolHandle(1),
        set_handles(),
        &vec![info],
    );
    let key = RawSlabKey::new(0);
    let unknown = DescriptorSetWriteBuffer {
        elements: vec![(DescriptorSetElementKey { dst_binding: 9 }, vec![1, 2, 3])],
    };
    match chunk.schedule_write_buffer(key, unknown, 0) {
        Err(DescriptorSetWriteBufferError::UnknownBinding(element)) => {
            assert_eq!(element, DescriptorSetElementKey { dst_binding: 9 });
        },
        _ => panic!("a write to an unbacked binding must be rejected"),
    }
    assert_eq!(chunk.pending_buffer_write_count(), 0);
}

#[test]
fn short_buffer_write_leaves_the_rest_of_the_slot_and_its_neighbours_alone() {
    let info = uniform_binding(0, 16, 16);
    let (mut chunk, _bindings) = RegisteredDescriptorSetPoolChunk::new(
        DescriptorPoolHandle(1),
        set_handles(),
        &vec![info],
    );
    let key = RawSlabKey::new(2);
    let short = DescriptorSetWriteBuffer {
        elements: vec![(DescriptorSetElementKey { dst_binding: 0 }, vec![0xAB; 3])],
    };
    assert!(chunk.schedule_write_buffer(key, short, 0).is_ok());
    let _ = chunk.update(0);
    let bytes = chunk.buffer_contents(0, 0);
    // Slot 2 starts at byte 32: three bytes written, the rest untouched.
    assert_eq!(&bytes[32..35], &[0xAB, 0xAB, 0xAB]);
    assert!(bytes[35..48].iter().all(|b| *b == 0));
    // The neighbouring slots were never touched.
    assert!(bytes[0..32].iter().all(|b| *b == 0));
    assert!(bytes[48..].iter().all(|b| *b == 0));
}

#[test]
fn buffer_write_stays_applied_through_its_window_and_is_evicted_at_expiry() {
    let info = uniform_binding(0, 64, 64);
    let (mut chunk, _bindings) = RegisteredDescriptorSetPoolChunk::new(
        DescriptorPoolHandle(1),
        set_handles(),
        &vec![info],
    );
    let key = RawSlabKey::new(5);
    let mut payload = Vec::new();
    for i in 0..64u32 {
        payload.push(i as u8);
    }
    let write = DescriptorSetWriteBuffer {
        elements: vec![(DescriptorSetElementKey { dst_binding: 0 }, payload.clone())],
    };
    // Scheduled at frame index 2 with a frame-in-flight count of 2: the
    // write expires when the running index wraps back around to
    // (2 + 2) mod 3 == 1.
    let handles = chunk.schedule_write_buffer(key, write, 2).unwrap();
    assert_eq!(handles.len(), 3);
    assert_eq!(chunk.pending_buffer_write_count(), 1);

    let offset = 64 * 5;
    // Update at index 2: applied, still queued.
    let _ = chunk.update(2);
    assert_eq!(&chunk.buffer_contents(0, 2)[offset..offset + 64], &payload[..]);
    assert_eq!(chunk.pending_buffer_write_count(), 1);
    // Update at the next index (wrapping): applied again, still queued.
    let _ = chunk.update(0);
    assert_eq!(&chunk.buffer_contents(0, 0)[offset..offset + 64], &payload[..]);
    assert_eq!(chunk.pending_buffer_write_count(), 1);
    // Update at the expiry index: applied one last time, then evicted.
    let _ = chunk.update(1);
    assert_eq!(&chunk.buffer_contents(0, 1)[offset..offset + 64], &payload[..]);
    assert_eq!(chunk.pending_buffer_write_count(), 0);
    // A later update changes nothing: the bytes stay until overwritten.
    let _ = chunk.update(2);
    assert_eq!(&chunk.buffer_contents(0, 2)[offset..offset + 64], &payload[..]);
}

#[test]
fn destroying_a_chunk_hands_back_its_pool() {
    let (chunk, _bindings) = RegisteredDescriptorSetPoolChunk::new(
        DescriptorPoolHandle(31),
        set_handles(),
        &Vec::new(),
    );
    assert_eq!(chunk.destroy(), DescriptorPoolHandle(31));
}

#[test]
fn content_write_reaches_every_frame_copy_before_expiring() {
    let (mut chunk, _bindings) = RegisteredDescriptorSetPoolChunk::new(
        DescriptorPoolHandle(1),
        set_handles(),
        &Vec::new(),
    );
    let key = RawSlabKey::new(3);
    let write = DescriptorSetWriteSet {
        elements: vec![(DescriptorSetElementKey { dst_binding: 0 }, combined_image_write(40))],
    };
    chunk.schedule_write_set(key, write, 0);

    // The write is re-applied on each of the three frame copies in turn,
    // always targeting that frame's copy of the slot.
    for frame in [0u32, 1, 2] {
        assert_eq!(chunk.pending_set_write_count(), 1);
        let writes = chunk.update(frame);
        assert_eq!(writes.len(), 1);
        assert_eq!(writes[0].dst_set, DescriptorSetHandle(frame as u64 * 1000 + 3));
    }
    // Expiry (0 + 2) mod 3 == 2: the update at index 2 evicted it.
    assert_eq!(chunk.pending_set_write_count(), 0);
    assert!(chunk.update(0).is_empty());
}
