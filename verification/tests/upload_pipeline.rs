//! End-to-end behaviour of the upload pipeline: batching, the two-queue
//! state machine, and the one-shot completion channels.

use crossbeam_channel::unbounded;
use renderer_streaming::upload::DecodedTexture;
use renderer_streaming::upload::ColorSpace;
use renderer_streaming::upload::DeviceError;
use renderer_streaming::upload::DevicePollStatus;
use renderer_streaming::upload::InProgressUpload;
use renderer_streaming::upload::InProgressUploadPollResult;
use renderer_streaming::upload::PendingBufferUpload;
use renderer_streaming::upload::PendingImageUpload;
use renderer_streaming::upload::TransferUploadState;
use renderer_streaming::upload::pair_buffer_uploads;
use renderer_streaming::upload::pair_image_uploads;
use renderer_streaming::upload_manager::BufferAssetData;
use renderer_streaming::upload_manager::ImageAssetData;
use renderer_streaming::upload_manager::LoadRequest;
use renderer_streaming::upload_manager::UploadManager;
use renderer_streaming::upload_op::LoadHandle;
use renderer_streaming::upload_op::UploadOp;
use renderer_streaming::upload_op::UploadOpResult;

type TestBatch = InProgressUpload<u64, u64, String, String, u32>;

fn small_texture() -> DecodedTexture {
    DecodedTexture {
        width: 4,
        height: 2,
        mip_level_count: 3,
        color_space: ColorSpace::Srgb,
        data: vec![1, 2, 3, 4],
    }
}

fn working(transfer: bool, dst: bool) -> DevicePollStatus {
    DevicePollStatus::Working { transfer_fence_signaled: transfer, dst_fence_signaled: dst }
}

#[test]
fn dropping_unresolved_op_sends_exactly_one_drop_signal() {
    let (result_tx, result_rx) = unbounded::<UploadOpResult<u64, String, u32>>();
    let (asset_tx, _asset_rx) = unbounded::<String>();
    let op = UploadOp::<u64, String, u32>::new(LoadHandle(7), asset_tx, result_tx);
    drop(op);
    match result_rx.try_recv() {
        Ok(UploadOpResult::UploadDrop(handle)) => assert_eq!(handle, LoadHandle(7)),
        _ => panic!("expected exactly one drop signal"),
    }
    assert!(result_rx.try_recv().is_err());
}

#[test]
fn completing_an_op_sends_exactly_one_completion_and_no_drop() {
    let (result_tx, result_rx) = unbounded::<UploadOpResult<u64, String, u32>>();
    let (asset_tx, _asset_rx) = unbounded::<String>();
    let op = UploadOp::<u64, String, u32>::new(LoadHandle(3), asset_tx, result_tx);
    op.complete(42u64, 9u32);
    match result_rx.try_recv() {
        Ok(UploadOpResult::UploadComplete(load_op, _asset_sender, resource)) => {
            assert_eq!(load_op, 9);
            assert_eq!(resource, 42);
        },
        _ => panic!("expected exactly one completion signal"),
    }
    assert!(result_rx.try_recv().is_err());
}

#[test]
fn failing_an_op_sends_exactly_one_error_and_no_drop() {
    let (result_tx, result_rx) = unbounded::<UploadOpResult<u64, String, u32>>();
    let (asset_tx, _asset_rx) = unbounded::<String>();
    let op = UploadOp::<u64, String, u32>::new(LoadHandle(5), asset_tx, result_tx);
    op.error();
    match result_rx.try_recv() {
        Ok(UploadOpResult::UploadError(handle)) => assert_eq!(handle, LoadHandle(5)),
        _ => panic!("expected exactly one error signal"),
    }
    assert!(result_rx.try_recv().is_err());
}

fn batch_with_uploads(
    image_resources: Vec<u64>,
    buffer_resources: Vec<u64>,
    state: TransferUploadState,
) -> (TestBatch, crossbeam_channel::Receiver<UploadOpResult<u64, String, u32>>,
    crossbeam_channel::Receiver<UploadOpResult<u64, String, u32>>) {
    let (image_result_tx, image_result_rx) = unbounded();
    let (buffer_result_tx, buffer_result_rx) = unbounded();
    let (asset_tx, _asset_rx) = unbounded::<String>();
    let mut pending_images = Vec::new();
    for i in 0..image_resources.len() {
        pending_images.push(PendingImageUpload {
            load_op: i as u32,
            upload_op: UploadOp::new(
                LoadHandle(i as u64),
                asset_tx.clone(),
                image_result_tx.clone(),
            ),
            texture: small_texture(),
        });
    }
    let mut pending_buffers = Vec::new();
    for i in 0..buffer_resources.len() {
        pending_buffers.push(PendingBufferUpload {
            load_op: 100 + i as u32,
            upload_op: UploadOp::new(
                LoadHandle(100 + i as u64),
                asset_tx.clone(),
                buffer_result_tx.clone(),
            ),
            data: vec![0xAB; 8],
        });
    }
    let image_uploads = pair_image_uploads(pending_images, image_resources);
    let buffer_uploads = pair_buffer_uploads(pending_buffers, buffer_resources);
    let batch = InProgressUpload::new(image_uploads, buffer_uploads, state);
    (batch, image_result_rx, buffer_result_rx)
}

#[test]
fn failed_batch_resolves_every_channel_once_and_releases_every_resource_once() {
    let states = [
        TransferUploadState::Writable,
        TransferUploadState::SentToTransferQueue,
        TransferUploadState::PendingSubmitDstQueue,
        TransferUploadState::SentToDstQueue,
    ];
    for state in states {
        let (mut batch, image_rx, buffer_rx) = batch_with_uploads(
            vec![10, 11],
            vec![20],
            state,
        );
        let (result, actions) = batch.poll_load(&DevicePollStatus::Failed(DeviceError(-4)));
        assert_eq!(result, InProgressUploadPollResult::Error);
        assert_eq!(actions.destroy_images, vec![10, 11]);
        assert_eq!(actions.destroy_buffers, vec![20]);
        assert_eq!(actions.error_load_ops, vec![0, 1, 100]);
        assert!(!actions.submit_transfer);
        assert!(!actions.submit_dst);

        let mut image_errors = 0;
        while let Ok(message) = image_rx.try_recv() {
            match message {
                UploadOpResult::UploadError(_) => image_errors += 1,
                _ => panic!("only error signals expected"),
            }
        }
        assert_eq!(image_errors, 2);
        let mut buffer_errors = 0;
        while let Ok(message) = buffer_rx.try_recv() {
            match message {
                UploadOpResult::UploadError(_) => buffer_errors += 1,
                _ => panic!("only error signals expected"),
            }
        }
        assert_eq!(buffer_errors, 1);

        // A second poll finds the batch finished: nothing fires twice.
        let (again, again_actions) = batch.poll_load(&working(true, true));
        assert_eq!(again, InProgressUploadPollResult::Destroyed);
        assert!(again_actions.destroy_images.is_empty());
        assert!(again_actions.error_load_ops.is_empty());
        assert!(image_rx.try_recv().is_err());
        assert!(buffer_rx.try_recv().is_err());
    }
}

#[test]
fn poll_walks_the_two_queue_protocol_in_order() {
    let (mut batch, _image_rx, _buffer_rx) = batch_with_uploads(
        vec![1],
        vec![],
        TransferUploadState::Writable,
    );
    // First poll submits the transfer half and rests on its fence.
    let (result, actions) = batch.poll_load(&working(false, false));
    assert_eq!(result, InProgressUploadPollResult::Pending);
    assert!(actions.submit_transfer);
    assert!(!actions.submit_dst);
    // The transfer fence signals: the destination half is submitted.
    let (result, actions) = batch.poll_load(&working(true, false));
    assert_eq!(result, InProgressUploadPollResult::Pending);
    assert!(!actions.submit_transfer);
    assert!(actions.submit_dst);
    // The destination fence signals: the batch completes.
    let (result, actions) = batch.poll_load(&working(true, true));
    assert_eq!(result, InProgressUploadPollResult::Complete);
    assert!(!actions.submit_transfer);
    assert!(!actions.submit_dst);
}

#[test]
fn one_tick_batches_every_queued_upload_and_completes_when_fences_signal() {
    let mut manager = UploadManager::<u64, u64, String, String, u32>::new();
    let (asset_tx, _asset_rx) = unbounded::<String>();

    for i in 0..3u64 {
        let accepted = manager.upload_image(LoadRequest {
            load_handle: LoadHandle(i),
            load_op: i as u32,
            result_tx: asset_tx.clone(),
            asset: ImageAssetData {
                width: 4,
                height: 2,
                color_space: ColorSpace::Srgb,
                data: vec![7; 32],
            },
        });
        assert!(accepted.is_ok());
    }
    for i in 0..2u64 {
        let accepted = manager.upload_buffer(LoadRequest {
            load_handle: LoadHandle(100 + i),
            load_op: 100 + i as u32,
            result_tx: asset_tx.clone(),
            asset: BufferAssetData { data: vec![9; 16] },
        });
        assert!(accepted.is_ok());
    }

    // The update thread drains everything queued before the tick.
    let pending_images = manager.drain_pending_images();
    let pending_buffers = manager.drain_pending_buffers();
    assert_eq!(pending_images.len(), 3);
    assert_eq!(pending_buffers.len(), 2);

    // The driver creates one device resource per request, in order.
    let image_uploads = pair_image_uploads(pending_images, vec![500, 501, 502]);
    let buffer_uploads = pair_buffer_uploads(pending_buffers, vec![600, 601]);

    // Tick one: exactly one batch with all five uploads; its transfer half
    // is submitted and it stays pending while the fences are unsignaled.
    let statuses = vec![working(false, false)];
    let entries = manager.update(image_uploads, buffer_uploads, &statuses);
    assert_eq!(entries.len(), 1);
    assert_eq!(entries[0].result, InProgressUploadPollResult::Pending);
    assert!(entries[0].actions.submit_transfer);
    assert_eq!(manager.in_progress_len(), 1);
    assert!(manager.image_upload_result_rx.try_recv().is_err());
    assert!(manager.buffer_upload_result_rx.try_recv().is_err());

    // Tick two: the fences signal, all five uploads complete, and the
    // batch leaves the in-flight set.
    let statuses = vec![working(true, true)];
    let entries = manager.update(Vec::new(), Vec::new(), &statuses);
    assert_eq!(entries.len(), 1);
    assert_eq!(entries[0].result, InProgressUploadPollResult::Complete);
    assert_eq!(manager.in_progress_len(), 0);

    let mut image_resources = Vec::new();
    while let Ok(message) = manager.image_upload_result_rx.try_recv() {
        match message {
            UploadOpResult::UploadComplete(_, _, resource) => image_resources.push(resource),
            _ => panic!("every image upload must complete"),
        }
    }
    assert_eq!(image_resources, vec![500, 501, 502]);
    let mut buffer_resources = Vec::new();
    while let Ok(message) = manager.buffer_upload_result_rx.try_recv() {
        match message {
            UploadOpResult::UploadComplete(_, _, resource) => buffer_resources.push(resource),
            _ => panic!("every buffer upload must complete"),
        }
    }
    assert_eq!(buffer_resources, vec![600, 601]);
}

#[test]
fn empty_tick_starts_no_batch() {
    let mut manager = UploadManager::<u64, u64, String, String, u32>::new();
    let statuses = Vec::new();
    let entries = manager.update(Vec::new(), Vec::new(), &statuses);
    assert!(entries.is_empty());
    assert_eq!(manager.in_progress_len(), 0);
}

#[test]
fn dropping_drained_requests_signals_abandonment() {
    // The driver failed to create device resources for the drained
    // requests and dropped them: every request's channel reports the drop.
    let mut manager = UploadManager::<u64, u64, String, String, u32>::new();
    let (asset_tx, _asset_rx) = unbounded::<String>();
    for i in 0..2u64 {
        manager
            .upload_image(LoadRequest {
                load_handle: LoadHandle(i),
                load_op: i as u32,
                result_tx: asset_tx.clone(),
                asset: ImageAssetData {
                    width: 8,
                    height: 8,
                    color_space: ColorSpace::Linear,
                    data: vec![1; 8],
                },
            })
            .unwrap();
    }
    let pending = manager.drain_pending_images();
    assert_eq!(pending.len(), 2);
    drop(pending);
    let mut drops = 0;
    while let Ok(message) = manager.image_upload_result_rx.try_recv() {
        match message {
            UploadOpResult::UploadDrop(_) => drops += 1,
            _ => panic!("only drop signals expected"),
        }
    }
    assert_eq!(drops, 2);
}

#[test]
fn finished_batches_leave_by_swap_removal_and_identities_survive() {
    let mut manager = UploadManager::<u64, u64, String, String, u32>::new();
    let (asset_tx, _asset_rx) = unbounded::<String>();

    // First tick: a batch holding buffer resource 7.
    manager
        .upload_buffer(LoadRequest {
            load_handle: LoadHandle(1),
            load_op: 1,
            result_tx: asset_tx.clone(),
            asset: BufferAssetData { data: vec![1] },
        })
        .unwrap();
    let pending = manager.drain_pending_buffers();
    let uploads = pair_buffer_uploads(pending, vec![7]);
    manager.update(Vec::new(), uploads, &vec![working(false, false)]);

    // Second tick: a batch holding buffer resource 8 joins at index 1.
    manager
        .upload_buffer(LoadRequest {
            load_handle: LoadHandle(2),
            load_op: 2,
            result_tx: asset_tx.clone(),
            asset: BufferAssetData { data: vec![2] },
        })
        .unwrap();
    let pending = manager.drain_pending_buffers();
    let uploads = pair_buffer_uploads(pending, vec![8]);
    let entries = manager.update(
        Vec::new(),
        uploads,
        &vec![working(false, false), working(false, false)],
    );
    assert_eq!(entries.len(), 2);
    assert_eq!(entries[0].index, 1);
    assert_eq!(entries[1].index, 0);
    assert_eq!(manager.in_progress_len(), 2);

    // Third tick: only the older batch (index 0) finishes; the younger one
    // is swapped into its place and keeps its own payload.
    let entries = manager.update(
        Vec::new(),
        Vec::new(),
        &vec![working(true, true), working(false, false)],
    );
    assert_eq!(entries[0].index, 1);
    assert_eq!(entries[0].result, InProgressUploadPollResult::Pending);
    assert_eq!(entries[1].index, 0);
    assert_eq!(entries[1].result, InProgressUploadPollResult::Complete);
    assert_eq!(manager.in_progress_len(), 1);
    match manager.buffer_upload_result_rx.try_recv() {
        Ok(UploadOpResult::UploadComplete(load_op, _, resource)) => {
            assert_eq!(load_op, 1);
            assert_eq!(resource, 7);
        },
        _ => panic!("the older batch must have completed"),
    }

    // Fourth tick: the surviving batch completes with its own resource.
    let entries = manager.update(Vec::new(), Vec::new(), &vec![working(true, true)]);
    assert_eq!(entries[0].result, InProgressUploadPollResult::Complete);
    assert_eq!(manager.in_progress_len(), 0);
    match manager.buffer_upload_result_rx.try_recv() {
        Ok(UploadOpResult::UploadComplete(load_op, _, resource)) => {
            assert_eq!(load_op, 2);
            assert_eq!(resource, 8);
        },
        _ => panic!("the younger batch must have completed"),
    }
}
