//! The public-facing facade of the upload pipeline.
//!
//! The manager accepts decode-ready asset payloads, wraps each in a request
//! with a fresh completion channel, and pushes it onto the upload queue's
//! producer channel. The asset-loading system drains the result channels
//! each tick to finalize loaded assets or report failures. `update` must be
//! called from the thread that owns the device queues; it is the single
//! point where submission and polling happen.

use vstd::prelude::*;
use vstd::arithmetic::power2::lemma2_to64;
use vstd::arithmetic::power2::lemma_pow2_unfold;
use vstd::arithmetic::power2::pow2;
use crossbeam_channel::Receiver;
use crossbeam_channel::Sender;
use crate::channel::channel_send;
use crate::channel::channel_sender_clone;
use crate::channel::channel_unbounded;
use crate::upload::ColorSpace;
use crate::upload::DecodedTexture;
use crate::upload::DevicePollStatus;
use crate::upload::InFlightBufferUpload;
use crate::upload::InFlightImageUpload;
use crate::upload::InProgressUpload;
use crate::upload::PendingBufferUpload;
use crate::upload::PendingImageUpload;
use crate::upload::TransferUploadState;
use crate::upload::UploadPollEntry;
use crate::upload::UploadQueue;
use crate::upload::poll_entries_match;
use crate::upload::spec_new_batch;
use crate::upload::spec_poll_all_above;
use crate::upload_op::LoadHandle;
use crate::upload_op::UploadOp;
use crate::upload_op::UploadOpResult;

verus! {

/// Why the manager could not accept a request.
#[derive(Clone, Copy, PartialEq, Eq, Structural, Debug)]
pub enum UploadError {
    /// The upload queue's receiving half has been torn down, so the request
    /// could not be enqueued.
    QueueUnavailable,
}

/// A decode-ready image payload: pixel bytes plus the dimensions and color
/// space the decoding subsystem reported.
pub struct ImageAssetData {
    pub width: u32,
    pub height: u32,
    pub color_space: ColorSpace,
    pub data: Vec<u8>,
}

/// A decode-ready buffer payload.
pub struct BufferAssetData {
    pub data: Vec<u8>,
}

/// One request from the asset-loading system: the load's identity, its
/// continuation token, the sender that delivers the finalized asset back,
/// and the decoded payload.
#[verifier::reject_recursive_types(AssetT)]
pub struct LoadRequest<DataT, AssetT, LoadOpT> {
    pub load_handle: LoadHandle,
    pub load_op: LoadOpT,
    pub result_tx: Sender<AssetT>,
    pub asset: DataT,
}

/// Levels in the full mip chain of a `width` by `height` image: one level
/// per halving until both dimensions reach one texel.
pub open spec fn spec_mip_level_count(extent: nat) -> nat
    decreases extent,
{
    if extent <= 1 {
        1
    } else {
        1 + spec_mip_level_count(extent / 2)
    }
}

/// A mip chain over an extent below `pow2(bits)` has at most `bits + 1`
/// levels: each level halves the extent.
proof fn lemma_mip_level_count_bounded(extent: nat, bits: nat)
    requires
        extent < pow2(bits),
    ensures
        spec_mip_level_count(extent) <= bits + 1,
    decreases bits,
{
    if extent > 1 {
        assert(bits > 0) by {
            if bits == 0 {
                lemma2_to64();
            }
        }
        lemma_pow2_unfold(bits);
        lemma_mip_level_count_bounded(extent / 2, (bits - 1) as nat);
    }
}

/// How many mip levels the default settings give a newly uploaded image:
/// the full chain down to one texel.
pub fn default_mip_level_count(width: u32, height: u32) -> (levels: u32)
    ensures
        levels == spec_mip_level_count(if width >= height {
            width as nat
        } else {
            height as nat
        }),
{
    let extent0: u32 = if width >= height {
        width
    } else {
        height
    };
    proof {
        lemma2_to64();
        lemma_mip_level_count_bounded(extent0 as nat, 32);
    }
    let mut extent: u32 = extent0;
    let mut levels: u32 = 1;
    while extent > 1
        invariant
            1 <= levels,
            levels - 1 + spec_mip_level_count(extent as nat) == spec_mip_level_count(
                extent0 as nat,
            ),
            spec_mip_level_count(extent0 as nat) <= 33,
        decreases extent,
    {
        extent = extent / 2;
        levels = levels + 1;
    }
    levels
}

/// Facade over the upload queue: wraps requests in completion channels and
/// exposes the result channels that the asset-loading system drains.
#[verifier::reject_recursive_types(RI)]
#[verifier::reject_recursive_types(RB)]
#[verifier::reject_recursive_types(AI)]
#[verifier::reject_recursive_types(AB)]
#[verifier::reject_recursive_types(L)]
pub struct UploadManager<RI, RB, AI, AB, L> {
    upload_queue: UploadQueue<RI, RB, AI, AB, L>,
    pub image_upload_result_tx: Sender<UploadOpResult<RI, AI, L>>,
    pub image_upload_result_rx: Receiver<UploadOpResult<RI, AI, L>>,
    pub buffer_upload_result_tx: Sender<UploadOpResult<RB, AB, L>>,
    pub buffer_upload_result_rx: Receiver<UploadOpResult<RB, AB, L>>,
}

impl<RI, RB, AI, AB, L> UploadManager<RI, RB, AI, AB, L> {
    /// The batches the manager's queue has in flight.
    pub closed spec fn in_progress(self) -> Seq<InProgressUpload<RI, RB, AI, AB, L>> {
        self.upload_queue.in_progress()
    }

    pub closed spec fn wf(self) -> bool {
        self.upload_queue.wf()
    }

    pub fn new() -> (manager: Self)
        ensures
            manager.wf(),
            manager.in_progress().len() == 0,
    {
        let (image_upload_result_tx, image_upload_result_rx) = channel_unbounded();
        let (buffer_upload_result_tx, buffer_upload_result_rx) = channel_unbounded();
        UploadManager {
            upload_queue: UploadQueue::new(),
            image_upload_result_tx,
            image_upload_result_rx,
            buffer_upload_result_tx,
            buffer_upload_result_rx,
        }
    }

    /// Accept an image upload request: derive the decoded texture from the
    /// payload, wire a fresh completion channel to the manager's image
    /// result channel, and enqueue it. Fails only when the queue's receiver
    /// is gone, and then no request was enqueued.
    pub fn upload_image(&self, request: LoadRequest<ImageAssetData, AI, L>) -> (r: Result<
        (),
        UploadError,
    >)
        ensures
            r is Err ==> r == Err::<(), UploadError>(UploadError::QueueUnavailable),
    {
        let mip_level_count = default_mip_level_count(request.asset.width, request.asset.height);
        let texture = DecodedTexture {
            width: request.asset.width,
            height: request.asset.height,
            mip_level_count,
            color_space: request.asset.color_space,
            data: request.asset.data,
        };
        let accepted = channel_send(
            self.upload_queue.pending_image_tx(),
            PendingImageUpload {
                load_op: request.load_op,
                upload_op: UploadOp::new(
                    request.load_handle,
                    request.result_tx,
                    channel_sender_clone(&self.image_upload_result_tx),
                ),
                texture,
            },
        );
        if accepted {
            Ok(())
        } else {
            Err(UploadError::QueueUnavailable)
        }
    }

    /// Accept a buffer upload request the same way.
    pub fn upload_buffer(&self, request: LoadRequest<BufferAssetData, AB, L>) -> (r: Result<
        (),
        UploadError,
    >)
        ensures
            r is Err ==> r == Err::<(), UploadError>(UploadError::QueueUnavailable),
    {
        let accepted = channel_send(
            self.upload_queue.pending_buffer_tx(),
            PendingBufferUpload {
                load_op: request.load_op,
                upload_op: UploadOp::new(
                    request.load_handle,
                    request.result_tx,
                    channel_sender_clone(&self.buffer_upload_result_tx),
                ),
                data: request.asset.data,
            },
        );
        if accepted {
            Ok(())
        } else {
            Err(UploadError::QueueUnavailable)
        }
    }

    /// Take every image request queued so far; forwarded from the queue.
    pub fn drain_pending_images(&self) -> Vec<PendingImageUpload<RI, AI, L>> {
        self.upload_queue.drain_pending_images()
    }

    /// Take every buffer request queued so far; forwarded from the queue.
    pub fn drain_pending_buffers(&self) -> Vec<PendingBufferUpload<RB, AB, L>> {
        self.upload_queue.drain_pending_buffers()
    }

    /// How many batches are in flight.
    pub fn in_progress_len(&self) -> (n: usize)
        ensures
            n == self.in_progress().len(),
    {
        self.upload_queue.in_progress_len()
    }

    /// One update tick, forwarded to the queue: start a batch for the
    /// drained-and-paired uploads and poll everything in flight.
    pub fn update(
        &mut self,
        image_uploads: Vec<InFlightImageUpload<RI, AI, L>>,
        buffer_uploads: Vec<InFlightBufferUpload<RB, AB, L>>,
        statuses: &Vec<DevicePollStatus>,
    ) -> (entries: Vec<UploadPollEntry<RI, RB, L>>)
        requires
            old(self).wf(),
            statuses@.len() == old(self).in_progress().len() + (
            if image_uploads@.len() == 0 && buffer_uploads@.len() == 0 {
                0int
            } else {
                1int
            }),
        ensures
            final(self).wf(),
            ({
                let all = if image_uploads@.len() == 0 && buffer_uploads@.len() == 0 {
                    old(self).in_progress()
                } else {
                    old(self).in_progress().push(
                        spec_new_batch(
                            image_uploads,
                            buffer_uploads,
                            TransferUploadState::Writable,
                        ),
                    )
                };
                &&& final(self).in_progress() == spec_poll_all_above(all, statuses@, 0)
                &&& poll_entries_match(entries@, all, statuses@)
            }),
    {
        self.upload_queue.update(image_uploads, buffer_uploads, statuses)
    }
}

} // verus!
