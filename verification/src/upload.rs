//! The upload batch state machine and the upload queue.
//!
//! A batch is the unit of GPU transfer work: one transfer-capable command
//! buffer/fence pair plus every image and buffer upload recorded into it.
//! All uploads in a batch complete or fail together. The batch walks
//! `Writable -> SentToTransferQueue -> PendingSubmitDstQueue -> SentToDstQueue
//! -> Complete`, or drops to `Error` from any of them when the device fails.
//!
//! The device itself (queue submission, fence polling, resource creation and
//! destruction) lives with the driver that owns the device queues. Each poll
//! takes what the driver observed of the device as an argument and returns
//! the actions the driver must perform, so every decision the state machine
//! makes is verified for every possible device observation.

use vstd::prelude::*;
use crossbeam_channel::Receiver;
use crossbeam_channel::Sender;
use crate::channel::channel_drain;
use crate::channel::channel_unbounded;
use crate::upload_op::UploadOp;

verus! {

/// A device-level failure code, as the device edge reported it.
#[derive(Clone, Copy, PartialEq, Eq, Structural, Debug)]
pub struct DeviceError(pub i32);

/// What the driver observed of a batch's device objects just before polling
/// it: either the two fence states, or a device failure.
#[derive(Clone, Copy, PartialEq, Eq, Structural, Debug)]
pub enum DevicePollStatus {
    Working { transfer_fence_signaled: bool, dst_fence_signaled: bool },
    Failed(DeviceError),
}

/// Where a batch stands in the two-queue ownership-transfer protocol.
///
/// A barrier on the dedicated transfer queue hands each resource off, and a
/// second barrier on the destination (graphics) queue must be submitted
/// before sampling the resource is legal; the states sequence those two
/// submissions without ever blocking the update thread.
#[derive(Clone, Copy, PartialEq, Eq, Structural, Debug)]
pub enum TransferUploadState {
    /// The CPU may still stage data; nothing submitted yet.
    Writable,
    /// The transfer-queue half is submitted; waiting on its fence.
    SentToTransferQueue,
    /// The transfer finished; the destination-queue barrier must be submitted.
    PendingSubmitDstQueue,
    /// The destination-queue half is submitted; waiting on its fence.
    SentToDstQueue,
    /// Terminal success; never stored in a live batch.
    Complete,
}

/// The result of polling one batch (which may contain many uploads).
#[derive(Clone, Copy, PartialEq, Eq, Structural, Debug)]
pub enum InProgressUploadPollResult {
    Pending,
    Complete,
    Error,
    Destroyed,
}

/// What the driver must do after one poll: submissions to perform, and on
/// the error path, the continuation tokens to fail and the device resources
/// to destroy inline (never left to implicit cleanup, so teardown stays
/// deterministic relative to the failing device context).
pub struct PollActions<RI, RB, L> {
    /// Submit the batch's transfer-queue command buffer.
    pub submit_transfer: bool,
    /// Submit the batch's destination-queue ownership-transfer barrier.
    pub submit_dst: bool,
    /// Fail these asset-load continuations (image uploads first, then buffer
    /// uploads); empty unless the poll ended in `Error`.
    pub error_load_ops: Vec<L>,
    /// Destroy these image resources now; empty unless the poll ended in `Error`.
    pub destroy_images: Vec<RI>,
    /// Destroy these buffer resources now; empty unless the poll ended in `Error`.
    pub destroy_buffers: Vec<RB>,
}

/// The state a live batch reaches after one poll under the given fence
/// observation: the machine advances through each submission it can make
/// with the fences as observed, then rests.
pub open spec fn spec_poll_next_state(
    state: TransferUploadState,
    transfer_fence_signaled: bool,
    dst_fence_signaled: bool,
) -> TransferUploadState {
    let after_transfer_submit = if state is Writable {
        TransferUploadState::SentToTransferQueue
    } else {
        state
    };
    let after_transfer_wait = if after_transfer_submit is SentToTransferQueue
        && transfer_fence_signaled {
        TransferUploadState::PendingSubmitDstQueue
    } else {
        after_transfer_submit
    };
    let after_dst_submit = if after_transfer_wait is PendingSubmitDstQueue {
        TransferUploadState::SentToDstQueue
    } else {
        after_transfer_wait
    };
    if after_dst_submit is SentToDstQueue && dst_fence_signaled {
        TransferUploadState::Complete
    } else {
        after_dst_submit
    }
}

/// Whether one poll from `state` submits the transfer-queue half.
pub open spec fn spec_poll_submits_transfer(state: TransferUploadState) -> bool {
    state is Writable
}

/// Whether one poll from `state` submits the destination-queue half.
pub open spec fn spec_poll_submits_dst(
    state: TransferUploadState,
    transfer_fence_signaled: bool,
) -> bool {
    ||| state is PendingSubmitDstQueue
    ||| (state is Writable || state is SentToTransferQueue) && transfer_fence_signaled
}

/// The poll result a live batch reports under the given fence observation.
pub open spec fn spec_poll_result(
    state: TransferUploadState,
    transfer_fence_signaled: bool,
    dst_fence_signaled: bool,
) -> InProgressUploadPollResult {
    if spec_poll_next_state(state, transfer_fence_signaled, dst_fence_signaled) is Complete {
        InProgressUploadPollResult::Complete
    } else {
        InProgressUploadPollResult::Pending
    }
}

/// One image upload the queue has started: the continuation token, the
/// completion channel, and the device-side image being populated. The batch
/// owns the image until it hands it off through the completion channel or
/// releases it on the error path.
#[verifier::reject_recursive_types(RI)]
#[verifier::reject_recursive_types(AI)]
#[verifier::reject_recursive_types(L)]
pub struct InFlightImageUpload<RI, AI, L> {
    pub load_op: L,
    pub upload_op: UploadOp<RI, AI, L>,
    pub image: RI,
}

/// One buffer upload the queue has started; owned the same way as an
/// in-flight image upload.
#[verifier::reject_recursive_types(RB)]
#[verifier::reject_recursive_types(AB)]
#[verifier::reject_recursive_types(L)]
pub struct InFlightBufferUpload<RB, AB, L> {
    pub load_op: L,
    pub upload_op: UploadOp<RB, AB, L>,
    pub buffer: RB,
}

#[verifier::reject_recursive_types(RI)]
#[verifier::reject_recursive_types(RB)]
#[verifier::reject_recursive_types(AI)]
#[verifier::reject_recursive_types(AB)]
#[verifier::reject_recursive_types(L)]
struct InProgressUploadInner<RI, RB, AI, AB, L> {
    image_uploads: Vec<InFlightImageUpload<RI, AI, L>>,
    buffer_uploads: Vec<InFlightBufferUpload<RB, AB, L>>,
    state: TransferUploadState,
}

/// One batch of uploads that has been started.
///
/// The inner payload sits in an option so that polling can temporarily take
/// ownership of it; a batch whose payload is gone is finished, and polling
/// it again reports `Destroyed` instead of touching anything twice.
#[verifier::reject_recursive_types(RI)]
#[verifier::reject_recursive_types(RB)]
#[verifier::reject_recursive_types(AI)]
#[verifier::reject_recursive_types(AB)]
#[verifier::reject_recursive_types(L)]
pub struct InProgressUpload<RI, RB, AI, AB, L> {
    inner: Option<InProgressUploadInner<RI, RB, AI, AB, L>>,
}

impl<RI, RB, AI, AB, L> InProgressUpload<RI, RB, AI, AB, L> {
    /// A live batch still owns its payload; a finished one does not.
    pub closed spec fn is_live(self) -> bool {
        self.inner is Some
    }

    /// The protocol state of a live batch.
    pub closed spec fn spec_state(self) -> TransferUploadState
        recommends
            self.is_live(),
    {
        self.inner.unwrap().state
    }

    /// The same batch with its protocol state replaced; how a pending poll
    /// leaves a live batch.
    pub closed spec fn with_state(self, state: TransferUploadState) -> Self
        recommends
            self.is_live(),
    {
        InProgressUpload {
            inner: Some(InProgressUploadInner { state, ..self.inner.unwrap() }),
        }
    }

    /// The image uploads a live batch owns, in the order they were recorded.
    pub closed spec fn image_uploads_seq(self) -> Seq<InFlightImageUpload<RI, AI, L>> {
        if self.inner is Some {
            self.inner.unwrap().image_uploads@
        } else {
            Seq::empty()
        }
    }

    /// The buffer uploads a live batch owns, in the order they were recorded.
    pub closed spec fn buffer_uploads_seq(self) -> Seq<InFlightBufferUpload<RB, AB, L>> {
        if self.inner is Some {
            self.inner.unwrap().buffer_uploads@
        } else {
            Seq::empty()
        }
    }

    /// The image resources the batch owns.
    pub open spec fn image_resources(self) -> Seq<RI> {
        self.image_uploads_seq().map_values(|u: InFlightImageUpload<RI, AI, L>| u.image)
    }

    /// The buffer resources the batch owns.
    pub open spec fn buffer_resources(self) -> Seq<RB> {
        self.buffer_uploads_seq().map_values(|u: InFlightBufferUpload<RB, AB, L>| u.buffer)
    }

    /// The continuation tokens of the image uploads.
    pub open spec fn image_load_ops(self) -> Seq<L> {
        self.image_uploads_seq().map_values(|u: InFlightImageUpload<RI, AI, L>| u.load_op)
    }

    /// The continuation tokens of the buffer uploads.
    pub open spec fn buffer_load_ops(self) -> Seq<L> {
        self.buffer_uploads_seq().map_values(|u: InFlightBufferUpload<RB, AB, L>| u.load_op)
    }

    /// A live batch never stores the terminal state, so polling resolves its
    /// uploads at most once: the one poll that reaches `Complete` or `Error`
    /// consumes the payload.
    pub closed spec fn wf(self) -> bool {
        self.inner matches Some(inner) ==> !(inner.state is Complete)
    }

    pub fn new(
        image_uploads: Vec<InFlightImageUpload<RI, AI, L>>,
        buffer_uploads: Vec<InFlightBufferUpload<RB, AB, L>>,
        state: TransferUploadState,
    ) -> (batch: Self)
        requires
            !(state is Complete),
        ensures
            batch.wf(),
            batch.is_live(),
            batch.spec_state() == state,
            batch.image_uploads_seq() == image_uploads@,
            batch.buffer_uploads_seq() == buffer_uploads@,
            batch == spec_new_batch(image_uploads, buffer_uploads, state),
    {
        InProgressUpload {
            inner: Some(InProgressUploadInner { image_uploads, buffer_uploads, state }),
        }
    }

    /// Take ownership of the payload, leaving the batch finished.
    fn take_inner(&mut self) -> (inner: Option<InProgressUploadInner<RI, RB, AI, AB, L>>)
        ensures
            inner == old(self).inner,
            final(self).inner is None,
    {
        let mut inner = None;
        core::mem::swap(&mut self.inner, &mut inner);
        inner
    }

    /// Drive the batch one step under the given device observation.
    ///
    /// On success every upload's completion channel receives the finished
    /// resource, exactly once, because resolving consumes the channel and the
    /// payload leaves the batch. On failure every completion channel receives
    /// the error signal and the returned actions list every owned resource
    /// exactly once for inline destruction, together with every continuation
    /// token to fail. A finished batch reports `Destroyed` and nothing else
    /// happens; reaching that case is a caller bug.
    pub fn poll_load(&mut self, status: &DevicePollStatus) -> (r: (
        InProgressUploadPollResult,
        PollActions<RI, RB, L>,
    ))
        requires
            old(self).wf(),
        ensures
            final(self).wf(),
            !old(self).is_live() ==> {
                &&& r.0 is Destroyed
                &&& !final(self).is_live()
                &&& !r.1.submit_transfer && !r.1.submit_dst
                &&& r.1.error_load_ops@.len() == 0
                &&& r.1.destroy_images@.len() == 0
                &&& r.1.destroy_buffers@.len() == 0
            },
            old(self).is_live() && (status is Failed) ==> {
                &&& r.0 is Error
                &&& !final(self).is_live()
                &&& !r.1.submit_transfer && !r.1.submit_dst
                &&& r.1.error_load_ops@ == old(self).image_load_ops() + old(self).buffer_load_ops()
                &&& r.1.destroy_images@ == old(self).image_resources()
                &&& r.1.destroy_buffers@ == old(self).buffer_resources()
            },
            old(self).is_live() && (status is Working) ==> {
                let t = status->transfer_fence_signaled;
                let d = status->dst_fence_signaled;
                let s = old(self).spec_state();
                &&& r.0 == spec_poll_result(s, t, d)
                &&& r.1.submit_transfer == spec_poll_submits_transfer(s)
                &&& r.1.submit_dst == spec_poll_submits_dst(s, t)
                &&& r.1.error_load_ops@.len() == 0
                &&& r.1.destroy_images@.len() == 0
                &&& r.1.destroy_buffers@.len() == 0
                &&& (r.0 is Pending ==> {
                    &&& final(self).is_live()
                    &&& final(self).spec_state() == spec_poll_next_state(s, t, d)
                    &&& final(self).image_uploads_seq() == old(self).image_uploads_seq()
                    &&& final(self).buffer_uploads_seq() == old(self).buffer_uploads_seq()
                    &&& *final(self) == old(self).with_state(spec_poll_next_state(s, t, d))
                })
                &&& (r.0 is Complete ==> !final(self).is_live())
            },
    {
        let mut actions = PollActions {
            submit_transfer: false,
            submit_dst: false,
            error_load_ops: Vec::new(),
            destroy_images: Vec::new(),
            destroy_buffers: Vec::new(),
        };
        let taken = self.take_inner();
        match taken {
            None => (InProgressUploadPollResult::Destroyed, actions),
            Some(inner) => {
                match status {
                    DevicePollStatus::Failed(_) => {
                        let mut inner = inner;
                        let ghost imgs0 = inner.image_uploads@;
                        let ghost bufs0 = inner.buffer_uploads@;
                        while inner.image_uploads.len() > 0
                            invariant
                                actions.destroy_images@.len() <= imgs0.len(),
                                inner.image_uploads@ == imgs0.skip(
                                    actions.destroy_images@.len() as int,
                                ),
                                actions.error_load_ops@.len() == actions.destroy_images@.len(),
                                forall|j: int|
                                    0 <= j < actions.destroy_images@.len() ==> {
                                        &&& #[trigger] actions.destroy_images@[j] == imgs0[j].image
                                        &&& actions.error_load_ops@[j] == imgs0[j].load_op
                                    },
                                actions.destroy_buffers@.len() == 0,
                                inner.buffer_uploads@ == bufs0,
                                !actions.submit_transfer && !actions.submit_dst,
                            decreases inner.image_uploads.len(),
                        {
                            let upload = inner.image_uploads.remove(0);
                            let ghost n = actions.destroy_images@.len() as int;
                            assert(upload == imgs0[n]);
                            actions.error_load_ops.push(upload.load_op);
                            actions.destroy_images.push(upload.image);
                            upload.upload_op.error();
                            proof {
                                assert(inner.image_uploads@ =~= imgs0.skip(n + 1));
                            }
                        }
                        proof {
                            assert(bufs0.skip(0) =~= bufs0);
                        }
                        while inner.buffer_uploads.len() > 0
                            invariant
                                actions.destroy_images@.len() == imgs0.len(),
                                forall|j: int|
                                    0 <= j < imgs0.len() ==> {
                                        &&& #[trigger] actions.destroy_images@[j] == imgs0[j].image
                                        &&& actions.error_load_ops@[j] == imgs0[j].load_op
                                    },
                                actions.destroy_buffers@.len() <= bufs0.len(),
                                inner.buffer_uploads@ == bufs0.skip(
                                    actions.destroy_buffers@.len() as int,
                                ),
                                actions.error_load_ops@.len() == imgs0.len()
                                    + actions.destroy_buffers@.len(),
                                forall|j: int|
                                    0 <= j < actions.destroy_buffers@.len() ==> {
                                        &&& #[trigger] actions.destroy_buffers@[j] == bufs0[j].buffer
                                        &&& actions.error_load_ops@[imgs0.len() + j]
                                            == bufs0[j].load_op
                                    },
                                !actions.submit_transfer && !actions.submit_dst,
                            decreases inner.buffer_uploads.len(),
                        {
                            let upload = inner.buffer_uploads.remove(0);
                            let ghost n = actions.destroy_buffers@.len() as int;
                            assert(upload == bufs0[n]);
                            actions.error_load_ops.push(upload.load_op);
                            actions.destroy_buffers.push(upload.buffer);
                            upload.upload_op.error();
                            proof {
                                assert(inner.buffer_uploads@ =~= bufs0.skip(n + 1));
                            }
                        }
                        proof {
                            assert(actions.destroy_images@ =~= old(self).image_resources());
                            assert(actions.destroy_buffers@ =~= old(self).buffer_resources());
                            let all = old(self).image_load_ops() + old(self).buffer_load_ops();
                            assert forall|k: int| 0 <= k < all.len()
                                implies actions.error_load_ops@[k] == all[k] by {
                                if k < imgs0.len() {
                                    assert(actions.destroy_images@[k] == imgs0[k].image);
                                } else {
                                    assert(actions.destroy_buffers@[k - imgs0.len()]
                                        == bufs0[k - imgs0.len()].buffer);
                                }
                            }
                            assert(actions.error_load_ops@ =~= all);
                        }
                        (InProgressUploadPollResult::Error, actions)
                    },
                    DevicePollStatus::Working { transfer_fence_signaled, dst_fence_signaled } => {
                        let t = *transfer_fence_signaled;
                        let d = *dst_fence_signaled;
                        let mut inner = inner;
                        let mut state = inner.state;
                        if state == TransferUploadState::Writable {
                            actions.submit_transfer = true;
                            state = TransferUploadState::SentToTransferQueue;
                        }
                        if state == TransferUploadState::SentToTransferQueue && t {
                            state = TransferUploadState::PendingSubmitDstQueue;
                        }
                        if state == TransferUploadState::PendingSubmitDstQueue {
                            actions.submit_dst = true;
                            state = TransferUploadState::SentToDstQueue;
                        }
                        if state == TransferUploadState::SentToDstQueue && d {
                            state = TransferUploadState::Complete;
                        }
                        if state == TransferUploadState::Complete {
                            while inner.image_uploads.len() > 0
                                decreases inner.image_uploads.len(),
                            {
                                let upload = inner.image_uploads.remove(0);
                                upload.upload_op.complete(upload.image, upload.load_op);
                            }
                            while inner.buffer_uploads.len() > 0
                                decreases inner.buffer_uploads.len(),
                            {
                                let upload = inner.buffer_uploads.remove(0);
                                upload.upload_op.complete(upload.buffer, upload.load_op);
                            }
                            (InProgressUploadPollResult::Complete, actions)
                        } else {
                            inner.state = state;
                            self.inner = Some(inner);
                            (InProgressUploadPollResult::Pending, actions)
                        }
                    },
                }
            },
        }
    }
}

/// Sizing of each batch's staging buffer: the fixed byte budget a new
/// transfer-capable command buffer is created with.
pub const UPLOAD_TRANSFER_BUFFER_SIZE: u64 = 256 * 1024 * 1024;

/// Color space the decoded pixel data is authored in.
#[derive(Clone, Copy, PartialEq, Eq, Structural, Debug)]
pub enum ColorSpace {
    Srgb,
    Linear,
}

/// A decoded image payload as the asset-decoding subsystem delivers it:
/// pixel bytes plus the metadata the transfer needs.
pub struct DecodedTexture {
    pub width: u32,
    pub height: u32,
    pub mip_level_count: u32,
    pub color_space: ColorSpace,
    pub data: Vec<u8>,
}

/// One image request sitting in the upload queue, not started yet.
#[verifier::reject_recursive_types(RI)]
#[verifier::reject_recursive_types(AI)]
#[verifier::reject_recursive_types(L)]
pub struct PendingImageUpload<RI, AI, L> {
    pub load_op: L,
    pub upload_op: UploadOp<RI, AI, L>,
    pub texture: DecodedTexture,
}

/// One buffer request sitting in the upload queue, not started yet.
#[verifier::reject_recursive_types(RB)]
#[verifier::reject_recursive_types(AB)]
#[verifier::reject_recursive_types(L)]
pub struct PendingBufferUpload<RB, AB, L> {
    pub load_op: L,
    pub upload_op: UploadOp<RB, AB, L>,
    pub data: Vec<u8>,
}

/// Marry each drained image request to the device image created for it, in
/// order: the driver creates one image per pending texture and hands both
/// vectors back. The texture payload ends here; its bytes were already
/// staged when the images were created.
pub fn pair_image_uploads<RI, AI, L>(
    pending: Vec<PendingImageUpload<RI, AI, L>>,
    images: Vec<RI>,
) -> (uploads: Vec<InFlightImageUpload<RI, AI, L>>)
    requires
        pending@.len() == images@.len(),
    ensures
        uploads@.len() == pending@.len(),
        forall|j: int|
            0 <= j < uploads@.len() ==> {
                &&& (#[trigger] uploads@[j]).load_op == pending@[j].load_op
                &&& uploads@[j].upload_op == pending@[j].upload_op
                &&& uploads@[j].image == images@[j]
            },
{
    let ghost pending0 = pending@;
    let ghost images0 = images@;
    let mut pending = pending;
    let mut images = images;
    let mut uploads: Vec<InFlightImageUpload<RI, AI, L>> = Vec::new();
    while pending.len() > 0
        invariant
            uploads@.len() <= pending0.len(),
            pending@ == pending0.skip(uploads@.len() as int),
            images@ == images0.skip(uploads@.len() as int),
            pending0.len() == images0.len(),
            forall|j: int|
                0 <= j < uploads@.len() ==> {
                    &&& (#[trigger] uploads@[j]).load_op == pending0[j].load_op
                    &&& uploads@[j].upload_op == pending0[j].upload_op
                    &&& uploads@[j].image == images0[j]
                },
        decreases pending.len(),
    {
        let ghost n = uploads@.len() as int;
        let request = pending.remove(0);
        let image = images.remove(0);
        uploads.push(InFlightImageUpload {
            load_op: request.load_op,
            upload_op: request.upload_op,
            image,
        });
        proof {
            assert(pending@ =~= pending0.skip(n + 1));
            assert(images@ =~= images0.skip(n + 1));
        }
    }
    uploads
}

/// Marry each drained buffer request to the device buffer created for it,
/// in order, the same way as `pair_image_uploads`.
pub fn pair_buffer_uploads<RB, AB, L>(
    pending: Vec<PendingBufferUpload<RB, AB, L>>,
    buffers: Vec<RB>,
) -> (uploads: Vec<InFlightBufferUpload<RB, AB, L>>)
    requires
        pending@.len() == buffers@.len(),
    ensures
        uploads@.len() == pending@.len(),
        forall|j: int|
            0 <= j < uploads@.len() ==> {
                &&& (#[trigger] uploads@[j]).load_op == pending@[j].load_op
                &&& uploads@[j].upload_op == pending@[j].upload_op
                &&& uploads@[j].buffer == buffers@[j]
            },
{
    let ghost pending0 = pending@;
    let ghost buffers0 = buffers@;
    let mut pending = pending;
    let mut buffers = buffers;
    let mut uploads: Vec<InFlightBufferUpload<RB, AB, L>> = Vec::new();
    while pending.len() > 0
        invariant
            uploads@.len() <= pending0.len(),
            pending@ == pending0.skip(uploads@.len() as int),
            buffers@ == buffers0.skip(uploads@.len() as int),
            pending0.len() == buffers0.len(),
            forall|j: int|
                0 <= j < uploads@.len() ==> {
                    &&& (#[trigger] uploads@[j]).load_op == pending0[j].load_op
                    &&& uploads@[j].upload_op == pending0[j].upload_op
                    &&& uploads@[j].buffer == buffers0[j]
                },
        decreases pending.len(),
    {
        let ghost n = uploads@.len() as int;
        let request = pending.remove(0);
        let buffer = buffers.remove(0);
        uploads.push(InFlightBufferUpload {
            load_op: request.load_op,
            upload_op: request.upload_op,
            buffer,
        });
        proof {
            assert(pending@ =~= pending0.skip(n + 1));
            assert(buffers@ =~= buffers0.skip(n + 1));
        }
    }
    uploads
}

/// One entry of a tick's poll report: which batch was polled (by its index
/// at the start of the tick), what the poll returned, and what the driver
/// must now do for that batch. Entries are reported from the highest index
/// down, the order in which the batches were polled.
pub struct UploadPollEntry<RI, RB, L> {
    pub index: usize,
    pub result: InProgressUploadPollResult,
    pub actions: PollActions<RI, RB, L>,
}

/// The batch a queue starts for the given uploads: every drained request in
/// one unit of work, still writable until its first poll submits it.
pub closed spec fn spec_new_batch<RI, RB, AI, AB, L>(
    image_uploads: Vec<InFlightImageUpload<RI, AI, L>>,
    buffer_uploads: Vec<InFlightBufferUpload<RB, AB, L>>,
    state: TransferUploadState,
) -> InProgressUpload<RI, RB, AI, AB, L> {
    InProgressUpload {
        inner: Some(InProgressUploadInner { image_uploads, buffer_uploads, state }),
    }
}

/// What a batch started by the queue looks like through the public views.
pub proof fn lemma_new_batch_view<RI, RB, AI, AB, L>(
    image_uploads: Vec<InFlightImageUpload<RI, AI, L>>,
    buffer_uploads: Vec<InFlightBufferUpload<RB, AB, L>>,
    state: TransferUploadState,
)
    ensures
        spec_new_batch::<RI, RB, AI, AB, L>(image_uploads, buffer_uploads, state).is_live(),
        spec_new_batch::<RI, RB, AI, AB, L>(image_uploads, buffer_uploads, state).spec_state()
            == state,
        spec_new_batch::<RI, RB, AI, AB, L>(image_uploads, buffer_uploads, state)
            .image_uploads_seq() == image_uploads@,
        spec_new_batch::<RI, RB, AI, AB, L>(image_uploads, buffer_uploads, state)
            .buffer_uploads_seq() == buffer_uploads@,
        !(state is Complete) ==> spec_new_batch::<RI, RB, AI, AB, L>(
            image_uploads,
            buffer_uploads,
            state,
        ).wf(),
{
}

/// `v.swap_remove(i)` at the specification level: the last element takes the
/// removed one's place.
pub open spec fn seq_swap_remove<A>(s: Seq<A>, i: int) -> Seq<A>
    recommends
        0 <= i < s.len(),
{
    s.update(i, s.last()).drop_last()
}

/// The in-flight set after the tick's polls at indices `i` and above have
/// run, from the highest index down: a batch whose poll stays `Pending`
/// advances in place, any other leaves by swap-removal. `statuses[j]` is the
/// device observation for the batch that sat at index `j` when the tick
/// began; polling downward keeps those indices stable.
pub closed spec fn spec_poll_all_above<RI, RB, AI, AB, L>(
    batches: Seq<InProgressUpload<RI, RB, AI, AB, L>>,
    statuses: Seq<DevicePollStatus>,
    i: int,
) -> Seq<InProgressUpload<RI, RB, AI, AB, L>>
    decreases statuses.len() - i,
{
    if !(0 <= i < statuses.len()) {
        batches
    } else {
        let polled = spec_poll_all_above(batches, statuses, i + 1);
        let batch = polled[i];
        let status = statuses[i];
        if status is Working && spec_poll_result(
            batch.spec_state(),
            status->transfer_fence_signaled,
            status->dst_fence_signaled,
        ) is Pending {
            polled.update(
                i,
                batch.with_state(
                    spec_poll_next_state(
                        batch.spec_state(),
                        status->transfer_fence_signaled,
                        status->dst_fence_signaled,
                    ),
                ),
            )
        } else {
            seq_swap_remove(polled, i)
        }
    }
}

/// Polls at indices `i` and above touch nothing below `i` and can only
/// shorten the in-flight set, never below `i`.
proof fn lemma_poll_all_above_frame<RI, RB, AI, AB, L>(
    batches: Seq<InProgressUpload<RI, RB, AI, AB, L>>,
    statuses: Seq<DevicePollStatus>,
    i: int,
)
    requires
        batches.len() == statuses.len(),
        0 <= i <= statuses.len(),
    ensures
        i <= spec_poll_all_above(batches, statuses, i).len() <= batches.len(),
        forall|j: int|
            0 <= j < i ==> #[trigger] spec_poll_all_above(batches, statuses, i)[j] == batches[j],
    decreases statuses.len() - i,
{
    if i < statuses.len() {
        lemma_poll_all_above_frame(batches, statuses, i + 1);
    }
}

/// The report an update tick returns describes exactly one poll of each
/// batch that was in flight when the tick began, from the highest index
/// down: the batch's result and submissions under its device observation,
/// and on failure the full inventory of continuations to fail and resources
/// to destroy.
pub open spec fn poll_entries_match<RI, RB, AI, AB, L>(
    entries: Seq<UploadPollEntry<RI, RB, L>>,
    batches: Seq<InProgressUpload<RI, RB, AI, AB, L>>,
    statuses: Seq<DevicePollStatus>,
) -> bool
    recommends
        batches.len() == statuses.len(),
{
    &&& entries.len() == statuses.len()
    &&& forall|k: int|
        0 <= k < entries.len() ==> {
            let i = statuses.len() - 1 - k;
            let batch = batches[i];
            let status = statuses[i];
            let entry = #[trigger] entries[k];
            &&& entry.index as int == i
            &&& (status is Failed ==> {
                &&& entry.result is Error
                &&& !entry.actions.submit_transfer && !entry.actions.submit_dst
                &&& entry.actions.error_load_ops@ == batch.image_load_ops()
                    + batch.buffer_load_ops()
                &&& entry.actions.destroy_images@ == batch.image_resources()
                &&& entry.actions.destroy_buffers@ == batch.buffer_resources()
            })
            &&& (status is Working ==> {
                let t = status->transfer_fence_signaled;
                let d = status->dst_fence_signaled;
                &&& entry.result == spec_poll_result(batch.spec_state(), t, d)
                &&& entry.actions.submit_transfer == spec_poll_submits_transfer(
                    batch.spec_state(),
                )
                &&& entry.actions.submit_dst == spec_poll_submits_dst(batch.spec_state(), t)
                &&& entry.actions.error_load_ops@.len() == 0
                &&& entry.actions.destroy_images@.len() == 0
                &&& entry.actions.destroy_buffers@.len() == 0
            })
        }
}

/// Receives upload requests from producer threads and batches them into
/// uploads. Producers enqueue from any thread through the pending channels;
/// only the update thread drains them, starts batches, and polls the
/// in-flight set, so no locking is needed beyond the channels themselves.
///
/// Each tick drains the whole backlog into a single batch; no per-tick byte
/// budget is enforced yet, a deliberate open point.
#[verifier::reject_recursive_types(RI)]
#[verifier::reject_recursive_types(RB)]
#[verifier::reject_recursive_types(AI)]
#[verifier::reject_recursive_types(AB)]
#[verifier::reject_recursive_types(L)]
pub struct UploadQueue<RI, RB, AI, AB, L> {
    pending_image_tx: Sender<PendingImageUpload<RI, AI, L>>,
    pending_image_rx: Receiver<PendingImageUpload<RI, AI, L>>,
    pending_buffer_tx: Sender<PendingBufferUpload<RB, AB, L>>,
    pending_buffer_rx: Receiver<PendingBufferUpload<RB, AB, L>>,
    uploads_in_progress: Vec<InProgressUpload<RI, RB, AI, AB, L>>,
}

impl<RI, RB, AI, AB, L> UploadQueue<RI, RB, AI, AB, L> {
    /// The batches currently in flight, oldest first.
    pub closed spec fn in_progress(self) -> Seq<InProgressUpload<RI, RB, AI, AB, L>> {
        self.uploads_in_progress@
    }

    /// Every in-flight batch is live and well-formed, so polling each one is
    /// meaningful and `Destroyed` is never reported in normal operation.
    pub open spec fn wf(self) -> bool {
        forall|i: int|
            0 <= i < self.in_progress().len() ==> (#[trigger] self.in_progress()[i]).wf()
                && self.in_progress()[i].is_live()
    }

    pub fn new() -> (queue: Self)
        ensures
            queue.wf(),
            queue.in_progress().len() == 0,
    {
        let (pending_image_tx, pending_image_rx) = channel_unbounded();
        let (pending_buffer_tx, pending_buffer_rx) = channel_unbounded();
        UploadQueue {
            pending_image_tx,
            pending_image_rx,
            pending_buffer_tx,
            pending_buffer_rx,
            uploads_in_progress: Vec::new(),
        }
    }

    /// The producer half of the image request channel; clone it to enqueue
    /// from any thread.
    pub fn pending_image_tx(&self) -> &Sender<PendingImageUpload<RI, AI, L>> {
        &self.pending_image_tx
    }

    /// The producer half of the buffer request channel.
    pub fn pending_buffer_tx(&self) -> &Sender<PendingBufferUpload<RB, AB, L>> {
        &self.pending_buffer_tx
    }

    /// Take every image request queued so far, without blocking. The driver
    /// creates one device image per returned texture, then pairs and starts
    /// them; dropping the result instead fires each request's drop signal.
    pub fn drain_pending_images(&self) -> Vec<PendingImageUpload<RI, AI, L>> {
        channel_drain(&self.pending_image_rx)
    }

    /// Take every buffer request queued so far, without blocking.
    pub fn drain_pending_buffers(&self) -> Vec<PendingBufferUpload<RB, AB, L>> {
        channel_drain(&self.pending_buffer_rx)
    }

    /// How many batches are in flight; the driver supplies one device
    /// observation per batch to `update`.
    pub fn in_progress_len(&self) -> (n: usize)
        ensures
            n == self.in_progress().len(),
    {
        self.uploads_in_progress.len()
    }

    /// Record the paired uploads as one new batch, if there are any: all of
    /// them complete or fail together from here on. Draining produced these
    /// in request order, so the batch holds every request that was queued
    /// before the tick. No batch is started when nothing was drained, which
    /// avoids empty submissions.
    pub fn start_new_uploads(
        &mut self,
        image_uploads: Vec<InFlightImageUpload<RI, AI, L>>,
        buffer_uploads: Vec<InFlightBufferUpload<RB, AB, L>>,
    )
        requires
            old(self).wf(),
        ensures
            final(self).wf(),
            image_uploads@.len() == 0 && buffer_uploads@.len() == 0 ==> final(self).in_progress()
                == old(self).in_progress(),
            image_uploads@.len() > 0 || buffer_uploads@.len() > 0 ==> final(self).in_progress()
                == old(self).in_progress().push(
                spec_new_batch(image_uploads, buffer_uploads, TransferUploadState::Writable),
            ),
    {
        if image_uploads.len() > 0 || buffer_uploads.len() > 0 {
            let batch = InProgressUpload::new(
                image_uploads,
                buffer_uploads,
                TransferUploadState::Writable,
            );
            self.uploads_in_progress.push(batch);
            proof {
                assert forall|j: int| 0 <= j < self.uploads_in_progress@.len() implies (
                #[trigger] self.uploads_in_progress@[j]).wf()
                    && self.uploads_in_progress@[j].is_live() by {
                    if j < self.uploads_in_progress@.len() - 1 {
                        assert((#[trigger] old(self).in_progress()[j]).wf());
                    }
                }
            }
        }
    }

    /// Poll every in-flight batch once under the driver's observations,
    /// highest index first, and drop the batches that finished; batches do
    /// not depend on each other, so the order-independent swap-removal is
    /// sound. `statuses[i]` must describe the batch at index `i`.
    pub fn update_existing_uploads(&mut self, statuses: &Vec<DevicePollStatus>) -> (entries: Vec<
        UploadPollEntry<RI, RB, L>,
    >)
        requires
            old(self).wf(),
            statuses@.len() == old(self).in_progress().len(),
        ensures
            final(self).wf(),
            final(self).in_progress() == spec_poll_all_above(
                old(self).in_progress(),
                statuses@,
                0,
            ),
            poll_entries_match(entries@, old(self).in_progress(), statuses@),
    {
        let ghost batches0 = self.uploads_in_progress@;
        let mut entries: Vec<UploadPollEntry<RI, RB, L>> = Vec::new();
        let mut i: usize = self.uploads_in_progress.len();
        while i > 0
            invariant
                statuses@.len() == batches0.len(),
                i <= batches0.len(),
                self.uploads_in_progress@ == spec_poll_all_above(batches0, statuses@, i as int),
                forall|j: int|
                    0 <= j < batches0.len() ==> (#[trigger] batches0[j]).wf()
                        && batches0[j].is_live(),
                forall|j: int|
                    0 <= j < self.uploads_in_progress@.len() ==> (
                    #[trigger] self.uploads_in_progress@[j]).wf()
                        && self.uploads_in_progress@[j].is_live(),
                entries@.len() == batches0.len() - i,
                forall|k: int|
                    0 <= k < entries@.len() ==> {
                        let bi = batches0.len() - 1 - k;
                        let batch = batches0[bi];
                        let status = statuses@[bi];
                        let entry = #[trigger] entries@[k];
                        &&& entry.index as int == bi
                        &&& (status is Failed ==> {
                            &&& entry.result is Error
                            &&& !entry.actions.submit_transfer && !entry.actions.submit_dst
                            &&& entry.actions.error_load_ops@ == batch.image_load_ops()
                                + batch.buffer_load_ops()
                            &&& entry.actions.destroy_images@ == batch.image_resources()
                            &&& entry.actions.destroy_buffers@ == batch.buffer_resources()
                        })
                        &&& (status is Working ==> {
                            let t = status->transfer_fence_signaled;
                            let d = status->dst_fence_signaled;
                            &&& entry.result == spec_poll_result(batch.spec_state(), t, d)
                            &&& entry.actions.submit_transfer == spec_poll_submits_transfer(
                                batch.spec_state(),
                            )
                            &&& entry.actions.submit_dst == spec_poll_submits_dst(
                                batch.spec_state(),
                                t,
                            )
                            &&& entry.actions.error_load_ops@.len() == 0
                            &&& entry.actions.destroy_images@.len() == 0
                            &&& entry.actions.destroy_buffers@.len() == 0
                        })
                    },
            decreases i,
        {
            i = i - 1;
            proof {
                lemma_poll_all_above_frame(batches0, statuses@, i + 1);
            }
            let ghost before = self.uploads_in_progress@;
            let status = statuses[i];
            let (result, actions) = upload_slot(&mut self.uploads_in_progress, i).poll_load(
                &status,
            );
            let pending = matches!(result, InProgressUploadPollResult::Pending);
            if !pending {
                let _finished = self.uploads_in_progress.swap_remove(i);
            }
            entries.push(UploadPollEntry { index: i, result, actions });
            proof {
                if pending {
                    assert(self.uploads_in_progress@ == spec_poll_all_above(
                        batches0,
                        statuses@,
                        i as int,
                    ));
                } else {
                    let dead = before.update(i as int, before[i as int]).update(
                        i as int,
                        self.uploads_in_progress@[i as int],
                    );
                    assert(self.uploads_in_progress@ =~= seq_swap_remove(before, i as int));
                    assert(self.uploads_in_progress@ == spec_poll_all_above(
                        batches0,
                        statuses@,
                        i as int,
                    ));
                }
            }
        }
        entries
    }

    /// One update tick: start a batch for whatever the driver drained and
    /// paired, then poll everything in flight, the fresh batch included.
    /// With a fresh batch the driver supplies one extra observation for it,
    /// at the last index; its first poll is what requests the transfer
    /// submission.
    pub fn update(
        &mut self,
        image_uploads: Vec<InFlightImageUpload<RI, AI, L>>,
        buffer_uploads: Vec<InFlightBufferUpload<RB, AB, L>>,
        statuses: &Vec<DevicePollStatus>,
    ) -> (entries: Vec<UploadPollEntry<RI, RB, L>>)
        requires
            old(self).wf(),
            statuses@.len() == old(self).in_progress().len() + (
            if image_uploads@.len() == 0 && buffer_uploads@.len() == 0 {
                0int
            } else {
                1int
            }),
        ensures
            final(self).wf(),
            ({
                let all = if image_uploads@.len() == 0 && buffer_uploads@.len() == 0 {
                    old(self).in_progress()
                } else {
                    old(self).in_progress().push(
                        spec_new_batch(
                            image_uploads,
                            buffer_uploads,
                            TransferUploadState::Writable,
                        ),
                    )
                };
                &&& final(self).in_progress() == spec_poll_all_above(all, statuses@, 0)
                &&& poll_entries_match(entries@, all, statuses@)
            }),
    {
        proof {
            lemma_new_batch_view::<RI, RB, AI, AB, L>(
                image_uploads,
                buffer_uploads,
                TransferUploadState::Writable,
            );
        }
        self.start_new_uploads(image_uploads, buffer_uploads);
        self.update_existing_uploads(statuses)
    }
}

/// Mutable access to one in-flight batch without disturbing its neighbours.
fn upload_slot<RI, RB, AI, AB, L>(
    uploads: &mut Vec<InProgressUpload<RI, RB, AI, AB, L>>,
    i: usize,
) -> (slot: &mut InProgressUpload<RI, RB, AI, AB, L>)
    requires
        i < old(uploads).len(),
    ensures
        *slot == old(uploads)@[i as int],
        final(uploads)@ == old(uploads)@.update(i as int, *final(slot)),
{
    &mut uploads[i]
}

} // verus!
