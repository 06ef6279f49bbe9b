//! One-shot completion channels for upload requests.
//!
//! An `UploadOp` is handed to the upload pipeline together with a request.
//! Over its whole lifetime exactly one of three signals reaches the result
//! channel: `UploadComplete` (with the finished resource), `UploadError`, or
//! `UploadDrop` when the holder is destroyed without resolving it. The last
//! case turns a silently abandoned load into an observable event; receivers
//! treat it as a cancelled load, not a crash.

use vstd::prelude::*;
use crossbeam_channel::Sender;
use crate::channel::channel_send;

verus! {

/// Identity of one asset load, carried through the pipeline and handed back
/// with every error or drop signal.
#[derive(Clone, Copy, PartialEq, Eq, Structural, Debug)]
pub struct LoadHandle(pub u64);

/// The single message an `UploadOp` delivers to the result channel.
#[verifier::reject_recursive_types(AssetT)]
pub enum UploadOpResult<ResourceT, AssetT, LoadOpT> {
    /// The upload failed; the load identified by the handle must be retried
    /// from scratch or abandoned by the asset-loading system.
    UploadError(LoadHandle),
    /// The upload finished: the continuation token, the sender that delivers
    /// the finalized asset back to asset storage, and the device resource.
    UploadComplete(LoadOpT, Sender<AssetT>, ResourceT),
    /// The `UploadOp` was destroyed without `complete` or `error` being
    /// called; equivalent to a cancelled load.
    UploadDrop(LoadHandle),
}

/// Single-fire result notifier for one upload request.
///
/// Both sender fields stay occupied until the one moment the op is resolved;
/// `complete` and `error` consume the op, and the `Drop` implementation fires
/// the `UploadDrop` signal only when the sender was never used.
#[verifier::reject_recursive_types(ResourceT)]
#[verifier::reject_recursive_types(AssetT)]
#[verifier::reject_recursive_types(LoadOpT)]
pub struct UploadOp<ResourceT, AssetT, LoadOpT> {
    load_handle: LoadHandle,
    /// Sends the finalized asset back to asset storage; only passed along.
    asset_sender: Option<Sender<AssetT>>,
    /// Sends the result back to the resource manager to finalize the load.
    sender: Option<Sender<UploadOpResult<ResourceT, AssetT, LoadOpT>>>,
}

impl<ResourceT, AssetT, LoadOpT> UploadOp<ResourceT, AssetT, LoadOpT> {
    /// An op is well-formed while it is still unresolved: both senders are in
    /// place, so resolving it can deliver exactly one signal.
    pub closed spec fn wf(self) -> bool {
        self.sender is Some && self.asset_sender is Some
    }

    /// The load this op reports about.
    pub closed spec fn spec_load_handle(self) -> LoadHandle {
        self.load_handle
    }

    pub fn new(
        load_handle: LoadHandle,
        asset_sender: Sender<AssetT>,
        sender: Sender<UploadOpResult<ResourceT, AssetT, LoadOpT>>,
    ) -> (op: Self)
        ensures
            op.wf(),
            op.spec_load_handle() == load_handle,
    {
        Self {
            load_handle,
            asset_sender: Some(asset_sender),
            sender: Some(sender),
        }
    }

    /// Resolve the op with the finished resource. Consumes the op, so no
    /// second signal can follow; the send is best-effort because the receiver
    /// may already have gone away during shutdown. The senders are present on
    /// every op built by `new`, so the guard below never skips in practice.
    pub fn complete(self, resource: ResourceT, load_op: LoadOpT) {
        let mut op = self;
        let sender = op.sender.take();
        let asset_sender = op.asset_sender.take();
        if let (Some(sender), Some(asset_sender)) = (sender, asset_sender) {
            let _ = channel_send(
                &sender,
                UploadOpResult::UploadComplete(load_op, asset_sender, resource),
            );
        }
    }

    /// Resolve the op with a failure tagged by the load handle. Consumes the
    /// op, so no second signal can follow.
    pub fn error(self) {
        let mut op = self;
        let sender = op.sender.take();
        if let Some(sender) = sender {
            let _ = channel_send(&sender, UploadOpResult::UploadError(op.load_handle));
        }
    }
}

impl<ResourceT, AssetT, LoadOpT> Drop for UploadOp<ResourceT, AssetT, LoadOpT> {
    /// Destroying an unresolved op delivers the one `UploadDrop` signal;
    /// after `complete` or `error` the sender is gone and nothing fires.
    fn drop(&mut self)
        opens_invariants none
        no_unwind
    {
        if let Some(sender) = &self.sender {
            let _ = channel_send(sender, UploadOpResult::UploadDrop(self.load_handle));
        }
    }
}

} // verus!
