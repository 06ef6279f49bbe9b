//! GPU resource-streaming and descriptor-update core.
//!
//! Two subsystems share one constraint: the CPU must never overwrite a GPU
//! resource that a previously submitted command buffer might still be
//! reading, and the frame loop must never stall waiting for a transfer.
//!
//! * The asynchronous upload pipeline batches pending image/buffer uploads,
//!   drives each batch through a transfer-queue to graphics-queue ownership
//!   transfer, and reports the outcome over one-shot completion channels.
//! * The descriptor set ring buffer replicates descriptor sets across the
//!   frames in flight and applies deferred writes so that updating a set
//!   never races with a frame the GPU is still consuming.

pub mod channel;
pub mod demo_feature;
pub mod descriptor_pool_chunk;
pub mod descriptor_sets;
pub mod frame_index;
pub mod slab;
pub mod upload;
pub mod upload_manager;
pub mod upload_op;
pub mod visibility;
