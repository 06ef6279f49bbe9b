//! Frame-in-flight bookkeeping shared by both subsystems.
//!
//! A frame-in-flight index identifies which of the replicated per-frame
//! resource copies the CPU is currently writing. There is one copy per frame
//! the GPU may still be reading, plus one extra copy the CPU can always write
//! without racing the GPU, so the index wraps modulo
//! `MAX_FRAMES_IN_FLIGHT_PLUS_1`.

use vstd::prelude::*;

verus! {

/// How many frames the GPU may still be consuming while the CPU records a new one.
pub const MAX_FRAMES_IN_FLIGHT: u32 = 2;

/// One replicated resource copy per frame in flight, plus one spare the CPU
/// can always write.
pub const MAX_FRAMES_IN_FLIGHT_PLUS_1: u32 = 3;

/// Capacity of one descriptor set pool chunk: how many logical descriptor
/// sets one chunk can hold (each replicated `MAX_FRAMES_IN_FLIGHT_PLUS_1` times).
pub const MAX_DESCRIPTORS_PER_POOL: u32 = 64;

/// Identifies which replicated per-frame resource copy is live; always below
/// `MAX_FRAMES_IN_FLIGHT_PLUS_1`.
pub type FrameInFlightIndex = u32;

/// The frame-in-flight index reached from `index` after `add` more frames,
/// wrapping modulo the replica count.
pub open spec fn spec_add_to_frame_in_flight_index(index: u32, add: u32) -> u32 {
    (((index + add) % (MAX_FRAMES_IN_FLIGHT_PLUS_1 as int)) as u32)
}

/// Advance a frame-in-flight index by `add` frames, wrapping modulo the
/// replica count.
pub fn add_to_frame_in_flight_index(index: FrameInFlightIndex, add: u32) -> (r: FrameInFlightIndex)
    requires
        index + add <= u32::MAX,
    ensures
        r == spec_add_to_frame_in_flight_index(index, add),
        r < MAX_FRAMES_IN_FLIGHT_PLUS_1,
{
    (index + add) % MAX_FRAMES_IN_FLIGHT_PLUS_1
}

} // verus!
