//! The demo render feature's command writer.
//!
//! The write phase of the render graph hands each feature's command writer
//! a write context per view and pass; the demo feature draws nothing yet,
//! so its writer only identifies itself and leaves the pass state alone.

use vstd::prelude::*;

verus! {

/// Index of a feature in the render feature registry.
pub type RenderFeatureIndex = u32;

/// Identifies one submitted element within a view's submit node list.
pub type SubmitNodeId = u32;

/// The feature index the demo feature registers under.
pub const DEMO_FEATURE_INDEX: RenderFeatureIndex = 0;

/// The per-pass context command writers record into; its device-facing
/// contents live with the driver that owns the command buffers.
pub struct DemoCommandWriterContext {}

/// Writes the demo feature's commands during the write phase.
pub struct DemoCommandWriter {}

impl DemoCommandWriter {
    /// Bind the feature's per-pass state before its elements are drawn;
    /// the demo feature has none, so nothing is recorded.
    pub fn apply_setup(&self, _write_context: &mut DemoCommandWriterContext) {
    }

    /// Record the commands for one submitted element; the demo feature
    /// draws nothing.
    pub fn render_element(
        &self,
        _write_context: &mut DemoCommandWriterContext,
        _index: SubmitNodeId,
    ) {
    }

    /// Undo the feature's per-pass state after its elements are drawn;
    /// nothing to undo.
    pub fn revert_setup(&self, _write_context: &mut DemoCommandWriterContext) {
    }

    /// The feature's name for diagnostics.
    pub fn feature_debug_name(&self) -> &'static str {
        "DemoRenderFeature"
    }

    /// The feature's index in the registry.
    pub fn feature_index(&self) -> (index: RenderFeatureIndex)
        ensures
            index == DEMO_FEATURE_INDEX,
    {
        DEMO_FEATURE_INDEX
    }
}

} // verus!
