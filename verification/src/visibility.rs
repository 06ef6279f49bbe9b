//! Visibility bookkeeping for dynamically moving objects.
//!
//! Each dynamic object registers its bounding volume and gets a stable
//! handle back; a visibility query walks the registered set and reports the
//! render-node handles a view may see. No spatial structure prunes the walk
//! yet, so every registered node is reported.

use vstd::prelude::*;
use crate::slab::RawSlab;
use crate::slab::RawSlabKey;

verus! {

/// Handle to a render node, as the render node registry names it.
#[derive(Clone, Copy, PartialEq, Eq, Structural, Debug)]
pub struct GenericRenderNodeHandle(pub u64);

/// One dynamically moving object's visibility entry: the render node its
/// bounding volume belongs to.
#[derive(Clone, Copy, PartialEq, Eq, Structural, Debug)]
pub struct DynamicAabbVisibilityNode {
    pub handle: GenericRenderNodeHandle,
}

/// Handle to a registered dynamic bounding volume.
#[derive(Clone, Copy, Debug)]
pub struct DynamicAabbVisibilityNodeHandle(pub RawSlabKey<DynamicAabbVisibilityNode>);

/// The view a visibility query is computed for; only its name is carried
/// here, the projection data lives with the render node system.
#[derive(Debug)]
pub struct RenderView {
    pub debug_name: String,
}

/// The render-node handles a view may see.
#[derive(Debug)]
pub struct VisibilityResult {
    pub handles: Vec<GenericRenderNodeHandle>,
}

impl Default for VisibilityResult {
    fn default() -> (result: Self)
        ensures
            result.handles@.len() == 0,
    {
        VisibilityResult { handles: Vec::new() }
    }
}

/// The handles of the occupied slots, lowest slot first.
pub open spec fn spec_visible_handles(slots: Seq<Option<DynamicAabbVisibilityNode>>) -> Seq<
    GenericRenderNodeHandle,
>
    decreases slots.len(),
{
    if slots.len() == 0 {
        Seq::empty()
    } else {
        let rest = spec_visible_handles(slots.drop_last());
        match slots.last() {
            Some(node) => rest.push(node.handle),
            None => rest,
        }
    }
}

/// The registered set of dynamically moving objects.
pub struct DynamicVisibilityNodeSet {
    dynamic_aabb: RawSlab<DynamicAabbVisibilityNode>,
}

impl Default for DynamicVisibilityNodeSet {
    fn default() -> (result: Self)
        ensures
            result.nodes().len() == 0,
    {
        DynamicVisibilityNodeSet { dynamic_aabb: RawSlab::new() }
    }
}

impl DynamicVisibilityNodeSet {
    /// The slab slots the registered nodes live in.
    pub closed spec fn nodes(self) -> Seq<Option<DynamicAabbVisibilityNode>> {
        self.dynamic_aabb.slots()
    }

    /// Register a dynamic bounding volume; the handle stays valid until the
    /// node is unregistered.
    pub fn register_dynamic_aabb(&mut self, node: DynamicAabbVisibilityNode) -> (handle:
        DynamicAabbVisibilityNodeHandle)
        requires
            old(self).nodes().len() < u32::MAX,
        ensures
            ({
                let index = handle.0.spec_index() as int;
                &&& 0 <= index <= old(self).nodes().len()
                &&& (index < old(self).nodes().len() ==> old(self).nodes()[index] is None
                    && final(self).nodes() == old(self).nodes().update(index, Some(node)))
                &&& (index == old(self).nodes().len() ==> final(self).nodes() == old(
                    self,
                ).nodes().push(Some(node)))
            }),
    {
        DynamicAabbVisibilityNodeHandle(self.dynamic_aabb.allocate(node))
    }

    /// Unregister a dynamic bounding volume; its slot becomes vacant.
    pub fn unregister_dynamic_aabb(&mut self, handle: DynamicAabbVisibilityNodeHandle)
        ensures
            handle.0.spec_index() < old(self).nodes().len() ==> final(self).nodes() == old(
                self,
            ).nodes().update(handle.0.spec_index() as int, None),
            handle.0.spec_index() >= old(self).nodes().len() ==> final(self).nodes() == old(
                self,
            ).nodes(),
    {
        self.dynamic_aabb.free(handle.0);
    }

    /// Report every registered node's render-node handle for the view.
    pub fn calculate_dynamic_visibility(&self, _view: &RenderView) -> (result: VisibilityResult)
        ensures
            result.handles@ == spec_visible_handles(self.nodes()),
    {
        let mut result = VisibilityResult::default();
        let count = self.dynamic_aabb.slot_count();
        proof {
            assert(self.nodes().take(0) =~= Seq::<Option<DynamicAabbVisibilityNode>>::empty());
        }
        let mut i: usize = 0;
        while i < count
            invariant
                count == self.nodes().len(),
                i <= count,
                result.handles@ == spec_visible_handles(self.nodes().take(i as int)),
            decreases count - i,
        {
            proof {
                assert(self.nodes().take(i + 1) =~= self.nodes().take(i as int).push(
                    self.nodes()[i as int],
                ));
                assert(self.nodes().take(i + 1).drop_last() =~= self.nodes().take(i as int));
            }
            match self.dynamic_aabb.get(i) {
                Some(aabb) => {
                    result.handles.push(aabb.handle);
                },
                None => {},
            }
            i = i + 1;
        }
        proof {
            assert(self.nodes().take(count as int) =~= self.nodes());
        }
        result
    }
}

} // verus!
