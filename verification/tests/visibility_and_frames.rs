//! Frame-index arithmetic, the visibility node set, and the demo feature.

use renderer_streaming::demo_feature::DEMO_FEATURE_INDEX;
use renderer_streaming::demo_feature::DemoCommandWriter;
use renderer_streaming::demo_feature::DemoCommandWriterContext;
use renderer_streaming::frame_index::MAX_FRAMES_IN_FLIGHT;
use renderer_streaming::frame_index::add_to_frame_in_flight_index;
use renderer_streaming::upload::UPLOAD_TRANSFER_BUFFER_SIZE;
use renderer_streaming::upload_manager::default_mip_level_count;
use renderer_streaming::visibility::DynamicAabbVisibilityNode;
use renderer_streaming::visibility::DynamicVisibilityNodeSet;
use renderer_streaming::visibility::GenericRenderNodeHandle;
use renderer_streaming::visibility::RenderView;

#[test]
fn frame_index_wraps_modulo_the_replica_count() {
    assert_eq!(add_to_frame_in_flight_index(0, 1), 1);
    assert_eq!(add_to_frame_in_flight_index(2, 1), 0);
    assert_eq!(add_to_frame_in_flight_index(2, MAX_FRAMES_IN_FLIGHT), 1);
    assert_eq!(add_to_frame_in_flight_index(0, MAX_FRAMES_IN_FLIGHT), 2);
    assert_eq!(add_to_frame_in_flight_index(1, 6), 1);
}

#[test]
fn transfer_staging_budget_is_a_quarter_gigabyte() {
    assert_eq!(UPLOAD_TRANSFER_BUFFER_SIZE, 256 * 1024 * 1024);
}

#[test]
fn default_mip_chain_reaches_one_texel() {
    assert_eq!(default_mip_level_count(1, 1), 1);
    assert_eq!(default_mip_level_count(4, 2), 3);
    assert_eq!(default_mip_level_count(2, 4), 3);
    assert_eq!(default_mip_level_count(1920, 1080), 11);
    assert_eq!(default_mip_level_count(4096, 4096), 13);
}

#[test]
fn visibility_reports_registered_nodes_until_unregistered() {
    let mut set = DynamicVisibilityNodeSet::default();
    let view = RenderView { debug_name: String::from("main view") };

    let a = set.register_dynamic_aabb(DynamicAabbVisibilityNode {
        handle: GenericRenderNodeHandle(11),
    });
    let _b = set.register_dynamic_aabb(DynamicAabbVisibilityNode {
        handle: GenericRenderNodeHandle(22),
    });
    let result = set.calculate_dynamic_visibility(&view);
    assert_eq!(
        result.handles,
        vec![GenericRenderNodeHandle(11), GenericRenderNodeHandle(22)],
    );

    set.unregister_dynamic_aabb(a);
    let result = set.calculate_dynamic_visibility(&view);
    assert_eq!(result.handles, vec![GenericRenderNodeHandle(22)]);

    // A freed slot is reused by the next registration.
    let _c = set.register_dynamic_aabb(DynamicAabbVisibilityNode {
        handle: GenericRenderNodeHandle(33),
    });
    let result = set.calculate_dynamic_visibility(&view);
    assert_eq!(
        result.handles,
        vec![GenericRenderNodeHandle(33), GenericRenderNodeHandle(22)],
    );
}

#[test]
fn demo_feature_writer_identifies_its_feature() {
    let writer = DemoCommandWriter {};
    let mut context = DemoCommandWriterContext {};
    writer.apply_setup(&mut context);
    writer.render_element(&mut context, 0);
    writer.revert_setup(&mut context);
    assert_eq!(writer.feature_debug_name(), "DemoRenderFeature");
    assert_eq!(writer.feature_index(), DEMO_FEATURE_INDEX);
}
