use craft::json::int_as_float;
use craft::render::{extract_camera, views_for_scene, ComponentView, NullRenderer, Render, RenderCapabilities, Viewport};
use craft::scene::{Component, ComponentKind, ComponentValue, Node};
use craft::strmap::StrMap;

fn num(x: f64) -> serde_json::Number {
    serde_json::Number::from_f64(x).unwrap()
}

fn node_with_position(id: &str, x: f64, y: f64) -> Node {
    let mut components = StrMap::new();
    components.insert(
        "position".to_string(),
        Component { value: ComponentValue::Vec2([num(x), num(y)]), kind: ComponentKind::Regular },
    );
    Node {
        id: id.to_string(),
        node_type: "Test".to_string(),
        parent: None,
        components,
        behaviors: vec![],
        active_state: None,
        lua_class: None,
        destroyed: false,
    }
}

#[test]
fn viewport_default_for_terminal() {
    let v = Viewport::default_for_terminal();
    assert_eq!(v.width, 80);
    assert_eq!(v.height, 24);
}

#[test]
fn capabilities_default_is_text_only() {
    let caps = RenderCapabilities::default();
    assert!(caps.contains(RenderCapabilities::text()));
    assert!(!caps.contains(RenderCapabilities::sprite()));
}

#[test]
fn component_view_extracts_position() {
    let n = node_with_position("p1", 10.0, 20.0);
    let view = ComponentView::from_node(&n);
    assert_eq!(view.node_id, "p1");
    assert_eq!(view.position, Some((num(10.0), num(20.0))));
}

#[test]
fn views_for_scene_flattens_all_nodes() {
    let nodes = vec![node_with_position("a", 0.0, 0.0), node_with_position("b", 1.0, 1.0)];
    let views = views_for_scene(&nodes);
    assert_eq!(views.len(), 2);
}

#[test]
fn null_renderer_records_frames() {
    let mut r = NullRenderer::new();
    assert_eq!(r.frames_rendered(), 0);
    r.render(&[], 1);
    r.render(&[], 2);
    assert_eq!(r.frames_rendered(), 2);
}

#[test]
fn null_renderer_resize_updates_viewport() {
    let mut r = NullRenderer::new();
    r.resize(Viewport::new(120, 40));
    assert_eq!(r.viewport(), Viewport::new(120, 40));
}

#[test]
fn null_renderer_reports_text_capability() {
    let r = NullRenderer::new();
    let caps = r.capabilities();
    assert!(caps.contains(RenderCapabilities::text()));
}

#[test]
fn null_renderer_shutdown_is_safe() {
    let mut r = NullRenderer::new();
    r.shutdown();
}

#[test]
fn extract_camera_finds_camera2d_node() {
    let components = StrMap::new();
    let views = vec![ComponentView {
        node_id: "cam",
        node_type: "Camera2D",
        components: &components,
        position: Some((num(100.0), num(200.0))),
    }];
    let cam = extract_camera(&views).unwrap();
    assert_eq!(cam.position, (num(100.0), num(200.0)));
    assert_eq!(cam.zoom.as_f64(), Some(1.0));
    assert!(cam.follow.is_none());
}

#[test]
fn float_position_has_zero_y() {
    let mut components = StrMap::new();
    components.insert("position".to_string(), Component { value: ComponentValue::Float(num(2.5)), kind: ComponentKind::Regular });
    let n = Node {
        id: "f".to_string(),
        node_type: "T".to_string(),
        parent: None,
        components,
        behaviors: vec![],
        active_state: None,
        lua_class: None,
        destroyed: false,
    };
    let view = ComponentView::from_node(&n);
    let (x, y) = view.position.clone().unwrap();
    assert_eq!(x.as_f64(), Some(2.5));
    assert_eq!(y.as_f64(), Some(0.0));
    assert_eq!(view.get_float("position").map(|n| n.as_f64()), Some(Some(2.5)));
    assert_eq!(int_as_float(3).as_f64(), Some(3.0));
}

#[test]
fn capability_sets_combine() {
    let both = RenderCapabilities::text().union(RenderCapabilities::mesh());
    assert!(both.contains(RenderCapabilities::mesh()));
    assert!(both.contains(RenderCapabilities::text()));
    assert!(!both.contains(RenderCapabilities::shader()));
    assert_eq!(both.bits(), 9);
    assert_eq!(RenderCapabilities::from_bits_truncate(0xff).bits(), 15);
    assert!(RenderCapabilities::empty().contains(RenderCapabilities::empty()));
}
