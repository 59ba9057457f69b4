//! Render-side value types: viewports, capabilities, per-node component
//! views, the renderer interface and the null renderer.

use vstd::prelude::*;
use crate::json::{float_of_int, int_as_float, clone_number};
use crate::scene::{Component, ComponentValue, Node};
use crate::strmap::StrMap;

verus! {

/// Size of a render target, in cells.
#[derive(Debug, Clone, Copy, PartialEq, Eq, Default)]
pub struct Viewport {
    pub width: u32,
    pub height: u32,
}

impl Viewport {
    pub fn new(width: u32, height: u32) -> (r: Self)
        ensures
            r.width == width,
            r.height == height,
    {
        Self { width, height }
    }

    /// The classic 80x24 terminal.
    pub fn default_for_terminal() -> (r: Self)
        ensures
            r.width == 80,
            r.height == 24,
    {
        Self::new(80, 24)
    }
}


/// A set of render features, as bits: text, sprites, shaders, meshes.
#[derive(Debug, Clone, Copy, PartialEq, Eq, Hash)]
pub struct RenderCapabilities {
    pub bits: u32,
}

impl RenderCapabilities {
    /// Text output.
    pub fn text() -> (r: Self)
        ensures
            r.bits == 1,
    {
        RenderCapabilities { bits: 1 }
    }

    /// Sprite drawing.
    pub fn sprite() -> (r: Self)
        ensures
            r.bits == 2,
    {
        RenderCapabilities { bits: 2 }
    }

    /// Shaders.
    pub fn shader() -> (r: Self)
        ensures
            r.bits == 4,
    {
        RenderCapabilities { bits: 4 }
    }

    /// Meshes.
    pub fn mesh() -> (r: Self)
        ensures
            r.bits == 8,
    {
        RenderCapabilities { bits: 8 }
    }

    /// The bits of the set.
    pub fn bits(&self) -> (r: u32)
        ensures
            r == self.bits,
    {
        self.bits
    }

    /// The set of the known features among `bits`.
    pub fn from_bits_truncate(bits: u32) -> (r: Self)
        ensures
            r.bits == bits & 15,
    {
        RenderCapabilities { bits: bits & 15 }
    }

    /// The empty set.
    pub fn empty() -> (r: Self)
        ensures
            r.bits == 0,
    {
        RenderCapabilities { bits: 0 }
    }

    /// Whether every feature of `other` is in this set.
    pub fn contains(&self, other: RenderCapabilities) -> (r: bool)
        ensures
            r == (self.bits & other.bits == other.bits),
    {
        self.bits & other.bits == other.bits
    }

    /// The features of either set.
    pub fn union(self, other: RenderCapabilities) -> (r: Self)
        ensures
            r.bits == self.bits | other.bits,
    {
        RenderCapabilities { bits: self.bits | other.bits }
    }
}

impl Default for RenderCapabilities {
    /// Text only.
    fn default() -> (r: Self)
        ensures
            r.bits == 1,
    {
        RenderCapabilities::text()
    }
}

/// A read-only view of one node for a renderer.
#[derive(Debug)]
pub struct ComponentView<'a> {
    pub node_id: &'a str,
    pub node_type: &'a str,
    pub components: &'a StrMap<Component>,
    /// The node's `position`: a `vec2`, or a `float` as `x` with `y` zero.
    pub position: Option<(serde_json::Number, serde_json::Number)>,
}

/// The position a `position` component denotes.
pub open spec fn position_of(c: Option<Component>) -> Option<(serde_json::Number, serde_json::Number)> {
    match c {
        Some(c) => match c.value {
            ComponentValue::Vec2(v) => Some((v@[0], v@[1])),
            ComponentValue::Float(f) => Some((f, float_of_int(0))),
            _ => None,
        },
        None => None,
    }
}

/// The component under `key`, if any.
pub open spec fn component_at(m: StrMap<Component>, key: Seq<char>) -> Option<Component> {
    if m@.contains_key(key) { Some(m@[key]) } else { None }
}

impl<'a> ComponentView<'a> {
    /// The view of a node.
    pub fn from_node(node: &'a Node) -> (r: Self)
        ensures
            r.node_id@ == node.id@,
            r.node_type@ == node.node_type@,
            *r.components == node.components,
            r.position == position_of(component_at(node.components, "position"@)),
    {
        proof { reveal_strlit("position"); }
        let position = match node.components.get("position") {
            Some(c) => match &c.value {
                ComponentValue::Vec2(v) => Some((clone_number(&v[0]), clone_number(&v[1]))),
                ComponentValue::Float(f) => Some((clone_number(f), int_as_float(0))),
                _ => None,
            },
            None => None,
        };
        ComponentView {
            node_id: node.id.as_str(),
            node_type: node.node_type.as_str(),
            components: &node.components,
            position,
        }
    }

    /// The string component under `key`.
    pub fn get_string(&self, key: &str) -> (r: Option<String>)
        ensures
            match component_at(*self.components, key@) {
                Some(c) => match c.value {
                    ComponentValue::String(s) => r matches Some(x) && x@ == s@,
                    _ => r is None,
                },
                None => r is None,
            },
    {
        match self.components.get(key) {
            Some(c) => match &c.value {
                ComponentValue::String(s) => Some(s.clone()),
                _ => None,
            },
            None => None,
        }
    }

    /// The boolean component under `key`.
    pub fn get_bool(&self, key: &str) -> (r: Option<bool>)
        ensures
            r == match component_at(*self.components, key@) {
                Some(c) => match c.value { ComponentValue::Bool(b) => Some(b), _ => None },
                None => None,
            },
    {
        match self.components.get(key) {
            Some(c) => match &c.value {
                ComponentValue::Bool(b) => Some(*b),
                _ => None,
            },
            None => None,
        }
    }

    /// The integer component under `key`.
    pub fn get_int(&self, key: &str) -> (r: Option<i64>)
        ensures
            r == match component_at(*self.components, key@) {
                Some(c) => match c.value { ComponentValue::Int(i) => Some(i), _ => None },
                None => None,
            },
    {
        match self.components.get(key) {
            Some(c) => match &c.value {
                ComponentValue::Int(i) => Some(*i),
                _ => None,
            },
            None => None,
        }
    }

    /// The number under `key`: a float, or an integer as a float.
    pub fn get_float(&self, key: &str) -> (r: Option<serde_json::Number>)
        ensures
            r == match component_at(*self.components, key@) {
                Some(c) => match c.value {
                    ComponentValue::Float(f) => Some(f),
                    ComponentValue::Int(i) => Some(float_of_int(i)),
                    _ => None,
                },
                None => None,
            },
    {
        match self.components.get(key) {
            Some(c) => match &c.value {
                ComponentValue::Float(f) => Some(clone_number(f)),
                ComponentValue::Int(i) => Some(int_as_float(*i)),
                _ => None,
            },
            None => None,
        }
    }

    /// The `vec2` component under `key`.
    pub fn get_vec2(&self, key: &str) -> (r: Option<[serde_json::Number; 2]>)
        ensures
            match component_at(*self.components, key@) {
                Some(c) => match c.value {
                    ComponentValue::Vec2(v) => r matches Some(x) && x@ == v@,
                    _ => r is None,
                },
                None => r is None,
            },
    {
        match self.components.get(key) {
            Some(c) => match &c.value {
                ComponentValue::Vec2(v) => {
                    let x = [clone_number(&v[0]), clone_number(&v[1])];
                    assert(x@ =~= v@);
                    Some(x)
                },
                _ => None,
            },
            None => None,
        }
    }

    /// The `vec3` component under `key`.
    pub fn get_vec3(&self, key: &str) -> (r: Option<[serde_json::Number; 3]>)
        ensures
            match component_at(*self.components, key@) {
                Some(c) => match c.value {
                    ComponentValue::Vec3(v) => r matches Some(x) && x@ == v@,
                    _ => r is None,
                },
                None => r is None,
            },
    {
        match self.components.get(key) {
            Some(c) => match &c.value {
                ComponentValue::Vec3(v) => {
                    let x = [clone_number(&v[0]), clone_number(&v[1]), clone_number(&v[2])];
                    assert(x@ =~= v@);
                    Some(x)
                },
                _ => None,
            },
            None => None,
        }
    }

    /// The `rect` component under `key`.
    pub fn get_rect(&self, key: &str) -> (r: Option<[serde_json::Number; 4]>)
        ensures
            match component_at(*self.components, key@) {
                Some(c) => match c.value {
                    ComponentValue::Rect(v) => r matches Some(x) && x@ == v@,
                    _ => r is None,
                },
                None => r is None,
            },
    {
        match self.components.get(key) {
            Some(c) => match &c.value {
                ComponentValue::Rect(v) => {
                    let x = [clone_number(&v[0]), clone_number(&v[1]), clone_number(&v[2]), clone_number(&v[3])];
                    assert(x@ =~= v@);
                    Some(x)
                },
                _ => None,
            },
            None => None,
        }
    }
}

/// One view per node, in node order.
pub fn views_for_scene(nodes: &[Node]) -> (r: Vec<ComponentView<'_>>)
    ensures
        r@.len() == nodes@.len(),
        forall|i: int| 0 <= i < nodes@.len() ==> (#[trigger] r@[i]).node_id@ == nodes@[i].id@
            && r@[i].node_type@ == nodes@[i].node_type@ && *r@[i].components == nodes@[i].components
            && r@[i].position == position_of(component_at(nodes@[i].components, "position"@)),
{
    let mut out: Vec<ComponentView<'_>> = Vec::new();
    let mut i: usize = 0;
    while i < nodes.len()
        invariant
            i <= nodes@.len(),
            out@.len() == i,
            forall|k: int| 0 <= k < i ==> (#[trigger] out@[k]).node_id@ == nodes@[k].id@
                && out@[k].node_type@ == nodes@[k].node_type@ && *out@[k].components == nodes@[k].components
                && out@[k].position == position_of(component_at(nodes@[k].components, "position"@)),
        decreases nodes.len() - i,
    {
        out.push(ComponentView::from_node(&nodes[i]));
        i += 1;
    }
    out
}

/// The camera a `Camera2D` node describes.
#[derive(Debug)]
pub struct CameraInfo {
    pub position: (serde_json::Number, serde_json::Number),
    pub zoom: serde_json::Number,
    pub follow: Option<String>,
}

/// The camera of the first `Camera2D` view: its position (the origin if
/// it has none), its `zoom` (1 if none) and the node it `follow`s.
pub fn extract_camera(components: &[ComponentView]) -> (r: Option<CameraInfo>)
    ensures
        match r {
            None => forall|i: int| 0 <= i < components@.len() ==> (#[trigger] components@[i]).node_type@ != "Camera2D"@,
            Some(cam) => exists|i: int| 0 <= i < components@.len()
                && (#[trigger] components@[i]).node_type@ == "Camera2D"@
                && (forall|k: int| 0 <= k < i ==> (#[trigger] components@[k]).node_type@ != "Camera2D"@)
                && cam.position == match components@[i].position {
                    Some(p) => p,
                    None => (float_of_int(0), float_of_int(0)),
                }
                && cam.zoom == match component_at(*components@[i].components, "zoom"@) {
                    Some(c) => match c.value {
                        ComponentValue::Float(f) => f,
                        ComponentValue::Int(z) => float_of_int(z),
                        _ => float_of_int(1),
                    },
                    None => float_of_int(1),
                }
                && match component_at(*components@[i].components, "follow"@) {
                    Some(c) => match c.value {
                        ComponentValue::String(s) => cam.follow matches Some(x) && x@ == s@,
                        _ => cam.follow is None,
                    },
                    None => cam.follow is None,
                },
        },
{
    let mut i: usize = 0;
    while i < components.len()
        invariant
            i <= components@.len(),
            forall|k: int| 0 <= k < i ==> (#[trigger] components@[k]).node_type@ != "Camera2D"@,
        decreases components.len() - i,
    {
        let view = &components[i];
        if crate::text::str_eq(view.node_type, "Camera2D") {
            let position = match &view.position {
                Some((x, y)) => (clone_number(x), clone_number(y)),
                None => (int_as_float(0), int_as_float(0)),
            };
            let zoom = match view.get_float("zoom") {
                Some(z) => z,
                None => int_as_float(1),
            };
            let follow = view.get_string("follow");
            return Some(CameraInfo { position, zoom, follow });
        }
        i += 1;
    }
    None
}

/// A rendering backend. The engine hands it the views of a scene once
/// per tick.
pub trait Render {
    fn render(&mut self, components: &[ComponentView], tick: u64);
    fn viewport(&self) -> Viewport;
    fn resize(&mut self, viewport: Viewport);
    fn shutdown(&mut self);

    /// Text only, unless a backend says otherwise.
    fn capabilities(&self) -> RenderCapabilities {
        RenderCapabilities::text()
    }
}

/// A renderer that draws nothing and counts frames.
#[derive(Debug, Default)]
pub struct NullRenderer {
    viewport: Viewport,
    frames_rendered: u64,
}

impl NullRenderer {
    pub closed spec fn frames(&self) -> u64 {
        self.frames_rendered
    }

    pub closed spec fn current_viewport(&self) -> Viewport {
        self.viewport
    }

    /// A renderer with a zero viewport and no frames.
    pub fn new() -> (r: Self)
        ensures
            r.frames() == 0,
            r.current_viewport() == (Viewport { width: 0, height: 0 }),
    {
        NullRenderer { viewport: Viewport { width: 0, height: 0 }, frames_rendered: 0 }
    }

    /// How many frames were rendered.
    pub fn frames_rendered(&self) -> (r: u64)
        ensures
            r == self.frames(),
    {
        self.frames_rendered
    }
}

impl Render for NullRenderer {
    /// Counts the frame (saturating at `u64::MAX`).
    fn render(&mut self, components: &[ComponentView], tick: u64)
        ensures
            final(self).frames() == if old(self).frames() < u64::MAX { (old(self).frames() + 1) as u64 } else { u64::MAX },
            final(self).current_viewport() == old(self).current_viewport(),
    {
        if self.frames_rendered < u64::MAX {
            self.frames_rendered = self.frames_rendered + 1;
        }
    }

    fn viewport(&self) -> (r: Viewport)
        ensures
            r == self.current_viewport(),
    {
        self.viewport
    }

    fn resize(&mut self, viewport: Viewport)
        ensures
            final(self).current_viewport() == viewport,
            final(self).frames() == old(self).frames(),
    {
        self.viewport = viewport;
    }

    fn shutdown(&mut self)
        ensures
            *final(self) == *old(self),
    {
    }
}

} // verus!
