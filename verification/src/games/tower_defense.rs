//! The tower defense game: its node types and their registry, and its starting scene.

use vstd::prelude::*;
use crate::json::Json;
use crate::scene::{ComponentSpec, ComponentType, NodeDef, NodeRegistry, Scene};
use crate::error::EngineResult;
use crate::validate::scene_parsed;
use crate::games::{DefaultDoc, spec_is, float_doc, vec2_doc};

verus! {

broadcast use vstd::string::group_string_axioms;

/// The `Spawner` node type.
#[derive(Debug, Clone, Copy)]
pub struct Spawner;

impl Default for Spawner {
    fn default() -> (r: Self) {
        Spawner
    }
}

/// The component schema of `Spawner`.
pub open spec fn spawner_specs(s: Seq<ComponentSpec>) -> bool {
    &&& s.len() == 4
    &&& spec_is(s[0], "cooldown"@, ComponentType::Int, DefaultDoc::Int(0))
    &&& spec_is(s[1], "spawn_interval"@, ComponentType::Int, DefaultDoc::Int(20))
    &&& spec_is(s[2], "spawned_count"@, ComponentType::Int, DefaultDoc::Int(0))
    &&& spec_is(s[3], "position"@, ComponentType::Vec2, DefaultDoc::Vec2("0.0"@, "0.0"@))
}

impl NodeDef for Spawner {
    fn node_type(&self) -> (r: &'static str)
        ensures
            r@ == "Spawner"@,
    {
        "Spawner"
    }

    fn component_specs(&self) -> (r: Vec<ComponentSpec>)
        ensures
            spawner_specs(r@),
    {
        proof { reveal_strlit("cooldown"); reveal_strlit("spawn_interval"); reveal_strlit("spawned_count"); reveal_strlit("position"); }
        let mut r: Vec<ComponentSpec> = Vec::new();
        r.push(ComponentSpec::new("cooldown", ComponentType::Int, Json::Int(0)));
        r.push(ComponentSpec::new("spawn_interval", ComponentType::Int, Json::Int(20)));
        r.push(ComponentSpec::new("spawned_count", ComponentType::Int, Json::Int(0)));
        r.push(ComponentSpec::new("position", ComponentType::Vec2, vec2_doc("0.0", "0.0")));
        r
    }
}

/// The `Tower` node type.
#[derive(Debug, Clone, Copy)]
pub struct Tower;

impl Default for Tower {
    fn default() -> (r: Self) {
        Tower
    }
}

/// The component schema of `Tower`.
pub open spec fn tower_specs(s: Seq<ComponentSpec>) -> bool {
    &&& s.len() == 6
    &&& spec_is(s[0], "cooldown"@, ComponentType::Int, DefaultDoc::Int(0))
    &&& spec_is(s[1], "fire_rate"@, ComponentType::Int, DefaultDoc::Int(10))
    &&& spec_is(s[2], "shots_fired"@, ComponentType::Int, DefaultDoc::Int(0))
    &&& spec_is(s[3], "damage"@, ComponentType::Int, DefaultDoc::Int(5))
    &&& spec_is(s[4], "kills"@, ComponentType::Int, DefaultDoc::Int(0))
    &&& spec_is(s[5], "position"@, ComponentType::Vec2, DefaultDoc::Vec2("10.0"@, "0.0"@))
}

impl NodeDef for Tower {
    fn node_type(&self) -> (r: &'static str)
        ensures
            r@ == "Tower"@,
    {
        "Tower"
    }

    fn component_specs(&self) -> (r: Vec<ComponentSpec>)
        ensures
            tower_specs(r@),
    {
        proof { reveal_strlit("cooldown"); reveal_strlit("fire_rate"); reveal_strlit("shots_fired"); reveal_strlit("damage"); reveal_strlit("kills"); reveal_strlit("position"); }
        let mut r: Vec<ComponentSpec> = Vec::new();
        r.push(ComponentSpec::new("cooldown", ComponentType::Int, Json::Int(0)));
        r.push(ComponentSpec::new("fire_rate", ComponentType::Int, Json::Int(10)));
        r.push(ComponentSpec::new("shots_fired", ComponentType::Int, Json::Int(0)));
        r.push(ComponentSpec::new("damage", ComponentType::Int, Json::Int(5)));
        r.push(ComponentSpec::new("kills", ComponentType::Int, Json::Int(0)));
        r.push(ComponentSpec::new("position", ComponentType::Vec2, vec2_doc("10.0", "0.0")));
        r
    }
}

/// The `Enemy` node type.
#[derive(Debug, Clone, Copy)]
pub struct Enemy;

impl Default for Enemy {
    fn default() -> (r: Self) {
        Enemy
    }
}

/// The component schema of `Enemy`.
pub open spec fn enemy_specs(s: Seq<ComponentSpec>) -> bool {
    &&& s.len() == 4
    &&& spec_is(s[0], "health"@, ComponentType::Int, DefaultDoc::Int(5))
    &&& spec_is(s[1], "lifetime"@, ComponentType::Int, DefaultDoc::Int(200))
    &&& spec_is(s[2], "speed"@, ComponentType::Float, DefaultDoc::Float("0.5"@))
    &&& spec_is(s[3], "position"@, ComponentType::Vec2, DefaultDoc::Vec2("0.0"@, "0.0"@))
}

impl NodeDef for Enemy {
    fn node_type(&self) -> (r: &'static str)
        ensures
            r@ == "Enemy"@,
    {
        "Enemy"
    }

    fn component_specs(&self) -> (r: Vec<ComponentSpec>)
        ensures
            enemy_specs(r@),
    {
        proof { reveal_strlit("health"); reveal_strlit("lifetime"); reveal_strlit("speed"); reveal_strlit("position"); }
        let mut r: Vec<ComponentSpec> = Vec::new();
        r.push(ComponentSpec::new("health", ComponentType::Int, Json::Int(5)));
        r.push(ComponentSpec::new("lifetime", ComponentType::Int, Json::Int(200)));
        r.push(ComponentSpec::new("speed", ComponentType::Float, float_doc("0.5")));
        r.push(ComponentSpec::new("position", ComponentType::Vec2, vec2_doc("0.0", "0.0")));
        r
    }
}

/// The `Camera2D` node type.
#[derive(Debug, Clone, Copy)]
pub struct Camera2D;

impl Default for Camera2D {
    fn default() -> (r: Self) {
        Camera2D
    }
}

/// The component schema of `Camera2D`.
pub open spec fn camera2d_specs(s: Seq<ComponentSpec>) -> bool {
    &&& s.len() == 2
    &&& spec_is(s[0], "position"@, ComponentType::Vec2, DefaultDoc::Vec2("0.0"@, "0.0"@))
    &&& spec_is(s[1], "zoom"@, ComponentType::Float, DefaultDoc::Float("1.0"@))
}

impl NodeDef for Camera2D {
    fn node_type(&self) -> (r: &'static str)
        ensures
            r@ == "Camera2D"@,
    {
        "Camera2D"
    }

    fn component_specs(&self) -> (r: Vec<ComponentSpec>)
        ensures
            camera2d_specs(r@),
    {
        proof { reveal_strlit("position"); reveal_strlit("zoom"); }
        let mut r: Vec<ComponentSpec> = Vec::new();
        r.push(ComponentSpec::new("position", ComponentType::Vec2, vec2_doc("0.0", "0.0")));
        r.push(ComponentSpec::new("zoom", ComponentType::Float, float_doc("1.0")));
        r
    }
}

/// The registry of every node type of the game.
pub fn build_node_registry() -> (r: NodeRegistry)
    ensures
        r@.dom() == set!["Spawner"@, "Tower"@, "Enemy"@, "Camera2D"@],
        spawner_specs(r@["Spawner"@]),
        tower_specs(r@["Tower"@]),
        enemy_specs(r@["Enemy"@]),
        camera2d_specs(r@["Camera2D"@]),
{
    let mut r = NodeRegistry::new();
    let s1 = Spawner.component_specs();
    let s2 = Tower.component_specs();
    let s3 = Enemy.component_specs();
    let s4 = Camera2D.component_specs();
    let ghost (v1, v2, v3, v4) = (s1@, s2@, s3@, s4@);
    r.register_specs(Spawner.node_type(), Spawner.node_type(), s1);
    r.register_specs(Tower.node_type(), Tower.node_type(), s2);
    r.register_specs(Enemy.node_type(), Enemy.node_type(), s3);
    r.register_specs(Camera2D.node_type(), Camera2D.node_type(), s4);
    proof {
        reveal_strlit("Spawner"); reveal_strlit("Tower"); reveal_strlit("Enemy"); reveal_strlit("Camera2D");
        assert("Spawner"@.len() != "Tower"@.len());
        assert("Spawner"@.len() != "Enemy"@.len());
        assert("Spawner"@.len() != "Camera2D"@.len());
        assert("Tower"@[0] != "Enemy"@[0]);
        assert("Tower"@.len() != "Camera2D"@.len());
        assert("Enemy"@.len() != "Camera2D"@.len());
        assert(r@["Spawner"@] == v1);
        assert(r@["Tower"@] == v2);
        assert(r@["Enemy"@] == v3);
        assert(r@["Camera2D"@] == v4);
        assert(r@.dom() =~= set!["Spawner"@, "Tower"@, "Enemy"@, "Camera2D"@]);
    }
    r
}

/// The game's starting scene: a spawner, three towers and the camera.
pub const SCENE_JSON: &'static str = r#"{
    "kind": "scene",
    "name": "tower_defense",
    "nodes": [
        {"id": "spawner", "type": "Spawner", "components": {"position": [0.0, 0.0], "cooldown": 0, "spawn_interval": 20,
            "spawned_count": 0}},
        {"id": "tower_a", "type": "Tower", "components": {"position": [10.0, 0.0], "cooldown": 0, "fire_rate": 10,
            "shots_fired": 0, "damage": 5, "kills": 0}},
        {"id": "tower_b", "type": "Tower", "components": {"position": [10.0, 4.0], "cooldown": 0, "fire_rate": 12,
            "shots_fired": 0, "damage": 5, "kills": 0}},
        {"id": "tower_c", "type": "Tower", "components": {"position": [10.0, -4.0], "cooldown": 0, "fire_rate": 8,
            "shots_fired": 0, "damage": 5, "kills": 0}},
        {"id": "camera", "type": "Camera2D", "components": {"position": [5.0, 0.0], "zoom": 1.0}}
    ]
}"#;

/// Loads the starting scene (`SCENE_JSON`, reported as `scene.json`)
/// with the game's node types.
pub fn load_scene() -> (r: EngineResult<Scene>)
    ensures
        exists|reg: NodeRegistry| #[trigger] scene_parsed(SCENE_JSON@, "scene.json"@, reg, r)
            && reg@.dom() == set!["Spawner"@, "Tower"@, "Enemy"@, "Camera2D"@],
{
    let registry = build_node_registry();
    Scene::parse(SCENE_JSON, "scene.json", &registry)
}

} // verus!
