//! The dungeon crawler game: its node types and their registry, and its starting scene.

use vstd::prelude::*;
use crate::json::Json;
use crate::scene::{ComponentSpec, ComponentType, NodeDef, NodeRegistry, Scene};
use crate::error::EngineResult;
use crate::validate::scene_parsed;
use crate::games::{DefaultDoc, spec_is, float_doc, vec2_doc};

verus! {

broadcast use vstd::string::group_string_axioms;

/// The `Player` node type.
#[derive(Debug, Clone, Copy)]
pub struct Player;

impl Default for Player {
    fn default() -> (r: Self) {
        Player
    }
}

/// The component schema of `Player`.
pub open spec fn player_specs(s: Seq<ComponentSpec>) -> bool {
    &&& s.len() == 6
    &&& spec_is(s[0], "position"@, ComponentType::Vec2, DefaultDoc::Vec2("0.0"@, "0.0"@))
    &&& spec_is(s[1], "velocity"@, ComponentType::Vec2, DefaultDoc::Vec2("0.0"@, "0.0"@))
    &&& spec_is(s[2], "health"@, ComponentType::Int, DefaultDoc::Int(100))
    &&& spec_is(s[3], "damage"@, ComponentType::Int, DefaultDoc::Int(10))
    &&& spec_is(s[4], "hitbox"@, ComponentType::Vec2, DefaultDoc::Vec2("0.5"@, "0.5"@))
    &&& spec_is(s[5], "move_counter"@, ComponentType::Int, DefaultDoc::Int(0))
}

impl NodeDef for Player {
    fn node_type(&self) -> (r: &'static str)
        ensures
            r@ == "Player"@,
    {
        "Player"
    }

    fn component_specs(&self) -> (r: Vec<ComponentSpec>)
        ensures
            player_specs(r@),
    {
        proof { reveal_strlit("position"); reveal_strlit("velocity"); reveal_strlit("health"); reveal_strlit("damage"); reveal_strlit("hitbox"); reveal_strlit("move_counter"); }
        let mut r: Vec<ComponentSpec> = Vec::new();
        r.push(ComponentSpec::new("position", ComponentType::Vec2, vec2_doc("0.0", "0.0")));
        r.push(ComponentSpec::new("velocity", ComponentType::Vec2, vec2_doc("0.0", "0.0")));
        r.push(ComponentSpec::new("health", ComponentType::Int, Json::Int(100)));
        r.push(ComponentSpec::new("damage", ComponentType::Int, Json::Int(10)));
        r.push(ComponentSpec::new("hitbox", ComponentType::Vec2, vec2_doc("0.5", "0.5")));
        r.push(ComponentSpec::new("move_counter", ComponentType::Int, Json::Int(0)));
        r
    }
}

/// The `Enemy` node type.
#[derive(Debug, Clone, Copy)]
pub struct Enemy;

impl Default for Enemy {
    fn default() -> (r: Self) {
        Enemy
    }
}

/// The component schema of `Enemy`.
pub open spec fn enemy_specs(s: Seq<ComponentSpec>) -> bool {
    &&& s.len() == 4
    &&& spec_is(s[0], "position"@, ComponentType::Vec2, DefaultDoc::Vec2("0.0"@, "0.0"@))
    &&& spec_is(s[1], "health"@, ComponentType::Int, DefaultDoc::Int(30))
    &&& spec_is(s[2], "damage"@, ComponentType::Int, DefaultDoc::Int(5))
    &&& spec_is(s[3], "hitbox"@, ComponentType::Vec2, DefaultDoc::Vec2("0.5"@, "0.5"@))
}

impl NodeDef for Enemy {
    fn node_type(&self) -> (r: &'static str)
        ensures
            r@ == "Enemy"@,
    {
        "Enemy"
    }

    fn component_specs(&self) -> (r: Vec<ComponentSpec>)
        ensures
            enemy_specs(r@),
    {
        proof { reveal_strlit("position"); reveal_strlit("health"); reveal_strlit("damage"); reveal_strlit("hitbox"); }
        let mut r: Vec<ComponentSpec> = Vec::new();
        r.push(ComponentSpec::new("position", ComponentType::Vec2, vec2_doc("0.0", "0.0")));
        r.push(ComponentSpec::new("health", ComponentType::Int, Json::Int(30)));
        r.push(ComponentSpec::new("damage", ComponentType::Int, Json::Int(5)));
        r.push(ComponentSpec::new("hitbox", ComponentType::Vec2, vec2_doc("0.5", "0.5")));
        r
    }
}

/// The `Wall` node type.
#[derive(Debug, Clone, Copy)]
pub struct Wall;

impl Default for Wall {
    fn default() -> (r: Self) {
        Wall
    }
}

/// The component schema of `Wall`.
pub open spec fn wall_specs(s: Seq<ComponentSpec>) -> bool {
    &&& s.len() == 1
    &&& spec_is(s[0], "position"@, ComponentType::Vec2, DefaultDoc::Vec2("0.0"@, "0.0"@))
}

impl NodeDef for Wall {
    fn node_type(&self) -> (r: &'static str)
        ensures
            r@ == "Wall"@,
    {
        "Wall"
    }

    fn component_specs(&self) -> (r: Vec<ComponentSpec>)
        ensures
            wall_specs(r@),
    {
        proof { reveal_strlit("position"); }
        let mut r: Vec<ComponentSpec> = Vec::new();
        r.push(ComponentSpec::new("position", ComponentType::Vec2, vec2_doc("0.0", "0.0")));
        r
    }
}

/// The `HealthPotion` node type.
#[derive(Debug, Clone, Copy)]
pub struct HealthPotion;

impl Default for HealthPotion {
    fn default() -> (r: Self) {
        HealthPotion
    }
}

/// The component schema of `HealthPotion`.
pub open spec fn health_potion_specs(s: Seq<ComponentSpec>) -> bool {
    &&& s.len() == 3
    &&& spec_is(s[0], "position"@, ComponentType::Vec2, DefaultDoc::Vec2("0.0"@, "0.0"@))
    &&& spec_is(s[1], "heal_amount"@, ComponentType::Int, DefaultDoc::Int(20))
    &&& spec_is(s[2], "hitbox"@, ComponentType::Vec2, DefaultDoc::Vec2("0.3"@, "0.3"@))
}

impl NodeDef for HealthPotion {
    fn node_type(&self) -> (r: &'static str)
        ensures
            r@ == "HealthPotion"@,
    {
        "HealthPotion"
    }

    fn component_specs(&self) -> (r: Vec<ComponentSpec>)
        ensures
            health_potion_specs(r@),
    {
        proof { reveal_strlit("position"); reveal_strlit("heal_amount"); reveal_strlit("hitbox"); }
        let mut r: Vec<ComponentSpec> = Vec::new();
        r.push(ComponentSpec::new("position", ComponentType::Vec2, vec2_doc("0.0", "0.0")));
        r.push(ComponentSpec::new("heal_amount", ComponentType::Int, Json::Int(20)));
        r.push(ComponentSpec::new("hitbox", ComponentType::Vec2, vec2_doc("0.3", "0.3")));
        r
    }
}

/// The `Exit` node type.
#[derive(Debug, Clone, Copy)]
pub struct Exit;

impl Default for Exit {
    fn default() -> (r: Self) {
        Exit
    }
}

/// The component schema of `Exit`.
pub open spec fn exit_specs(s: Seq<ComponentSpec>) -> bool {
    &&& s.len() == 2
    &&& spec_is(s[0], "position"@, ComponentType::Vec2, DefaultDoc::Vec2("0.0"@, "0.0"@))
    &&& spec_is(s[1], "hitbox"@, ComponentType::Vec2, DefaultDoc::Vec2("0.5"@, "0.5"@))
}

impl NodeDef for Exit {
    fn node_type(&self) -> (r: &'static str)
        ensures
            r@ == "Exit"@,
    {
        "Exit"
    }

    fn component_specs(&self) -> (r: Vec<ComponentSpec>)
        ensures
            exit_specs(r@),
    {
        proof { reveal_strlit("position"); reveal_strlit("hitbox"); }
        let mut r: Vec<ComponentSpec> = Vec::new();
        r.push(ComponentSpec::new("position", ComponentType::Vec2, vec2_doc("0.0", "0.0")));
        r.push(ComponentSpec::new("hitbox", ComponentType::Vec2, vec2_doc("0.5", "0.5")));
        r
    }
}

/// The `Input` node type.
#[derive(Debug, Clone, Copy)]
pub struct Input;

impl Default for Input {
    fn default() -> (r: Self) {
        Input
    }
}

/// The component schema of `Input`.
pub open spec fn input_specs(s: Seq<ComponentSpec>) -> bool {
    &&& s.len() == 2
    &&& spec_is(s[0], "direction"@, ComponentType::Vec2, DefaultDoc::Vec2("0.0"@, "0.0"@))
    &&& spec_is(s[1], "action"@, ComponentType::Bool, DefaultDoc::Bool(false))
}

impl NodeDef for Input {
    fn node_type(&self) -> (r: &'static str)
        ensures
            r@ == "Input"@,
    {
        "Input"
    }

    fn component_specs(&self) -> (r: Vec<ComponentSpec>)
        ensures
            input_specs(r@),
    {
        proof { reveal_strlit("direction"); reveal_strlit("action"); }
        let mut r: Vec<ComponentSpec> = Vec::new();
        r.push(ComponentSpec::new("direction", ComponentType::Vec2, vec2_doc("0.0", "0.0")));
        r.push(ComponentSpec::new("action", ComponentType::Bool, Json::Bool(false)));
        r
    }
}

/// The registry of every node type of the game.
pub fn build_node_registry() -> (r: NodeRegistry)
    ensures
        r@.dom() == set!["Player"@, "Enemy"@, "Wall"@, "HealthPotion"@, "Exit"@, "Input"@],
        player_specs(r@["Player"@]),
        enemy_specs(r@["Enemy"@]),
        wall_specs(r@["Wall"@]),
        health_potion_specs(r@["HealthPotion"@]),
        exit_specs(r@["Exit"@]),
        input_specs(r@["Input"@]),
{
    let mut r = NodeRegistry::new();
    let s0 = Player.component_specs();
    let s1 = Enemy.component_specs();
    let s2 = Wall.component_specs();
    let s3 = HealthPotion.component_specs();
    let s4 = Exit.component_specs();
    let s5 = Input.component_specs();
    let ghost v0 = s0@;
    let ghost v1 = s1@;
    let ghost v2 = s2@;
    let ghost v3 = s3@;
    let ghost v4 = s4@;
    let ghost v5 = s5@;
    r.register_specs(Player.node_type(), Player.node_type(), s0);
    r.register_specs(Enemy.node_type(), Enemy.node_type(), s1);
    r.register_specs(Wall.node_type(), Wall.node_type(), s2);
    r.register_specs(HealthPotion.node_type(), HealthPotion.node_type(), s3);
    r.register_specs(Exit.node_type(), Exit.node_type(), s4);
    r.register_specs(Input.node_type(), Input.node_type(), s5);
    proof {
        reveal_strlit("Player"); reveal_strlit("Enemy"); reveal_strlit("Wall"); reveal_strlit("HealthPotion"); reveal_strlit("Exit"); reveal_strlit("Input");
        assert("Player"@.len() != "Enemy"@.len());
        assert("Player"@.len() != "Wall"@.len());
        assert("Player"@.len() != "HealthPotion"@.len());
        assert("Player"@.len() != "Exit"@.len());
        assert("Player"@.len() != "Input"@.len());
        assert("Enemy"@.len() != "Wall"@.len());
        assert("Enemy"@.len() != "HealthPotion"@.len());
        assert("Enemy"@.len() != "Exit"@.len());
        assert("Enemy"@[0] != "Input"@[0]);
        assert("Wall"@.len() != "HealthPotion"@.len());
        assert("Wall"@[0] != "Exit"@[0]);
        assert("Wall"@.len() != "Input"@.len());
        assert("HealthPotion"@.len() != "Exit"@.len());
        assert("HealthPotion"@.len() != "Input"@.len());
        assert("Exit"@.len() != "Input"@.len());
        assert(r@["Player"@] == v0);
        assert(r@["Enemy"@] == v1);
        assert(r@["Wall"@] == v2);
        assert(r@["HealthPotion"@] == v3);
        assert(r@["Exit"@] == v4);
        assert(r@["Input"@] == v5);
        assert(r@.dom() =~= set!["Player"@, "Enemy"@, "Wall"@, "HealthPotion"@, "Exit"@, "Input"@]);
    }
    r
}

/// The game's starting scene: the player, three enemies, a potion and
/// the exit.
pub const SCENE_JSON: &'static str = r#"{
    "kind": "scene",
    "name": "dungeon_crawler",
    "nodes": [
        {"id": "player", "type": "Player", "components": {"position": [1.0, 1.0], "velocity": [0.0, 0.0], "health": 100,
            "damage": 10, "hitbox": [0.5, 0.5], "move_counter": 0}},
        {"id": "enemy_a", "type": "Enemy", "lua_class": "scripts.enemy", "components": {"position": [4.0, 2.0], "health": 30, "damage": 5,
            "hitbox": [0.5, 0.5]}},
        {"id": "enemy_b", "type": "Enemy", "lua_class": "scripts.enemy", "components": {"position": [6.0, 5.0], "health": 30, "damage": 5,
            "hitbox": [0.5, 0.5]}},
        {"id": "enemy_c", "type": "Enemy", "lua_class": "scripts.enemy", "components": {"position": [8.0, 3.0], "health": 30, "damage": 5,
            "hitbox": [0.5, 0.5]}},
        {"id": "potion_a", "type": "HealthPotion", "components": {"position": [3.0, 6.0], "heal_amount": 20, "hitbox": [0.3, 0.3]}},
        {"id": "exit_stairs", "type": "Exit", "components": {"position": [9.0, 9.0], "hitbox": [0.5, 0.5]}}
    ]
}"#;

/// Loads the starting scene (`SCENE_JSON`, reported as `scene.json`)
/// with the game's node types.
pub fn load_scene() -> (r: EngineResult<Scene>)
    ensures
        exists|reg: NodeRegistry| #[trigger] scene_parsed(SCENE_JSON@, "scene.json"@, reg, r)
            && reg@.dom() == set!["Player"@, "Enemy"@, "Wall"@, "HealthPotion"@, "Exit"@, "Input"@],
{
    let registry = build_node_registry();
    Scene::parse(SCENE_JSON, "scene.json", &registry)
}

} // verus!
