use craft::games::{dungeon_crawler, tower_defense};
use craft::scene::ComponentValue;

#[test]
fn scene_loads_with_all_node_types() {
    let scene = dungeon_crawler::load_scene().expect("load");
    assert!(scene.nodes.iter().any(|n| n.id == "player"));
    assert!(scene.nodes.iter().any(|n| n.id == "enemy_a"));
    assert!(scene.nodes.iter().any(|n| n.id == "potion_a"));
    assert!(scene.nodes.iter().any(|n| n.id == "exit_stairs"));
}

#[test]
fn scene_loads_with_four_nodes() {
    let scene = tower_defense::load_scene().expect("load scene");
    assert_eq!(scene.kind, "scene");
    assert_eq!(scene.name, "tower_defense");
    assert_eq!(scene.nodes.len(), 5);
}

#[test]
fn dungeon_player_starts_with_full_health_and_enemies_are_scripted() {
    let scene = dungeon_crawler::load_scene().expect("load");
    let player = scene.nodes.iter().find(|n| n.id == "player").unwrap();
    assert!(matches!(player.components.get("health").unwrap().value, ComponentValue::Int(100)));
    for eid in ["enemy_a", "enemy_b", "enemy_c"] {
        let enemy = scene.nodes.iter().find(|n| n.id == eid).unwrap();
        assert!(matches!(enemy.components.get("health").unwrap().value, ComponentValue::Int(30)));
        assert!(matches!(enemy.components.get("damage").unwrap().value, ComponentValue::Int(5)));
        assert_eq!(enemy.lua_class.as_deref(), Some("scripts.enemy"));
    }
}

#[test]
fn tower_defense_towers_have_kill_counters() {
    let scene = tower_defense::load_scene().expect("load");
    for tower_id in ["tower_a", "tower_b", "tower_c"] {
        let tower = scene.nodes.iter().find(|n| n.id == tower_id).expect(tower_id);
        assert!(tower.components.contains_key("kills"));
    }
}
