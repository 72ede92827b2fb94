//! The prototype registries, under erased type keys: a health value and a
//! position value stand in for two distinct component types.

use light::legacy::entity::EntityRegistry;
use light::legacy::resource::{Res, ResFetch, ResourceRegistry};

const HEALTH: u64 = 1;
const POSITION: u64 = 2;

#[derive(Debug, Clone, PartialEq, Eq)]
enum Component {
    Health(u32),
    Position(u32, u32),
}

#[test]
fn spawn_entity() {
    let mut entity_registry: EntityRegistry<Component> = EntityRegistry::new();

    entity_registry.register_component(HEALTH);
    entity_registry.register_component(POSITION);

    let entt_id = entity_registry
        .new_entity()
        .with_component(HEALTH, Component::Health(5))
        .spawn(&mut entity_registry);

    assert_eq!(entt_id, 0);
    assert!(entity_registry.has_component(HEALTH, entt_id).unwrap());
    assert!(!entity_registry.has_component(POSITION, entt_id).unwrap());

    let health = entity_registry.get_component_of_entity(HEALTH, entt_id);
    assert!(matches!(health, Ok(_)));
    assert_eq!(*health.unwrap(), Component::Health(5));

    let health = entity_registry.get_component_of_entity(HEALTH, entt_id);
    assert!(matches!(health, Ok(_)));
}

#[test]
fn add_delete_component() {
    let mut entity_registry: EntityRegistry<Component> = EntityRegistry::new();

    entity_registry.register_component(HEALTH);
    entity_registry.register_component(POSITION);

    let entt_id = entity_registry
        .new_entity()
        .with_component(HEALTH, Component::Health(5))
        .spawn(&mut entity_registry);

    println!("entt(h): {}", entity_registry.get_entity(entt_id).unwrap());
    assert!(!entity_registry.has_component(POSITION, entt_id).unwrap());

    entity_registry
        .replace_component_of_entity(POSITION, entt_id, Component::Position(1, 2))
        .unwrap();

    println!("entt(h, p): {}", entity_registry.get_entity(entt_id).unwrap());
    assert!(entity_registry.has_component(POSITION, entt_id).unwrap());

    entity_registry.delete_component_of_entity(POSITION, entt_id).unwrap();

    println!("entt(h): {}", entity_registry.get_entity(entt_id).unwrap());
    assert!(!entity_registry.has_component(POSITION, entt_id).unwrap());
}

#[test]
fn temp() {

}

struct GameOptions {
    fps: u32,
}

const GAME_OPTIONS: u64 = 10;

#[test]
fn deref_for_res() {
    let game_options = GameOptions { fps: 60 };
    let res = Res::new(&game_options);
    assert_eq!(res.get().fps, 60);
}

#[test]
fn system_param_res() {
    let game_options = GameOptions { fps: 60 };
    let mut registry: ResourceRegistry<GameOptions> = ResourceRegistry::new();
    registry.save(GAME_OPTIONS, game_options);

    let res = ResFetch::get_param(&registry, GAME_OPTIONS).unwrap();
    assert_eq!(res.get().fps, 60);
}

#[test]
fn resource_registry_replaces_and_deletes() {
    let mut registry: ResourceRegistry<u32> = ResourceRegistry::new();
    registry.save(GAME_OPTIONS, 60);
    registry.save(GAME_OPTIONS, 30);
    assert_eq!(*registry.get_ref(GAME_OPTIONS).unwrap(), 30);

    match registry.get_mut(GAME_OPTIONS) {
        Some(value) => *value = 144,
        None => panic!("saved above"),
    }
    assert_eq!(*registry.get_ref(GAME_OPTIONS).unwrap(), 144);

    registry.delete(GAME_OPTIONS);
    assert!(registry.get_ref(GAME_OPTIONS).is_none());
}
