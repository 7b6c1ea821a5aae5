use ecs_runtime::{
    Component, ComponentRef, Entity, GameState, Registry, Resource, COMPONENT_TYPES,
};

#[derive(Debug, Clone, PartialEq)]
enum Part {
    Position(i64, i64),
    Health(u32),
    Label(String),
}

impl Component for Part {}

#[derive(Debug, Clone, PartialEq)]
enum Service {
    Input(u8),
    Network(String),
}

impl Resource for Service {
    fn kind(&self) -> usize {
        match self {
            Service::Input(_) => 6,
            Service::Network(_) => 7,
        }
    }
}

type World = GameState<Part, Service, &'static str>;

#[test]
fn new_world_is_empty() {
    let world = World::new();
    assert_eq!(world.entities.len(), 0);
    assert_eq!(world.resources.len(), 0);
    assert_eq!(world.next_entity_id, 0);
    assert!(world.requested_systems.is_empty());
    assert_eq!(world.components.len(), COMPONENT_TYPES);
    assert_eq!(COMPONENT_TYPES, 6);
    assert!(world.components.iter().all(|array| array.is_empty()));
}

#[test]
fn entity_new_has_no_components() {
    let e = Entity::new(7, "probe".to_string());
    assert_eq!(e.id, 7);
    assert_eq!(e.name, "probe");
    assert!(e.components.is_empty());
}

#[test]
fn create_entity_assigns_dense_ids() {
    let mut world = World::new();
    let a = world.create_entity("a".to_string());
    assert_eq!(a.id, 0);
    assert_eq!(a.name, "a");
    assert!(a.components.is_empty());
    let b = world.create_entity("b".to_string());
    assert_eq!(b.id, 1);
    assert_eq!(world.next_entity_id, 2);
    assert_eq!(world.entities.len(), 2);
    assert_eq!(world.entities[0].name, "a");
    assert_eq!(world.entities[1].name, "b");
}

#[test]
fn added_component_is_found_again() {
    let mut world = World::new();
    let id = world.create_entity("teapot".to_string()).id as usize;
    world.add_component(id, Part::Position(3, -4), 2);
    let entity = world.get_entity(id).unwrap();
    assert_eq!(entity.get_component(&world.components, 2), Some(&Part::Position(3, -4)));
    assert_eq!(entity.get_component(&world.components, 3), None);
    assert_eq!(entity.get_component(&world.components, 0), None);
}

#[test]
fn add_component_fills_both_index_paths() {
    let mut world = World::new();
    world.create_entity("a".to_string());
    world.create_entity("b".to_string());
    world.add_component(1, Part::Health(10), 1);
    world.add_component(0, Part::Health(20), 1);
    world.add_component(1, Part::Label("x".to_string()), 4);
    assert_eq!(
        world.entities[1].components,
        vec![
            ComponentRef { component_type: 1, slot: 0 },
            ComponentRef { component_type: 4, slot: 0 }
        ]
    );
    assert_eq!(world.entities[0].components, vec![ComponentRef { component_type: 1, slot: 1 }]);
    assert_eq!(world.components[1].len(), 2);
    assert_eq!(world.components[1][0].owner, 1);
    assert_eq!(world.components[1][0].component_type, 1);
    assert_eq!(world.components[1][0].component, Part::Health(10));
    assert_eq!(world.components[1][1].owner, 0);
    assert_eq!(world.components[4][0].component, Part::Label("x".to_string()));
    assert!(world.components[0].is_empty());
}

#[test]
fn second_component_of_a_type_shadows_nothing() {
    let mut world = World::new();
    world.create_entity("a".to_string());
    world.add_component(0, Part::Health(1), 1);
    world.add_component(0, Part::Health(2), 1);
    let entity = world.get_entity(0).unwrap();
    assert_eq!(entity.get_component(&world.components, 1), Some(&Part::Health(1)));
    assert_eq!(world.components[1].len(), 2);
    assert_eq!(entity.find_component(1), Some(ComponentRef { component_type: 1, slot: 0 }));
    assert_eq!(entity.find_component(2), None);
}

#[test]
fn entity_add_component_on_a_detached_entity() {
    let mut registry: Registry<Part> = vec![Vec::new(), Vec::new(), Vec::new()];
    let mut entity = Entity::new(5, "loose".to_string());
    entity.add_component(&mut registry, Part::Health(9), 2);
    assert_eq!(entity.components, vec![ComponentRef { component_type: 2, slot: 0 }]);
    assert_eq!(registry[2][0].owner, 5);
    assert_eq!(entity.get_component(&registry, 2), Some(&Part::Health(9)));
}

#[test]
fn get_component_mut_writes_one_record() {
    let mut world = World::new();
    world.create_entity("a".to_string());
    world.create_entity("b".to_string());
    world.add_component(0, Part::Health(1), 1);
    world.add_component(1, Part::Health(2), 1);
    world.add_component(1, Part::Position(0, 0), 2);
    let entity = Entity {
        id: 1,
        name: "b".to_string(),
        components: world.entities[1].components.clone(),
    };
    match entity.get_component_mut(&mut world.components, 1) {
        Some(part) => *part = Part::Health(50),
        None => panic!("component missing"),
    }
    assert!(entity.get_component_mut(&mut world.components, 3).is_none());
    assert_eq!(world.components[1][0].component, Part::Health(1));
    assert_eq!(world.components[1][1].component, Part::Health(50));
    assert_eq!(world.components[1][1].owner, 1);
    assert_eq!(world.components[2][0].component, Part::Position(0, 0));
}

#[test]
fn reference_to_no_record_finds_nothing() {
    let mut registry: Registry<Part> = vec![Vec::new(), Vec::new()];
    let mut entity = Entity::new(0, "stray".to_string());
    entity.components.push(ComponentRef { component_type: 1, slot: 0 });
    entity.components.push(ComponentRef { component_type: 7, slot: 0 });
    assert_eq!(entity.get_component(&registry, 1), None);
    assert_eq!(entity.get_component(&registry, 7), None);
    assert!(entity.get_component_mut(&mut registry, 1).is_none());
    assert!(entity.get_component_mut(&mut registry, 7).is_none());
}

#[test]
fn get_entity_is_bounds_checked() {
    let mut world = World::new();
    assert!(world.get_entity(0).is_none());
    world.create_entity("only".to_string());
    assert_eq!(world.get_entity(0).unwrap().name, "only");
    assert!(world.get_entity(1).is_none());
    assert!(world.get_entity(usize::MAX).is_none());
}

#[test]
fn get_entity_mut_hands_out_the_stored_entity() {
    let mut world = World::new();
    world.create_entity("old".to_string());
    world.create_entity("other".to_string());
    world.get_entity_mut(0).unwrap().name = "new".to_string();
    assert_eq!(world.entities[0].name, "new");
    assert_eq!(world.entities[1].name, "other");
    assert!(world.get_entity_mut(2).is_none());
}

#[test]
fn registry_wide_queries() {
    let mut world = World::new();
    world.create_entity("a".to_string());
    world.create_entity("b".to_string());
    world.create_entity("c".to_string());
    world.add_component(2, Part::Health(3), 1);
    world.add_component(0, Part::Health(1), 1);
    world.add_component(1, Part::Position(1, 1), 2);
    assert_eq!(world.get_entities_with(1), vec![2, 0]);
    assert_eq!(world.get_entities_with(2), vec![1]);
    assert_eq!(world.get_entities_with(5), Vec::<u32>::new());
    let healths: Vec<&Part> = world.get_components(1).iter().map(|r| &r.component).collect();
    assert_eq!(healths, vec![&Part::Health(3), &Part::Health(1)]);
    assert!(world.get_components(0).is_empty());
}

#[test]
fn resources_are_found_by_kind() {
    let mut world = World::new();
    assert!(world.get_resource(6).is_none());
    world.add_resource(Service::Network("lobby".to_string()));
    world.add_resource(Service::Input(1));
    world.add_resource(Service::Input(2));
    assert_eq!(world.get_resource(6), Some(&Service::Input(1)));
    assert_eq!(world.get_resource(7), Some(&Service::Network("lobby".to_string())));
    assert!(world.get_resource(0).is_none());
    assert_eq!(world.find_resource(6), Some(1));
    assert_eq!(world.find_resource(7), Some(0));
    assert_eq!(world.find_resource(8), None);
    assert_eq!(world.resources.len(), 3);
}

#[test]
fn get_resource_mut_writes_the_first_of_its_kind() {
    let mut world = World::new();
    world.add_resource(Service::Input(1));
    world.add_resource(Service::Input(2));
    *world.get_resource_mut(6).unwrap() = Service::Input(9);
    assert_eq!(world.resources, vec![Service::Input(9), Service::Input(2)]);
    assert!(world.get_resource_mut(7).is_none());
}

fn heal(world: &mut World) {
    for record in world.components[1].iter_mut() {
        if let Part::Health(h) = &mut record.component {
            *h = *h * 2 + 1;
        }
    }
}

fn drift(world: &mut World) {
    for record in world.components[2].iter_mut() {
        if let Part::Position(x, y) = &mut record.component {
            *x += 5;
            *y -= *x;
        }
    }
}

fn sample_world() -> World {
    let mut world = World::new();
    world.create_entity("a".to_string());
    world.create_entity("b".to_string());
    world.add_component(0, Part::Health(4), 1);
    world.add_component(0, Part::Position(1, 2), 2);
    world.add_component(1, Part::Position(-3, 8), 2);
    world.add_component(1, Part::Health(0), 1);
    world
}

fn snapshot(world: &World) -> Vec<Vec<(u32, Part)>> {
    world
        .components
        .iter()
        .map(|array| array.iter().map(|r| (r.owner, r.component.clone())).collect())
        .collect()
}

#[test]
fn systems_on_disjoint_types_commute() {
    let mut one = sample_world();
    heal(&mut one);
    drift(&mut one);
    let mut other = sample_world();
    drift(&mut other);
    heal(&mut other);
    assert_eq!(snapshot(&one), snapshot(&other));
    assert_eq!(one.components[1][0].component, Part::Health(9));
    assert_eq!(one.components[2][1].component, Part::Position(2, 6));
}
