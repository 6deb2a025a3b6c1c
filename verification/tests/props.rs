use ecs_world::custom_errors::CustomError;
use ecs_world::entity::query::Query;
use ecs_world::entity::Entity;
use ecs_world::World;

const POSITION: u64 = 100;
const VELOCITY: u64 = 200;
const HEALTH: u64 = 300;
const COUNTER: u64 = 400;

// Attaching an unregistered type fails with `UnregisteredComponentAdded`;
// attaching a registered type before any entity exists fails with
// `CreateComponentNeverCalled`.
#[test]
fn scenario_attach_errors() {
    let mut entity = Entity::default();
    entity.register_component(POSITION);
    entity.create_entity();
    let unregistered = entity.with_component(VELOCITY, 10);
    assert_eq!(unregistered.unwrap_err(), CustomError::UnregisteredComponentAdded);

    let mut fresh = Entity::default();
    fresh.register_component(POSITION);
    let no_row = fresh.with_component(POSITION, 10);
    assert_eq!(no_row.unwrap_err(), CustomError::CreateComponentNeverCalled);
}

// The resource round trip: store, read, update exclusively, read again,
// delete, read again, delete again.
#[test]
fn scenario_resource_round_trip() {
    let mut world = World::new();
    world.add_resource(COUNTER, 12);
    assert_eq!(*world.get_resources(COUNTER).unwrap(), 12);

    let previous = world.get_resource_mut(COUNTER, 99);
    assert_eq!(previous, Some(12));
    assert_eq!(*world.get_resources(COUNTER).unwrap(), 99);

    world.delete_from_resources(COUNTER).unwrap();
    assert!(world.get_resources(COUNTER).is_none());

    let second_delete = world.delete_from_resources(COUNTER);
    assert_eq!(second_delete.unwrap_err(), CustomError::CanNotDeleteResource);
}

// Column alignment: every registered column keeps one slot per entity,
// also for a type registered after rows already exist.
#[test]
fn columns_track_entity_count() {
    let mut entity = Entity::default();
    entity.register_component(POSITION);
    entity.create_entity();
    entity.create_entity();
    entity.register_component(VELOCITY);
    entity.create_entity();

    assert_eq!(entity.get_component(POSITION).len(), 3);
    assert_eq!(entity.get_component(VELOCITY).len(), 3);
    assert_eq!(entity.get_component(VELOCITY)[0], None);
    assert_eq!(entity.get_component(VELOCITY)[1], None);
}

// Bit assignment: the k-th registered type gets bit 2^k, and earlier
// assignments stay stable under further registrations.
#[test]
fn bit_assignment_is_stable() {
    let mut entity = Entity::default();
    entity.register_component(POSITION);
    assert_eq!(entity.get_bitmask(POSITION), Some(1));

    entity.register_component(VELOCITY);
    assert_eq!(entity.get_bitmask(POSITION), Some(1));
    assert_eq!(entity.get_bitmask(VELOCITY), Some(2));

    entity.register_component(HEALTH);
    assert_eq!(entity.get_bitmask(POSITION), Some(1));
    assert_eq!(entity.get_bitmask(VELOCITY), Some(2));
    assert_eq!(entity.get_bitmask(HEALTH), Some(4));

    assert_eq!(entity.get_bitmask(COUNTER), None);
}

// Signature correctness: the signature is the OR of the attached bits and
// nothing else.
#[test]
fn signature_is_or_of_attached_bits() {
    let mut entity = Entity::default();
    entity.register_component(POSITION);
    entity.register_component(VELOCITY);
    entity.register_component(HEALTH);
    entity.create_entity();
    entity.with_component(POSITION, 1).unwrap();
    entity.with_component(HEALTH, 2).unwrap();

    assert_eq!(entity.bitmap[0], 0b101);
}

// Superset match: an entity matches a query when its signature contains
// every requested bit, extra components notwithstanding.
#[test]
fn query_matches_supersets() {
    let mut entity = Entity::default();
    entity.register_component(POSITION);
    entity.register_component(VELOCITY);
    entity.create_entity();
    entity.with_component(POSITION, 1).unwrap();
    entity.create_entity();
    entity.with_component(POSITION, 2).unwrap();
    entity.with_component(VELOCITY, 3).unwrap();

    let mut position_only = Query::new(&entity);
    position_only.with_component(POSITION).unwrap();
    let result = position_only.run().unwrap();
    assert_eq!(result[0], vec![1, 2]);

    let mut velocity_only = Query::new(&entity);
    velocity_only.with_component(VELOCITY).unwrap();
    let result = velocity_only.run().unwrap();
    assert_eq!(result[0], vec![3]);
}

// A query that requests no types returns an empty outer list: one result
// column per requested type, of which there are none.
#[test]
fn query_with_no_types_is_empty() {
    let mut entity = Entity::default();
    entity.register_component(POSITION);
    entity.create_entity();
    entity.with_component(POSITION, 5).unwrap();

    let query = Query::new(&entity);
    let result = query.run().unwrap();
    assert!(result.is_empty());
}

// A type requested twice yields two identical, aligned result columns.
#[test]
fn query_duplicate_type_duplicates_column() {
    let mut entity = Entity::default();
    entity.register_component(POSITION);
    entity.create_entity();
    entity.with_component(POSITION, 41).unwrap();

    let mut query = Query::new(&entity);
    query.with_component(POSITION).unwrap();
    query.with_component(POSITION).unwrap();
    let result = query.run().unwrap();
    assert_eq!(result.len(), 2);
    assert_eq!(result[0], result[1]);
    assert_eq!(result[0], vec![41]);
}

// A query clause naming an unregistered type fails and leaves the query
// usable.
#[test]
fn query_unregistered_type_fails() {
    let mut entity = Entity::default();
    entity.register_component(POSITION);
    let mut query = Query::new(&entity);
    let err = query.with_component(VELOCITY);
    assert_eq!(err.unwrap_err(), CustomError::UnregisteredComponentAdded);
    assert_eq!(query.map, 0);
}

// The store supports the full signature width: 32 types, the last with
// bit 2^31, and an entity carrying all of them.
#[test]
fn full_signature_width() {
    let mut entity = Entity::default();
    for k in 0..32u64 {
        entity.register_component(1000 + k);
    }
    assert_eq!(entity.get_bitmask(1000 + 31), Some(1 << 31));

    entity.create_entity();
    for k in 0..32u64 {
        entity.with_component(1000 + k, k).unwrap();
    }
    assert_eq!(entity.bitmap[0], u32::MAX);
}

// Adding a resource for a type that already has one replaces the value.
#[test]
fn add_resource_replaces() {
    let mut world = World::new();
    world.add_resource(COUNTER, 1);
    world.add_resource(COUNTER, 2);
    assert_eq!(*world.get_resources(COUNTER).unwrap(), 2);
}

// An exclusive view of an absent resource is refused and stores nothing.
#[test]
fn get_ref_mut_absent_stores_nothing() {
    let mut world = World::new();
    assert_eq!(world.get_resource_mut(COUNTER, 5), None);
    assert!(world.get_resources(COUNTER).is_none());
}

// Every error kind describes itself.
#[test]
fn error_messages() {
    assert_eq!(
        CustomError::CreateComponentNeverCalled.message(),
        "Function with_component has called before calling create_entity"
    );
    assert_eq!(
        CustomError::UnregisteredComponentAdded.message(),
        "Attempted to add a component to unregistered component"
    );
    assert_eq!(
        CustomError::CanNotDeleteResource.message(),
        "Can not delete the specified resource"
    );
    assert_eq!(CustomError::ComponentNotFound.message(), "Component Not Found");
}

// Cross-column alignment on a world-level query: the k-th elements of
// both result columns belong to the same entity.
#[test]
fn world_query_is_aligned() {
    let mut world = World::new();
    world.register_component(POSITION);
    world.register_component(VELOCITY);

    let entity = world.create_entity();
    entity.with_component(POSITION, 10).unwrap();
    entity.with_component(VELOCITY, 11).unwrap();
    let entity = world.create_entity();
    entity.with_component(POSITION, 20).unwrap();
    let entity = world.create_entity();
    entity.with_component(VELOCITY, 31).unwrap();
    let entity = world.create_entity();
    entity.with_component(POSITION, 40).unwrap();
    entity.with_component(VELOCITY, 41).unwrap();

    let mut query = world.query();
    query.with_component(POSITION).unwrap();
    query.with_component(VELOCITY).unwrap();
    let result = query.run().unwrap();

    assert_eq!(result[0], vec![10, 40]);
    assert_eq!(result[1], vec![11, 41]);
}
