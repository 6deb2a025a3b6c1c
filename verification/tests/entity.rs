use ecs_world::entity::Entity;

// Tokens standing for the two test component types.
const TEST_COMPONENT: u64 = 1;
const TEST2_COMPONENT: u64 = 2;

#[test]
fn test_register_component() {
    let mut entity = Entity::default();
    entity.register_component(TEST_COMPONENT);
    let restored_component = entity.get_component(TEST_COMPONENT);
    assert!(restored_component.is_empty(), "Entity is not initialized correctly");
}

#[test]
fn test_component_to_be_masked() {
    let mut entity = Entity::default();
    entity.register_component(TEST_COMPONENT);
    let mask = entity.get_bitmask(TEST_COMPONENT).unwrap();
    assert_eq!(mask, 1);

    entity.register_component(TEST2_COMPONENT);
    let mask = entity.get_bitmask(TEST2_COMPONENT).unwrap();
    assert_eq!(mask, 2);
}

#[test]
fn create_entity() {
    let mut entity = Entity::default();
    entity.register_component(TEST_COMPONENT);
    entity.create_entity();
    let restored_component = entity.get_component(TEST_COMPONENT);
    assert!(
        restored_component.len() == 1 && restored_component[0].is_none(),
        "Entity is not initialized correctly"
    );
}

#[test]
fn entity_test_with_component() {
    let mut entity = Entity::default();
    entity.register_component(TEST_COMPONENT);
    entity.register_component(TEST2_COMPONENT);
    entity.create_entity();
    entity.with_component(TEST_COMPONENT, 12).unwrap();
    entity.with_component(TEST2_COMPONENT, 13).unwrap();

    let restored_component = entity.get_component(TEST_COMPONENT)[0].unwrap();

    assert_eq!(restored_component, 12, "Component is not stored correctly");
}

#[test]
fn test_with_unregistered_component() {
    let mut entity = Entity::default();
    entity.create_entity();
    let is_error = entity.with_component(TEST_COMPONENT, 12).is_err();
    assert!(is_error);
}

#[test]
fn test_with_component_to_update_bitmap() {
    let mut entity = Entity::default();
    entity.register_component(TEST_COMPONENT);
    entity.register_component(TEST2_COMPONENT);
    entity.create_entity();
    entity.with_component(TEST_COMPONENT, 12).unwrap();
    entity.with_component(TEST2_COMPONENT, 13).unwrap();

    let bitmap_entity = entity.bitmap[0];

    // two components attached: 0b01 | 0b10 == 3
    assert_eq!(bitmap_entity, 3);

    entity.create_entity();
    entity.with_component(TEST_COMPONENT, 88).unwrap();

    let bitmap_entity = entity.bitmap[1];

    // only the first component attached: 0b01 == 1
    assert_eq!(bitmap_entity, 1);
}
