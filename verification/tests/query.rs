use ecs_world::entity::query::Query;
use ecs_world::entity::Entity;

// Tokens standing for a `u32` component type and an `f64` component type.
const U32_COMPONENT: u64 = 1;
const F64_COMPONENT: u64 = 2;

#[test]
fn query_test_with_component() {
    let mut entities = Entity::default();
    entities.register_component(U32_COMPONENT);
    entities.register_component(F64_COMPONENT);

    let mut query = Query::new(&entities);
    query.with_component(U32_COMPONENT).unwrap();
    query.with_component(F64_COMPONENT).unwrap();

    assert_eq!(query.map, 3);
    assert_eq!(query.type_ids[0], U32_COMPONENT);
    assert_eq!(query.type_ids[1], F64_COMPONENT);
}

#[test]
fn test_run_query() {
    let mut entities = Entity::default();
    entities.register_component(U32_COMPONENT);
    entities.register_component(F64_COMPONENT);
    entities.create_entity();
    entities.with_component(U32_COMPONENT, u64::from(10_u32)).unwrap();
    entities.with_component(F64_COMPONENT, f64::to_bits(20.0)).unwrap();
    entities.create_entity();
    entities.with_component(U32_COMPONENT, u64::from(5_u32)).unwrap();
    entities.create_entity();
    entities.with_component(F64_COMPONENT, f64::to_bits(50.0)).unwrap();
    entities.create_entity();
    entities.with_component(U32_COMPONENT, u64::from(15_u32)).unwrap();
    entities.with_component(F64_COMPONENT, f64::to_bits(25.0)).unwrap();

    let mut query = Query::new(&entities);
    query.with_component(U32_COMPONENT).unwrap();
    query.with_component(F64_COMPONENT).unwrap();

    let result = query.run().unwrap();
    let u32s = &result[0];
    let f64s = &result[1];

    assert_eq!(u32s.len(), f64s.len());
    assert_eq!(u32s.len(), 2);

    let val_first_u32 = u32::try_from(u32s[0]).unwrap();

    assert_eq!(val_first_u32, 10_u32);

    let val_first_f64 = f64::from_bits(f64s[1]);

    assert_eq!(val_first_f64, 25.0_f64);
}
