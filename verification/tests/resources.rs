use ecs_world::resource::Resource;

// Token standing for the sample resource type, whose value is an `f64`.
const SAMPLE_WORLD: u64 = 7;

#[test]
fn test_add_resource() {
    let resource = helper_init_resource();

    let restored_sample_world = *resource.get_data().get(&SAMPLE_WORLD).unwrap();
    assert_eq!(f64::from_bits(restored_sample_world), 500.0);
}

#[test]
fn test_get_ref() {
    let resource = helper_init_resource();

    match resource.get_ref(SAMPLE_WORLD) {
        Some(ref_res) => assert_eq!(f64::from_bits(*ref_res), 500.0),
        _ => panic!("We should have a value for resource data"),
    }
}

#[test]
fn test_get_ref_mut() {
    let mut resource = helper_init_resource();

    match resource.get_ref_mut(SAMPLE_WORLD, f64::to_bits(500.0 + 1.0)) {
        Some(_) => {}
        None => panic!("We should have a value for resource data"),
    }

    let data = *resource.get_ref(SAMPLE_WORLD).unwrap();
    assert_eq!(f64::from_bits(data), 501.0);
}

#[test]
fn test_delete_resource() {
    let mut resource = helper_init_resource();
    resource.delete_resource(SAMPLE_WORLD).unwrap();
    assert!(resource.get_ref(SAMPLE_WORLD).is_none(), "Resource should be deleted")
}

fn helper_init_resource() -> Resource {
    let mut resource = Resource::default();

    resource.add_resource(SAMPLE_WORLD, f64::to_bits(500.0));

    resource
}
