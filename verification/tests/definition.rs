use skirmish_script::definition::{AssetStore, CollisionMode, EdgeMode};

#[test]
fn collision_modes_map_to_native_edge_behavior() {
    assert_eq!(CollisionMode::Normal.native(), EdgeMode::Plain);
    assert_eq!(CollisionMode::Clamp.native(), EdgeMode::Clamp);
    assert_eq!(CollisionMode::Teeter.native(), EdgeMode::Teeter);
    assert_eq!(CollisionMode::default(), CollisionMode::Normal);
}

#[test]
fn registered_sources_read_back_and_replace_earlier_ones() {
    let mut assets = AssetStore::new();
    assets.register("fox.py".into(), "one".into());
    assets.register("falco.py".into(), "two".into());
    assets.register("fox.py".into(), "three".into());
    assert_eq!(assets.get("fox.py"), Some("three"));
    assert_eq!(assets.get("falco.py"), Some("two"));
    assert_eq!(assets.get("common.py"), None);
    assets.register_shared("common.py".into(), "shared".into());
    assert_eq!(assets.shared("common.py"), Some("shared"));
    assert_eq!(assets.get("common.py"), None);
    assert_eq!(assets.shared_sources().len(), 1);
}

#[test]
fn dependencies_prefix_shared_modules() {
    let mut assets = AssetStore::new();
    assets.register("common.py".into(), "private".into());
    assets.register_shared("common.py".into(), "shared".into());
    let dependencies = assets.dependencies("source").unwrap();
    assert_eq!(
        dependencies,
        vec![("common.py".to_string(), "private".to_string()), ("shared/common.py".to_string(), "shared".to_string())]
    );
}

#[test]
fn dependencies_come_in_name_order() {
    let mut first = AssetStore::new();
    first.register("z.py".into(), "z".into());
    first.register("a.py".into(), "a".into());
    let mut second = AssetStore::new();
    second.register("a.py".into(), "a".into());
    second.register("z.py".into(), "z".into());
    assert_eq!(first.dependencies("source").unwrap(), second.dependencies("source").unwrap());
    assert_eq!(
        first.dependencies("source").unwrap(),
        vec![("a.py".to_string(), "a".to_string()), ("z.py".to_string(), "z".to_string())]
    );
}
