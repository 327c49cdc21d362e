use render_core::bindings::{AssetRenderResourceBindings, RenderResourceBinding, RenderResourceBindings};
use render_core::camera::{ActiveCameras, CAMERA2D, CAMERA3D};
use render_core::table::NameTable;

const BUFFER: RenderResourceBinding = RenderResourceBinding::Buffer { resource: 1, dynamic: false };
const INSTANCES: RenderResourceBinding = RenderResourceBinding::Buffer { resource: 2, dynamic: true };
const TEXTURE: RenderResourceBinding = RenderResourceBinding::Texture { resource: 3 };
const SAMPLER: RenderResourceBinding = RenderResourceBinding::Sampler { resource: 4 };

#[test]
fn binding_is_found_under_its_name() {
    let mut bindings = RenderResourceBindings::new();
    assert_eq!(bindings.len(), 0);
    assert_eq!(bindings.get("camera"), None);
    bindings.set("camera", BUFFER);
    bindings.set("albedo", TEXTURE);
    assert_eq!(bindings.get("camera"), Some(BUFFER));
    assert_eq!(bindings.get("albedo"), Some(TEXTURE));
    assert_eq!(bindings.get("normal"), None);
    assert_eq!(bindings.len(), 2);
}

#[test]
fn binding_again_replaces_the_resource() {
    let mut bindings = RenderResourceBindings::new();
    bindings.set("albedo", TEXTURE);
    bindings.set("albedo", SAMPLER);
    assert_eq!(bindings.get("albedo"), Some(SAMPLER));
    assert_eq!(bindings.len(), 1);
}

#[test]
fn clear_takes_every_binding_out() {
    let mut bindings = RenderResourceBindings::new();
    bindings.set("camera", BUFFER);
    bindings.set("albedo", TEXTURE);
    bindings.clear();
    assert_eq!(bindings.len(), 0);
    assert_eq!(bindings.get("camera"), None);
}

#[test]
fn only_dynamic_buffers_are_dynamic() {
    assert!(!BUFFER.dynamic());
    assert!(INSTANCES.dynamic());
    assert!(!TEXTURE.dynamic());
    assert!(!SAMPLER.dynamic());
    let mut bindings = RenderResourceBindings::new();
    bindings.set("camera", BUFFER);
    bindings.set("instances", INSTANCES);
    bindings.set("albedo", TEXTURE);
    bindings.set("bones", RenderResourceBinding::Buffer { resource: 9, dynamic: true });
    assert_eq!(bindings.dynamic_names(), vec!["instances".to_string(), "bones".to_string()]);
    bindings.set("instances", BUFFER);
    assert_eq!(bindings.dynamic_names(), vec!["bones".to_string()]);
}

#[test]
fn asset_binding_comes_before_the_shared_one() {
    let mut shared = RenderResourceBindings::new();
    shared.set("albedo", TEXTURE);
    shared.set("camera", BUFFER);
    let mut assets = AssetRenderResourceBindings::new();
    assert!(assets.get(7).is_none());
    assets.set(7, "albedo", SAMPLER);
    assets.set(8, "normal", TEXTURE);
    assert_eq!(assets.resolve(&shared, 7, "albedo"), Some(SAMPLER));
    assert_eq!(assets.resolve(&shared, 8, "albedo"), Some(TEXTURE));
    assert_eq!(assets.resolve(&shared, 9, "albedo"), Some(TEXTURE));
    assert_eq!(assets.resolve(&shared, 7, "camera"), Some(BUFFER));
    assert_eq!(assets.resolve(&shared, 8, "normal"), Some(TEXTURE));
    assert_eq!(assets.resolve(&shared, 7, "normal"), None);
    assert_eq!(assets.get(7).unwrap().len(), 1);
}

#[test]
fn asset_scope_grows_and_replaces() {
    let mut assets = AssetRenderResourceBindings::new();
    assets.set(1, "a", TEXTURE);
    assets.set(2, "a", SAMPLER);
    assets.set(1, "b", BUFFER);
    assets.set(1, "a", INSTANCES);
    let first = assets.get(1).unwrap();
    assert_eq!(first.len(), 2);
    assert_eq!(first.get("a"), Some(INSTANCES));
    assert_eq!(first.get("b"), Some(BUFFER));
    assert_eq!(assets.get(2).unwrap().get("a"), Some(SAMPLER));
    assert!(assets.get(3).is_none());
}

#[test]
fn table_keeps_names_in_the_order_of_their_first_setting() {
    let mut table: NameTable<u32> = NameTable::new();
    table.set("b", 1);
    table.set("a", 2);
    table.set("b", 3);
    assert_eq!(table.len(), 2);
    assert_eq!(table.name_at(0), "b");
    assert_eq!(table.name_at(1), "a");
    assert_eq!(*table.value_at(0), 3);
    assert_eq!(*table.value_at(1), 2);
    assert_eq!(table.get("a"), Some(&2));
    assert_eq!(table.get("c"), None);
    table.clear();
    assert_eq!(table.len(), 0);
    assert_eq!(table.get("a"), None);
}

#[test]
fn camera_slot_holds_at_most_one_entity() {
    let mut cameras = ActiveCameras::new();
    assert!(!cameras.has_slot(CAMERA3D));
    assert_eq!(cameras.get(CAMERA3D), None);
    cameras.add(CAMERA3D);
    assert!(cameras.has_slot(CAMERA3D));
    assert_eq!(cameras.get(CAMERA3D), None);
    cameras.set(CAMERA3D, 11);
    assert_eq!(cameras.get(CAMERA3D), Some(11));
    cameras.set(CAMERA3D, 12);
    assert_eq!(cameras.get(CAMERA3D), Some(12));
    assert_eq!(cameras.get(CAMERA2D), None);
    cameras.set(CAMERA2D, 5);
    assert_eq!(cameras.get(CAMERA2D), Some(5));
    assert_eq!(cameras.get(CAMERA3D), Some(12));
    cameras.add(CAMERA3D);
    assert_eq!(cameras.get(CAMERA3D), None);
    assert!(cameras.has_slot(CAMERA3D));
}

#[test]
fn camera_slots_have_their_names() {
    assert_eq!(CAMERA3D, "camera_3d");
    assert_eq!(CAMERA2D, "camera_2d");
}
