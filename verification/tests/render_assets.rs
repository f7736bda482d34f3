use std::rc::Rc;
use vavo::render_assets::storage::{LightStorage, Storage, StorageUpdate, TransformStorage};
use vavo::render_assets::{RenderAsset, RenderAssets, RenderHandle};
use vavo::system::commands::EntityId;

/// A source of render assets that counts how many it created.
struct Source(&'static str);

struct Created(u32);

impl RenderAsset<String, Created> for Source {
    fn create_render_asset(&self, ctx: &mut Created, entity_id: Option<&EntityId>) -> String {
        ctx.0 += 1;
        match entity_id {
            Some(id) => format!("{}#{}@{}", self.0, ctx.0, id.raw()),
            None => format!("{}#{}", self.0, ctx.0),
        }
    }
}

#[test]
fn inserted_assets_get_fresh_handles() {
    let mut assets: RenderAssets<String> = RenderAssets::new();
    let a = assets.insert("a".to_string());
    let b = assets.insert("b".to_string());
    assert_eq!(a.id, 0);
    assert_eq!(b.id, 1);
    assert_eq!(assets.get(&a).as_deref().map(|s| s.as_str()), Some("a"));
    assert_eq!(assets.get(&b).as_deref().map(|s| s.as_str()), Some("b"));
    assert!(assets.get(&RenderHandle::new(2)).is_none());
    let copy = a.clone();
    assert_eq!(copy.id, a.id);
    assert!(copy == a);
    assert!(a != b);
}

#[test]
fn entity_assets_are_created_once_and_shared() {
    let mut assets: RenderAssets<String> = RenderAssets::new();
    let mut ctx = Created(0);
    let e = EntityId(5);
    let first = assets.get_by_entity(&e, 40, &Source("mesh"), &mut ctx);
    let second = assets.get_by_entity(&e, 40, &Source("mesh"), &mut ctx);
    assert_eq!(first.get(), "mesh#1@5");
    assert!(Rc::ptr_eq(&first.0, &second.0));
    assert_eq!(ctx.0, 1);
    // another component type of the same entity is another asset
    let other = assets.get_by_entity(&e, 41, &Source("material"), &mut ctx);
    assert_eq!(other.get(), "material#2@5");
    assert_eq!(assets.next_id, 2);

    let removed = assets.remove_by_entity(&e, 40);
    assert_eq!(removed.as_deref().map(|s| s.as_str()), Some("mesh#1@5"));
    assert!(assets.remove_by_entity(&e, 40).is_none());
    let again = assets.get_by_entity(&e, 40, &Source("mesh"), &mut ctx);
    assert_eq!(again.get(), "mesh#3@5");
    assert_eq!(again.clone().get(), "mesh#3@5");
}

#[test]
fn handle_assets_are_cached_per_asset_type_and_handle() {
    let mut assets: RenderAssets<String> = RenderAssets::new();
    let mut ctx = Created(0);
    let a = assets.get_by_handle(1, 9, &Source("image"), &mut ctx);
    let b = assets.get_by_handle(1, 9, &Source("image"), &mut ctx);
    let c = assets.get_by_handle(2, 9, &Source("image"), &mut ctx);
    assert_eq!(a.get(), "image#1");
    assert_eq!(b.get(), "image#1");
    assert_eq!(c.get(), "image#2");
    assert_eq!(assets.remove(1, 9).as_deref().map(|s| s.as_str()), Some("image#1"));
    assert!(assets.remove(1, 9).is_none());
    assert!(assets.remove(3, 3).is_none());
}

#[test]
fn resource_assets_can_be_replaced() {
    let mut assets: RenderAssets<String> = RenderAssets::new();
    let mut ctx = Created(0);
    let a = assets.get_by_resource(77, &Source("camera"), &mut ctx, false);
    let b = assets.get_by_resource(77, &Source("camera"), &mut ctx, false);
    let c = assets.get_by_resource(77, &Source("camera"), &mut ctx, true);
    assert_eq!(a.get(), "camera#1");
    assert_eq!(b.get(), "camera#1");
    assert_eq!(c.get(), "camera#2");
    // the replacement keeps the handle
    assert_eq!(assets.next_id, 1);
    assert_eq!(assets.get(&RenderHandle::new(0)).as_deref().map(|s| s.as_str()), Some("camera#2"));
}

#[test]
fn stored_assets_survive_other_lookups_and_removals() {
    let mut assets: RenderAssets<String> = RenderAssets::new();
    let mut ctx = Created(0);
    let inserted = assets.insert("kept".to_string());
    let e = EntityId(3);
    let mesh = assets.get_by_entity(&e, 40, &Source("mesh"), &mut ctx);
    let image = assets.get_by_handle(1, 9, &Source("image"), &mut ctx);
    let camera = assets.get_by_resource(77, &Source("camera"), &mut ctx, false);
    // replacing one asset and removing another leaves the rest cached
    assets.get_by_resource(77, &Source("camera"), &mut ctx, true);
    assert!(assets.remove(1, 9).is_some());
    assert_eq!(assets.get(&inserted).as_deref().map(|s| s.as_str()), Some("kept"));
    let mesh_again = assets.get_by_entity(&e, 40, &Source("mesh"), &mut ctx);
    assert!(Rc::ptr_eq(&mesh.0, &mesh_again.0));
    assert_eq!(image.get(), "image#2");
    assert_eq!(camera.get(), "camera#3");
    // only the removed handle asset is created anew
    let image_again = assets.get_by_handle(1, 9, &Source("image"), &mut ctx);
    assert_eq!(image_again.get(), "image#5");
}

#[test]
fn storage_update_plans_writes_and_resizes() {
    let mut s = Storage::new("lights", 4, 16);
    assert_eq!(s.size(), 64);
    assert_eq!(s.count(), 4);
    assert_eq!(s.element_size(), 16);
    assert_eq!(s.update(0, 0), StorageUpdate::Skip);
    assert_eq!(s.update(48, 3), StorageUpdate::Write);
    assert_eq!(s.size(), 64);
    assert_eq!(s.update(96, 3), StorageUpdate::Recreate { count: 3, element_size: 32 });
    assert_eq!(s.size(), 96);
    assert_eq!(s.count(), 3);
    assert_eq!(s.element_size(), 32);
    assert!(!s.resize(3, 32));
    assert!(s.resize(8, 8));
    assert_eq!(s.size(), 64);
    assert_eq!(s.name, "lights");
}

#[test]
fn named_storages() {
    let t = TransformStorage::new(2, 64);
    let l = LightStorage::new(1, 32);
    assert_eq!(t.0.name, "transform");
    assert_eq!(t.0.size(), 128);
    // the named storages read as their storage
    assert_eq!(t.size(), 128);
    assert_eq!(l.element_size(), 32);
    assert_eq!(l.0.name, "light");
    assert_eq!(l.0.count(), 1);
}
