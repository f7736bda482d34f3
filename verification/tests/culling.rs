use vavo::renderer::culling::{
    first_active_camera, frustum_visibility_update_system, update_camera_frustum_system,
    visibility_update_system, FrustumCullingSettings, Visibility,
};
use vavo::system::commands::{Command, CommandQueue, EntityId};

fn visible(v: &[Visibility]) -> Vec<bool> {
    v.iter().map(|x| x.is_visible()).collect()
}

#[test]
fn first_active_camera_is_found() {
    assert_eq!(first_active_camera(&[false, true, true]), Some(1));
    assert_eq!(first_active_camera(&[false, false]), None);
    assert_eq!(first_active_camera(&[]), None);
}

#[test]
fn camera_frustum_updates() {
    // sources are projection scales; the frustum is the scale doubled
    let to_frustum = |scale: &i32| scale * 2;
    let cameras = [(EntityId(1), true), (EntityId(2), true), (EntityId(3), false)];
    let sources = [10, 20, 30];

    let on = FrustumCullingSettings::default();
    assert!(on.enabled);
    let mut queue: CommandQueue<i32> = CommandQueue::new();
    let mut frustums = vec![Some(0), None, Some(0)];
    update_camera_frustum_system(&on, &mut queue, 7, &cameras, &sources, &mut frustums, &to_frustum);
    // the active camera with a frustum gets it replaced; the inactive one is left alone
    assert_eq!(frustums, vec![Some(20), None, Some(0)]);
    // the active camera without one gets its insertion queued
    assert_eq!(queue.internal.len(), 1);
    match &queue.internal[0] {
        Command::InsertComponent(id, ty, replace, data) => {
            assert_eq!(id.raw(), 2);
            assert_eq!(*ty, 7);
            assert!(*replace);
            assert_eq!(*data, 40);
        }
        _ => panic!("expected a component insertion"),
    }

    let off = FrustumCullingSettings { enabled: false };
    let mut queue: CommandQueue<i32> = CommandQueue::new();
    let mut frustums = vec![Some(0), None, Some(0)];
    update_camera_frustum_system(&off, &mut queue, 7, &cameras, &sources, &mut frustums, &to_frustum);
    assert_eq!(frustums, vec![Some(0), None, Some(0)]);
    assert!(queue.internal.is_empty());
}

#[test]
fn frustum_change_recomputes_visibility_with_first_active_camera() {
    // world bounding volumes are x positions; camera k sees x < 10 * (k + 1)
    let world_bvs = [5.0f32, 15.0, 25.0];
    let intersects = |camera: usize, x: &f32| *x < 10.0 * (camera as f32 + 1.0);
    let mut vis = vec![Visibility::new(false); 3];
    let on = FrustumCullingSettings::default();
    frustum_visibility_update_system(&on, &[false, true, true], &world_bvs, &mut vis, &intersects);
    assert_eq!(visible(&vis), vec![true, true, false]);

    // no active camera: nothing changes
    let mut untouched = vec![Visibility::new(true); 3];
    frustum_visibility_update_system(&on, &[false], &world_bvs, &mut untouched, &intersects);
    assert_eq!(visible(&untouched), vec![true, true, true]);

    // culling off: nothing changes
    let off = FrustumCullingSettings { enabled: false };
    frustum_visibility_update_system(&off, &[true], &world_bvs, &mut untouched, &intersects);
    assert_eq!(visible(&untouched), vec![true, true, true]);
}

#[test]
fn visibility_update_recomputes_world_volumes_first() {
    // sources are (local x, translation); world x is their sum
    let sources = [(1.0f32, 2.0f32), (10.0, 5.0)];
    let to_world = |s: &(f32, f32)| s.0 + s.1;
    let intersects = |_camera: usize, x: &f32| *x < 10.0;
    let mut world_bvs = vec![0.0f32; 2];
    let mut vis = vec![Visibility::new(false); 2];
    let on = FrustumCullingSettings::default();
    visibility_update_system(&on, &[true], &sources, &mut world_bvs, &mut vis, &to_world, &intersects);
    assert_eq!(world_bvs, vec![3.0, 15.0]);
    assert_eq!(visible(&vis), vec![true, false]);

    let mut stale = vec![0.0f32; 2];
    visibility_update_system(&on, &[], &sources, &mut stale, &mut vis, &to_world, &intersects);
    assert_eq!(stale, vec![0.0, 0.0]);
}
