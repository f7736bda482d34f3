//! Frustum culling: which entities the active camera sees.
//!
//! Bounding volumes and frusta are geometry in floating point; the library holds the decisions
//! around them and reaches the geometry through the `to_world` and `intersects` functions its
//! callers pass in.
use vstd::prelude::*;
use crate::system::commands::{Command, CommandQueue, EntityId};

verus! {

/// Adds resources and systems for frustum culling.
pub struct FrustumCullingPlugin;

/// Settings used for frustum culling. Used as a resource.
#[derive(Debug, Clone, Copy)]
pub struct FrustumCullingSettings {
    /// Whether to use frustum culling
    pub enabled: bool,
}

impl Default for FrustumCullingSettings {
    fn default() -> (r: Self)
        ensures
            r.enabled,
    {
        Self { enabled: true }
    }
}

/// Whether an entity is visible in the frustum; a cache kept by the culling systems.
#[derive(Debug, Clone, Copy)]
pub struct Visibility {
    pub visible: bool,
}

impl Visibility {
    pub fn new(visible: bool) -> (r: Self)
        ensures
            r.visible == visible,
    {
        Self { visible }
    }

    pub fn is_visible(&self) -> (r: bool)
        ensures
            r == self.visible,
    {
        self.visible
    }
}

/// `k` is the first active camera.
pub open spec fn is_first_active(active: Seq<bool>, k: int) -> bool {
    &&& 0 <= k < active.len()
    &&& active[k]
    &&& forall|j: int| 0 <= j < k ==> !#[trigger] active[j]
}

/// The first active camera, by index; `None` when no camera is active.
pub fn first_active_camera(active: &[bool]) -> (r: Option<usize>)
    ensures
        match r {
            Some(k) => is_first_active(active@, k as int),
            None => forall|j: int| 0 <= j < active@.len() ==> !#[trigger] active@[j],
        },
{
    let mut i: usize = 0;
    while i < active.len()
        invariant
            i <= active@.len(),
            forall|j: int| 0 <= j < i ==> !#[trigger] active@[j],
        decreases active@.len() - i,
    {
        if active[i] {
            return Some(i);
        }
        i += 1;
    }
    None
}

/// The insertion commands that the frustum update queues for cameras `0..n`: one for each active
/// camera without a frustum component, inserting its new frustum `nfs[i]` (of type
/// `frustum_type`) on it, in camera order.
pub open spec fn frustum_inserts<P>(
    cameras: Seq<(EntityId, bool)>,
    had: Seq<Option<P>>,
    nfs: Seq<P>,
    frustum_type: u64,
    n: int,
) -> Seq<Command<P>>
    decreases n,
{
    if n <= 0 {
        Seq::empty()
    } else {
        let rest = frustum_inserts(cameras, had, nfs, frustum_type, n - 1);
        if cameras[n - 1].1 && had[n - 1] is None {
            rest.push(Command::InsertComponent(cameras[n - 1].0, frustum_type, true, nfs[n - 1]))
        } else {
            rest
        }
    }
}

/// The frustum update with new frusta `nfs`: each active camera's frustum is recomputed from its
/// source (projection and global transform) into `nfs[i]`, and replaces the one it had; a camera
/// without one gets `nfs[i]` inserted through a queued command; inactive cameras are left alone.
pub open spec fn frustums_updated<S, P, G: Fn(&S) -> P>(
    cameras: Seq<(EntityId, bool)>,
    sources: Seq<S>,
    had: Seq<Option<P>>,
    now: Seq<Option<P>>,
    to_frustum: G,
    frustum_type: u64,
    queued: Seq<Command<P>>,
    nfs: Seq<P>,
) -> bool {
    &&& nfs.len() == cameras.len()
    &&& now.len() == had.len()
    &&& forall|i: int|
        0 <= i < cameras.len() ==> {
            &&& cameras[i].1 ==> to_frustum.ensures((&sources[i],), #[trigger] nfs[i])
            &&& now[i] == (if cameras[i].1 && had[i] is Some {
                Some(nfs[i])
            } else {
                had[i]
            })
        }
    &&& queued == frustum_inserts(cameras, had, nfs, frustum_type, cameras.len() as int)
}

/// Updates the frustum of the active cameras among `cameras` (entity id, active), those whose
/// global transform or projection changed or that have no frustum: each one's frustum is
/// computed by `to_frustum` from its source; a camera's frustum component (`frustums[i]`, if it
/// has one) is replaced, and for a camera without one the insertion of a component of type
/// `frustum_type` is queued. With culling off nothing changes.
pub fn update_camera_frustum_system<S, P, G: Fn(&S) -> P>(
    settings: &FrustumCullingSettings,
    queue: &mut CommandQueue<P>,
    frustum_type: u64,
    cameras: &[(EntityId, bool)],
    sources: &[S],
    frustums: &mut Vec<Option<P>>,
    to_frustum: &G,
)
    requires
        sources@.len() == cameras@.len(),
        old(frustums)@.len() == cameras@.len(),
        forall|s: &S| #[trigger] to_frustum.requires((s,)),
    ensures
        !settings.enabled ==> final(frustums)@ == old(frustums)@ && final(queue).internal@ == old(queue).internal@,
        settings.enabled ==> exists|nfs: Seq<P>|
            #[trigger] frustums_updated(
                cameras@,
                sources@,
                old(frustums)@,
                final(frustums)@,
                *to_frustum,
                frustum_type,
                final(queue).internal@.skip(old(queue).internal@.len() as int),
                nfs,
            ) && final(queue).internal@.take(old(queue).internal@.len() as int) == old(queue).internal@,
{
    if !settings.enabled {
        return;
    }
    let ghost had = frustums@;
    let ghost q0 = queue.internal@;
    let ghost mut nfs: Seq<P> = Seq::empty();
    let mut i: usize = 0;
    while i < cameras.len()
        invariant
            i <= cameras@.len(),
            sources@.len() == cameras@.len(),
            had.len() == cameras@.len(),
            frustums@.len() == cameras@.len(),
            forall|s: &S| #[trigger] to_frustum.requires((s,)),
            nfs.len() == i,
            forall|j: int| 0 <= j < i && cameras@[j].1 ==> to_frustum.ensures((&sources@[j],), #[trigger] nfs[j]),
            forall|j: int|
                0 <= j < i ==> #[trigger] frustums@[j] == (if cameras@[j].1 && had[j] is Some {
                    Some(nfs[j])
                } else {
                    had[j]
                }),
            forall|j: int| i <= j < cameras@.len() ==> #[trigger] frustums@[j] == had[j],
            queue.internal@ == q0 + frustum_inserts(cameras@, had, nfs, frustum_type, i as int),
        decreases cameras@.len() - i,
    {
        let (id, active) = cameras[i];
        let ghost before = frustums@;
        let ghost old_nfs = nfs;
        let ghost q_before = queue.internal@;
        if active {
            let nf = to_frustum(&sources[i]);
            proof {
                nfs = nfs.push(nf);
            }
            if frustums[i].is_some() {
                frustums.set(i, Some(nf));
            } else {
                queue.internal.push(Command::InsertComponent(id, frustum_type, true, nf));
            }
        } else {
            proof {
                nfs = nfs.push(arbitrary());
            }
        }
        proof {
            lemma_frustum_inserts_prefix(cameras@, had, nfs, old_nfs, frustum_type, i as int);
            assert(before[i as int] == had[i as int]);
            assert(queue.internal@ =~= q0 + frustum_inserts(cameras@, had, nfs, frustum_type, i + 1));
            assert forall|j: int| 0 <= j < i + 1 && cameras@[j].1 implies to_frustum.ensures((&sources@[j],), #[trigger] nfs[j]) by {
                if j < i {
                    assert(nfs[j] == old_nfs[j]);
                }
            }
            assert forall|j: int| 0 <= j < i + 1 implies #[trigger] frustums@[j] == (if cameras@[j].1 && had[j] is Some {
                Some(nfs[j])
            } else {
                had[j]
            }) by {
                if j < i {
                    assert(nfs[j] == old_nfs[j]);
                    assert(frustums@[j] == before[j]);
                }
            }
        }
        i += 1;
    }
    proof {
        assert(queue.internal@.skip(q0.len() as int) =~= frustum_inserts(cameras@, had, nfs, frustum_type, cameras@.len() as int));
        assert(queue.internal@.take(q0.len() as int) =~= q0);
        assert forall|j: int| 0 <= j < cameras@.len() implies {
            &&& cameras@[j].1 ==> to_frustum.ensures((&sources@[j],), #[trigger] nfs[j])
            &&& frustums@[j] == (if cameras@[j].1 && had[j] is Some {
                Some(nfs[j])
            } else {
                had[j]
            })
        } by {
            assert(frustums@[j] == frustums@[j]);
        }
        assert(frustums_updated(cameras@, sources@, had, frustums@, *to_frustum, frustum_type, queue.internal@.skip(q0.len() as int), nfs));
    }
}

/// The insertions queued for cameras `0..n`, camera by camera: every one inserts, on an active
/// camera that had no frustum, that camera's new frustum; and every such camera gets one.
proof fn lemma_frustum_inserts_cameras<P>(
    cameras: Seq<(EntityId, bool)>,
    had: Seq<Option<P>>,
    nfs: Seq<P>,
    frustum_type: u64,
    n: int,
)
    requires
        0 <= n <= cameras.len(),
    ensures
        ({
            let q = frustum_inserts(cameras, had, nfs, frustum_type, n);
            &&& forall|k: int|
                0 <= k < q.len() ==> exists|i: int|
                    0 <= i < n && cameras[i].1 && had[i] is None && #[trigger] q[k] == Command::InsertComponent(
                        cameras[i].0,
                        frustum_type,
                        true,
                        nfs[i],
                    )
            &&& forall|i: int|
                0 <= i < n && #[trigger] cameras[i].1 && had[i] is None ==> q.contains(
                    Command::InsertComponent(cameras[i].0, frustum_type, true, nfs[i]),
                )
        }),
    decreases n,
{
    if n > 0 {
        lemma_frustum_inserts_cameras(cameras, had, nfs, frustum_type, n - 1);
        let rest = frustum_inserts(cameras, had, nfs, frustum_type, n - 1);
        let q = frustum_inserts(cameras, had, nfs, frustum_type, n);
        let c = Command::InsertComponent(cameras[n - 1].0, frustum_type, true, nfs[n - 1]);
        if had[n - 1] is None && cameras[n - 1].1 {
            assert(q == rest.push(c));
            assert forall|k: int| 0 <= k < q.len() implies exists|i: int|
                0 <= i < n && cameras[i].1 && had[i] is None && #[trigger] q[k] == Command::InsertComponent(
                    cameras[i].0,
                    frustum_type,
                    true,
                    nfs[i],
                ) by {
                if k < rest.len() {
                    assert(q[k] == rest[k]);
                } else {
                    assert(q[k] == c);
                }
            }
            assert forall|i: int| 0 <= i < n && #[trigger] cameras[i].1 && had[i] is None implies q.contains(
                Command::InsertComponent(cameras[i].0, frustum_type, true, nfs[i]),
            ) by {
                if i < n - 1 {
                    let x = Command::InsertComponent(cameras[i].0, frustum_type, true, nfs[i]);
                    let k = choose|k: int| 0 <= k < rest.len() && rest[k] == x;
                    assert(q[k] == x);
                } else {
                    assert(q[q.len() - 1] == c);
                }
            }
        }
    }
}

/// Every insertion the frustum update queues names an active camera that had no frustum and
/// inserts that camera's new frustum; and every active camera without a frustum gets one.
/// Inactive cameras, and cameras that had a frustum, get none.
pub proof fn lemma_frustum_update_inserts_only_for_active_cameras<S, P, G: Fn(&S) -> P>(
    cameras: Seq<(EntityId, bool)>,
    sources: Seq<S>,
    had: Seq<Option<P>>,
    now: Seq<Option<P>>,
    to_frustum: G,
    frustum_type: u64,
    queued: Seq<Command<P>>,
    nfs: Seq<P>,
)
    requires
        frustums_updated(cameras, sources, had, now, to_frustum, frustum_type, queued, nfs),
    ensures
        forall|k: int|
            0 <= k < queued.len() ==> exists|i: int|
                0 <= i < cameras.len() && cameras[i].1 && had[i] is None && #[trigger] queued[k]
                    == Command::InsertComponent(cameras[i].0, frustum_type, true, nfs[i]),
        forall|i: int|
            0 <= i < cameras.len() && #[trigger] cameras[i].1 && had[i] is None ==> queued.contains(
                Command::InsertComponent(cameras[i].0, frustum_type, true, nfs[i]),
            ),
{
    lemma_frustum_inserts_cameras(cameras, had, nfs, frustum_type, cameras.len() as int);
}

/// The insertions queued for cameras `0..n` depend only on the new frusta of those cameras.
proof fn lemma_frustum_inserts_prefix<P>(
    cameras: Seq<(EntityId, bool)>,
    had: Seq<Option<P>>,
    a: Seq<P>,
    b: Seq<P>,
    frustum_type: u64,
    n: int,
)
    requires
        forall|j: int| 0 <= j < n ==> a[j] == b[j],
    ensures
        frustum_inserts(cameras, had, a, frustum_type, n) == frustum_inserts(cameras, had, b, frustum_type, n),
    decreases n,
{
    if n > 0 {
        lemma_frustum_inserts_prefix(cameras, had, a, b, frustum_type, n - 1);
    }
}

/// Recomputes visibility when the frustum of the active camera changed: with culling on and an
/// active camera among `camera_active`, each entity's visibility becomes whether the first
/// active camera's frustum intersects its world bounding volume; otherwise nothing changes.
pub fn frustum_visibility_update_system<W, F: Fn(usize, &W) -> bool>(
    settings: &FrustumCullingSettings,
    camera_active: &[bool],
    world_bvs: &[W],
    visibilities: &mut Vec<Visibility>,
    intersects: &F,
)
    requires
        old(visibilities)@.len() == world_bvs@.len(),
        forall|c: usize, w: &W| #[trigger] intersects.requires((c, w)),
    ensures
        final(visibilities)@.len() == old(visibilities)@.len(),
        !settings.enabled || (forall|j: int|
            0 <= j < camera_active@.len() ==> !#[trigger] camera_active@[j])
            ==> final(visibilities)@ == old(visibilities)@,
        settings.enabled ==> forall|k: int|
            is_first_active(camera_active@, k) ==> forall|i: int|
                0 <= i < world_bvs@.len() ==> intersects.ensures(
                    (k as usize, &world_bvs@[i]),
                    #[trigger] final(visibilities)@[i].visible,
                ),
{
    if !settings.enabled {
        return;
    }
    let camera = match first_active_camera(camera_active) {
        Some(k) => k,
        None => {
            return;
        },
    };
    let mut i: usize = 0;
    while i < world_bvs.len()
        invariant
            i <= world_bvs@.len(),
            visibilities@.len() == world_bvs@.len(),
            forall|c: usize, w: &W| #[trigger] intersects.requires((c, w)),
            forall|j: int|
                0 <= j < i ==> intersects.ensures(
                    (camera, &world_bvs@[j]),
                    #[trigger] visibilities@[j].visible,
                ),
        decreases world_bvs@.len() - i,
    {
        let visible = intersects(camera, &world_bvs[i]);
        visibilities.set(i, Visibility::new(visible));
        i += 1;
    }
    proof {
        assert forall|k: int| is_first_active(camera_active@, k) implies k == camera as int by {
            if k < camera as int {
                assert(!camera_active@[k]);
            } else if k > camera as int {
                assert(!camera_active@[camera as int]);
            }
        }
    }
}


/// Recomputes the world bounding volume and visibility of entities whose transform or local
/// bounding volume changed: with culling on and an active camera, each entity's world bounding
/// volume becomes `to_world` of its source (local bounding volume and transform), and its
/// visibility whether the first active camera's frustum intersects it; otherwise nothing changes.
pub fn visibility_update_system<S, W, G: Fn(&S) -> W, F: Fn(usize, &W) -> bool>(
    settings: &FrustumCullingSettings,
    camera_active: &[bool],
    sources: &[S],
    world_bvs: &mut Vec<W>,
    visibilities: &mut Vec<Visibility>,
    to_world: &G,
    intersects: &F,
)
    requires
        old(world_bvs)@.len() == sources@.len(),
        old(visibilities)@.len() == sources@.len(),
        forall|s: &S| #[trigger] to_world.requires((s,)),
        forall|c: usize, w: &W| #[trigger] intersects.requires((c, w)),
    ensures
        final(world_bvs)@.len() == old(world_bvs)@.len(),
        final(visibilities)@.len() == old(visibilities)@.len(),
        !settings.enabled || (forall|j: int|
            0 <= j < camera_active@.len() ==> !#[trigger] camera_active@[j])
            ==> final(visibilities)@ == old(visibilities)@ && final(world_bvs)@ == old(world_bvs)@,
        settings.enabled ==> forall|k: int|
            is_first_active(camera_active@, k) ==> forall|i: int|
                0 <= i < sources@.len() ==> to_world.ensures(
                    (&sources@[i],),
                    #[trigger] final(world_bvs)@[i],
                ) && intersects.ensures(
                    (k as usize, &final(world_bvs)@[i]),
                    final(visibilities)@[i].visible,
                ),
{
    if !settings.enabled {
        return;
    }
    let camera = match first_active_camera(camera_active) {
        Some(k) => k,
        None => {
            return;
        },
    };
    let mut i: usize = 0;
    while i < sources.len()
        invariant
            i <= sources@.len(),
            world_bvs@.len() == sources@.len(),
            visibilities@.len() == sources@.len(),
            forall|s: &S| #[trigger] to_world.requires((s,)),
            forall|c: usize, w: &W| #[trigger] intersects.requires((c, w)),
            forall|j: int|
                0 <= j < i ==> to_world.ensures((&sources@[j],), #[trigger] world_bvs@[j])
                    && intersects.ensures((camera, &world_bvs@[j]), visibilities@[j].visible),
        decreases sources@.len() - i,
    {
        let world_bv = to_world(&sources[i]);
        let visible = intersects(camera, &world_bv);
        world_bvs.set(i, world_bv);
        visibilities.set(i, Visibility::new(visible));
        i += 1;
    }
    proof {
        assert forall|k: int| is_first_active(camera_active@, k) implies k == camera as int by {
            if k < camera as int {
                assert(!camera_active@[k]);
            } else if k > camera as int {
                assert(!camera_active@[camera as int]);
            }
        }
    }
}

} // verus!
