//! Cache of render assets (GPU-side data) created from entities' components, asset handles and
//! resources.
pub mod storage;

use vstd::prelude::*;
use std::collections::HashMap;
use std::rc::Rc;
use crate::system::commands::EntityId;

verus! {

broadcast use vstd::std_specs::hash::group_hash_axioms;

/// The entity id behind an optional reference.
pub open spec fn entity_of(entity_id: Option<&EntityId>) -> Option<EntityId> {
    match entity_id {
        Some(e) => Some(*e),
        None => None,
    }
}

/// Creates the render asset `R` for a value; `C` is the context it is created in. Each value
/// type says, by `creates`, what creating does; one that does not define it promises nothing of
/// the asset.
pub trait RenderAsset<R, C> {
    /// Creating the asset for `self` (for entity `entity`, if any) takes the context from `ctx` to
    /// `next_ctx` and gives `asset`.
    closed spec fn creates(&self, ctx: C, entity: Option<EntityId>, next_ctx: C, asset: R) -> bool {
        true
    }

    fn create_render_asset(&self, ctx: &mut C, entity_id: Option<&EntityId>) -> (r: R)
        ensures
            self.creates(*old(ctx), entity_of(entity_id), *final(ctx), r),
    ;
}

/// A lookup that found its asset cached (`reuse` and cached under `key`) left the context alone;
/// otherwise the asset it returned, `asset`, is the one `value` created for `entity`.
pub open spec fn lookup_created<K, T, A: RenderAsset<T, C>, C>(
    old_map: Map<K, u64>,
    old_storage: Map<u64, Rc<T>>,
    key: K,
    reuse: bool,
    value: A,
    entity: Option<EntityId>,
    old_ctx: C,
    new_ctx: C,
    asset: T,
) -> bool {
    if reuse && cached(old_map, old_storage, key) {
        new_ctx == old_ctx
    } else {
        value.creates(old_ctx, entity, new_ctx, asset)
    }
}

/// Handle to a render asset resource
#[derive(Debug)]
pub struct RenderHandle<T> {
    pub id: u64,
    pub marker: std::marker::PhantomData<T>,
}

impl<T> RenderHandle<T> {
    /// The handle with the given id
    pub fn new(id: u64) -> (r: Self)
        ensures
            r.id == id,
    {
        Self { id, marker: std::marker::PhantomData }
    }
}

impl<T> Clone for RenderHandle<T> {
    fn clone(&self) -> (r: Self)
        ensures
            r.id == self.id,
    {
        Self::new(self.id)
    }
}

impl<T> PartialEq for RenderHandle<T> {
    fn eq(&self, other: &Self) -> (r: bool) {
        self.id == other.id
    }
}

impl<T> Eq for RenderHandle<T> {}

impl<T> vstd::std_specs::cmp::PartialEqSpecImpl for RenderHandle<T> {
    open spec fn obeys_eq_spec() -> bool {
        true
    }

    open spec fn eq_spec(&self, other: &Self) -> bool {
        self.id == other.id
    }
}

/// Another pointer to the same shared allocation (`Rc::clone`); the value it points to is the
/// same.
#[verifier::external_body]
fn share<T>(rc: &Rc<T>) -> (r: Rc<T>)
    ensures
        r == *rc,
{
    Rc::clone(rc)
}

/// Shared render asset; cloning it shares the asset.
pub struct RenderAssetEntry<T>(pub Rc<T>);

impl<T> Clone for RenderAssetEntry<T> {
    fn clone(&self) -> (r: Self)
        ensures
            r.0 == self.0,
    {
        RenderAssetEntry(share(&self.0))
    }
}

impl<T> RenderAssetEntry<T> {
    /// The asset
    pub fn get(&self) -> (r: &T)
        ensures
            *r == *self.0,
    {
        &self.0
    }
}

/// Two ids packed into one key, first id in the high half.
pub open spec fn pair_key(high: u64, low: u64) -> u128 {
    (high as int * 0x1_0000_0000_0000_0000 + low as int) as u128
}

/// Different pairs of ids get different keys, so that the caches never mix up two entities'
/// components or two assets' handles.
pub proof fn lemma_pair_key_injective(a: u64, b: u64, c: u64, d: u64)
    requires
        pair_key(a, b) == pair_key(c, d),
    ensures
        a == c,
        b == d,
{
    assert(a as int * 0x1_0000_0000_0000_0000 + b as int == c as int * 0x1_0000_0000_0000_0000 + d as int);
    if a < c {
        assert(a as int * 0x1_0000_0000_0000_0000 + 0x1_0000_0000_0000_0000 <= c as int * 0x1_0000_0000_0000_0000);
    } else if a > c {
        assert(c as int * 0x1_0000_0000_0000_0000 + 0x1_0000_0000_0000_0000 <= a as int * 0x1_0000_0000_0000_0000);
    }
}

fn make_pair_key(high: u64, low: u64) -> (r: u128)
    ensures
        r == pair_key(high, low),
{
    (high as u128) * 0x1_0000_0000_0000_0000u128 + (low as u128)
}

/// Render assets of type `T`, each under its own handle id, plus the maps from what they were
/// created for (an entity's component, an asset handle, a resource) to their handle ids.
pub struct RenderAssets<T> {
    pub storage: HashMap<u64, Rc<T>>,
    /// (asset type, asset handle id) to render handle id
    pub handle_map: HashMap<u128, u64>,
    /// (entity id, component type) to render handle id
    pub entity_component_map: HashMap<u128, u64>,
    /// resource type to render handle id
    pub resource_map: HashMap<u64, u64>,
    pub next_id: u64,
}

/// No two keys of `m` name the same handle.
pub open spec fn map_injective<K>(m: Map<K, u64>) -> bool {
    forall|k1: K, k2: K|
        #[trigger] m.contains_key(k1) && #[trigger] m.contains_key(k2) && k1 != k2 ==> m[k1] != m[k2]
}

/// No handle named by `a` is named by `b`.
pub open spec fn maps_apart<K1, K2>(a: Map<K1, u64>, b: Map<K2, u64>) -> bool {
    forall|k1: K1, k2: K2| #[trigger] a.contains_key(k1) && #[trigger] b.contains_key(k2) ==> a[k1] != b[k2]
}

/// Handle `h` is named by no key of `m`.
pub open spec fn unnamed<K>(m: Map<K, u64>, h: u64) -> bool {
    forall|k: K| #[trigger] m.contains_key(k) ==> m[k] != h
}

/// Every handle id in use is below the next one handed out, and each handle is named by at most
/// one key of one map.
pub open spec fn render_assets_wf<T>(r: RenderAssets<T>) -> bool {
    &&& map_injective(r.handle_map@)
    &&& map_injective(r.entity_component_map@)
    &&& map_injective(r.resource_map@)
    &&& maps_apart(r.handle_map@, r.entity_component_map@)
    &&& maps_apart(r.handle_map@, r.resource_map@)
    &&& maps_apart(r.entity_component_map@, r.resource_map@)
    &&& forall|k: u64| #[trigger] r.storage@.contains_key(k) ==> k < r.next_id
    &&& forall|k: u128| #[trigger] r.handle_map@.contains_key(k) ==> r.handle_map@[k] < r.next_id
    &&& forall|k: u128| #[trigger] r.entity_component_map@.contains_key(k) ==> r.entity_component_map@[k] < r.next_id
    &&& forall|k: u64| #[trigger] r.resource_map@.contains_key(k) ==> r.resource_map@[k] < r.next_id
}

/// Key of an entity's component: the entity id and the component's type.
pub open spec fn entity_component_key(entity_id: EntityId, component_type: u64) -> u128 {
    pair_key(entity_id.0 as u64, component_type)
}

/// Key of an asset handle: the asset's type and the handle's id.
pub open spec fn asset_handle_key(asset_type: u64, handle_id: u64) -> u128 {
    pair_key(asset_type, handle_id)
}

/// Under `key`, `map` names a handle whose asset is in `storage`.
pub open spec fn cached<K, T>(map: Map<K, u64>, storage: Map<u64, Rc<T>>, key: K) -> bool {
    map.contains_key(key) && storage.contains_key(map[key])
}

/// What a lookup through `map` under `key` leaves behind, `r` being the asset it returned. With
/// `reuse`, an asset that is there is handed back and nothing changes. Otherwise a key whose handle
/// is known gets a newly created asset under that handle, and an unknown key gets a fresh handle,
/// the next id, with the newly created asset under it.
pub open spec fn lookup_outcome<K, T>(
    old_map: Map<K, u64>,
    old_storage: Map<u64, Rc<T>>,
    old_next: u64,
    key: K,
    reuse: bool,
    new_map: Map<K, u64>,
    new_storage: Map<u64, Rc<T>>,
    new_next: u64,
    r: Rc<T>,
) -> bool {
    if reuse && cached(old_map, old_storage, key) {
        &&& r == old_storage[old_map[key]]
        &&& new_storage == old_storage
        &&& new_map == old_map
        &&& new_next == old_next
    } else if old_map.contains_key(key) {
        &&& new_storage == old_storage.insert(old_map[key], r)
        &&& new_map == old_map
        &&& new_next == old_next
    } else {
        &&& new_storage == old_storage.insert(old_next, r)
        &&& new_map == old_map.insert(key, old_next)
        &&& new_next == old_next + 1
    }
}

/// What removing the entry under `key` of `map` leaves behind, `r` being what was returned: the
/// key goes, and so does the asset of its handle, which is returned; an unknown key changes nothing.
pub open spec fn removal_outcome<K, T>(
    old_map: Map<K, u64>,
    old_storage: Map<u64, Rc<T>>,
    key: K,
    new_map: Map<K, u64>,
    new_storage: Map<u64, Rc<T>>,
    r: Option<Rc<T>>,
) -> bool {
    if old_map.contains_key(key) {
        &&& new_map == old_map.remove(key)
        &&& new_storage == old_storage.remove(old_map[key])
        &&& r == (if old_storage.contains_key(old_map[key]) {
            Some(old_storage[old_map[key]])
        } else {
            None
        })
    } else {
        &&& new_map == old_map
        &&& new_storage == old_storage
        &&& r is None
    }
}

/// A lookup that finds its asset cached returns it again: after a first lookup under `key`, a
/// second one under the same key (with `reuse`) returns the same asset and changes nothing.
pub proof fn lemma_second_lookup_reuses<K, T>(
    m0: Map<K, u64>, s0: Map<u64, Rc<T>>, n0: u64, key: K, reuse: bool,
    m1: Map<K, u64>, s1: Map<u64, Rc<T>>, n1: u64, r1: Rc<T>,
    m2: Map<K, u64>, s2: Map<u64, Rc<T>>, n2: u64, r2: Rc<T>,
)
    requires
        lookup_outcome(m0, s0, n0, key, reuse, m1, s1, n1, r1),
        lookup_outcome(m1, s1, n1, key, true, m2, s2, n2, r2),
    ensures
        r2 == r1,
        m2 == m1,
        s2 == s1,
        n2 == n1,
{
}

/// After the entry under `key` was removed, nothing is cached under `key`: the next lookup under
/// it creates its asset anew (as `lookup_created` says).
pub proof fn lemma_lookup_after_removal_creates<K, T>(
    m0: Map<K, u64>,
    s0: Map<u64, Rc<T>>,
    key: K,
    m1: Map<K, u64>,
    s1: Map<u64, Rc<T>>,
    r: Option<Rc<T>>,
)
    requires
        removal_outcome(m0, s0, key, m1, s1, r),
    ensures
        !cached(m1, s1, key),
        m0.contains_key(key) ==> !m1.contains_key(key),
{
}

/// A lookup under `key` leaves alone every asset but the one under the handle `key` names, below
/// the next id: such a handle stays stored (or absent) with the same asset, and no key comes to
/// name it. So an asset stored under a handle that the looked-up map does not name for `key` (an
/// inserted asset, another key's asset, another map's asset) stays retrievable across the lookup.
pub proof fn lemma_lookup_keeps_other_handles<K, T>(
    m0: Map<K, u64>, s0: Map<u64, Rc<T>>, n0: u64, key: K, reuse: bool,
    m1: Map<K, u64>, s1: Map<u64, Rc<T>>, n1: u64, r: Rc<T>,
    h: u64,
)
    requires
        lookup_outcome(m0, s0, n0, key, reuse, m1, s1, n1, r),
        h < n0,
        !(m0.contains_key(key) && m0[key] == h),
    ensures
        s1.contains_key(h) == s0.contains_key(h),
        s0.contains_key(h) ==> s1[h] == s0[h],
        unnamed(m0, h) ==> unnamed(m1, h),
        n0 <= n1,
{
}

/// Removing the entry under `key` leaves alone every asset but the one under the handle `key`
/// named: such a handle stays stored (or absent) with the same asset, and the map only loses
/// `key`.
pub proof fn lemma_removal_keeps_other_handles<K, T>(
    m0: Map<K, u64>, s0: Map<u64, Rc<T>>, key: K,
    m1: Map<K, u64>, s1: Map<u64, Rc<T>>, r: Option<Rc<T>>,
    h: u64,
)
    requires
        removal_outcome(m0, s0, key, m1, s1, r),
        !(m0.contains_key(key) && m0[key] == h),
    ensures
        s1.contains_key(h) == s0.contains_key(h),
        s0.contains_key(h) ==> s1[h] == s0[h],
        unnamed(m0, h) ==> unnamed(m1, h),
        forall|k: K| #[trigger] m1.contains_key(k) ==> m0.contains_key(k) && m1[k] == m0[k],
{
}

impl<T> RenderAssets<T> {
    /// An empty cache
    pub fn new() -> (r: Self)
        ensures
            r.storage@ == Map::<u64, Rc<T>>::empty(),
            r.handle_map@ == Map::<u128, u64>::empty(),
            r.entity_component_map@ == Map::<u128, u64>::empty(),
            r.resource_map@ == Map::<u64, u64>::empty(),
            r.next_id == 0,
            render_assets_wf(r),
    {
        Self {
            storage: HashMap::new(),
            handle_map: HashMap::new(),
            entity_component_map: HashMap::new(),
            resource_map: HashMap::new(),
            next_id: 0,
        }
    }

    /// Hands out the next handle id.
    fn step_id(&mut self) -> (r: RenderHandle<T>)
        requires
            old(self).next_id < u64::MAX,
        ensures
            r.id == old(self).next_id,
            final(self).next_id == old(self).next_id + 1,
            final(self).storage@ == old(self).storage@,
            final(self).handle_map@ == old(self).handle_map@,
            final(self).entity_component_map@ == old(self).entity_component_map@,
            final(self).resource_map@ == old(self).resource_map@,
    {
        let id = self.next_id;
        self.next_id = self.next_id + 1;
        RenderHandle::new(id)
    }

    /// Stores `asset` under a fresh handle and returns the handle.
    pub fn insert(&mut self, asset: T) -> (r: RenderHandle<T>)
        requires
            render_assets_wf(*old(self)),
            old(self).next_id < u64::MAX,
        ensures
            render_assets_wf(*final(self)),
            r.id == old(self).next_id,
            !old(self).storage@.contains_key(r.id),
            unnamed(final(self).handle_map@, r.id),
            unnamed(final(self).entity_component_map@, r.id),
            unnamed(final(self).resource_map@, r.id),
            final(self).storage@ == old(self).storage@.insert(r.id, Rc::new(asset)),
            final(self).next_id == old(self).next_id + 1,
            final(self).handle_map@ == old(self).handle_map@,
            final(self).entity_component_map@ == old(self).entity_component_map@,
            final(self).resource_map@ == old(self).resource_map@,
    {
        let id = self.step_id();
        self.storage.insert(id.id, Rc::new(asset));
        id
    }

    /// The asset stored under `handle`, if any
    pub fn get(&self, handle: &RenderHandle<T>) -> (r: Option<Rc<T>>)
        ensures
            r == (if self.storage@.contains_key(handle.id) {
                Some(self.storage@[handle.id])
            } else {
                None
            }),
    {
        match self.storage.get(&handle.id) {
            Some(rc) => Some(share(rc)),
            None => None,
        }
    }

    /// The render asset of an entity's component (`component_type` names the component's type),
    /// created from `component` the first time and cached under the pair after that.
    pub fn get_by_entity<A: RenderAsset<T, C>, C>(
        &mut self,
        entity_id: &EntityId,
        component_type: u64,
        component: &A,
        ctx: &mut C,
    ) -> (r: RenderAssetEntry<T>)
        requires
            render_assets_wf(*old(self)),
            old(self).next_id < u64::MAX,
        ensures
            render_assets_wf(*final(self)),
            lookup_outcome(
                old(self).entity_component_map@,
                old(self).storage@,
                old(self).next_id,
                entity_component_key(*entity_id, component_type),
                true,
                final(self).entity_component_map@,
                final(self).storage@,
                final(self).next_id,
                r.0,
            ),
            final(self).handle_map@ == old(self).handle_map@,
            final(self).resource_map@ == old(self).resource_map@,
            lookup_created(
                old(self).entity_component_map@,
                old(self).storage@,
                entity_component_key(*entity_id, component_type),
                true,
                *component,
                Some(*entity_id),
                *old(ctx),
                *final(ctx),
                *r.0,
            ),
    {
        let key = make_pair_key(entity_id.0 as u64, component_type);
        let found = match self.entity_component_map.get(&key) {
            Some(k) => Some(*k),
            None => None,
        };
        match found {
            Some(k) => match self.storage.get(&k) {
                Some(rc) => RenderAssetEntry(share(rc)),
                None => {
                    let rc = Rc::new(component.create_render_asset(ctx, Some(entity_id)));
                    let out = share(&rc);
                    self.storage.insert(k, rc);
                    RenderAssetEntry(out)
                },
            },
            None => {
                let rc = Rc::new(component.create_render_asset(ctx, Some(entity_id)));
                let out = share(&rc);
                let handle = self.step_id();
                self.storage.insert(handle.id, rc);
                self.entity_component_map.insert(key, handle.id);
                RenderAssetEntry(out)
            },
        }
    }

    /// The render asset of the asset behind a handle (`asset_type` names the asset's type,
    /// `handle_id` the handle), created from `asset` the first time and cached under the pair
    /// after that.
    pub fn get_by_handle<A: RenderAsset<T, C>, C>(
        &mut self,
        asset_type: u64,
        handle_id: u64,
        asset: &A,
        ctx: &mut C,
    ) -> (r: RenderAssetEntry<T>)
        requires
            render_assets_wf(*old(self)),
            old(self).next_id < u64::MAX,
        ensures
            render_assets_wf(*final(self)),
            lookup_outcome(
                old(self).handle_map@,
                old(self).storage@,
                old(self).next_id,
                asset_handle_key(asset_type, handle_id),
                true,
                final(self).handle_map@,
                final(self).storage@,
                final(self).next_id,
                r.0,
            ),
            final(self).entity_component_map@ == old(self).entity_component_map@,
            final(self).resource_map@ == old(self).resource_map@,
            lookup_created(
                old(self).handle_map@,
                old(self).storage@,
                asset_handle_key(asset_type, handle_id),
                true,
                *asset,
                None,
                *old(ctx),
                *final(ctx),
                *r.0,
            ),
    {
        let key = make_pair_key(asset_type, handle_id);
        let found = match self.handle_map.get(&key) {
            Some(k) => Some(*k),
            None => None,
        };
        match found {
            Some(k) => match self.storage.get(&k) {
                Some(rc) => RenderAssetEntry(share(rc)),
                None => {
                    let rc = Rc::new(asset.create_render_asset(ctx, None));
                    let out = share(&rc);
                    self.storage.insert(k, rc);
                    RenderAssetEntry(out)
                },
            },
            None => {
                let rc = Rc::new(asset.create_render_asset(ctx, None));
                let out = share(&rc);
                let handle = self.step_id();
                self.storage.insert(handle.id, rc);
                self.handle_map.insert(key, handle.id);
                RenderAssetEntry(out)
            },
        }
    }

    /// The render asset of a resource (`resource_type` names the resource's type), created from
    /// `resource` the first time and cached after that; with `replace`, a cached asset is dropped
    /// and created anew under the same handle.
    pub fn get_by_resource<A: RenderAsset<T, C>, C>(
        &mut self,
        resource_type: u64,
        resource: &A,
        ctx: &mut C,
        replace: bool,
    ) -> (r: RenderAssetEntry<T>)
        requires
            render_assets_wf(*old(self)),
            old(self).next_id < u64::MAX,
        ensures
            render_assets_wf(*final(self)),
            lookup_outcome(
                old(self).resource_map@,
                old(self).storage@,
                old(self).next_id,
                resource_type,
                !replace,
                final(self).resource_map@,
                final(self).storage@,
                final(self).next_id,
                r.0,
            ),
            final(self).handle_map@ == old(self).handle_map@,
            final(self).entity_component_map@ == old(self).entity_component_map@,
            lookup_created(
                old(self).resource_map@,
                old(self).storage@,
                resource_type,
                !replace,
                *resource,
                None,
                *old(ctx),
                *final(ctx),
                *r.0,
            ),
    {
        let found = match self.resource_map.get(&resource_type) {
            Some(k) => Some(*k),
            None => None,
        };
        match found {
            Some(k) => {
                let ghost before = self.storage@;
                if replace {
                    self.storage.remove(&k);
                }
                match self.storage.get(&k) {
                    Some(rc) => RenderAssetEntry(share(rc)),
                    None => {
                        let rc = Rc::new(resource.create_render_asset(ctx, None));
                        let out = share(&rc);
                        self.storage.insert(k, rc);
                        assert(self.storage@ =~= before.insert(k, out));
                        RenderAssetEntry(out)
                    },
                }
            },
            None => {
                let rc = Rc::new(resource.create_render_asset(ctx, None));
                let out = share(&rc);
                let handle = self.step_id();
                self.storage.insert(handle.id, rc);
                self.resource_map.insert(resource_type, handle.id);
                RenderAssetEntry(out)
            },
        }
    }

    /// Removes the render asset created for an asset handle by `get_by_handle`, returning it.
    pub fn remove(&mut self, asset_type: u64, handle_id: u64) -> (r: Option<Rc<T>>)
        requires
            render_assets_wf(*old(self)),
        ensures
            render_assets_wf(*final(self)),
            removal_outcome(
                old(self).handle_map@,
                old(self).storage@,
                asset_handle_key(asset_type, handle_id),
                final(self).handle_map@,
                final(self).storage@,
                r,
            ),
            final(self).next_id == old(self).next_id,
            final(self).entity_component_map@ == old(self).entity_component_map@,
            final(self).resource_map@ == old(self).resource_map@,
    {
        let key = make_pair_key(asset_type, handle_id);
        match self.handle_map.remove(&key) {
            Some(k) => {
                let ghost before = self.storage@;
                let r = self.storage.remove(&k);
                assert(self.storage@ =~= before.remove(k));
                r
            },
            None => {
                assert(self.handle_map@ =~= old(self).handle_map@);
                None
            },
        }
    }

    /// Removes the render asset created for an entity's component by `get_by_entity`, returning
    /// it.
    pub fn remove_by_entity(&mut self, entity_id: &EntityId, component_type: u64) -> (r: Option<Rc<T>>)
        requires
            render_assets_wf(*old(self)),
        ensures
            render_assets_wf(*final(self)),
            removal_outcome(
                old(self).entity_component_map@,
                old(self).storage@,
                entity_component_key(*entity_id, component_type),
                final(self).entity_component_map@,
                final(self).storage@,
                r,
            ),
            final(self).next_id == old(self).next_id,
            final(self).handle_map@ == old(self).handle_map@,
            final(self).resource_map@ == old(self).resource_map@,
    {
        let key = make_pair_key(entity_id.0 as u64, component_type);
        match self.entity_component_map.remove(&key) {
            Some(k) => {
                let ghost before = self.storage@;
                let r = self.storage.remove(&k);
                assert(self.storage@ =~= before.remove(k));
                r
            },
            None => {
                assert(self.entity_component_map@ =~= old(self).entity_component_map@);
                None
            },
        }
    }
}

} // verus!
