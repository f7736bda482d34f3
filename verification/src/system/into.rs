//! Building systems and checking a system's own parameters for borrow conflicts.
use vstd::prelude::*;
use std::collections::HashMap;
use super::params::{ParamInfo, TypeInfo};
use super::conflict::params_clash;
use super::{System, SystemCondition};

verus! {

broadcast use vstd::std_specs::hash::group_hash_axioms;

/// Convert a value into a [`System`]
pub trait IntoSystem<E> {
    /// Convert self into a [`System`]
    fn build(self) -> System<E>;

    /// Add new run condition to the system
    fn run_if(self, condition: SystemCondition<E>) -> System<E>;
}

impl<E> IntoSystem<E> for System<E> {
    fn build(self) -> (r: System<E>)
        ensures
            r == self,
    {
        self
    }

    fn run_if(self, condition: SystemCondition<E>) -> (r: System<E>)
        ensures
            r.last_run == self.last_run,
            r.function == self.function,
            r.conditions@ == self.conditions@.push(condition),
    {
        self.internal_run_if(condition)
    }
}

/// Convert a value into a [`SystemCondition`]
pub trait IntoSystemCondition<E> {
    /// Convert the value into a [`SystemCondition`]
    fn build(self) -> SystemCondition<E>;
}

impl<E> IntoSystemCondition<E> for SystemCondition<E> {
    fn build(self) -> (r: SystemCondition<E>)
        ensures
            r == self,
    {
        self
    }
}

/// `j` is the first position in `p` that accesses the type with id `id`.
pub open spec fn first_access(p: Seq<ParamInfo>, id: u64, j: int) -> bool {
    &&& 0 <= j < p.len()
    &&& p[j].type_info.id == id
    &&& forall|k: int| 0 <= k < j ==> p[k].type_info.id != id
}

/// The access at position `i` repeats an earlier access to the same type, and either it or the
/// first access to that type is mutable.
pub open spec fn borrow_clash_at(p: Seq<ParamInfo>, i: int) -> bool {
    exists|j: int|
        j < i && #[trigger] first_access(p, p[i].type_info.id, j) && (p[i].is_mutable
            || p[j].is_mutable)
}

/// The result of checking `p` for borrow conflicts: the type of the first access that clashes
/// with an earlier one, if any.
pub open spec fn first_borrow_clash(p: Seq<ParamInfo>, r: Option<TypeInfo>) -> bool {
    match r {
        Some(t) => exists|i: int|
            0 <= i < p.len() && #[trigger] borrow_clash_at(p, i) && p[i].type_info == t && forall|
                k: int,
            |
                0 <= k < i ==> !borrow_clash_at(p, k),
        None => forall|i: int| 0 <= i < p.len() ==> !borrow_clash_at(p, i),
    }
}

/// Check for borrow conflicts among system parameters, returning the first conflicting type.
pub fn check_borrow_conflicts(params_info: &[ParamInfo]) -> (r: Option<TypeInfo>)
    ensures
        first_borrow_clash(params_info@, r),
{
    let mut seen = HashMap::<u64, bool>::new();
    let mut i: usize = 0;
    while i < params_info.len()
        invariant
            i <= params_info@.len(),
            forall|id: u64|
                #[trigger] seen@.contains_key(id) <==> exists|j: int|
                    0 <= j < i && #[trigger] first_access(params_info@, id, j),
            forall|id: u64, j: int|
                0 <= j < i && #[trigger] first_access(params_info@, id, j) ==> seen@[id]
                    == params_info@[j].is_mutable,
            forall|k: int| 0 <= k < i ==> !borrow_clash_at(params_info@, k),
        decreases params_info@.len() - i,
    {
        let param_info = &params_info[i];
        let is_mutable = param_info.is_mutable();
        let type_info = param_info.type_info();
        let ghost p = params_info@;
        let ghost id = type_info.id;
        match seen.get(&type_info.type_id()) {
            Some(existing_access) => {
                let ghost j = choose|j: int| 0 <= j < i && #[trigger] first_access(p, id, j);
                if param_info.is_mutable() || *existing_access {
                    assert(borrow_clash_at(p, i as int));
                    return Some(type_info);
                }
                assert forall|j2: int| j2 < i && #[trigger] first_access(p, id, j2) implies !(
                p[i as int].is_mutable || p[j2].is_mutable) by {
                    if j2 != j {
                        if j2 < j {
                            assert(p[j2].type_info.id != id);
                        } else {
                            assert(p[j].type_info.id != id);
                        }
                    }
                }
                assert(!borrow_clash_at(p, i as int));
            },
            None => {
                assert forall|j: int| j < i implies !#[trigger] first_access(p, id, j) by {}
                assert(!borrow_clash_at(p, i as int));
                assert forall|k: int| 0 <= k < i implies p[k].type_info.id != id by {
                    if p[k].type_info.id == id {
                        let f = first_index(p, id, k);
                        assert(seen@.contains_key(id));
                    }
                }
                seen.insert(type_info.type_id(), is_mutable);
                assert(first_access(p, id, i as int));
                assert forall|id2: u64, j: int|
                    0 <= j < i + 1 && #[trigger] first_access(p, id2, j) implies seen@[id2]
                    == p[j].is_mutable by {
                    if j == i {
                        assert(id2 == id);
                    } else if id2 == id {
                        assert(first_access(p, id, i as int));
                        assert(p[j].type_info.id == id);
                    }
                }
            },
        }
        i += 1;
    }
    None
}

/// A parameter list passes the borrow check exactly when no two of its accesses conflict.
pub proof fn lemma_borrow_check_passes_iff_no_clash(p: Seq<ParamInfo>)
    ensures
        first_borrow_clash(p, None) <==> forall|a: int, b: int|
            0 <= a < b < p.len() ==> !params_clash(p[a], p[b]),
{
    if first_borrow_clash(p, None) {
        assert forall|a: int, b: int| 0 <= a < b < p.len() implies !params_clash(p[a], p[b]) by {
            if params_clash(p[a], p[b]) {
                let id = p[b].type_info.id;
                let f = first_index(p, id, a);
                assert(first_access(p, id, f));
                if p[b].is_mutable || p[f].is_mutable {
                    assert(borrow_clash_at(p, b));
                } else {
                    assert(p[a].is_mutable);
                    assert(f < a);
                    assert(borrow_clash_at(p, a));
                }
            }
        }
    } else {
        let i = choose|i: int| 0 <= i < p.len() && borrow_clash_at(p, i);
        let j = choose|j: int| j < i && #[trigger] first_access(p, p[i].type_info.id, j) && (
        p[i].is_mutable || p[j].is_mutable);
        assert(params_clash(p[j], p[i]));
    }
}

/// The first position of `p` that accesses `id`, given that position `a` does.
proof fn first_index(p: Seq<ParamInfo>, id: u64, a: int) -> (f: int)
    requires
        0 <= a < p.len(),
        p[a].type_info.id == id,
    ensures
        first_access(p, id, f),
        f <= a,
    decreases a,
{
    if exists|k: int| 0 <= k < a && p[k].type_info.id == id {
        let k = choose|k: int| 0 <= k < a && p[k].type_info.id == id;
        first_index(p, id, k)
    } else {
        a
    }
}

} // verus!
