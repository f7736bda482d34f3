//! Detection of conflicting data accesses between system parameters and systems.
use vstd::prelude::*;
use super::params::ParamInfo;
use super::{System, SystemCondition};

verus! {

/// Two accesses conflict when they touch the same type and at least one of them writes.
pub open spec fn params_clash(a: ParamInfo, b: ParamInfo) -> bool {
    a.type_info.id == b.type_info.id && (a.is_mutable || b.is_mutable)
}

/// Some access of `a` conflicts with some access of `b`.
pub open spec fn lists_clash(a: Seq<ParamInfo>, b: Seq<ParamInfo>) -> bool {
    exists|i: int, j: int| 0 <= i < a.len() && 0 <= j < b.len() && params_clash(a[i], b[j])
}

/// Conflict between two systems: main against main, `b`'s conditions against `a`'s main
/// function, and each of `a`'s conditions against `b`'s main function and against each of `b`'s
/// conditions.
pub open spec fn systems_clash<E>(a: System<E>, b: System<E>) -> bool {
    ||| lists_clash(a.function.params_info@, b.function.params_info@)
    ||| exists|j: int|
        0 <= j < b.conditions@.len() && lists_clash(
            b.conditions@[j].function.params_info@,
            a.function.params_info@,
        )
    ||| exists|i: int|
        0 <= i < a.conditions@.len() && condition_clashes(a.conditions@[i], b)
}

/// One condition of a system against another system's main function and conditions.
pub open spec fn condition_clashes<E>(c: SystemCondition<E>, b: System<E>) -> bool {
    ||| lists_clash(c.function.params_info@, b.function.params_info@)
    ||| exists|j: int|
        0 <= j < b.conditions@.len() && lists_clash(
            c.function.params_info@,
            b.conditions@[j].function.params_info@,
        )
}

/// Some system of `a` conflicts with some system of `b`.
pub open spec fn system_lists_clash<E>(a: Seq<System<E>>, b: Seq<System<E>>) -> bool {
    exists|i: int, j: int| 0 <= i < a.len() && 0 <= j < b.len() && systems_clash(a[i], b[j])
}

/// A trait for checking conflicts between system parameters
pub trait ConflictChecker {
    /// The conflict relation that `is_conflicting_with` decides.
    spec fn conflicts(&self, other: &Self) -> bool;

    /// Check if self is conflicting with other
    fn is_conflicting_with(&self, other: &Self) -> (r: bool)
        ensures
            r == self.conflicts(other),
    ;
}

impl ConflictChecker for ParamInfo {
    open spec fn conflicts(&self, other: &Self) -> bool {
        params_clash(*self, *other)
    }

    fn is_conflicting_with(&self, other: &Self) -> (r: bool) {
        if self.type_info().type_id() != other.type_info().type_id() {
            return false;
        }
        self.is_mutable() || other.is_mutable()
    }
}

/// Checks every access of `a` against every access of `b`.
pub fn param_lists_conflict(a: &[ParamInfo], b: &[ParamInfo]) -> (r: bool)
    ensures
        r == lists_clash(a@, b@),
{
    let mut i: usize = 0;
    while i < a.len()
        invariant
            i <= a@.len(),
            forall|x: int, y: int| 0 <= x < i && 0 <= y < b@.len() ==> !params_clash(a@[x], b@[y]),
        decreases a@.len() - i,
    {
        let mut j: usize = 0;
        while j < b.len()
            invariant
                i < a@.len(),
                j <= b@.len(),
                forall|x: int, y: int| 0 <= x < i && 0 <= y < b@.len() ==> !params_clash(a@[x], b@[y]),
                forall|y: int| 0 <= y < j ==> !params_clash(a@[i as int], b@[y]),
            decreases b@.len() - j,
        {
            if a[i].is_conflicting_with(&b[j]) {
                return true;
            }
            j += 1;
        }
        i += 1;
    }
    false
}

impl ConflictChecker for Vec<ParamInfo> {
    open spec fn conflicts(&self, other: &Self) -> bool {
        lists_clash(self@, other@)
    }

    fn is_conflicting_with(&self, other: &Self) -> (r: bool) {
        param_lists_conflict(self.as_slice(), other.as_slice())
    }
}

impl<E> ConflictChecker for System<E> {
    open spec fn conflicts(&self, other: &Self) -> bool {
        systems_clash(*self, *other)
    }

    fn is_conflicting_with(&self, other: &Self) -> (r: bool) {
        // self.Main vs Main
        if self.function.params_info.is_conflicting_with(&other.function.params_info) {
            return true;
        }
        // self.Main vs Condition
        let mut k: usize = 0;
        while k < other.conditions.len()
            invariant
                k <= other.conditions@.len(),
                forall|y: int|
                    0 <= y < k ==> !lists_clash(
                        other.conditions@[y].function.params_info@,
                        self.function.params_info@,
                    ),
            decreases other.conditions@.len() - k,
        {
            if other.conditions[k].function.params_info.is_conflicting_with(&self.function.params_info) {
                return true;
            }
            k += 1;
        }
        let mut i: usize = 0;
        while i < self.conditions.len()
            invariant
                i <= self.conditions@.len(),
                !lists_clash(self.function.params_info@, other.function.params_info@),
                forall|y: int|
                    0 <= y < other.conditions@.len() ==> !lists_clash(
                        other.conditions@[y].function.params_info@,
                        self.function.params_info@,
                    ),
                forall|x: int| 0 <= x < i ==> !condition_clashes(self.conditions@[x], *other),
            decreases self.conditions@.len() - i,
        {
            let condition = &self.conditions[i];
            // self.Condition vs Main
            if condition.function.params_info.is_conflicting_with(&other.function.params_info) {
                return true;
            }
            // self.Condition vs Condition
            let mut j: usize = 0;
            while j < other.conditions.len()
                invariant
                    i < self.conditions@.len(),
                    *condition == self.conditions@[i as int],
                    j <= other.conditions@.len(),
                    !lists_clash(condition.function.params_info@, other.function.params_info@),
                    forall|y: int|
                        0 <= y < j ==> !lists_clash(
                            condition.function.params_info@,
                            other.conditions@[y].function.params_info@,
                        ),
                decreases other.conditions@.len() - j,
            {
                if condition.function.params_info.is_conflicting_with(
                    &other.conditions[j].function.params_info,
                ) {
                    return true;
                }
                j += 1;
            }
            i += 1;
        }
        false
    }
}

/// Checks every system of `a` against every system of `b`.
pub fn system_lists_conflict<E>(a: &[System<E>], b: &[System<E>]) -> (r: bool)
    ensures
        r == system_lists_clash(a@, b@),
{
    let mut i: usize = 0;
    while i < a.len()
        invariant
            i <= a@.len(),
            forall|x: int, y: int| 0 <= x < i && 0 <= y < b@.len() ==> !systems_clash(a@[x], b@[y]),
        decreases a@.len() - i,
    {
        let mut j: usize = 0;
        while j < b.len()
            invariant
                i < a@.len(),
                j <= b@.len(),
                forall|x: int, y: int| 0 <= x < i && 0 <= y < b@.len() ==> !systems_clash(a@[x], b@[y]),
                forall|y: int| 0 <= y < j ==> !systems_clash(a@[i as int], b@[y]),
            decreases b@.len() - j,
        {
            if a[i].is_conflicting_with(&b[j]) {
                return true;
            }
            j += 1;
        }
        i += 1;
    }
    false
}

impl<E> ConflictChecker for Vec<System<E>> {
    open spec fn conflicts(&self, other: &Self) -> bool {
        system_lists_clash(self@, other@)
    }

    fn is_conflicting_with(&self, other: &Self) -> (r: bool) {
        system_lists_conflict(self.as_slice(), other.as_slice())
    }
}

/// Parameter conflicts are symmetric: which of two accesses is checked against the other does
/// not matter.
pub proof fn lemma_params_clash_symmetric(a: ParamInfo, b: ParamInfo)
    ensures
        params_clash(a, b) == params_clash(b, a),
{
}

/// Conflicts between parameter lists are symmetric.
pub proof fn lemma_lists_clash_symmetric(a: Seq<ParamInfo>, b: Seq<ParamInfo>)
    ensures
        lists_clash(a, b) == lists_clash(b, a),
{
    if lists_clash(a, b) {
        let (i, j) = choose|i: int, j: int|
            0 <= i < a.len() && 0 <= j < b.len() && params_clash(a[i], b[j]);
        assert(params_clash(b[j], a[i]));
    }
    if lists_clash(b, a) {
        let (i, j) = choose|i: int, j: int|
            0 <= i < b.len() && 0 <= j < a.len() && params_clash(b[i], a[j]);
        assert(params_clash(a[j], b[i]));
    }
}

/// The access lists of a system: its main function's, then each run condition's.
pub open spec fn access_lists<E>(x: System<E>) -> Seq<Seq<ParamInfo>> {
    seq![x.function.params_info@] + Seq::new(x.conditions@.len(), |i: int| x.conditions@[i].function.params_info@)
}

/// Two systems conflict exactly when some access list of one (its main function's or a run
/// condition's) clashes with some access list of the other: main against main, main against
/// condition either way, and condition against condition.
pub proof fn lemma_systems_clash_iff_some_lists_clash<E>(a: System<E>, b: System<E>)
    ensures
        systems_clash(a, b) <==> exists|i: int, j: int|
            0 <= i < access_lists(a).len() && 0 <= j < access_lists(b).len()
                && #[trigger] lists_clash(access_lists(a)[i], access_lists(b)[j]),
{
    let la = access_lists(a);
    let lb = access_lists(b);
    assert(la[0] == a.function.params_info@);
    assert(lb[0] == b.function.params_info@);
    assert forall|i: int| 0 < i < la.len() implies la[i] == a.conditions@[i - 1].function.params_info@ by {}
    assert forall|j: int| 0 < j < lb.len() implies lb[j] == b.conditions@[j - 1].function.params_info@ by {}
    if systems_clash(a, b) {
        if lists_clash(a.function.params_info@, b.function.params_info@) {
            assert(lists_clash(la[0], lb[0]));
        } else if exists|j: int|
            0 <= j < b.conditions@.len() && lists_clash(b.conditions@[j].function.params_info@, a.function.params_info@) {
            let j = choose|j: int|
                0 <= j < b.conditions@.len() && lists_clash(b.conditions@[j].function.params_info@, a.function.params_info@);
            lemma_lists_clash_symmetric(b.conditions@[j].function.params_info@, a.function.params_info@);
            assert(lists_clash(la[0], lb[j + 1]));
        } else {
            let i = choose|i: int| 0 <= i < a.conditions@.len() && condition_clashes(a.conditions@[i], b);
            if lists_clash(a.conditions@[i].function.params_info@, b.function.params_info@) {
                assert(lists_clash(la[i + 1], lb[0]));
            } else {
                let j = choose|j: int|
                    0 <= j < b.conditions@.len() && lists_clash(
                        a.conditions@[i].function.params_info@,
                        b.conditions@[j].function.params_info@,
                    );
                assert(lists_clash(la[i + 1], lb[j + 1]));
            }
        }
    }
    if exists|i: int, j: int|
        0 <= i < la.len() && 0 <= j < lb.len() && #[trigger] lists_clash(la[i], lb[j]) {
        let (i, j) = choose|i: int, j: int|
            0 <= i < la.len() && 0 <= j < lb.len() && #[trigger] lists_clash(la[i], lb[j]);
        if i == 0 && j == 0 {
        } else if i == 0 {
            lemma_lists_clash_symmetric(a.function.params_info@, b.conditions@[j - 1].function.params_info@);
            assert(lists_clash(b.conditions@[j - 1].function.params_info@, a.function.params_info@));
        } else if j == 0 {
            assert(condition_clashes(a.conditions@[i - 1], b));
        } else {
            assert(lists_clash(a.conditions@[i - 1].function.params_info@, b.conditions@[j - 1].function.params_info@));
            assert(condition_clashes(a.conditions@[i - 1], b));
        }
    }
}

/// The conflict check between systems is symmetric: every pairing of one system's main function
/// and conditions with the other's is consulted.
pub proof fn lemma_systems_clash_symmetric<E>(a: System<E>, b: System<E>)
    ensures
        systems_clash(a, b) == systems_clash(b, a),
{
    lemma_lists_clash_symmetric(a.function.params_info@, b.function.params_info@);
    assert forall|i: int| 0 <= i < a.conditions@.len() implies lists_clash(
        a.conditions@[i].function.params_info@,
        b.function.params_info@,
    ) == lists_clash(b.function.params_info@, a.conditions@[i].function.params_info@) by {
        lemma_lists_clash_symmetric(a.conditions@[i].function.params_info@, b.function.params_info@);
    }
    assert forall|j: int| 0 <= j < b.conditions@.len() implies lists_clash(
        b.conditions@[j].function.params_info@,
        a.function.params_info@,
    ) == lists_clash(a.function.params_info@, b.conditions@[j].function.params_info@) by {
        lemma_lists_clash_symmetric(b.conditions@[j].function.params_info@, a.function.params_info@);
    }
    assert forall|i: int, j: int| 0 <= i < a.conditions@.len() && 0 <= j < b.conditions@.len() implies lists_clash(
        a.conditions@[i].function.params_info@,
        b.conditions@[j].function.params_info@,
    ) == lists_clash(b.conditions@[j].function.params_info@, a.conditions@[i].function.params_info@) by {
        lemma_lists_clash_symmetric(a.conditions@[i].function.params_info@, b.conditions@[j].function.params_info@);
    }
    if systems_clash(a, b) && !lists_clash(a.function.params_info@, b.function.params_info@) {
        if exists|j: int| 0 <= j < b.conditions@.len() && lists_clash(b.conditions@[j].function.params_info@, a.function.params_info@) {
            let j = choose|j: int| 0 <= j < b.conditions@.len() && lists_clash(b.conditions@[j].function.params_info@, a.function.params_info@);
            assert(condition_clashes(b.conditions@[j], a));
        } else {
            let i = choose|i: int| 0 <= i < a.conditions@.len() && condition_clashes(a.conditions@[i], b);
            if lists_clash(a.conditions@[i].function.params_info@, b.function.params_info@) {
            } else {
                let j = choose|j: int| 0 <= j < b.conditions@.len() && lists_clash(
                    a.conditions@[i].function.params_info@,
                    b.conditions@[j].function.params_info@,
                );
                assert(condition_clashes(b.conditions@[j], a));
            }
        }
    }
    if systems_clash(b, a) && !lists_clash(b.function.params_info@, a.function.params_info@) {
        if exists|i: int| 0 <= i < a.conditions@.len() && lists_clash(a.conditions@[i].function.params_info@, b.function.params_info@) {
            let i = choose|i: int| 0 <= i < a.conditions@.len() && lists_clash(a.conditions@[i].function.params_info@, b.function.params_info@);
            assert(condition_clashes(a.conditions@[i], b));
        } else {
            let j = choose|j: int| 0 <= j < b.conditions@.len() && condition_clashes(b.conditions@[j], a);
            if lists_clash(b.conditions@[j].function.params_info@, a.function.params_info@) {
            } else {
                let i = choose|i: int| 0 <= i < a.conditions@.len() && lists_clash(
                    b.conditions@[j].function.params_info@,
                    a.conditions@[i].function.params_info@,
                );
                assert(condition_clashes(a.conditions@[i], b));
            }
        }
    }
}

} // verus!
