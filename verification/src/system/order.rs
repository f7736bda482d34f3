//! Placement of labelled items (phases in the scheduler, layers in a phase) under "run before"
//! and "run after" constraints.
use vstd::prelude::*;
use crate::text::same_label;

verus! {

/// The contents of a list of labels.
pub open spec fn label_views(v: Seq<&'static str>) -> Seq<Seq<char>> {
    Seq::new(v.len(), |i: int| v[i]@)
}

/// `i` is the first position of `l` in `labels`.
pub open spec fn first_position(labels: Seq<Seq<char>>, l: Seq<char>, i: int) -> bool {
    &&& 0 <= i < labels.len()
    &&& labels[i] == l
    &&& forall|k: int| 0 <= k < i ==> labels[k] != l
}

/// The first position of `l` in `labels`, if it occurs.
pub open spec fn position(labels: Seq<Seq<char>>, l: Seq<char>) -> Option<int> {
    if labels.contains(l) {
        Some(choose|i: int| first_position(labels, l, i))
    } else {
        None
    }
}

/// No label occurs twice.
pub open spec fn distinct(labels: Seq<Seq<char>>) -> bool {
    forall|i: int, j: int| 0 <= i < labels.len() && 0 <= j < labels.len() && i != j ==> labels[i] != labels[j]
}

/// The smallest position among the labels of `before` (a label that does not occur counts as
/// the end of the list), or the end of the list when `before` is empty.
pub open spec fn min_before(labels: Seq<Seq<char>>, before: Seq<Seq<char>>) -> int
    decreases before.len(),
{
    if before.len() == 0 {
        labels.len() as int
    } else {
        let rest = min_before(labels, before.drop_last());
        let here = match position(labels, before.last()) {
            Some(i) => i,
            None => labels.len() as int,
        };
        if here < rest { here } else { rest }
    }
}

/// The largest position among the labels of `after` that occur, if any occurs.
pub open spec fn max_after(labels: Seq<Seq<char>>, after: Seq<Seq<char>>) -> Option<int>
    decreases after.len(),
{
    if after.len() == 0 {
        None
    } else {
        let rest = max_after(labels, after.drop_last());
        match position(labels, after.last()) {
            None => rest,
            Some(i) => match rest {
                None => Some(i),
                Some(m) => Some(if i > m { i } else { m }),
            },
        }
    }
}

/// Where an item that must run before the labels `before` and after the labels `after` is
/// inserted: right behind the last of its `after` items, or otherwise at the first of its
/// `before` items (the end of the list when there is none). `None` when the two cannot both
/// hold.
pub open spec fn insert_position(
    labels: Seq<Seq<char>>,
    before: Seq<Seq<char>>,
    after: Seq<Seq<char>>,
) -> Option<int> {
    let b = min_before(labels, before);
    match max_after(labels, after) {
        None => Some(b),
        Some(m) => if m < b {
            Some(m + 1)
        } else {
            None
        },
    }
}

proof fn lemma_position_first(labels: Seq<Seq<char>>, l: Seq<char>, i: int)
    requires
        first_position(labels, l, i),
    ensures
        position(labels, l) == Some(i),
{
    assert(labels.contains(l));
    let j = choose|j: int| first_position(labels, l, j);
    assert(j == i);
}

proof fn lemma_position_absent(labels: Seq<Seq<char>>, l: Seq<char>)
    requires
        forall|k: int| 0 <= k < labels.len() ==> labels[k] != l,
    ensures
        position(labels, l) == None::<int>,
{
}

/// Finds the first position of `l` among `labels`.
pub fn find_label(labels: &Vec<&'static str>, l: &'static str) -> (r: Option<usize>)
    ensures
        match r {
            Some(i) => position(label_views(labels@), l@) == Some(i as int) && i < labels@.len(),
            None => position(label_views(labels@), l@) is None,
        },
{
    let ghost views = label_views(labels@);
    let mut i: usize = 0;
    while i < labels.len()
        invariant
            i <= labels@.len(),
            views == label_views(labels@),
            forall|k: int| 0 <= k < i ==> views[k] != l@,
        decreases labels@.len() - i,
    {
        if same_label(labels[i], l) {
            proof {
                lemma_position_first(views, l@, i as int);
            }
            return Some(i);
        }
        i += 1;
    }
    proof {
        lemma_position_absent(views, l@);
    }
    None
}

pub proof fn lemma_position_bound(labels: Seq<Seq<char>>, l: Seq<char>)
    ensures
        match position(labels, l) {
            Some(i) => first_position(labels, l, i),
            None => forall|k: int| 0 <= k < labels.len() ==> labels[k] != l,
        },
{
    if labels.contains(l) {
        let k = choose|k: int| 0 <= k < labels.len() && labels[k] == l;
        let i = first_of(labels, l, k);
        lemma_position_first(labels, l, i);
    }
}

proof fn first_of(labels: Seq<Seq<char>>, l: Seq<char>, k: int) -> (i: int)
    requires
        0 <= k < labels.len(),
        labels[k] == l,
    ensures
        first_position(labels, l, i),
    decreases k,
{
    if exists|j: int| 0 <= j < k && labels[j] == l {
        let j = choose|j: int| 0 <= j < k && labels[j] == l;
        first_of(labels, l, j)
    } else {
        k
    }
}

/// Computes [`insert_position`] for the given labels.
pub fn ordered_insert_index(
    labels: &Vec<&'static str>,
    before: &Vec<&'static str>,
    after: &Vec<&'static str>,
) -> (r: Option<usize>)
    ensures
        match r {
            Some(i) => insert_position(label_views(labels@), label_views(before@), label_views(after@))
                == Some(i as int),
            None => insert_position(label_views(labels@), label_views(before@), label_views(after@)) is None,
        },
{
    let ghost lv = label_views(labels@);
    let ghost bv = label_views(before@);
    let ghost av = label_views(after@);
    let n = labels.len();
    let mut min_b: usize = n;
    let mut i: usize = 0;
    while i < before.len()
        invariant
            n == labels@.len(),
            i <= before@.len(),
            lv == label_views(labels@),
            bv == label_views(before@),
            min_b == min_before(lv, bv.take(i as int)),
            min_b <= n,
        decreases before@.len() - i,
    {
        let here = match find_label(labels, before[i]) {
            Some(p) => p,
            None => n,
        };
        proof {
            lemma_position_bound(lv, before@[i as int]@);
            assert(bv.take(i + 1).drop_last() =~= bv.take(i as int));
            assert(bv.take(i + 1).last() == before@[i as int]@);
        }
        if here < min_b {
            min_b = here;
        }
        i += 1;
    }
    assert(bv.take(before@.len() as int) =~= bv);
    let mut max_a: Option<usize> = None;
    let mut j: usize = 0;
    while j < after.len()
        invariant
            n == labels@.len(),
            j <= after@.len(),
            lv == label_views(labels@),
            av == label_views(after@),
            match max_a {
                Some(m) => max_after(lv, av.take(j as int)) == Some(m as int),
                None => max_after(lv, av.take(j as int)) is None,
            },
            match max_after(lv, av.take(j as int)) {
                Some(m) => 0 <= m < n,
                None => true,
            },
        decreases after@.len() - j,
    {
        let found = find_label(labels, after[j]);
        proof {
            lemma_position_bound(lv, after@[j as int]@);
            assert(av.take(j + 1).drop_last() =~= av.take(j as int));
            assert(av.take(j + 1).last() == after@[j as int]@);
        }
        match found {
            None => {},
            Some(p) => {
                max_a = match max_a {
                    None => Some(p),
                    Some(m) => Some(if p > m { p } else { m }),
                };
            },
        }
        j += 1;
    }
    assert(av.take(after@.len() as int) =~= av);
    match max_a {
        None => Some(min_b),
        Some(m) => if m < min_b {
            Some(m + 1)
        } else {
            None
        },
    }
}

/// `min_before` is at most the position of every label of `before` that occurs.
proof fn lemma_min_before_bound(labels: Seq<Seq<char>>, before: Seq<Seq<char>>, k: int)
    requires
        0 <= k < before.len(),
        labels.contains(before[k]),
    ensures
        min_before(labels, before) <= position(labels, before[k]).unwrap(),
    decreases before.len(),
{
    if k < before.len() - 1 {
        assert(before.drop_last()[k] == before[k]);
        lemma_min_before_bound(labels, before.drop_last(), k);
    }
}

/// `max_after` is at least the position of every label of `after` that occurs.
proof fn lemma_max_after_bound(labels: Seq<Seq<char>>, after: Seq<Seq<char>>, k: int)
    requires
        0 <= k < after.len(),
        labels.contains(after[k]),
    ensures
        max_after(labels, after) is Some,
        position(labels, after[k]).unwrap() <= max_after(labels, after).unwrap(),
    decreases after.len(),
{
    if k < after.len() - 1 {
        assert(after.drop_last()[k] == after[k]);
        lemma_max_after_bound(labels, after.drop_last(), k);
    }
}

/// An item inserted where [`insert_position`] says comes after every present item it must run
/// after, and before every present item it must run before; the items already there keep their
/// order.
pub proof fn lemma_insert_position_respects_constraints(
    labels: Seq<Seq<char>>,
    before: Seq<Seq<char>>,
    after: Seq<Seq<char>>,
    item: Seq<char>,
)
    requires
        insert_position(labels, before, after) is Some,
    ensures
        ({
            let idx = insert_position(labels, before, after).unwrap();
            let result = labels.insert(idx, item);
            &&& 0 <= idx <= labels.len()
            &&& result[idx] == item
            &&& forall|a: int, k: int|
                0 <= a < after.len() && 0 <= k < labels.len() && first_position(labels, after[a], k) ==> k < idx
            &&& forall|b: int, k: int|
                0 <= b < before.len() && 0 <= k < labels.len() && first_position(labels, before[b], k) ==> k >= idx
                    && result[k + 1] == labels[k]
            &&& forall|k: int| 0 <= k < idx ==> result[k] == labels[k]
            &&& forall|k: int| idx <= k < labels.len() ==> result[k + 1] == labels[k]
        }),
{
    let idx = insert_position(labels, before, after).unwrap();
    lemma_min_before_range(labels, before);
    lemma_max_after_range(labels, after);
    assert forall|a: int, k: int|
        0 <= a < after.len() && 0 <= k < labels.len() && first_position(labels, after[a], k) implies k < idx by {
        lemma_position_first(labels, after[a], k);
        lemma_max_after_bound(labels, after, a);
    }
    assert forall|b: int, k: int|
        0 <= b < before.len() && 0 <= k < labels.len() && first_position(labels, before[b], k) implies k
        >= idx by {
        lemma_position_first(labels, before[b], k);
        lemma_min_before_bound(labels, before, b);
    }
}

/// A computed insert position lies within the list.
pub proof fn lemma_insert_position_range(labels: Seq<Seq<char>>, before: Seq<Seq<char>>, after: Seq<Seq<char>>)
    ensures
        match insert_position(labels, before, after) {
            Some(i) => 0 <= i <= labels.len(),
            None => true,
        },
{
    lemma_min_before_range(labels, before);
    lemma_max_after_range(labels, after);
}

proof fn lemma_max_after_range(labels: Seq<Seq<char>>, after: Seq<Seq<char>>)
    ensures
        match max_after(labels, after) {
            Some(m) => 0 <= m < labels.len(),
            None => true,
        },
    decreases after.len(),
{
    if after.len() > 0 {
        lemma_max_after_range(labels, after.drop_last());
        lemma_position_bound(labels, after.last());
    }
}

proof fn lemma_min_before_range(labels: Seq<Seq<char>>, before: Seq<Seq<char>>)
    ensures
        0 <= min_before(labels, before) <= labels.len(),
    decreases before.len(),
{
    if before.len() > 0 {
        lemma_min_before_range(labels, before.drop_last());
        lemma_position_bound(labels, before.last());
    }
}

} // verus!
