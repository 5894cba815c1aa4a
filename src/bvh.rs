use vstd::prelude::*;
use vstd::multiset::{group_multiset_axioms, Multiset};
use vstd::seq_lib::{group_to_multiset_ensures, lemma_multiset_commutative};
use crate::perlin::lemma_swap_keeps_multiset;
use crate::rtweekend::random_i32;

verus! {

/// How the bounding volume hierarchy builder treats the objects `start .. end`
/// of its working slice.
pub enum SpanSplit {
    /// One object: it becomes both children of the node.
    Single { index: usize },
    /// Two objects: they become the two children, ordered by their boxes.
    Pair { first: usize, second: usize },
    /// More: after sorting, `start .. mid` and `mid .. end` become subtrees.
    Halves { start: usize, mid: usize, end: usize },
}

/// The builder's decision for the objects `start .. end`, which must not be
/// empty.
pub fn split_span(start: usize, end: usize) -> (r: SpanSplit)
    requires
        start < end,
    ensures
        match r {
            SpanSplit::Single { index } => end - start == 1 && index == start,
            SpanSplit::Pair { first, second } => end - start == 2 && first == start && second
                == start + 1,
            SpanSplit::Halves { start: s, mid, end: e } => {
                &&& end - start >= 3
                &&& s == start
                &&& e == end
                &&& mid == start + (end - start) / 2
                &&& start < mid < end
            },
        },
{
    let span: usize = end - start;
    if span == 1 {
        SpanSplit::Single { index: start }
    } else if span == 2 {
        SpanSplit::Pair { first: start, second: start + 1 }
    } else {
        SpanSplit::Halves { start, mid: start + span / 2, end }
    }
}


/// Every object of `s` has a key along each of the three axes.
pub open spec fn objects_in_range(s: Seq<usize>, keys: Seq<Vec<usize>>) -> bool {
    forall|a: int, i: int|
        #![trigger s[i], keys[a]]
        0 <= a < 3 && 0 <= i < s.len() ==> s[i] < keys[a]@.len()
}

/// The objects of `s` come in nondecreasing order of `key`.
pub open spec fn sorted_by_key(s: Seq<usize>, key: Seq<usize>) -> bool {
    forall|i: int, j: int|
        #![trigger s[i], s[j]]
        0 <= i < j < s.len() ==> key[s[i] as int] <= key[s[j] as int]
}

/// Sorts `v` by `key` (insertion sort): the result holds the same objects,
/// each as many times as before, in nondecreasing order of their keys.
pub fn sort_by_keys(v: &mut Vec<usize>, key: &Vec<usize>)
    requires
        forall|i: int| 0 <= i < old(v)@.len() ==> #[trigger] old(v)@[i] < key@.len(),
    ensures
        final(v)@.len() == old(v)@.len(),
        final(v)@.to_multiset() == old(v)@.to_multiset(),
        sorted_by_key(final(v)@, key@),
{
    let n: usize = v.len();
    let mut i: usize = 0;
    while i < n
        invariant
            i <= n,
            v@.len() == n,
            n == old(v)@.len(),
            v@.to_multiset() == old(v)@.to_multiset(),
            forall|k: int| 0 <= k < n ==> #[trigger] v@[k] < key@.len(),
            forall|a: int, b: int|
                #![trigger v@[a], v@[b]]
                0 <= a < b < i ==> key@[v@[a] as int] <= key@[v@[b] as int],
        decreases n - i,
    {
        let mut j: usize = i;
        let mut done: bool = false;
        while j > 0 && !done
            invariant
                i < n,
                j <= i,
                v@.len() == n,
                v@.to_multiset() == old(v)@.to_multiset(),
                forall|k: int| 0 <= k < n ==> #[trigger] v@[k] < key@.len(),
                forall|a: int, b: int|
                    #![trigger v@[a], v@[b]]
                    0 <= a < b <= i && a != j && b != j ==> key@[v@[a] as int] <= key@[v@[b]
                        as int],
                forall|b: int|
                    j < b <= i ==> key@[v@[j as int] as int] <= key@[#[trigger] v@[b] as int],
                done ==> j > 0 && key@[v@[j - 1] as int] <= key@[v@[j as int] as int],
            decreases j + if done { 0int } else { 1int },
        {
            let lower: usize = v[j - 1];
            let upper: usize = v[j];
            if key[lower] <= key[upper] {
                done = true;
            } else {
                proof {
                    lemma_swap_keeps_multiset(v@, j - 1, j as int);
                }
                v.set(j - 1, upper);
                v.set(j, lower);
                j = j - 1;
            }
        }
        proof {
            assert forall|a: int, b: int|
                #![trigger v@[a], v@[b]]
                0 <= a < b <= i implies key@[v@[a] as int] <= key@[v@[b] as int] by {
                if b == j && a < j - 1 {
                    assert(key@[v@[a] as int] <= key@[v@[j - 1] as int]);
                }
            }
        }
        i = i + 1;
    }
}

/// How the objects of a bounding volume hierarchy are grouped: a plan of the
/// tree, with the axis that each node's objects were ordered along.
pub enum BvhPlan {
    /// A node whose two children are the same object.
    Single { object: usize },
    /// A node whose children are two objects, ordered along `axis`.
    Pair { axis: usize, first: usize, second: usize },
    /// A node whose children are subtrees, split at the middle after ordering
    /// the objects along `axis`.
    Split { axis: usize, left: Box<BvhPlan>, right: Box<BvhPlan> },
}

/// The objects at the leaves of a plan, each counted once per place.
pub open spec fn leaves(p: BvhPlan) -> Multiset<usize>
    decreases p,
{
    match p {
        BvhPlan::Single { object } => Multiset::singleton(object),
        BvhPlan::Pair { first, second, .. } => Multiset::singleton(first).insert(second),
        BvhPlan::Split { left, right, .. } => leaves(*left).add(leaves(*right)),
    }
}

/// Every node of `p` keeps the builder's rules: a pair is ordered by its
/// axis' keys; a split has three objects or more, puts half of them (rounded
/// down) on the left, and no left object has a larger key along the node's
/// axis than a right one.
pub open spec fn well_split(p: BvhPlan, keys: Seq<Vec<usize>>) -> bool
    decreases p,
{
    match p {
        BvhPlan::Single { .. } => true,
        BvhPlan::Pair { axis, first, second } => axis < 3 && keys[axis as int]@[first as int]
            <= keys[axis as int]@[second as int],
        BvhPlan::Split { axis, left, right } => {
            &&& axis < 3
            &&& well_split(*left, keys)
            &&& well_split(*right, keys)
            &&& leaves(*left).len() + leaves(*right).len() >= 3
            &&& leaves(*left).len() == (leaves(*left).len() + leaves(*right).len()) / 2
            &&& forall|x: usize, y: usize|
                #[trigger] leaves(*left).contains(x) && #[trigger] leaves(*right).contains(y)
                    ==> keys[axis as int]@[x as int] <= keys[axis as int]@[y as int]
        },
    }
}

fn plan_objects(objects: Vec<usize>, keys: &Vec<Vec<usize>>) -> (r: BvhPlan)
    requires
        objects@.len() >= 1,
        keys@.len() == 3,
        objects_in_range(objects@, keys@),
    ensures
        leaves(r) == objects@.to_multiset(),
        well_split(r, keys@),
    decreases objects@.len(),
{
    broadcast use group_to_multiset_ensures, group_multiset_axioms;

    let axis: usize = random_i32(0, 2) as usize;
    let n: usize = objects.len();
    match split_span(0, n) {
        SpanSplit::Single { index } => {
            assert(objects@ =~= seq![objects@[0]]);
            assert(seq![objects@[0]] =~= Seq::<usize>::empty().push(objects@[0]));
            BvhPlan::Single { object: objects[index] }
        },
        SpanSplit::Pair { first, second } => {
            let a: usize = objects[first];
            let b: usize = objects[second];
            assert(objects@ =~= Seq::<usize>::empty().push(a).push(b));
            assert(objects@.to_multiset() =~= Multiset::singleton(a).insert(b));
            assert(Multiset::singleton(b).insert(a) =~= Multiset::singleton(a).insert(b));
            assert(objects@[0] < keys@[axis as int]@.len() && objects@[1] < keys@[axis as int]@.len());
            if keys[axis][a] < keys[axis][b] {
                BvhPlan::Pair { axis, first: a, second: b }
            } else {
                BvhPlan::Pair { axis, first: b, second: a }
            }
        },
        SpanSplit::Halves { mid, .. } => {
            let mut sorted: Vec<usize> = objects;
            assert forall|i: int| 0 <= i < sorted@.len() implies #[trigger] sorted@[i]
                < keys@[axis as int]@.len() by {
                assert(objects_in_range(sorted@, keys@));
            }
            sort_by_keys(&mut sorted, &keys[axis]);
            let ghost whole = sorted@;
            assert forall|a: int, i: int|
                #![trigger whole[i], keys@[a]]
                0 <= a < 3 && 0 <= i < whole.len() implies whole[i] < keys@[a]@.len() by {
                assert(whole.to_multiset().count(whole[i]) > 0);
                assert(objects@.contains(whole[i]));
                let k = choose|k: int| 0 <= k < objects@.len() && objects@[k] == whole[i];
                assert(objects@[k] < keys@[a]@.len());
            }
            let upper: Vec<usize> = sorted.split_off(mid);
            let ghost lower_s = sorted@;
            let ghost upper_s = upper@;
            assert(whole =~= lower_s + upper_s);
            proof {
                lemma_multiset_commutative(lower_s, upper_s);
            }
            let left = plan_objects(sorted, keys);
            let right = plan_objects(upper, keys);
            proof {
                assert forall|x: usize, y: usize|
                    #[trigger] leaves(left).contains(x) && #[trigger] leaves(right).contains(y)
                        implies keys@[axis as int]@[x as int] <= keys@[axis as int]@[y as int] by {
                    assert(lower_s.contains(x));
                    assert(upper_s.contains(y));
                    let i = choose|i: int| 0 <= i < lower_s.len() && lower_s[i] == x;
                    let j = choose|j: int| 0 <= j < upper_s.len() && upper_s[j] == y;
                    assert(whole[i] == x && whole[mid + j] == y);
                }
            }
            BvhPlan::Split { axis, left: Box::new(left), right: Box::new(right) }
        },
    }
}

/// The plan of a bounding volume hierarchy over `objects`, where
/// `keys[a][o]` orders object `o` along axis `a` (by the minimum of its
/// bounding box). There is none for an empty set of objects; otherwise its
/// leaves hold exactly the given objects and every node keeps the builder's
/// rules.
pub fn plan_bvh(objects: Vec<usize>, keys: &Vec<Vec<usize>>) -> (r: Option<BvhPlan>)
    requires
        keys@.len() == 3,
        objects_in_range(objects@, keys@),
    ensures
        r.is_none() <==> objects@.len() == 0,
        r matches Some(p) ==> leaves(p) == objects@.to_multiset() && well_split(p, keys@),
{
    if objects.len() == 0 {
        None
    } else {
        Some(plan_objects(objects, keys))
    }
}

} // verus!
