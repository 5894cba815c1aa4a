use vstd::prelude::*;
use vstd::multiset::group_multiset_axioms;
use vstd::seq_lib::group_to_multiset_ensures;
use crate::rtweekend::random_i32;

verus! {

/// Number of lattice slots along each axis of the noise, and of gradient
/// vectors that lattice points hash to.
pub const POINT_COUNT: usize = 256;

/// The sequence `0, 1, ..., n - 1`.
pub open spec fn identity_seq(n: nat) -> Seq<usize> {
    Seq::new(n, |i: int| i as usize)
}

/// `p` holds each of `0 .. n` exactly once.
pub open spec fn is_permutation_of_range(p: Seq<usize>, n: nat) -> bool {
    &&& p.len() == n
    &&& p.to_multiset() == identity_seq(n).to_multiset()
}

/// The slot along one axis of lattice coordinate `i`: `i` modulo the slot
/// count, taken in `0 .. POINT_COUNT` for negative `i` as well.
pub open spec fn lattice_slot(i: int) -> int {
    i % (POINT_COUNT as int)
}

/// Exchanging two entries keeps the entries of a sequence, each as many times
/// as before.
pub proof fn lemma_swap_keeps_multiset(s: Seq<usize>, i: int, j: int)
    requires
        0 <= i < s.len(),
        0 <= j < s.len(),
    ensures
        s.update(i, s[j]).update(j, s[i]).to_multiset() == s.to_multiset(),
{
    broadcast use group_to_multiset_ensures, group_multiset_axioms;

    let s1 = s.update(i, s[j]);
    assert(s1.to_multiset() == s.to_multiset().insert(s[j]).remove(s[i]));
    assert(s1[j] == s[j]);
    let s2 = s1.update(j, s[i]);
    assert(s2.to_multiset() == s1.to_multiset().insert(s[i]).remove(s[j]));
    assert(s.contains(s[i]));
    assert(s2.to_multiset() =~= s.to_multiset());
}

/// A sequence that holds each of `0 .. n` exactly once has every entry below
/// `n` and no entry twice.
pub proof fn lemma_permutation_entries(p: Seq<usize>, n: nat)
    requires
        is_permutation_of_range(p, n),
        n <= usize::MAX,
    ensures
        forall|k: int| 0 <= k < p.len() ==> (#[trigger] p[k] as int) < n,
        p.no_duplicates(),
{
    broadcast use group_to_multiset_ensures, group_multiset_axioms;

    let id = identity_seq(n);
    assert forall|a: int, b: int| 0 <= a < id.len() && 0 <= b < id.len() && a != b implies id[a]
        != id[b] by {
        assert(id[a] as int == a && id[b] as int == b);
    }
    id.lemma_multiset_has_no_duplicates();
    p.lemma_multiset_has_no_duplicates_conv();
    assert forall|k: int| 0 <= k < p.len() implies (#[trigger] p[k] as int) < n by {
        assert(p.contains(p[k]));
        assert(id.to_multiset().count(p[k]) > 0);
        assert(id.contains(p[k]));
        let idx = choose|idx: int| 0 <= idx < id.len() && id[idx] == p[k];
        assert(id[idx] == idx as usize);
    }
}

/// `s` with its entries at `i` and `j` exchanged.
pub open spec fn swap_at(s: Seq<usize>, i: int, j: int) -> Seq<usize> {
    s.update(i, s[j]).update(j, s[i])
}

/// `s` after the Fisher-Yates swaps for positions `k - 1` down to `1`: the
/// entry at each such position `i` is exchanged with the one at `targets[i]`.
pub open spec fn swap_down(s: Seq<usize>, targets: Seq<usize>, k: int) -> Seq<usize>
    decreases k,
{
    if k <= 1 {
        s
    } else {
        swap_down(swap_at(s, k - 1, targets[k - 1] as int), targets, k - 1)
    }
}

/// Swap targets for a sequence of length `n`: one per position, none above
/// its own position.
pub open spec fn valid_swap_targets(targets: Seq<usize>, n: nat) -> bool {
    &&& targets.len() == n
    &&& forall|k: int| 0 <= k < n ==> #[trigger] targets[k] <= k
}

/// `r` is `s` after Fisher-Yates swaps for some valid choice of targets.
pub open spec fn shuffled_from(r: Seq<usize>, s: Seq<usize>) -> bool {
    exists|targets: Seq<usize>|
        valid_swap_targets(targets, s.len()) && r == #[trigger] swap_down(s, targets, s.len() as int)
}

/// Fisher-Yates swaps keep the entries of a sequence, each as many times as
/// before.
pub proof fn lemma_swap_down_keeps_entries(s: Seq<usize>, targets: Seq<usize>, k: int)
    requires
        k <= s.len(),
        forall|i: int| 0 <= i < k ==> #[trigger] targets[i] <= i,
        k <= targets.len(),
    ensures
        swap_down(s, targets, k).len() == s.len(),
        swap_down(s, targets, k).to_multiset() == s.to_multiset(),
    decreases k,
{
    if k > 1 {
        let t = targets[k - 1] as int;
        lemma_swap_keeps_multiset(s, k - 1, t);
        lemma_swap_down_keeps_entries(swap_at(s, k - 1, t), targets, k - 1);
    }
}

/// Applies the Fisher-Yates swaps of `targets` to `p`, from the last position
/// down to position 1.
pub fn apply_swaps(p: &mut Vec<usize>, targets: &Vec<usize>)
    requires
        valid_swap_targets(targets@, old(p)@.len()),
    ensures
        final(p)@ == swap_down(old(p)@, targets@, old(p)@.len() as int),
{
    let mut i: usize = p.len();
    while i > 1
        invariant
            i <= p@.len(),
            p@.len() == old(p)@.len(),
            valid_swap_targets(targets@, old(p)@.len()),
            swap_down(p@, targets@, i as int) == swap_down(
                old(p)@,
                targets@,
                old(p)@.len() as int,
            ),
        decreases i,
    {
        i = i - 1;
        let target: usize = targets[i];
        let a: usize = p[i];
        let b: usize = p[target];
        let ghost before = p@;
        p.set(i, b);
        p.set(target, a);
        assert(p@ =~= swap_at(before, i as int, target as int));
    }
}

/// Shuffles `p` in place (Fisher-Yates): draws a target at or below each
/// position, then applies the swaps. The result holds the same entries, each
/// as many times as before.
pub fn permute(p: &mut Vec<usize>)
    requires
        old(p)@.len() <= i32::MAX,
    ensures
        shuffled_from(final(p)@, old(p)@),
        final(p)@.len() == old(p)@.len(),
        final(p)@.to_multiset() == old(p)@.to_multiset(),
{
    let n: usize = p.len();
    let mut targets: Vec<usize> = Vec::new();
    let mut k: usize = 0;
    while k < n
        invariant
            k <= n,
            n <= i32::MAX,
            targets@.len() == k,
            forall|j: int| 0 <= j < k ==> #[trigger] targets@[j] <= j,
        decreases n - k,
    {
        let target: usize = random_i32(0, k as i32) as usize;
        targets.push(target);
        k = k + 1;
    }
    apply_swaps(p, &targets);
    proof {
        lemma_swap_down_keeps_entries(old(p)@, targets@, n as int);
        assert(shuffled_from(p@, old(p)@));
    }
}

/// A random arrangement of `0 .. POINT_COUNT`: the identity shuffled by
/// Fisher-Yates swaps.
pub fn perlin_generate_perm() -> (r: Vec<usize>)
    ensures
        shuffled_from(r@, identity_seq(POINT_COUNT as nat)),
        is_permutation_of_range(r@, POINT_COUNT as nat),
{
    let mut p: Vec<usize> = Vec::new();
    let mut i: usize = 0;
    while i < POINT_COUNT
        invariant
            i <= POINT_COUNT,
            p@ == identity_seq(i as nat),
        decreases POINT_COUNT - i,
    {
        p.push(i);
        i = i + 1;
        proof {
            assert(p@ =~= identity_seq(i as nat));
        }
    }
    permute(&mut p);
    p
}

fn slot_of(i: i64) -> (r: usize)
    ensures
        r == lattice_slot(i as int),
{
    if i >= 0 {
        (i % 256) as usize
    } else {
        let n: i64 = -(i + 1);
        (255 - n % 256) as usize
    }
}

/// The integer lattice of Perlin noise: three independent permutations of the
/// slots, one per axis, whose entries combine into the index of the gradient
/// vector at a lattice point.
pub struct PerlinHash {
    perm_x: Vec<usize>,
    perm_y: Vec<usize>,
    perm_z: Vec<usize>,
}

impl View for PerlinHash {
    type V = (Seq<usize>, Seq<usize>, Seq<usize>);

    closed spec fn view(&self) -> Self::V {
        (self.perm_x@, self.perm_y@, self.perm_z@)
    }
}

impl PerlinHash {
    #[verifier::type_invariant]
    spec fn inv(self) -> bool {
        &&& is_permutation_of_range(self.perm_x@, POINT_COUNT as nat)
        &&& is_permutation_of_range(self.perm_y@, POINT_COUNT as nat)
        &&& is_permutation_of_range(self.perm_z@, POINT_COUNT as nat)
    }

    /// Three freshly shuffled permutations.
    pub fn new() -> (r: PerlinHash)
        ensures
            shuffled_from(r@.0, identity_seq(POINT_COUNT as nat)),
            shuffled_from(r@.1, identity_seq(POINT_COUNT as nat)),
            shuffled_from(r@.2, identity_seq(POINT_COUNT as nat)),
            is_permutation_of_range(r@.0, POINT_COUNT as nat),
            is_permutation_of_range(r@.1, POINT_COUNT as nat),
            is_permutation_of_range(r@.2, POINT_COUNT as nat),
    {
        let perm_x = perlin_generate_perm();
        let perm_y = perlin_generate_perm();
        let perm_z = perlin_generate_perm();
        PerlinHash { perm_x, perm_y, perm_z }
    }

    /// Index of the gradient vector at lattice point `(i, j, k)`: the
    /// exclusive or of the three axes' permutation entries at the point's slots.
    pub fn lattice_index(&self, i: i64, j: i64, k: i64) -> (r: usize)
        ensures
            r == self@.0[lattice_slot(i as int)] ^ self@.1[lattice_slot(j as int)]
                ^ self@.2[lattice_slot(k as int)],
            r < POINT_COUNT,
    {
        proof {
            use_type_invariant(self);
            lemma_permutation_entries(self.perm_x@, POINT_COUNT as nat);
            lemma_permutation_entries(self.perm_y@, POINT_COUNT as nat);
            lemma_permutation_entries(self.perm_z@, POINT_COUNT as nat);
        }
        let a: usize = self.perm_x[slot_of(i)];
        let b: usize = self.perm_y[slot_of(j)];
        let c: usize = self.perm_z[slot_of(k)];
        proof {
            assert(a ^ b ^ c < 256) by (bit_vector)
                requires
                    a < 256,
                    b < 256,
                    c < 256,
            ;
        }
        a ^ b ^ c
    }
}

} // verus!
