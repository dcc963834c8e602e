//! The stage planner: repeatedly emits the set of packages whose workspace
//! dependencies are all placed, so that every stage only depends on earlier
//! stages; a stalled round proves a cycle and no stages are emitted.
use vstd::prelude::*;
use vstd::set_lib::lemma_int_range;
use vstd::set_lib::lemma_len_subset;
use vstd::set_lib::set_int_range;

use crate::graph::{acyclic, lemma_blocked_set_has_cycle, pkg_dep_edge, pkg_edges};
use crate::package::WorkspacePackage;
use crate::strmap::vec_contains_str;

verus! {

/// All package names of the list are distinct.
pub open spec fn names_unique(pkgs: Seq<WorkspacePackage>) -> bool {
    forall|i: int, j: int| 0 <= i < j < pkgs.len() ==> pkgs[i].name@ != pkgs[j].name@
}

/// Some workspace dependency of package `i` is not placed yet.
pub open spec fn dep_blocked(pkgs: Seq<WorkspacePackage>, placed: Seq<bool>, i: int) -> bool {
    exists|j: int| 0 <= j < pkgs.len() && !placed[j] && pkg_dep_edge(pkgs, j, i)
}

/// The index is listed in stage `k`.
pub open spec fn idx_in_stage(stages: Seq<Vec<usize>>, k: int, v: usize) -> bool {
    exists|m: int| 0 <= m < stages[k]@.len() && stages[k]@[m] == v
}

/// The index is listed in some stage.
pub open spec fn idx_placed(stages: Seq<Vec<usize>>, v: usize) -> bool {
    exists|k: int| 0 <= k < stages.len() && idx_in_stage(stages, k, v)
}

/// Every workspace dependency of package `j` (that another package of the
/// list declares) is placed before stage `k`.
pub open spec fn deps_placed_before(
    pkgs: Seq<WorkspacePackage>,
    stages: Seq<Vec<usize>>,
    k: int,
    j: int,
) -> bool {
    forall|d: int|
        0 <= d < pkgs.len() && #[trigger] pkg_dep_edge(pkgs, d, j) ==> idx_placed_before(
            stages,
            k,
            d as usize,
        )
}

/// The index is listed in some stage before stage `k`.
pub open spec fn idx_placed_before(stages: Seq<Vec<usize>>, k: int, v: usize) -> bool {
    exists|k2: int| 0 <= k2 < k && idx_in_stage(stages, k2, v)
}

/// How many entries of the sequence are true.
pub open spec fn num_true(s: Seq<bool>) -> nat
    decreases s.len(),
{
    if s.len() == 0 {
        0
    } else {
        num_true(s.drop_last()) + (if s.last() {
            1nat
        } else {
            0nat
        })
    }
}

/// Pointwise implication keeps the count ordered.
pub proof fn lemma_num_true_monotone(a: Seq<bool>, b: Seq<bool>)
    requires
        a.len() == b.len(),
        forall|x: int| 0 <= x < a.len() && a[x] ==> b[x],
    ensures
        num_true(a) <= num_true(b),
    decreases a.len(),
{
    if a.len() > 0 {
        assert forall|x: int|
            0 <= x < a.drop_last().len() && a.drop_last()[x] implies b.drop_last()[x] by {
            assert(a[x] ==> b[x]);
        }
        lemma_num_true_monotone(a.drop_last(), b.drop_last());
        assert(a[a.len() - 1] ==> b[a.len() - 1]);
    }
}

/// A pointwise-larger marking with the same count is the same marking.
pub proof fn lemma_num_true_pointwise(a: Seq<bool>, b: Seq<bool>)
    requires
        a.len() == b.len(),
        forall|x: int| 0 <= x < a.len() && a[x] ==> b[x],
        num_true(a) == num_true(b),
    ensures
        forall|x: int| 0 <= x < a.len() ==> a[x] == b[x],
    decreases a.len(),
{
    if a.len() > 0 {
        assert forall|x: int|
            0 <= x < a.drop_last().len() && a.drop_last()[x] implies b.drop_last()[x] by {
            assert(a[x] ==> b[x]);
        }
        lemma_num_true_monotone(a.drop_last(), b.drop_last());
        assert(a[a.len() - 1] ==> b[a.len() - 1]);
        if a.last() == b.last() {
            lemma_num_true_pointwise(a.drop_last(), b.drop_last());
            assert forall|x: int| 0 <= x < a.len() implies a[x] == b[x] by {
                if x < a.len() - 1 {
                    assert(a.drop_last()[x] == b.drop_last()[x]);
                }
            }
        } else {
            assert(!a.last() && b.last());
            assert(num_true(a.drop_last()) == num_true(b.drop_last()) + 1);
            assert(false);
        }
    }
}

pub proof fn lemma_num_true_le(s: Seq<bool>)
    ensures
        num_true(s) <= s.len(),
    decreases s.len(),
{
    if s.len() > 0 {
        lemma_num_true_le(s.drop_last());
    }
}

pub proof fn lemma_num_true_update(s: Seq<bool>, j: int)
    requires
        0 <= j < s.len(),
        !s[j],
    ensures
        num_true(s.update(j, true)) == num_true(s) + 1,
    decreases s.len(),
{
    let s2 = s.update(j, true);
    if j == s.len() - 1 {
        assert(s2.drop_last() =~= s.drop_last());
    } else {
        assert(s2.drop_last() =~= s.drop_last().update(j, true));
        lemma_num_true_update(s.drop_last(), j);
    }
}

pub proof fn lemma_num_true_low_has_false(s: Seq<bool>)
    requires
        num_true(s) < s.len(),
    ensures
        exists|j: int| 0 <= j < s.len() && !s[j],
    decreases s.len(),
{
    if s.len() > 0 {
        if s.last() {
            lemma_num_true_low_has_false(s.drop_last());
            let j = choose|j: int| 0 <= j < s.drop_last().len() && !s.drop_last()[j];
            assert(!s[j]);
        } else {
            assert(!s[s.len() - 1]);
        }
    }
}

proof fn lemma_num_true_full(s: Seq<bool>)
    requires
        num_true(s) == s.len(),
    ensures
        forall|j: int| 0 <= j < s.len() ==> s[j],
{
    assert forall|j: int| 0 <= j < s.len() implies s[j] by {
        if !s[j] {
            lemma_num_true_has_false_low(s, j);
        }
    }
}

pub proof fn lemma_num_true_has_false_low(s: Seq<bool>, j: int)
    requires
        0 <= j < s.len(),
        !s[j],
    ensures
        num_true(s) < s.len(),
    decreases s.len(),
{
    lemma_num_true_le(s.drop_last());
    if j < s.len() - 1 {
        lemma_num_true_has_false_low(s.drop_last(), j);
    }
}

/// Whether some workspace dependency of package `i` is declared by a package
/// that is not placed yet.
fn is_blocked(packages: &Vec<WorkspacePackage>, placed: &Vec<bool>, i: usize) -> (r: bool)
    requires
        placed@.len() == packages@.len(),
        (i as int) < packages@.len(),
    ensures
        r == dep_blocked(packages@, placed@, i as int),
{
    let n = packages.len();
    let mut j: usize = 0;
    while j < n
        invariant
            n == packages@.len(),
            placed@.len() == n,
            (i as int) < n,
            0 <= j <= n,
            forall|jj: int|
                0 <= jj < j ==> !(!placed@[jj] && pkg_dep_edge(packages@, jj, i as int)),
        decreases n - j,
    {
        if !placed[j] && vec_contains_str(
            &packages[i].workspace_dependencies,
            packages[j].name.as_str(),
        ) {
            return true;
        }
        j = j + 1;
    }
    false
}

/// Collects, in index order, the unplaced packages whose workspace
/// dependencies are all placed.
fn collect_ready(packages: &Vec<WorkspacePackage>, placed: &Vec<bool>) -> (ready: Vec<usize>)
    requires
        placed@.len() == packages@.len(),
    ensures
        forall|s: int|
            0 <= s < ready@.len() ==> (#[trigger] ready@[s] as int) < packages@.len()
                && !placed@[ready@[s] as int] && !dep_blocked(packages@, placed@, ready@[s] as int),
        forall|i: int|
            0 <= i < packages@.len() && !placed@[i] && !dep_blocked(packages@, placed@, i)
                ==> exists|s: int| 0 <= s < ready@.len() && #[trigger] ready@[s] as int == i,
        forall|s1: int, s2: int| 0 <= s1 < s2 < ready@.len() ==> ready@[s1] < ready@[s2],
{
    let n = packages.len();
    let mut ready: Vec<usize> = Vec::new();
    let mut i: usize = 0;
    while i < n
        invariant
            n == packages@.len(),
            placed@.len() == n,
            0 <= i <= n,
            forall|s: int|
                0 <= s < ready@.len() ==> (#[trigger] ready@[s] as int) < i && !placed@[ready@[s]
                    as int] && !dep_blocked(packages@, placed@, ready@[s] as int),
            forall|ii: int|
                0 <= ii < i && !placed@[ii] && !dep_blocked(packages@, placed@, ii) ==> exists|
                    s: int,
                |
                    0 <= s < ready@.len() && #[trigger] ready@[s] as int == ii,
            forall|s1: int, s2: int| 0 <= s1 < s2 < ready@.len() ==> ready@[s1] < ready@[s2],
        decreases n - i,
    {
        let is_ready = !placed[i] && !is_blocked(packages, placed, i);
        let ghost pre_ready = ready@;
        if is_ready {
            ready.push(i);
        }
        proof {
            assert forall|ii: int|
                0 <= ii < i + 1 && !placed@[ii] && !dep_blocked(packages@, placed@, ii) implies
                exists|s: int| 0 <= s < ready@.len() && #[trigger] ready@[s] as int == ii by {
                if ii == i as int {
                    assert(is_ready);
                    assert(ready@[ready@.len() - 1] as int == ii);
                } else {
                    let s = choose|s: int|
                        0 <= s < pre_ready.len() && #[trigger] pre_ready[s] as int == ii;
                    assert(ready@[s] as int == ii);
                }
            }
        }
        i = i + 1;
    }
    ready
}

/// Plans the build stages at the level of package indices. Every stage is
/// nonempty, every index is placed at most once, every workspace dependency
/// of a staged package is placed in an earlier stage, and when the workspace
/// graph is acyclic every package is placed; a stalled round (which proves a
/// cycle) emits no stages at all.
pub fn plan_stage_indices(packages: &Vec<WorkspacePackage>) -> (stages: Vec<Vec<usize>>)
    ensures
        forall|k: int| 0 <= k < stages@.len() ==> stages@[k]@.len() > 0,
        forall|k: int, m: int|
            #![trigger stages@[k]@[m]]
            0 <= k < stages@.len() && 0 <= m < stages@[k]@.len() ==> (stages@[k]@[m] as int)
                < packages@.len(),
        forall|k1: int, m1: int, k2: int, m2: int|
            #![trigger stages@[k1]@[m1], stages@[k2]@[m2]]
            0 <= k1 < stages@.len() && 0 <= m1 < stages@[k1]@.len() && 0 <= k2 < stages@.len() && 0
                <= m2 < stages@[k2]@.len() && (k1 != k2 || m1 != m2) ==> stages@[k1]@[m1]
                != stages@[k2]@[m2],
        forall|k: int, m: int, j: int|
            #![trigger stages@[k]@[m], pkg_dep_edge(packages@, j, stages@[k]@[m] as int)]
            0 <= k < stages@.len() && 0 <= m < stages@[k]@.len() && 0 <= j < packages@.len()
                && pkg_dep_edge(packages@, j, stages@[k]@[m] as int) ==> idx_placed_before(
                stages@,
                k,
                j as usize,
            ),
        forall|k: int, j: int|
            0 <= k < stages@.len() && 0 <= j < packages@.len() && !idx_placed_before(
                stages@,
                k,
                j as usize,
            ) && #[trigger] deps_placed_before(packages@, stages@, k, j) ==> idx_in_stage(
                stages@,
                k,
                j as usize,
            ),
        acyclic(pkg_edges(packages@)) ==> forall|v: usize|
            (v as int) < packages@.len() ==> idx_placed(stages@, v),
        stages@.len() > 0 ==> forall|v: usize| (v as int) < packages@.len() ==> idx_placed(
            stages@,
            v,
        ),
{
    let n = packages.len();
    let mut placed: Vec<bool> = Vec::new();
    while placed.len() < n
        invariant
            placed@.len() <= n,
            forall|t: int| 0 <= t < placed@.len() ==> !placed@[t],
        decreases n - placed@.len(),
    {
        placed.push(false);
    }
    proof {
        lemma_num_true_zero(placed@);
    }
    let mut placed_count: usize = 0;
    let mut stages: Vec<Vec<usize>> = Vec::new();
    let mut stalled = false;

    while placed_count < n && !stalled
        invariant
            n == packages@.len(),
            placed@.len() == n,
            placed_count as nat == num_true(placed@),
            placed_count <= n,
            forall|v: usize| (v as int) < n ==> placed@[v as int] == idx_placed(stages@, v),
            forall|k: int| 0 <= k < stages@.len() ==> stages@[k]@.len() > 0,
            forall|k: int, m: int|
                #![trigger stages@[k]@[m]]
                0 <= k < stages@.len() && 0 <= m < stages@[k]@.len() ==> (stages@[k]@[m] as int)
                    < n,
            forall|k1: int, m1: int, k2: int, m2: int|
                #![trigger stages@[k1]@[m1], stages@[k2]@[m2]]
                0 <= k1 < stages@.len() && 0 <= m1 < stages@[k1]@.len() && 0 <= k2 < stages@.len()
                    && 0 <= m2 < stages@[k2]@.len() && (k1 != k2 || m1 != m2) ==> stages@[k1]@[m1]
                    != stages@[k2]@[m2],
            forall|k: int, m: int, j: int|
                #![trigger stages@[k]@[m], pkg_dep_edge(packages@, j, stages@[k]@[m] as int)]
                0 <= k < stages@.len() && 0 <= m < stages@[k]@.len() && 0 <= j < n && pkg_dep_edge(
                    packages@,
                    j,
                    stages@[k]@[m] as int,
                ) ==> idx_placed_before(stages@, k, j as usize),
            forall|k: int, j: int|
                0 <= k < stages@.len() && 0 <= j < n && !idx_placed_before(stages@, k, j as usize)
                    && #[trigger] deps_placed_before(packages@, stages@, k, j) ==> idx_in_stage(
                    stages@,
                    k,
                    j as usize,
                ),
            stalled ==> !acyclic(pkg_edges(packages@)),
        decreases n - placed_count, (if stalled { 0int } else { 1int }),
    {
        let ready = collect_ready(packages, &placed);
        if ready.len() == 0 {
            proof {
                lemma_num_true_low_has_false(placed@);
                let u = Set::new(|x: int| 0 <= x < n && !placed@[x]);
                lemma_int_range(0, n as int);
                lemma_len_subset(u, set_int_range(0, n as int));
                let jw = choose|j: int| 0 <= j < placed@.len() && !placed@[j];
                assert(u.contains(jw));
                assert forall|i: int| u.contains(i) implies exists|j: int|
                    u.contains(j) && pkg_edges(packages@).contains((j, i)) by {
                    assert(dep_blocked(packages@, placed@, i));
                    let j = choose|j: int|
                        0 <= j < packages@.len() && !placed@[j] && pkg_dep_edge(packages@, j, i);
                    assert(u.contains(j) && pkg_edges(packages@).contains((j, i)));
                }
                lemma_blocked_set_has_cycle(pkg_edges(packages@), u);
            }
            stalled = true;
        } else {
            let ghost pre_placed = placed@;
            let ghost pre_stages = stages@;
            let ghost pre_count = placed_count as nat;
            let rn = ready.len();
            let mut t: usize = 0;
            while t < rn
                invariant
                    n == packages@.len(),
                    placed@.len() == n,
                    pre_placed.len() == n,
                    rn == ready@.len(),
                    0 <= t <= rn,
                    forall|s: int|
                        0 <= s < ready@.len() ==> (#[trigger] ready@[s] as int) < n
                            && !pre_placed[ready@[s] as int],
                    forall|s1: int, s2: int|
                        0 <= s1 < s2 < ready@.len() ==> ready@[s1] < ready@[s2],
                    forall|i2: int|
                        0 <= i2 < n && !pre_placed[i2] && !dep_blocked(packages@, pre_placed, i2)
                            ==> exists|s: int|
                            0 <= s < ready@.len() && #[trigger] ready@[s] as int == i2,
                    forall|v: int|
                        0 <= v < n ==> placed@[v] == (pre_placed[v] || exists|s: int|
                            0 <= s < t && #[trigger] ready@[s] as int == v),
                    placed_count as nat == num_true(placed@),
                    num_true(placed@) == pre_count + t,
                    placed_count <= n,
                decreases rn - t,
            {
                let idx = ready[t];
                proof {
                    assert(!placed@[idx as int]);
                    lemma_num_true_update(placed@, idx as int);
                    lemma_num_true_le(placed@);
                    lemma_num_true_has_false_low(placed@, idx as int);
                }
                placed.set(idx, true);
                placed_count = placed_count + 1;
                proof {
                    assert forall|v: int|
                        0 <= v < n implies placed@[v] == (pre_placed[v] || exists|s: int|
                            0 <= s < t + 1 && #[trigger] ready@[s] as int == v) by {
                        if v == idx as int {
                            assert(ready@[t as int] as int == v);
                        }
                    }
                }
                t = t + 1;
            }
            let ghost new_k = stages@.len() as int;
            stages.push(ready);
            proof {
                assert forall|v: usize| (v as int) < n implies placed@[v as int] == idx_placed(
                    stages@,
                    v,
                ) by {
                    if placed@[v as int] {
                        if pre_placed[v as int] {
                            assert(idx_placed(pre_stages, v));
                            let k = choose|k: int|
                                0 <= k < pre_stages.len() && #[trigger] idx_in_stage(pre_stages, k, v);
                            assert(stages@[k] == pre_stages[k]);
                            assert(idx_in_stage(stages@, k, v));
                        } else {
                            let s = choose|s: int|
                                0 <= s < rn && #[trigger] ready@[s] as int == v as int;
                            assert(stages@[new_k]@[s] == v);
                            assert(idx_in_stage(stages@, new_k, v));
                        }
                    } else {
                        if idx_placed(stages@, v) {
                            let k = choose|k: int|
                                0 <= k < stages@.len() && #[trigger] idx_in_stage(stages@, k, v);
                            let m = choose|m: int|
                                0 <= m < stages@[k]@.len() && #[trigger] stages@[k]@[m] == v;
                            if k < new_k {
                                assert(stages@[k] == pre_stages[k]);
                                assert(idx_in_stage(pre_stages, k, v));
                                assert(idx_placed(pre_stages, v));
                            } else {
                                assert(stages@[k]@[m] == ready@[m]);
                            }
                        }
                    }
                }
                assert forall|k: int, m: int, j: int|
                    #![trigger stages@[k]@[m], pkg_dep_edge(packages@, j, stages@[k]@[m] as int)]
                    0 <= k < stages@.len() && 0 <= m < stages@[k]@.len() && 0 <= j < n
                        && pkg_dep_edge(packages@, j, stages@[k]@[m] as int) implies
                    idx_placed_before(stages@, k, j as usize) by {
                    if k < new_k {
                        assert(stages@[k] == pre_stages[k]);
                        assert(pkg_dep_edge(packages@, j, pre_stages[k]@[m] as int));
                        assert(idx_placed_before(pre_stages, k, j as usize));
                        let k2 = choose|k2: int|
                            0 <= k2 < k && #[trigger] idx_in_stage(pre_stages, k2, j as usize);
                        assert(stages@[k2] == pre_stages[k2]);
                        assert(idx_in_stage(stages@, k2, j as usize));
                    } else {
                        let i = stages@[k]@[m];
                        assert(!dep_blocked(packages@, pre_placed, i as int));
                        assert(pre_placed[j]);
                        assert(idx_placed(pre_stages, j as usize));
                        let k2 = choose|k2: int|
                            0 <= k2 < pre_stages.len() && #[trigger] idx_in_stage(pre_stages, k2, j as usize);
                        assert(stages@[k2] == pre_stages[k2]);
                        assert(idx_in_stage(stages@, k2, j as usize));
                    }
                }
                assert forall|k1: int, m1: int, k2: int, m2: int|
                    0 <= k1 < stages@.len() && 0 <= m1 < stages@[k1]@.len() && 0 <= k2
                        < stages@.len() && 0 <= m2 < stages@[k2]@.len() && (k1 != k2 || m1
                        != m2) implies #[trigger] stages@[k1]@[m1] != #[trigger] stages@[k2]@[m2] by {
                    if k1 < new_k && k2 < new_k {
                        assert(stages@[k1] == pre_stages[k1]);
                        assert(stages@[k2] == pre_stages[k2]);
                    } else if k1 == new_k && k2 == new_k {
                        assert(stages@[k1]@[m1] == ready@[m1]);
                        assert(stages@[k2]@[m2] == ready@[m2]);
                    } else if k1 == new_k {
                        assert(stages@[k2] == pre_stages[k2]);
                        let v = stages@[k2]@[m2];
                        assert(idx_in_stage(pre_stages, k2, v));
                        assert(idx_placed(pre_stages, v));
                        assert(pre_placed[v as int]);
                        assert(!pre_placed[ready@[m1] as int]);
                    } else {
                        assert(stages@[k1] == pre_stages[k1]);
                        let v = stages@[k1]@[m1];
                        assert(idx_in_stage(pre_stages, k1, v));
                        assert(idx_placed(pre_stages, v));
                        assert(pre_placed[v as int]);
                        assert(!pre_placed[ready@[m2] as int]);
                    }
                }
                assert forall|k: int, j: int|
                    0 <= k < stages@.len() && 0 <= j < n && !idx_placed_before(
                        stages@,
                        k,
                        j as usize,
                    ) && #[trigger] deps_placed_before(packages@, stages@, k, j) implies
                    idx_in_stage(stages@, k, j as usize) by {
                    if k < new_k {
                        assert forall|d: int|
                            0 <= d < n && #[trigger] pkg_dep_edge(packages@, d, j) implies
                            idx_placed_before(pre_stages, k, d as usize) by {
                            assert(idx_placed_before(stages@, k, d as usize));
                            let k2 = choose|k2: int|
                                0 <= k2 < k && #[trigger] idx_in_stage(stages@, k2, d as usize);
                            assert(stages@[k2] == pre_stages[k2]);
                            assert(idx_in_stage(pre_stages, k2, d as usize));
                        }
                        assert(!idx_placed_before(pre_stages, k, j as usize)) by {
                            if idx_placed_before(pre_stages, k, j as usize) {
                                let k2 = choose|k2: int|
                                    0 <= k2 < k && #[trigger] idx_in_stage(
                                        pre_stages,
                                        k2,
                                        j as usize,
                                    );
                                assert(stages@[k2] == pre_stages[k2]);
                                assert(idx_in_stage(stages@, k2, j as usize));
                            }
                        }
                        assert(deps_placed_before(packages@, pre_stages, k, j));
                        assert(idx_in_stage(pre_stages, k, j as usize));
                        let m2 = choose|m2: int|
                            0 <= m2 < pre_stages[k]@.len() && #[trigger] pre_stages[k]@[m2] == (
                            j as usize);
                        assert(stages@[k] == pre_stages[k]);
                        assert(idx_in_stage(stages@, k, j as usize));
                    } else {
                        assert(!pre_placed[j]) by {
                            if pre_placed[j] {
                                assert(idx_placed(pre_stages, j as usize));
                                let k2 = choose|k2: int|
                                    0 <= k2 < pre_stages.len() && #[trigger] idx_in_stage(
                                        pre_stages,
                                        k2,
                                        j as usize,
                                    );
                                assert(stages@[k2] == pre_stages[k2]);
                                assert(idx_in_stage(stages@, k2, j as usize));
                                assert(idx_placed_before(stages@, k, j as usize));
                            }
                        }
                        assert(!dep_blocked(packages@, pre_placed, j)) by {
                            if dep_blocked(packages@, pre_placed, j) {
                                let d = choose|d: int|
                                    0 <= d < n && !pre_placed[d] && pkg_dep_edge(packages@, d, j);
                                assert(idx_placed_before(stages@, k, d as usize));
                                let k2 = choose|k2: int|
                                    0 <= k2 < k && #[trigger] idx_in_stage(
                                        stages@,
                                        k2,
                                        d as usize,
                                    );
                                assert(stages@[k2] == pre_stages[k2]);
                                assert(idx_in_stage(pre_stages, k2, d as usize));
                                assert(idx_placed(pre_stages, d as usize));
                                assert(pre_placed[d]);
                            }
                        }
                        let s2 = choose|s2: int|
                            0 <= s2 < ready@.len() && #[trigger] ready@[s2] as int == j;
                        assert(stages@[k]@[s2] == ready@[s2]);
                        assert(idx_in_stage(stages@, k, j as usize));
                    }
                }
            }
        }
    }
    if stalled {
        Vec::new()
    } else {
        proof {
            lemma_num_true_le(placed@);
            lemma_num_true_full(placed@);
        }
        stages
    }
}

pub proof fn lemma_num_true_zero(s: Seq<bool>)
    requires
        forall|t: int| 0 <= t < s.len() ==> !s[t],
    ensures
        num_true(s) == 0,
    decreases s.len(),
{
    if s.len() > 0 {
        lemma_num_true_zero(s.drop_last());
    }
}

} // verus!
