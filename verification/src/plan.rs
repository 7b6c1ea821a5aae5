//! Derivation of the execution plan: the greedy first-fit partition of an
//! ordered list of systems into groups with pairwise disjoint footprints.
//!
//! The derivation scans group by group: the first system not yet placed opens
//! a group, and every later unplaced system that shares no component type with
//! the group so far joins it. The plan is described here system by system
//! instead: each system sits in the first group, in order of creation, none of
//! whose earlier members it overlaps (`group_of`). `plan_of` lists the groups
//! so described, and the derivation is proved to yield exactly that list.

use vstd::prelude::*;
use crate::ecs::{ComponentType, System};

verus! {

/// Two footprints overlap when some component type occurs in both.
pub open spec fn overlap(a: Seq<ComponentType>, b: Seq<ComponentType>) -> bool {
    exists|t: ComponentType| #[trigger] a.contains(t) && b.contains(t)
}

/// The declared footprints of a list of systems, in registration order.
pub open spec fn footprints<S>(systems: Seq<System<S>>) -> Seq<Seq<ComponentType>> {
    Seq::new(systems.len(), |i: int| systems[i].args@)
}

/// System `j` fits group `c` when it overlaps no earlier system of that group.
pub open spec fn fits(fp: Seq<Seq<ComponentType>>, j: int, c: int) -> bool
    decreases j, 0int, 0int,
{
    forall|i: int| 0 <= i < j && group_of(fp, i) == c ==> !overlap(#[trigger] fp[i], fp[j])
}

/// The first group, counting from `c`, that system `j` fits. Group `j` is
/// always free, since each earlier system sits in a group below its own index.
pub open spec fn first_fit_from(fp: Seq<Seq<ComponentType>>, j: int, c: int) -> int
    decreases j, 1int, j - c,
{
    if c >= j {
        c
    } else if fits(fp, j, c) {
        c
    } else {
        first_fit_from(fp, j, c + 1)
    }
}

/// The group that first-fit assigns to system `j`: the lowest-numbered group
/// whose earlier members all have footprints disjoint from that of `j`.
pub open spec fn group_of(fp: Seq<Seq<ComponentType>>, j: int) -> int
    decreases j, 2int, 0int,
{
    first_fit_from(fp, j, 0)
}

/// The members of group `c` among the first `k` systems, in registration order.
pub open spec fn members(fp: Seq<Seq<ComponentType>>, c: int, k: int) -> Seq<int>
    decreases k,
{
    if k <= 0 {
        Seq::empty()
    } else if group_of(fp, k - 1) == c {
        members(fp, c, k - 1).push(k - 1)
    } else {
        members(fp, c, k - 1)
    }
}

/// The number of groups that the first `k` systems occupy.
pub open spec fn group_count(fp: Seq<Seq<ComponentType>>, k: int) -> int
    decreases k,
{
    if k <= 0 {
        0
    } else if group_of(fp, k - 1) == group_count(fp, k - 1) {
        group_count(fp, k - 1) + 1
    } else {
        group_count(fp, k - 1)
    }
}

/// The execution plan of a list of footprints: group after group, each the
/// list of its members in registration order.
pub open spec fn plan_of(fp: Seq<Seq<ComponentType>>) -> Seq<Seq<int>> {
    Seq::new(group_count(fp, fp.len() as int) as nat, |c: int| members(fp, c, fp.len() as int))
}

/// A list of system indices as mathematical integers.
pub open spec fn indices(group: Seq<usize>) -> Seq<int> {
    Seq::new(group.len(), |p: int| group[p] as int)
}

/// What a derived plan holds, group by group.
pub open spec fn plan_model(order: Vec<Vec<usize>>) -> Seq<Seq<int>> {
    Seq::new(order@.len(), |c: int| indices(order@[c]@))
}

/// Component type `t` is claimed by group `c` among the first `k` systems:
/// some member of the group declares it.
pub open spec fn claimed_by(fp: Seq<Seq<ComponentType>>, c: int, k: int, t: ComponentType) -> bool {
    exists|m: int| 0 <= m < k && #[trigger] group_of(fp, m) == c && fp[m].contains(t)
}

/// The search for a group moves upward and stops at the system's own index.
pub proof fn lemma_first_fit_bounds(fp: Seq<Seq<ComponentType>>, j: int, c: int)
    requires
        0 <= c,
        0 <= j,
    ensures
        c <= first_fit_from(fp, j, c),
        first_fit_from(fp, j, c) <= (if c >= j { c } else { j }),
    decreases j - c,
{
    if c < j && !fits(fp, j, c) {
        lemma_first_fit_bounds(fp, j, c + 1);
    }
}

/// Every system sits in a group numbered between 0 and its own index.
pub proof fn lemma_group_bounds(fp: Seq<Seq<ComponentType>>, j: int)
    requires
        0 <= j,
    ensures
        0 <= group_of(fp, j) <= j,
{
    lemma_first_fit_bounds(fp, j, 0);
}

proof fn lemma_fits_own_index(fp: Seq<Seq<ComponentType>>, j: int)
    requires
        0 <= j,
    ensures
        fits(fp, j, j),
{
    assert forall|i: int| 0 <= i < j && group_of(fp, i) == j implies !overlap(
        #[trigger] fp[i],
        fp[j],
    ) by {
        lemma_group_bounds(fp, i);
    }
}

proof fn lemma_first_fit_from_is_least(fp: Seq<Seq<ComponentType>>, j: int, c: int)
    requires
        0 <= c <= j,
    ensures
        fits(fp, j, first_fit_from(fp, j, c)),
        forall|d: int| c <= d < first_fit_from(fp, j, c) ==> !#[trigger] fits(fp, j, d),
    decreases j - c,
{
    if c >= j {
        lemma_fits_own_index(fp, j);
    } else if !fits(fp, j, c) {
        lemma_first_fit_from_is_least(fp, j, c + 1);
    }
}

/// First-fit: a system fits its own group and no group before it.
pub proof fn lemma_group_is_first_fit(fp: Seq<Seq<ComponentType>>, j: int)
    requires
        0 <= j,
    ensures
        fits(fp, j, group_of(fp, j)),
        forall|d: int| 0 <= d < group_of(fp, j) ==> !#[trigger] fits(fp, j, d),
{
    lemma_first_fit_from_is_least(fp, j, 0);
}

/// A system is placed no later than any group it fits.
pub proof fn lemma_group_at_most(fp: Seq<Seq<ComponentType>>, j: int, c: int)
    requires
        0 <= j,
        0 <= c,
        fits(fp, j, c),
    ensures
        group_of(fp, j) <= c,
{
    lemma_group_is_first_fit(fp, j);
}

/// The groups in use are numbered densely: each of the first `k` systems sits
/// in a group below `group_count(fp, k)`, and a system opens at most the next
/// group.
pub proof fn lemma_group_count(fp: Seq<Seq<ComponentType>>, k: int)
    requires
        0 <= k,
    ensures
        0 <= group_count(fp, k) <= k,
        forall|j: int| 0 <= j < k ==> 0 <= #[trigger] group_of(fp, j) < group_count(fp, k),
        group_of(fp, k) <= group_count(fp, k),
    decreases k,
{
    if k > 0 {
        lemma_group_count(fp, k - 1);
    }
    assert forall|j: int| 0 <= j < k implies 0 <= #[trigger] group_of(fp, j) < group_count(
        fp,
        k,
    ) by {
        lemma_group_bounds(fp, j);
    }
    assert forall|i: int| 0 <= i < k && group_of(fp, i) == group_count(fp, k) implies !overlap(
        #[trigger] fp[i],
        fp[k],
    ) by {}
    lemma_group_at_most(fp, k, group_count(fp, k));
}

/// Group `c` holds exactly the systems that first-fit assigns to it.
pub proof fn lemma_members_contains(fp: Seq<Seq<ComponentType>>, c: int, k: int, x: int)
    ensures
        members(fp, c, k).contains(x) <==> (0 <= x < k && group_of(fp, x) == c),
    decreases k,
{
    if k > 0 {
        lemma_members_contains(fp, c, k - 1, x);
        let prev = members(fp, c, k - 1);
        if group_of(fp, k - 1) == c {
            let now = prev.push(k - 1);
            assert(now[now.len() - 1] == k - 1);
            if prev.contains(x) {
                let p = choose|p: int| 0 <= p < prev.len() && prev[p] == x;
                assert(now[p] == x);
            }
            if now.contains(x) {
                let p = choose|p: int| 0 <= p < now.len() && now[p] == x;
                if p < prev.len() {
                    assert(prev[p] == x);
                }
            }
        }
    }
}

proof fn lemma_members_none(fp: Seq<Seq<ComponentType>>, c: int, k: int)
    requires
        forall|j: int| 0 <= j < k ==> #[trigger] group_of(fp, j) != c,
    ensures
        members(fp, c, k) == Seq::<int>::empty(),
    decreases k,
{
    if k > 0 {
        lemma_members_none(fp, c, k - 1);
    }
}

/// Overlap does not depend on the order of the two footprints.
pub proof fn lemma_overlap_symmetric(a: Seq<ComponentType>, b: Seq<ComponentType>)
    ensures
        overlap(a, b) == overlap(b, a),
{
    if overlap(a, b) {
        let t = choose|t: ComponentType| #[trigger] a.contains(t) && b.contains(t);
        assert(b.contains(t) && a.contains(t));
    }
    if overlap(b, a) {
        let t = choose|t: ComponentType| #[trigger] b.contains(t) && a.contains(t);
        assert(a.contains(t) && b.contains(t));
    }
}

/// The members of a group are listed in strictly increasing registration
/// order, so no system is listed twice.
pub proof fn lemma_members_increasing(fp: Seq<Seq<ComponentType>>, c: int, k: int)
    ensures
        forall|p: int| 0 <= p < members(fp, c, k).len() ==> 0 <= #[trigger] members(fp, c, k)[p] < k,
        forall|p: int, q: int|
            0 <= p < q < members(fp, c, k).len() ==> #[trigger] members(fp, c, k)[p]
                < #[trigger] members(fp, c, k)[q],
    decreases k,
{
    if k > 0 {
        lemma_members_increasing(fp, c, k - 1);
        let prev = members(fp, c, k - 1);
        let now = members(fp, c, k);
        assert forall|p: int| 0 <= p < now.len() implies 0 <= #[trigger] now[p] < k by {
            if p < prev.len() {
                assert(now[p] == prev[p]);
            }
        }
        assert forall|p: int, q: int| 0 <= p < q < now.len() implies #[trigger] now[p]
            < #[trigger] now[q] by {
            assert(now[p] == prev[p]);
            if q < prev.len() {
                assert(now[q] == prev[q]);
            }
        }
    }
}

/// Every system appears in exactly one group of the plan: the group that
/// first-fit assigns to it, and no other.
pub proof fn lemma_plan_partitions(fp: Seq<Seq<ComponentType>>, j: int)
    requires
        0 <= j < fp.len(),
    ensures
        0 <= group_of(fp, j) < plan_of(fp).len(),
        forall|c: int|
            0 <= c < plan_of(fp).len() ==> (#[trigger] plan_of(fp)[c].contains(j) <==> c
                == group_of(fp, j)),
{
    let n = fp.len() as int;
    lemma_group_count(fp, n);
    assert forall|c: int| 0 <= c < plan_of(fp).len() implies (#[trigger] plan_of(fp)[c].contains(
        j,
    ) <==> c == group_of(fp, j)) by {
        lemma_members_contains(fp, c, n, j);
    }
}

/// First fit: a system was kept out of every group before its own by a member
/// of that group that was registered before it and overlaps it.
pub proof fn lemma_kept_out_by_earlier_member(fp: Seq<Seq<ComponentType>>, j: int, d: int)
    requires
        0 <= j,
        0 <= d < group_of(fp, j),
    ensures
        exists|i: int| 0 <= i < j && group_of(fp, i) == d && overlap(#[trigger] fp[i], fp[j]),
{
    lemma_group_is_first_fit(fp, j);
    assert(!fits(fp, j, d));
}

/// Two distinct systems whose declared footprints intersect never appear in
/// the same group, whatever the registration order.
pub proof fn lemma_overlapping_systems_are_separated(fp: Seq<Seq<ComponentType>>, a: int, b: int)
    requires
        0 <= a < fp.len(),
        0 <= b < fp.len(),
        a != b,
        overlap(fp[a], fp[b]),
    ensures
        group_of(fp, a) != group_of(fp, b),
        forall|c: int|
            0 <= c < plan_of(fp).len() ==> !(#[trigger] plan_of(fp)[c].contains(a) && plan_of(
                fp,
            )[c].contains(b)),
{
    lemma_overlap_symmetric(fp[a], fp[b]);
    if a < b {
        lemma_group_is_first_fit(fp, b);
        assert(overlap(fp[a], fp[b]));
    } else {
        lemma_group_is_first_fit(fp, a);
        assert(overlap(fp[b], fp[a]));
    }
    lemma_plan_partitions(fp, a);
    lemma_plan_partitions(fp, b);
}

/// System `j` is listed somewhere in the plan.
pub open spec fn appears_in(plan: Seq<Seq<int>>, j: int) -> bool {
    exists|c: int, p: int|
        0 <= c < plan.len() && 0 <= p < plan[c].len() && #[trigger] plan[c][p] == j
}

/// What every plan owes: each member of a group is a system of the list,
/// every system appears in exactly one place of the plan, and any two members
/// of one group have disjoint footprints.
pub open spec fn is_conflict_free_partition(fp: Seq<Seq<ComponentType>>, plan: Seq<Seq<int>>) -> bool {
    &&& forall|c: int, p: int|
        0 <= c < plan.len() && 0 <= p < plan[c].len() ==> 0 <= #[trigger] plan[c][p] < fp.len()
    &&& forall|j: int| 0 <= j < fp.len() ==> #[trigger] appears_in(plan, j)
    &&& forall|c: int, p: int, d: int, q: int|
        0 <= c < plan.len() && 0 <= p < plan[c].len() && 0 <= d < plan.len() && 0 <= q
            < plan[d].len() && #[trigger] plan[c][p] == #[trigger] plan[d][q] ==> c == d && p == q
    &&& forall|c: int, p: int, q: int|
        0 <= c < plan.len() && 0 <= p < plan[c].len() && 0 <= q < plan[c].len() && p != q
            ==> !overlap(fp[#[trigger] plan[c][p]], fp[#[trigger] plan[c][q]])
}

/// The first-fit plan is a partition of the systems into groups without
/// conflicts.
pub proof fn lemma_plan_is_conflict_free_partition(fp: Seq<Seq<ComponentType>>)
    ensures
        is_conflict_free_partition(fp, plan_of(fp)),
{
    let n = fp.len() as int;
    let plan = plan_of(fp);
    assert forall|c: int, p: int| 0 <= c < plan.len() && 0 <= p < plan[c].len() implies 0
        <= #[trigger] plan[c][p] < fp.len() by {
        lemma_members_increasing(fp, c, n);
    }
    assert forall|j: int| 0 <= j < fp.len() implies #[trigger] appears_in(plan, j) by {
        lemma_plan_partitions(fp, j);
        let c = group_of(fp, j);
        assert(plan[c].contains(j));
        let p = choose|p: int| 0 <= p < plan[c].len() && plan[c][p] == j;
        assert(0 <= c < plan.len() && 0 <= p < plan[c].len() && plan[c][p] == j);
    }
    assert forall|c: int, p: int, d: int, q: int|
        0 <= c < plan.len() && 0 <= p < plan[c].len() && 0 <= d < plan.len() && 0 <= q
            < plan[d].len() && #[trigger] plan[c][p] == #[trigger] plan[d][q] implies c == d && p
        == q by {
        let x = plan[c][p];
        lemma_members_increasing(fp, c, n);
        assert(plan[c].contains(x));
        assert(plan[d].contains(x));
        lemma_members_contains(fp, c, n, x);
        lemma_members_contains(fp, d, n, x);
    }
    assert forall|c: int, p: int, q: int|
        0 <= c < plan.len() && 0 <= p < plan[c].len() && 0 <= q < plan[c].len() && p
            != q implies !overlap(fp[#[trigger] plan[c][p]], fp[#[trigger] plan[c][q]]) by {
        let a = plan[c][p];
        let b = plan[c][q];
        lemma_members_increasing(fp, c, n);
        assert(plan[c].contains(a));
        assert(plan[c].contains(b));
        lemma_members_contains(fp, c, n, a);
        lemma_members_contains(fp, c, n, b);
        if overlap(fp[a], fp[b]) {
            lemma_overlapping_systems_are_separated(fp, a, b);
        }
    }
}

proof fn lemma_single_group(fp: Seq<Seq<ComponentType>>, k: int)
    requires
        1 <= k,
        forall|j: int| 0 <= j < k ==> #[trigger] group_of(fp, j) == 0,
    ensures
        group_count(fp, k) == 1,
        members(fp, 0, k) == Seq::new(k as nat, |i: int| i),
    decreases k,
{
    if k > 1 {
        lemma_single_group(fp, k - 1);
    } else {
        assert(group_count(fp, 0) == 0);
        assert(members(fp, 0, 0) =~= Seq::<int>::empty());
    }
    assert(group_of(fp, k - 1) == 0);
    assert(members(fp, 0, k) == members(fp, 0, k - 1).push(k - 1));
    assert(members(fp, 0, k) =~= Seq::new(k as nat, |i: int| i));
}

/// Systems whose footprints are pairwise disjoint all run in one group,
/// whatever the order they were registered in.
pub proof fn lemma_disjoint_systems_form_one_group(fp: Seq<Seq<ComponentType>>)
    requires
        fp.len() >= 1,
        forall|a: int, b: int| 0 <= a < b < fp.len() ==> !overlap(#[trigger] fp[a], #[trigger] fp[b]),
    ensures
        plan_of(fp).len() == 1,
        plan_of(fp)[0] == Seq::new(fp.len(), |i: int| i),
{
    assert forall|j: int| 0 <= j < fp.len() implies #[trigger] group_of(fp, j) == 0 by {
        assert forall|i: int| 0 <= i < j && group_of(fp, i) == 0 implies !overlap(
            #[trigger] fp[i],
            fp[j],
        ) by {}
        lemma_group_at_most(fp, j, 0);
        lemma_group_bounds(fp, j);
    }
    lemma_single_group(fp, fp.len() as int);
}

proof fn lemma_first_fit_from_agrees(
    fp1: Seq<Seq<ComponentType>>,
    fp2: Seq<Seq<ComponentType>>,
    j: int,
    c: int,
)
    requires
        0 <= j,
        0 <= c,
        forall|d: int| #[trigger] fits(fp1, j, d) == fits(fp2, j, d),
    ensures
        first_fit_from(fp1, j, c) == first_fit_from(fp2, j, c),
    decreases j - c,
{
    if c < j {
        assert(fits(fp1, j, c) == fits(fp2, j, c));
        if !fits(fp1, j, c) {
            lemma_first_fit_from_agrees(fp1, fp2, j, c + 1);
        }
    }
}

/// The group of a system depends only on the footprints registered up to and
/// including its own.
pub proof fn lemma_group_depends_on_prefix(
    fp1: Seq<Seq<ComponentType>>,
    fp2: Seq<Seq<ComponentType>>,
    j: int,
)
    requires
        0 <= j,
        forall|k: int| 0 <= k <= j ==> fp1[k] == fp2[k],
    ensures
        group_of(fp1, j) == group_of(fp2, j),
    decreases j,
{
    assert forall|i: int| 0 <= i < j implies group_of(fp1, i) == group_of(fp2, i) by {
        lemma_group_depends_on_prefix(fp1, fp2, i);
    }
    assert forall|d: int| #[trigger] fits(fp1, j, d) == fits(fp2, j, d) by {
        if fits(fp1, j, d) {
            assert forall|i: int| 0 <= i < j && group_of(fp2, i) == d implies !overlap(
                #[trigger] fp2[i],
                fp2[j],
            ) by {
                assert(fp1[i] == fp2[i]);
                assert(group_of(fp1, i) == group_of(fp2, i));
            }
        }
        if fits(fp2, j, d) {
            assert forall|i: int| 0 <= i < j && group_of(fp1, i) == d implies !overlap(
                #[trigger] fp1[i],
                fp1[j],
            ) by {
                assert(fp1[i] == fp2[i]);
                assert(group_of(fp1, i) == group_of(fp2, i));
            }
        }
    }
    lemma_first_fit_from_agrees(fp1, fp2, j, 0);
}

proof fn lemma_members_agree(
    fp1: Seq<Seq<ComponentType>>,
    fp2: Seq<Seq<ComponentType>>,
    c: int,
    k: int,
)
    requires
        forall|j: int| 0 <= j < k ==> group_of(fp1, j) == #[trigger] group_of(fp2, j),
    ensures
        members(fp1, c, k) == members(fp2, c, k),
    decreases k,
{
    if k > 0 {
        lemma_members_agree(fp1, fp2, c, k - 1);
        assert(group_of(fp1, k - 1) == group_of(fp2, k - 1));
    }
}

proof fn lemma_group_count_agrees(fp1: Seq<Seq<ComponentType>>, fp2: Seq<Seq<ComponentType>>, k: int)
    requires
        forall|j: int| 0 <= j < k ==> group_of(fp1, j) == #[trigger] group_of(fp2, j),
    ensures
        group_count(fp1, k) == group_count(fp2, k),
    decreases k,
{
    if k > 0 {
        lemma_group_count_agrees(fp1, fp2, k - 1);
        assert(group_of(fp1, k - 1) == group_of(fp2, k - 1));
    }
}

/// Registering one more system leaves the group of every earlier system as it
/// was.
pub proof fn lemma_registration_keeps_groups(
    fp: Seq<Seq<ComponentType>>,
    f: Seq<ComponentType>,
    j: int,
)
    requires
        0 <= j < fp.len(),
    ensures
        group_of(fp.push(f), j) == group_of(fp, j),
{
    lemma_group_depends_on_prefix(fp.push(f), fp, j);
}

/// The plan `before` with system `n` placed in group `c`: appended to that
/// group if the plan has it, else alone in a new last group.
pub open spec fn plan_with(before: Seq<Seq<int>>, c: int, n: int) -> Seq<Seq<int>> {
    if 0 <= c < before.len() {
        before.update(c, before[c].push(n))
    } else {
        before.push(seq![n])
    }
}

/// The footprints of a list of systems with one more system registered.
pub proof fn lemma_footprints_push<S>(systems: Seq<System<S>>, system: System<S>)
    ensures
        footprints(systems.push(system)) == footprints(systems).push(system.args@),
{
    assert(footprints(systems.push(system)) =~= footprints(systems).push(system.args@));
}

/// Every member of every group of a plan is a system of the list.
pub proof fn lemma_plan_members_in_range(fp: Seq<Seq<ComponentType>>, c: int, p: int)
    requires
        0 <= c < plan_of(fp).len(),
        0 <= p < plan_of(fp)[c].len(),
    ensures
        0 <= plan_of(fp)[c][p] < fp.len(),
{
    lemma_members_increasing(fp, c, fp.len() as int);
}

/// Registering one more system changes the plan in one place only: the new
/// system is appended to the first group it fits, or, if it fits none, opens a
/// new last group. Every other group is as it was.
pub proof fn lemma_registration_extends_plan(fp: Seq<Seq<ComponentType>>, f: Seq<ComponentType>)
    ensures
        ({
            let n = fp.len() as int;
            let c = group_of(fp.push(f), n);
            let before = plan_of(fp);
            let after = plan_of(fp.push(f));
            &&& 0 <= c <= before.len()
            &&& c < before.len() ==> after == before.update(c, before[c].push(n))
            &&& c == before.len() ==> after == before.push(seq![n])
            &&& after == plan_with(before, c, n)
        }),
{
    let n = fp.len() as int;
    let grown = fp.push(f);
    let c = group_of(grown, n);
    let before = plan_of(fp);
    let after = plan_of(grown);
    assert forall|j: int| 0 <= j < n implies group_of(grown, j) == #[trigger] group_of(fp, j) by {
        lemma_registration_keeps_groups(fp, f, j);
    }
    lemma_group_count_agrees(grown, fp, n);
    lemma_group_count(grown, n);
    lemma_group_bounds(grown, n);
    assert forall|d: int| 0 <= d < after.len() implies #[trigger] members(grown, d, n) == members(
        fp,
        d,
        n,
    ) by {
        lemma_members_agree(grown, fp, d, n);
    }
    assert(grown.len() == n + 1);
    assert(after.len() == group_count(grown, n + 1));
    assert(before.len() == group_count(fp, n));
    if c < before.len() {
        let expected = before.update(c, before[c].push(n));
        assert(after.len() == expected.len());
        assert forall|d: int| 0 <= d < after.len() implies after[d] == expected[d] by {
            assert(members(grown, d, n) == members(fp, d, n));
            assert(after[d] == members(grown, d, n + 1));
            assert(before[d] == members(fp, d, n));
        }
        assert(after =~= expected);
    } else {
        let expected = before.push(seq![n]);
        lemma_members_none(grown, c, n);
        assert(members(grown, c, n + 1) =~= seq![n]);
        assert(after.len() == expected.len());
        assert forall|d: int| 0 <= d < after.len() implies after[d] == expected[d] by {
            assert(members(grown, d, n) == members(fp, d, n));
            assert(after[d] == members(grown, d, n + 1));
            if d < before.len() {
                assert(before[d] == members(fp, d, n));
            }
        }
        assert(after =~= expected);
    }
}

/// Registering a system whose footprint is disjoint from every footprint
/// already registered keeps all earlier groupings: the system joins the first
/// group, or opens the only group when it is the first system.
pub proof fn lemma_registration_of_disjoint_system(
    fp: Seq<Seq<ComponentType>>,
    f: Seq<ComponentType>,
)
    requires
        forall|k: int| 0 <= k < fp.len() ==> !overlap(#[trigger] fp[k], f),
    ensures
        fp.len() == 0 ==> plan_of(fp.push(f)) == seq![seq![0int]],
        fp.len() > 0 ==> plan_of(fp.push(f)) == plan_of(fp).update(
            0,
            plan_of(fp)[0].push(fp.len() as int),
        ),
{
    let n = fp.len() as int;
    let grown = fp.push(f);
    lemma_registration_extends_plan(fp, f);
    assert forall|i: int| 0 <= i < n && group_of(grown, i) == 0 implies !overlap(
        #[trigger] grown[i],
        grown[n],
    ) by {
        assert(grown[i] == fp[i]);
    }
    lemma_group_at_most(grown, n, 0);
    lemma_group_bounds(grown, n);
    if n > 0 {
        lemma_group_count(fp, n);
        lemma_group_bounds(fp, 0);
    } else {
        assert(plan_of(fp) =~= Seq::<Seq<int>>::empty());
        assert(plan_of(fp).push(seq![0int]) =~= seq![seq![0int]]);
    }
}

/// Widening the scan by one system adds that system's footprint to the
/// claimed types if it sits in the group, and nothing otherwise.
proof fn lemma_claimed_by_step(fp: Seq<Seq<ComponentType>>, c: int, k: int, t: ComponentType)
    requires
        0 <= k,
    ensures
        claimed_by(fp, c, k + 1, t) <==> (claimed_by(fp, c, k, t) || (group_of(fp, k) == c
            && fp[k].contains(t))),
{
    if claimed_by(fp, c, k, t) {
        let m = choose|m: int| 0 <= m < k && #[trigger] group_of(fp, m) == c && fp[m].contains(t);
        assert(0 <= m < k + 1 && group_of(fp, m) == c && fp[m].contains(t));
    }
    if group_of(fp, k) == c && fp[k].contains(t) {
        assert(0 <= k < k + 1 && group_of(fp, k) == c && fp[k].contains(t));
    }
    if claimed_by(fp, c, k + 1, t) {
        let m = choose|m: int|
            0 <= m < k + 1 && #[trigger] group_of(fp, m) == c && fp[m].contains(t);
        if m < k {
            assert(0 <= m < k && group_of(fp, m) == c && fp[m].contains(t));
        }
    }
}

/// A system conflicts with the claimed types of a group exactly when it does
/// not fit the group.
proof fn lemma_claimed_conflict(
    fp: Seq<Seq<ComponentType>>,
    claimed: Seq<ComponentType>,
    c: int,
    j: int,
)
    requires
        0 <= j,
        forall|t: ComponentType| claimed.contains(t) <==> claimed_by(fp, c, j, t),
    ensures
        overlap(claimed, fp[j]) <==> !fits(fp, j, c),
{
    if overlap(claimed, fp[j]) {
        let t = choose|t: ComponentType| #[trigger] claimed.contains(t) && fp[j].contains(t);
        assert(claimed_by(fp, c, j, t));
        let m = choose|m: int| 0 <= m < j && #[trigger] group_of(fp, m) == c && fp[m].contains(t);
        assert(fp[m].contains(t) && fp[j].contains(t));
        assert(overlap(fp[m], fp[j]));
    }
    if !fits(fp, j, c) {
        let i = choose|i: int|
            0 <= i < j && group_of(fp, i) == c && overlap(#[trigger] fp[i], fp[j]);
        let t = choose|t: ComponentType| #[trigger] fp[i].contains(t) && fp[j].contains(t);
        assert(0 <= i < j && group_of(fp, i) == c && fp[i].contains(t));
        assert(claimed_by(fp, c, j, t));
        assert(claimed.contains(t) && fp[j].contains(t));
    }
}

/// Whether component type `t` occurs in the footprint `types`.
pub fn footprint_contains(types: &Vec<ComponentType>, t: ComponentType) -> (found: bool)
    ensures
        found == types@.contains(t),
{
    let mut p: usize = 0;
    while p < types.len()
        invariant
            p <= types.len(),
            forall|q: int| 0 <= q < p ==> types@[q] != t,
        decreases types.len() - p,
    {
        if types[p] == t {
            return true;
        }
        p += 1;
    }
    false
}

/// Whether two footprints share a component type.
pub fn footprints_overlap(a: &Vec<ComponentType>, b: &Vec<ComponentType>) -> (shared: bool)
    ensures
        shared == overlap(a@, b@),
{
    let mut p: usize = 0;
    while p < b.len()
        invariant
            p <= b.len(),
            forall|q: int| 0 <= q < p ==> !a@.contains(#[trigger] b@[q]),
        decreases b.len() - p,
    {
        if footprint_contains(a, b[p]) {
            assert(a@.contains(b@[p as int]) && b@.contains(b@[p as int]));
            return true;
        }
        p += 1;
    }
    proof {
        if overlap(a@, b@) {
            let t = choose|t: ComponentType| #[trigger] a@.contains(t) && b@.contains(t);
            let q = choose|q: int| 0 <= q < b@.len() && b@[q] == t;
            assert(!a@.contains(b@[q]));
        }
    }
    false
}

/// Appends every type of `args` to the claimed types.
fn claim_all(claimed: &mut Vec<ComponentType>, args: &Vec<ComponentType>)
    ensures
        final(claimed)@ == old(claimed)@ + args@,
        forall|t: ComponentType|
            final(claimed)@.contains(t) <==> (old(claimed)@.contains(t) || args@.contains(t)),
{
    let mut p: usize = 0;
    while p < args.len()
        invariant
            p <= args.len(),
            claimed@ == old(claimed)@ + args@.subrange(0, p as int),
        decreases args.len() - p,
    {
        claimed.push(args[p]);
        assert(claimed@ =~= old(claimed)@ + args@.subrange(0, p + 1));
        p += 1;
    }
    assert(args@.subrange(0, p as int) =~= args@);
    proof {
        let before = old(claimed)@;
        let after = claimed@;
        assert forall|t: ComponentType|
            after.contains(t) <==> (before.contains(t) || args@.contains(t)) by {
            if before.contains(t) {
                let q = choose|q: int| 0 <= q < before.len() && before[q] == t;
                assert(after[q] == t);
            }
            if args@.contains(t) {
                let q = choose|q: int| 0 <= q < args@.len() && args@[q] == t;
                assert(after[before.len() + q] == t);
            }
            if after.contains(t) {
                let q = choose|q: int| 0 <= q < after.len() && after[q] == t;
                if q < before.len() {
                    assert(before[q] == t);
                } else {
                    assert(args@[q - before.len()] == t);
                }
            }
        }
    }
}

/// Derives the execution plan of one phase by a single greedy pass.
///
/// Systems are scanned in registration order. Each system not yet placed opens
/// a group; every later unplaced system whose footprint shares no type with
/// those already claimed by the group joins it. The result is the first-fit
/// partition `plan_of` of the systems' footprints.
pub fn generate_execution_order_for_systems<S>(systems: &Vec<System<S>>) -> (order: Vec<
    Vec<usize>,
>)
    ensures
        plan_model(order) == plan_of(footprints(systems@)),
        is_conflict_free_partition(footprints(systems@), plan_model(order)),
{
    let ghost fp = footprints(systems@);
    let n = systems.len();
    let mut order: Vec<Vec<usize>> = Vec::new();
    let mut visited: Vec<bool> = Vec::new();
    let mut v: usize = 0;
    while v < n
        invariant
            v <= n,
            visited.len() == v,
            forall|k: int| 0 <= k < v ==> !visited[k],
        decreases n - v,
    {
        visited.push(false);
        v += 1;
    }
    proof {
        assert forall|k: int| 0 <= k < n implies 0 <= #[trigger] group_of(fp, k) by {
            lemma_group_bounds(fp, k);
        }
    }
    let mut i: usize = 0;
    while i < n
        invariant
            n == systems.len(),
            fp == footprints(systems@),
            i <= n,
            visited.len() == n,
            order.len() == group_count(fp, i as int),
            forall|k: int| 0 <= k < n ==> visited[k] == (group_of(fp, k) < order.len()),
            forall|c: int|
                0 <= c < order.len() ==> indices(#[trigger] order[c]@) == members(fp, c, n as int),
        decreases n - i,
    {
        let ghost g = order.len() as int;
        proof {
            lemma_group_count(fp, i as int);
        }
        if !visited[i] {
            let mut group: Vec<usize> = Vec::new();
            group.push(i);
            visited.set(i, true);
            let mut claimed: Vec<ComponentType> = Vec::new();
            claim_all(&mut claimed, &systems[i].args);
            proof {
                assert(group_of(fp, i as int) == g);
                lemma_members_none(fp, g, i as int);
                assert(indices(group@) =~= members(fp, g, i + 1));
                assert(claimed@ =~= fp[i as int]);
                assert forall|t: ComponentType|
                    claimed@.contains(t) <==> claimed_by(fp, g, i + 1, t) by {
                    lemma_claimed_by_step(fp, g, i as int, t);
                    if claimed_by(fp, g, i as int, t) {
                        let m = choose|m: int|
                            0 <= m < i && #[trigger] group_of(fp, m) == g && fp[m].contains(t);
                        assert(false);
                    }
                }
            }
            let mut j: usize = i + 1;
            while j < n
                invariant
                    n == systems.len(),
                    fp == footprints(systems@),
                    i < j <= n,
                    visited.len() == n,
                    g == order.len(),
                    indices(group@) == members(fp, g, j as int),
                    forall|k: int| 0 <= k < j ==> visited[k] == (group_of(fp, k) <= g),
                    forall|k: int| j <= k < n ==> visited[k] == (group_of(fp, k) < g),
                    forall|t: ComponentType|
                        claimed@.contains(t) <==> claimed_by(fp, g, j as int, t),
                decreases n - j,
            {
                let mut joins = false;
                if !visited[j] {
                    let conflict = footprints_overlap(&claimed, &systems[j].args);
                    proof {
                        lemma_claimed_conflict(fp, claimed@, g, j as int);
                        lemma_group_is_first_fit(fp, j as int);
                        if !conflict {
                            lemma_group_at_most(fp, j as int, g);
                        }
                    }
                    joins = !conflict;
                }
                assert(joins == (group_of(fp, j as int) == g));
                if joins {
                    group.push(j);
                    visited.set(j, true);
                    claim_all(&mut claimed, &systems[j].args);
                }
                proof {
                    assert(indices(group@) =~= members(fp, g, j + 1));
                    assert forall|t: ComponentType|
                        claimed@.contains(t) <==> claimed_by(fp, g, j + 1, t) by {
                        lemma_claimed_by_step(fp, g, j as int, t);
                    }
                }
                j += 1;
            }
            order.push(group);
            assert forall|c: int| 0 <= c < order.len() implies indices(#[trigger] order[c]@)
                == members(fp, c, n as int) by {}
        }
        i += 1;
    }
    proof {
        assert(fp.len() == n);
        assert(plan_model(order) =~= plan_of(fp));
        lemma_plan_is_conflict_free_partition(fp);
    }
    order
}

} // verus!
