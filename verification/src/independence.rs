//! Why the systems of one group may run in any order: effects that stay
//! within disjoint footprints commute.
//!
//! The world is seen here as its per-type storage, a sequence indexed by
//! component type, and the effect of a system as a function on it.

use vstd::prelude::*;
use crate::ecs::ComponentType;
use crate::plan::{group_of, lemma_overlapping_systems_are_separated, overlap};

verus! {

/// Two worlds hold the same storage for every component type of `footprint`.
pub open spec fn agree_on<T>(a: Seq<T>, b: Seq<T>, footprint: Seq<ComponentType>) -> bool {
    &&& a.len() == b.len()
    &&& forall|t: int|
        0 <= t < a.len() && footprint.contains(t as ComponentType) ==> #[trigger] a[t] == b[t]
}

/// The footprint of `effect` is declared truthfully: the effect leaves the
/// storage of every type outside `footprint` as it is, and what it leaves in
/// the storage of the types inside depends on nothing but what they held.
pub open spec fn confined_to<T>(
    effect: spec_fn(Seq<T>) -> Seq<T>,
    footprint: Seq<ComponentType>,
) -> bool {
    &&& forall|w: Seq<T>| (#[trigger] effect(w)).len() == w.len()
    &&& forall|w: Seq<T>, t: int|
        0 <= t < w.len() && !footprint.contains(t as ComponentType) ==> #[trigger] effect(w)[t]
            == w[t]
    &&& forall|w1: Seq<T>, w2: Seq<T>|
        agree_on(w1, w2, footprint) ==> agree_on(#[trigger] effect(w1), #[trigger] effect(w2), footprint)
}

/// Two effects confined to footprints that share no component type give the
/// same world in either order.
pub proof fn lemma_disjoint_effects_commute<T>(
    first: spec_fn(Seq<T>) -> Seq<T>,
    first_footprint: Seq<ComponentType>,
    second: spec_fn(Seq<T>) -> Seq<T>,
    second_footprint: Seq<ComponentType>,
    world: Seq<T>,
)
    requires
        confined_to(first, first_footprint),
        confined_to(second, second_footprint),
        !overlap(first_footprint, second_footprint),
    ensures
        first(second(world)) == second(first(world)),
{
    let after_first = first(world);
    let after_second = second(world);
    let one = first(after_second);
    let other = second(after_first);
    assert(after_first.len() == world.len());
    assert(after_second.len() == world.len());
    assert(one.len() == world.len());
    assert(other.len() == world.len());
    assert(agree_on(world, after_second, first_footprint)) by {
        assert forall|t: int|
            0 <= t < world.len() && first_footprint.contains(t as ComponentType) implies #[trigger] world[t]
            == after_second[t] by {
            assert(!second_footprint.contains(t as ComponentType));
            assert(second(world)[t] == world[t]);
        }
    }
    assert(agree_on(world, after_first, second_footprint)) by {
        assert forall|t: int|
            0 <= t < world.len() && second_footprint.contains(t as ComponentType) implies #[trigger] world[t]
            == after_first[t] by {
            assert(first_footprint.contains(t as ComponentType) ==> overlap(
                first_footprint,
                second_footprint,
            ));
            assert(first(world)[t] == world[t]);
        }
    }
    assert(agree_on(after_first, one, first_footprint));
    assert(agree_on(after_second, other, second_footprint));
    assert forall|t: int| 0 <= t < world.len() implies one[t] == other[t] by {
        let ty = t as ComponentType;
        if first_footprint.contains(ty) {
            assert(!second_footprint.contains(ty));
            assert(second(after_first)[t] == after_first[t]);
            assert(after_first[t] == one[t]);
        } else if second_footprint.contains(ty) {
            assert(first(after_second)[t] == after_second[t]);
            assert(after_second[t] == other[t]);
        } else {
            assert(first(after_second)[t] == after_second[t]);
            assert(second(world)[t] == world[t]);
            assert(second(after_first)[t] == after_first[t]);
            assert(first(world)[t] == world[t]);
        }
    }
    assert(one =~= other);
}

/// Two systems that first-fit places in the same group give the same world
/// whichever of them runs first, provided each declared its footprint
/// truthfully.
pub proof fn lemma_group_members_commute<T>(
    fp: Seq<Seq<ComponentType>>,
    effects: Seq<spec_fn(Seq<T>) -> Seq<T>>,
    a: int,
    b: int,
    world: Seq<T>,
)
    requires
        effects.len() == fp.len(),
        0 <= a < fp.len(),
        0 <= b < fp.len(),
        a != b,
        group_of(fp, a) == group_of(fp, b),
        confined_to(effects[a], fp[a]),
        confined_to(effects[b], fp[b]),
    ensures
        effects[a](effects[b](world)) == effects[b](effects[a](world)),
{
    if overlap(fp[a], fp[b]) {
        lemma_overlapping_systems_are_separated(fp, a, b);
    }
    lemma_disjoint_effects_commute(effects[a], fp[a], effects[b], fp[b], world);
}

} // verus!
