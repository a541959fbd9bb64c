//! When a request succeeds and when it fails: a component is built exactly when
//! some finite chain of recipes leads from it to ready slots, and a request
//! fails exactly when the component belongs to a set of components that cannot
//! be built, such as a dependency cycle.

use crate::inject::injected;
use crate::module::{closed, Rules};
use crate::provide::Callable;
use crate::registry::{is_ready, is_resolving, Slots, TypeMapEntry, WiringError};
use crate::resolve::{
    lemma_keeps_grows, lemma_resolved_keeps, lemma_unbooked_book, lemma_unbooked_grow, resolved,
    slot_kept, tuple_resolved, unbooked,
};
use std::sync::Arc;
use vstd::prelude::*;

verus! {

/// The components of `stuck` cannot be built: none has a ready slot, and each
/// has a resolving slot, or no recipe, or a recipe that takes a component of
/// `stuck`.
pub open spec fn all_stuck<T, F>(rules: Rules<F>, slots: Slots<T, F>, stuck: Set<u64>) -> bool {
    forall|key: u64| stuck.contains(key) ==> #[trigger] stuck_at(rules, slots, stuck, key)
}

/// One component of `stuck` cannot be built.
pub open spec fn stuck_at<T, F>(
    rules: Rules<F>,
    slots: Slots<T, F>,
    stuck: Set<u64>,
    key: u64,
) -> bool {
    match slots.get(key) {
        Some(TypeMapEntry::Resolving) => true,
        Some(TypeMapEntry::Ready(_)) => false,
        None => !rules.contains_key(key) || exists|j: int|
            0 <= j < rules[key].deps@.len() && stuck.contains(#[trigger] rules[key].deps@[j]),
    }
}

/// Cycle detection, for cycles of any length: while a set of components cannot
/// be built, resolving any component leaves the slot of each of them as it was,
/// and resolving one of them fails. The components of a dependency cycle whose
/// slots are empty are such a set.
pub proof fn law_stuck_components_fail<T, F: Callable<Vec<Arc<T>>, T>>(
    rules: Rules<F>,
    slots: Slots<T, F>,
    stuck: Set<u64>,
    key: u64,
)
    requires
        rules.dom().finite(),
        all_stuck(rules, slots, stuck),
    ensures
        forall|other: u64|
            stuck.contains(other) ==> #[trigger] resolved(rules, slots, key).0.get(other)
                == slots.get(other),
        all_stuck(rules, resolved(rules, slots, key).0, stuck),
        stuck.contains(key) ==> resolved(rules, slots, key).1 is Err,
    decreases unbooked(rules, slots), 0nat,
{
    let after = resolved(rules, slots, key).0;
    if stuck.contains(key) {
        assert(stuck_at(rules, slots, stuck, key));
    }
    if !slots.contains_key(key) && rules.contains_key(key) {
        let recipe = rules[key];
        let booked = slots.insert(key, TypeMapEntry::Resolving);
        lemma_unbooked_book(rules, slots, key, TypeMapEntry::Resolving);
        assert forall|other: u64| stuck.contains(other) implies #[trigger] stuck_at(
            rules,
            booked,
            stuck,
            other,
        ) by {
            assert(stuck_at(rules, slots, stuck, other));
        }
        law_stuck_lists_fail(rules, booked, stuck, recipe.deps@, 0);
        let inner = tuple_resolved(rules, booked, recipe.deps@, 0).0;
        assert forall|other: u64| stuck.contains(other) implies #[trigger] after.get(other)
            == slots.get(other) by {
            assert(inner.get(other) == booked.get(other));
        }
    }
    assert forall|other: u64| stuck.contains(other) implies #[trigger] stuck_at(
        rules,
        after,
        stuck,
        other,
    ) by {
        assert(stuck_at(rules, slots, stuck, other));
    }
}

/// The same for a list of components: resolving it leaves the slots of the
/// stuck components as they were, and fails when it holds one of them.
pub proof fn law_stuck_lists_fail<T, F: Callable<Vec<Arc<T>>, T>>(
    rules: Rules<F>,
    slots: Slots<T, F>,
    stuck: Set<u64>,
    deps: Seq<u64>,
    from: nat,
)
    requires
        rules.dom().finite(),
        all_stuck(rules, slots, stuck),
        from <= deps.len(),
    ensures
        forall|other: u64|
            stuck.contains(other) ==> #[trigger] tuple_resolved(rules, slots, deps, from).0.get(
                other,
            ) == slots.get(other),
        (exists|j: int| from <= j < deps.len() && stuck.contains(#[trigger] deps[j]))
            ==> tuple_resolved(rules, slots, deps, from).1 is Err,
    decreases unbooked(rules, slots), deps.len() - from + 1,
{
    if from < deps.len() {
        let (after_first, first) = resolved(rules, slots, deps[from as int]);
        law_stuck_components_fail(rules, slots, stuck, deps[from as int]);
        lemma_resolved_keeps(rules, slots, deps[from as int]);
        if first is Ok {
            lemma_keeps_grows(slots, after_first);
            lemma_unbooked_grow(rules, slots, after_first);
            law_stuck_lists_fail(rules, after_first, stuck, deps, from + 1);
        }
    }
}

/// In a closed module, a resolution that fails has met a cycle: no other error
/// comes from a component that has a recipe or an occupied slot.
pub proof fn law_closed_module_fails_by_cycle<T, F: Callable<Vec<Arc<T>>, T>>(
    rules: Rules<F>,
    slots: Slots<T, F>,
    key: u64,
)
    requires
        rules.dom().finite(),
        closed(rules),
        rules.contains_key(key) || slots.contains_key(key),
    ensures
        resolved(rules, slots, key).1 matches Err(error) ==> error == WiringError::CyclicResolution,
    decreases unbooked(rules, slots), 0nat,
{
    if !slots.contains_key(key) {
        let recipe = rules[key];
        let booked = slots.insert(key, TypeMapEntry::Resolving);
        lemma_unbooked_book(rules, slots, key, TypeMapEntry::Resolving);
        lemma_closed_list_fails_by_cycle(rules, booked, recipe.deps@, 0);
    }
}

/// The same for a list of components that all have a recipe.
pub proof fn lemma_closed_list_fails_by_cycle<T, F: Callable<Vec<Arc<T>>, T>>(
    rules: Rules<F>,
    slots: Slots<T, F>,
    deps: Seq<u64>,
    from: nat,
)
    requires
        rules.dom().finite(),
        closed(rules),
        from <= deps.len(),
        forall|j: int| from <= j < deps.len() ==> rules.contains_key(#[trigger] deps[j]),
    ensures
        tuple_resolved(rules, slots, deps, from).1 matches Err(error) ==> error
            == WiringError::CyclicResolution,
    decreases unbooked(rules, slots), deps.len() - from + 1,
{
    if from < deps.len() {
        let (after_first, first) = resolved(rules, slots, deps[from as int]);
        law_closed_module_fails_by_cycle(rules, slots, deps[from as int]);
        if first is Ok {
            lemma_resolved_keeps(rules, slots, deps[from as int]);
            lemma_keeps_grows(slots, after_first);
            lemma_unbooked_grow(rules, slots, after_first);
            lemma_closed_list_fails_by_cycle(rules, after_first, deps, from + 1);
        }
    }
}

/// Cycle detection: where the recipe of `a` takes `b` and the recipe of `b`
/// takes `a`, and neither has a ready slot, a request for `a` fails and leaves
/// the slots of both as they were. In a closed module the error is
/// `CyclicResolution`.
pub proof fn law_mutual_dependency_is_cyclic<T, F: Callable<Vec<Arc<T>>, T>>(
    rules: Rules<F>,
    slots: Slots<T, F>,
    a: u64,
    b: u64,
    to_b: int,
    to_a: int,
)
    requires
        rules.dom().finite(),
        rules.contains_key(a),
        rules.contains_key(b),
        0 <= to_b < rules[a].deps@.len(),
        rules[a].deps@[to_b] == b,
        0 <= to_a < rules[b].deps@.len(),
        rules[b].deps@[to_a] == a,
        !is_ready(slots, a),
        !is_ready(slots, b),
    ensures
        injected(rules, slots, a).1 is Err,
        closed(rules) ==> injected(rules, slots, a).1 == Err::<Arc<T>, WiringError>(
            WiringError::CyclicResolution,
        ),
        injected(rules, slots, a).0.get(a) == slots.get(a),
        injected(rules, slots, a).0.get(b) == slots.get(b),
{
    let stuck = set![a, b];
    law_stuck_components_fail(rules, slots, stuck, a);
    if closed(rules) {
        law_closed_module_fails_by_cycle(rules, slots, a);
    }
}

/// Within `scope`, the recipes of the components that are not cached descend
/// along `rank`: each such component has a recipe, which takes only components
/// of `scope` of a lower rank. Such recipes hold no cycle and miss nothing.
pub open spec fn descends<T, F>(
    rules: Rules<F>,
    slots: Slots<T, F>,
    scope: Set<u64>,
    rank: spec_fn(u64) -> nat,
) -> bool {
    &&& forall|key: u64|
        scope.contains(key) && !is_ready(slots, key) ==> #[trigger] rules.contains_key(key)
    &&& forall|key: u64, j: int|
        scope.contains(key) && !is_ready(slots, key) && 0 <= j < rules[key].deps@.len()
            ==> scope.contains(#[trigger] rules[key].deps@[j]) && rank(rules[key].deps@[j]) < rank(
            key,
        )
}

/// Every component of `scope` that is being built has at least the rank `floor`.
pub open spec fn builds_from<T, F>(
    slots: Slots<T, F>,
    scope: Set<u64>,
    rank: spec_fn(u64) -> nat,
    floor: nat,
) -> bool {
    forall|key: u64| #[trigger] is_resolving(slots, key) && scope.contains(key) ==> rank(key) >= floor
}

/// Success is owed where nothing is missing and there is no cycle: when the
/// open recipes of a set of components descend along some rank, a request for
/// one of them succeeds, provided that every build under way is of a higher
/// rank. On an injector at rest no build is under way.
pub proof fn law_acyclic_request_succeeds<T, F: Callable<Vec<Arc<T>>, T>>(
    rules: Rules<F>,
    slots: Slots<T, F>,
    scope: Set<u64>,
    rank: spec_fn(u64) -> nat,
    key: u64,
)
    requires
        rules.dom().finite(),
        descends(rules, slots, scope, rank),
        builds_from(slots, scope, rank, rank(key) + 1),
        scope.contains(key),
    ensures
        resolved(rules, slots, key).1 is Ok,
    decreases unbooked(rules, slots), 0nat,
{
    if slots.contains_key(key) {
        assert(is_resolving(slots, key) ==> rank(key) >= rank(key) + 1);
    } else {
        let recipe = rules[key];
        let booked = slots.insert(key, TypeMapEntry::Resolving);
        lemma_unbooked_book(rules, slots, key, TypeMapEntry::Resolving);
        assert forall|other: u64| #[trigger]
            is_resolving(booked, other) && scope.contains(other) implies rank(other) >= rank(
            key,
        ) by {
            if other != key {
                assert(is_resolving(slots, other));
            }
        }
        assert(descends(rules, booked, scope, rank));
        lemma_acyclic_list_succeeds(rules, booked, scope, rank, recipe.deps@, 0, rank(key));
    }
}

/// The same for a list of components of `scope`, all of a rank below `floor`.
pub proof fn lemma_acyclic_list_succeeds<T, F: Callable<Vec<Arc<T>>, T>>(
    rules: Rules<F>,
    slots: Slots<T, F>,
    scope: Set<u64>,
    rank: spec_fn(u64) -> nat,
    deps: Seq<u64>,
    from: nat,
    floor: nat,
)
    requires
        rules.dom().finite(),
        descends(rules, slots, scope, rank),
        builds_from(slots, scope, rank, floor),
        from <= deps.len(),
        forall|j: int|
            from <= j < deps.len() ==> scope.contains(#[trigger] deps[j]) && rank(deps[j]) < floor,
    ensures
        tuple_resolved(rules, slots, deps, from).1 is Ok,
    decreases unbooked(rules, slots), deps.len() - from + 1,
{
    if from < deps.len() {
        let first_key = deps[from as int];
        let after_first = resolved(rules, slots, first_key).0;
        law_acyclic_request_succeeds(rules, slots, scope, rank, first_key);
        lemma_resolved_keeps(rules, slots, first_key);
        lemma_keeps_grows(slots, after_first);
        lemma_unbooked_grow(rules, slots, after_first);
        assert forall|other: u64| #[trigger]
            is_resolving(after_first, other) && scope.contains(other) implies rank(other)
            >= floor by {
            assert(slot_kept(slots, after_first, other));
            assert(is_resolving(slots, other));
        }
        assert(descends(rules, after_first, scope, rank)) by {
            assert forall|other: u64| !is_ready(after_first, other) implies !is_ready(
                slots,
                other,
            ) by {
                assert(slot_kept(slots, after_first, other));
            }
        }
        lemma_acyclic_list_succeeds(rules, after_first, scope, rank, deps, from + 1, floor);
    }
}

/// The component can be built by a chain of recipes of at most `depth` links:
/// its slot is ready, or it is empty and the component has a recipe that takes
/// only components that can be built by shorter chains.
pub open spec fn buildable<T, F>(rules: Rules<F>, slots: Slots<T, F>, key: u64, depth: nat) -> bool
    decreases depth,
{
    match slots.get(key) {
        Some(TypeMapEntry::Ready(_)) => true,
        Some(TypeMapEntry::Resolving) => false,
        None => depth > 0 && rules.contains_key(key) && forall|j: int|
            0 <= j < rules[key].deps@.len() ==> buildable(
                rules,
                slots,
                #[trigger] rules[key].deps@[j],
                (depth - 1) as nat,
            ),
    }
}

/// A longer chain is allowed wherever a shorter one is.
pub proof fn lemma_buildable_monotone<T, F>(
    rules: Rules<F>,
    slots: Slots<T, F>,
    key: u64,
    depth: nat,
    deeper: nat,
)
    requires
        buildable(rules, slots, key, depth),
        depth <= deeper,
    ensures
        buildable(rules, slots, key, deeper),
    decreases depth,
{
    if !slots.contains_key(key) {
        assert forall|j: int| 0 <= j < rules[key].deps@.len() implies buildable(
            rules,
            slots,
            #[trigger] rules[key].deps@[j],
            (deeper - 1) as nat,
        ) by {
            lemma_buildable_monotone(
                rules,
                slots,
                rules[key].deps@[j],
                (depth - 1) as nat,
                (deeper - 1) as nat,
            );
        }
    }
}

/// `depth` is the length of the shortest chain that builds the component.
pub open spec fn shortest<T, F>(rules: Rules<F>, slots: Slots<T, F>, key: u64, depth: nat) -> bool {
    &&& buildable(rules, slots, key, depth)
    &&& forall|less: nat| less < depth ==> !buildable(rules, slots, key, less)
}

/// The length of the shortest chain that builds the component, where there is
/// one.
pub open spec fn height<T, F>(rules: Rules<F>, slots: Slots<T, F>, key: u64) -> nat {
    choose|depth: nat| shortest(rules, slots, key, depth)
}

/// A component that can be built has a shortest chain, and none is shorter.
pub proof fn lemma_height<T, F>(rules: Rules<F>, slots: Slots<T, F>, key: u64, depth: nat)
    requires
        buildable(rules, slots, key, depth),
    ensures
        shortest(rules, slots, key, height(rules, slots, key)),
        height(rules, slots, key) <= depth,
    decreases depth,
{
    if depth > 0 && buildable(rules, slots, key, (depth - 1) as nat) {
        lemma_height(rules, slots, key, (depth - 1) as nat);
    } else {
        assert forall|less: nat| less < depth implies !buildable(rules, slots, key, less) by {
            if buildable(rules, slots, key, less) {
                lemma_buildable_monotone(rules, slots, key, less, (depth - 1) as nat);
            }
        }
        assert(shortest(rules, slots, key, depth));
    }
}

/// The components that some chain builds.
pub open spec fn reachable<T, F>(rules: Rules<F>, slots: Slots<T, F>) -> Set<u64> {
    Set::new(|key: u64| exists|depth: nat| buildable(rules, slots, key, depth))
}

/// Components that can each be built can all be built by chains of one length.
pub proof fn lemma_common_depth<T, F>(
    rules: Rules<F>,
    slots: Slots<T, F>,
    deps: Seq<u64>,
    upto: nat,
) -> (depth: nat)
    requires
        upto <= deps.len(),
        forall|j: int| 0 <= j < upto ==> reachable(rules, slots).contains(#[trigger] deps[j]),
    ensures
        forall|j: int| 0 <= j < upto ==> buildable(rules, slots, #[trigger] deps[j], depth),
    decreases upto,
{
    if upto == 0 {
        0
    } else {
        let before = lemma_common_depth(rules, slots, deps, (upto - 1) as nat);
        let last = deps[upto - 1];
        let own = choose|depth: nat| buildable(rules, slots, last, depth);
        let depth = if before <= own {
            own
        } else {
            before
        };
        assert forall|j: int| 0 <= j < upto implies buildable(
            rules,
            slots,
            #[trigger] deps[j],
            depth,
        ) by {
            if j < upto - 1 {
                lemma_buildable_monotone(rules, slots, deps[j], before, depth);
            } else {
                lemma_buildable_monotone(rules, slots, deps[j], own, depth);
            }
        }
        depth
    }
}

/// The components that no chain builds cannot be built: they are stuck.
pub proof fn lemma_unreachable_is_stuck<T, F>(rules: Rules<F>, slots: Slots<T, F>)
    ensures
        all_stuck(rules, slots, reachable(rules, slots).complement()),
{
    let rest = reachable(rules, slots).complement();
    assert forall|key: u64| rest.contains(key) implies #[trigger] stuck_at(
        rules,
        slots,
        rest,
        key,
    ) by {
        assert(!buildable(rules, slots, key, 0));
        if !slots.contains_key(key) && rules.contains_key(key) {
            let deps = rules[key].deps@;
            if forall|j: int| 0 <= j < deps.len() ==> !rest.contains(#[trigger] deps[j]) {
                let depth = lemma_common_depth(rules, slots, deps, deps.len());
                assert(buildable(rules, slots, key, depth + 1));
            }
        }
    }
}

/// When success is owed: a request for a component succeeds exactly when some
/// chain of recipes builds the component, from ready slots alone, through no
/// slot that is resolving and no component without a recipe; it fails exactly
/// when the component belongs to a set of components that cannot be built.
pub proof fn law_request_succeeds_exactly_when_buildable<T, F: Callable<Vec<Arc<T>>, T>>(
    rules: Rules<F>,
    slots: Slots<T, F>,
    key: u64,
)
    requires
        rules.dom().finite(),
    ensures
        resolved(rules, slots, key).1 is Ok <==> exists|depth: nat|
            buildable(rules, slots, key, depth),
        resolved(rules, slots, key).1 is Err <==> exists|stuck: Set<u64>|
            all_stuck(rules, slots, stuck) && stuck.contains(key),
        injected(rules, slots, key).1 is Ok <==> rules.contains_key(key) && exists|depth: nat|
            buildable(rules, slots, key, depth),
{
    let scope = reachable(rules, slots);
    let rank = |other: u64| height(rules, slots, other);
    if scope.contains(key) {
        assert forall|other: u64, j: int|
            scope.contains(other) && !is_ready(slots, other) && 0 <= j < rules[other].deps@.len() implies scope.contains(
            #[trigger] rules[other].deps@[j],
        ) && rank(rules[other].deps@[j]) < rank(other) by {
            let depth = choose|depth: nat| buildable(rules, slots, other, depth);
            lemma_height(rules, slots, other, depth);
            let least = height(rules, slots, other);
            let dep = rules[other].deps@[j];
            lemma_height(rules, slots, dep, (least - 1) as nat);
        }
        law_acyclic_request_succeeds(rules, slots, scope, rank, key);
        if exists|stuck: Set<u64>| all_stuck(rules, slots, stuck) && stuck.contains(key) {
            let stuck = choose|stuck: Set<u64>| all_stuck(rules, slots, stuck) && stuck.contains(key);
            law_stuck_components_fail(rules, slots, stuck, key);
        }
    } else {
        lemma_unreachable_is_stuck(rules, slots);
        let rest = scope.complement();
        law_stuck_components_fail(rules, slots, rest, key);
    }
}

} // verus!
