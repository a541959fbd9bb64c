//! What holds of every resolution, proved from the definitions: cached
//! providers are final, singletons are shared, on-demand instances share their
//! dependencies, overrides are served or refused, and delegation changes
//! nothing.

use crate::inject::{injected, seeded};
use crate::module::{closed, delegates, Rules, Scope};
use crate::provide::{Callable, Provide, Provider, SingletonProvider, TupleProvider};
use crate::registry::{is_ready, Slots, TypeMapEntry, WiringError};
use crate::resolve::{
    assemble, keeps, lemma_keeps_grows, lemma_resolved_keeps, lemma_tuple_resolved_keeps,
    lemma_unbooked_book, lemma_unbooked_grow, resolved, slot_kept, tuple_resolved, unbooked,
};
use std::sync::Arc;
use vstd::prelude::*;

verus! {

/// A cached provider is final: once the slot of a component is ready, every
/// request in every later state of the registry is answered by that provider,
/// and changes nothing.
pub proof fn law_ready_slot_answers<T, F: Callable<Vec<Arc<T>>, T>>(
    rules: Rules<F>,
    slots: Slots<T, F>,
    later: Slots<T, F>,
    key: u64,
    provider: Arc<Provider<T, F>>,
)
    requires
        rules.dom().finite(),
        rules.contains_key(key),
        slots.get(key) == Some(TypeMapEntry::Ready(provider)),
        keeps(slots, later),
    ensures
        resolved(rules, later, key) == (later, Ok::<_, WiringError>(provider)),
        injected(rules, later, key) == (later, Ok::<_, WiringError>(provider.provided())),
{
    assert(slot_kept(slots, later, key));
}

/// Every operation of an injector keeps the slots: a request, whatever its
/// outcome, and an override, accepted or refused.
pub proof fn law_operations_keep_slots<T, F: Callable<Vec<Arc<T>>, T>>(
    rules: Rules<F>,
    slots: Slots<T, F>,
    key: u64,
    provider: Arc<Provider<T, F>>,
)
    requires
        rules.dom().finite(),
    ensures
        keeps(slots, injected(rules, slots, key).0),
        keeps(slots, seeded(rules, slots, key, provider).0),
{
    lemma_resolved_keeps(rules, slots, key);
}

/// Singleton identity: when a request for a singleton component builds it, its
/// slot caches the one shared instance, and every later request on the same
/// injector yields that same instance and changes nothing.
pub proof fn law_singleton_identity<T, F: Callable<Vec<Arc<T>>, T>>(
    rules: Rules<F>,
    slots: Slots<T, F>,
    later: Slots<T, F>,
    key: u64,
)
    requires
        rules.dom().finite(),
        rules.contains_key(key),
        rules[key].scope == Scope::Singleton,
        !slots.contains_key(key),
        injected(rules, slots, key).1 is Ok,
        keeps(injected(rules, slots, key).0, later),
    ensures
        injected(rules, slots, key).0[key] == TypeMapEntry::Ready(
            Arc::new(Provider::<T, F>::Singleton(SingletonProvider(injected(rules, slots, key).1->Ok_0))),
        ),
        injected(rules, later, key) == (later, injected(rules, slots, key).1),
{
    let provider = resolved(rules, slots, key).1->Ok_0;
    law_ready_slot_answers(rules, resolved(rules, slots, key).0, later, key, provider);
}

/// On-demand instances share their dependencies: the provider that is built
/// for an on-demand component is a factory over the very providers that the
/// slots of its dependencies cache. Every request, the first and each later one,
/// constructs its instance from what those cached providers yield, so a
/// dependency that is a singleton is the same instance in all of them.
pub proof fn law_instances_share_dependencies<T, F: Callable<Vec<Arc<T>>, T>>(
    rules: Rules<F>,
    slots: Slots<T, F>,
    later: Slots<T, F>,
    key: u64,
)
    requires
        rules.dom().finite(),
        rules.contains_key(key),
        rules[key].scope == Scope::Instance,
        !slots.contains_key(key),
        resolved(rules, slots, key).1 is Ok,
        keeps(resolved(rules, slots, key).0, later),
    ensures
        ({
            let (after, outcome) = resolved(rules, slots, key);
            let deps = rules[key].deps@;
            &&& *(outcome->Ok_0) matches Provider::Factory(factory)
            &&& factory.constructor == rules[key].constructor
            &&& factory.provider.len() == deps.len()
            &&& forall|i: int|
                0 <= i < deps.len() ==> {
                    &&& later.get(#[trigger] deps[i]) == Some(
                        TypeMapEntry::Ready(factory.provider.providers()[i]),
                    )
                    &&& factory.provider.provided()[i] == factory.provider.providers()[i].provided()
                    &&& injected(rules, later, deps[i]).1 is Ok ==> injected(rules, later, deps[i]).1
                        == Ok::<_, WiringError>(factory.provider.provided()[i])
                }
            &&& injected(rules, later, key) == (
                later,
                Ok::<_, WiringError>(
                    Arc::new(rules[key].constructor.output(factory.provider.provided())),
                ),
            )
        }),
{
    let (after, outcome) = resolved(rules, slots, key);
    let recipe = rules[key];
    let deps = recipe.deps@;
    let booked = slots.insert(key, TypeMapEntry::Resolving);
    let (inner, dependencies) = tuple_resolved(rules, booked, deps, 0);
    let tuple = dependencies->Ok_0;
    lemma_tuple_resolved_keeps(rules, booked, deps, 0);
    tuple.lemma_provided();
    law_ready_slot_answers(rules, after, later, key, outcome->Ok_0);
    assert(slot_kept(booked, inner, key));
    assert forall|i: int| 0 <= i < deps.len() implies {
        &&& later.get(#[trigger] deps[i]) == Some(TypeMapEntry::Ready(tuple.providers()[i]))
        &&& tuple.provided()[i] == tuple.providers()[i].provided()
        &&& injected(rules, later, deps[i]).1 is Ok ==> injected(rules, later, deps[i]).1 == Ok::<
            _,
            WiringError,
        >(tuple.provided()[i])
    } by {
        assert(deps[0 + i] == deps[i]);
        assert(slot_kept(after, later, deps[i]));
    }
}

/// The slot of `key` is ready and holds what the recipe of `key` yields from
/// the providers that the slots of its dependencies cache.
pub open spec fn follows_recipe<T, F: Callable<Vec<Arc<T>>, T>>(
    rules: Rules<F>,
    slots: Slots<T, F>,
    key: u64,
) -> bool {
    &&& rules.contains_key(key)
    &&& exists|dependencies: TupleProvider<T, F>| #[trigger]
        built_from(rules, slots, key, dependencies)
}

/// The slot of `key` holds what its recipe yields from `dependencies`, and those
/// are, in order, the providers that the slots of its dependencies cache.
pub open spec fn built_from<T, F: Callable<Vec<Arc<T>>, T>>(
    rules: Rules<F>,
    slots: Slots<T, F>,
    key: u64,
    dependencies: TupleProvider<T, F>,
) -> bool {
    &&& slots.get(key) == Some(TypeMapEntry::Ready(Arc::new(assemble(rules[key], dependencies))))
    &&& dependencies.providers().len() == rules[key].deps@.len()
    &&& forall|i: int|
        0 <= i < rules[key].deps@.len() ==> slots.get(#[trigger] rules[key].deps@[i]) == Some(
            TypeMapEntry::Ready(dependencies.providers()[i]),
        )
}

/// A slot that follows its recipe goes on doing so while slots are kept.
pub proof fn lemma_follows_recipe_kept<T, F: Callable<Vec<Arc<T>>, T>>(
    rules: Rules<F>,
    slots: Slots<T, F>,
    later: Slots<T, F>,
    key: u64,
)
    requires
        follows_recipe(rules, slots, key),
        forall|other: u64| is_ready(slots, other) ==> later.get(other) == slots.get(other),
    ensures
        follows_recipe(rules, later, key),
{
    let dependencies = choose|dependencies: TupleProvider<T, F>| #[trigger]
        built_from(rules, slots, key, dependencies);
    assert(built_from(rules, later, key, dependencies));
}

/// What a resolution caches: every slot that it fills, that of the requested
/// component and those of the components built on the way, follows its recipe.
pub proof fn law_new_slots_follow_recipes<T, F: Callable<Vec<Arc<T>>, T>>(
    rules: Rules<F>,
    slots: Slots<T, F>,
    key: u64,
)
    requires
        rules.dom().finite(),
    ensures
        forall|other: u64|
            !slots.contains_key(other) && #[trigger] resolved(rules, slots, key).0.contains_key(
                other,
            ) ==> follows_recipe(rules, resolved(rules, slots, key).0, other),
    decreases unbooked(rules, slots), 0nat,
{
    let after = resolved(rules, slots, key).0;
    if !slots.contains_key(key) && rules.contains_key(key) {
        let recipe = rules[key];
        let booked = slots.insert(key, TypeMapEntry::Resolving);
        lemma_unbooked_book(rules, slots, key, TypeMapEntry::Resolving);
        lemma_new_slots_follow_recipes_list(rules, booked, recipe.deps@, 0);
        lemma_tuple_resolved_keeps(rules, booked, recipe.deps@, 0);
        let (inner, dependencies) = tuple_resolved(rules, booked, recipe.deps@, 0);
        assert(slot_kept(booked, inner, key));
        assert forall|other: u64|
            !slots.contains_key(other) && #[trigger] after.contains_key(other) implies follows_recipe(
            rules,
            after,
            other,
        ) by {
            if other == key {
                let tuple = dependencies->Ok_0;
                assert forall|i: int| 0 <= i < recipe.deps@.len() implies after.get(
                    #[trigger] recipe.deps@[i],
                ) == Some(TypeMapEntry::Ready(tuple.providers()[i])) by {
                    assert(recipe.deps@[0 + i] == recipe.deps@[i]);
                    assert(inner.get(recipe.deps@[i]) == Some(
                        TypeMapEntry::Ready(tuple.providers()[i]),
                    ));
                }
                assert(built_from(rules, after, key, tuple));
            } else {
                lemma_follows_recipe_kept(rules, inner, after, other);
            }
        }
    }
}

/// The same for a list of components.
pub proof fn lemma_new_slots_follow_recipes_list<T, F: Callable<Vec<Arc<T>>, T>>(
    rules: Rules<F>,
    slots: Slots<T, F>,
    deps: Seq<u64>,
    from: nat,
)
    requires
        rules.dom().finite(),
        from <= deps.len(),
    ensures
        forall|other: u64|
            !slots.contains_key(other) && #[trigger] tuple_resolved(
                rules,
                slots,
                deps,
                from,
            ).0.contains_key(other) ==> follows_recipe(
                rules,
                tuple_resolved(rules, slots, deps, from).0,
                other,
            ),
    decreases unbooked(rules, slots), deps.len() - from + 1,
{
    if from < deps.len() {
        let (after_first, first) = resolved(rules, slots, deps[from as int]);
        law_new_slots_follow_recipes(rules, slots, deps[from as int]);
        if first is Ok {
            lemma_resolved_keeps(rules, slots, deps[from as int]);
            lemma_keeps_grows(slots, after_first);
            lemma_unbooked_grow(rules, slots, after_first);
            lemma_new_slots_follow_recipes_list(rules, after_first, deps, from + 1);
            lemma_tuple_resolved_keeps(rules, after_first, deps, from + 1);
            let after = tuple_resolved(rules, slots, deps, from).0;
            assert forall|other: u64|
                !slots.contains_key(other) && #[trigger] after.contains_key(
                    other,
                ) implies follows_recipe(rules, after, other) by {
                if after_first.contains_key(other) {
                    assert forall|any: u64| is_ready(after_first, any) implies after.get(any)
                        == after_first.get(any) by {
                        assert(slot_kept(after_first, after, any));
                    }
                    lemma_follows_recipe_kept(rules, after_first, after, other);
                }
            }
        }
    }
}

/// Early seed accepted: an override of a component that has a recipe and an
/// empty slot succeeds, and every later request for the component yields what
/// the seeded provider yields, and changes nothing.
pub proof fn law_early_seed_is_served<T, F: Callable<Vec<Arc<T>>, T>>(
    rules: Rules<F>,
    slots: Slots<T, F>,
    later: Slots<T, F>,
    key: u64,
    provider: Arc<Provider<T, F>>,
)
    requires
        rules.dom().finite(),
        rules.contains_key(key),
        !slots.contains_key(key),
        keeps(seeded(rules, slots, key, provider).0, later),
    ensures
        seeded(rules, slots, key, provider).1 == Ok::<(), WiringError>(()),
        injected(rules, later, key) == (later, Ok::<_, WiringError>(provider.provided())),
{
    law_ready_slot_answers(rules, seeded(rules, slots, key, provider).0, later, key, provider);
}

/// Late seed rejected: once a request for a component has succeeded, an override
/// of it fails with `AlreadyResolved` in every later state, and changes nothing.
pub proof fn law_late_seed_is_rejected<T, F: Callable<Vec<Arc<T>>, T>>(
    rules: Rules<F>,
    slots: Slots<T, F>,
    later: Slots<T, F>,
    key: u64,
    provider: Arc<Provider<T, F>>,
)
    requires
        rules.dom().finite(),
        injected(rules, slots, key).1 is Ok,
        keeps(injected(rules, slots, key).0, later),
    ensures
        seeded(rules, later, key, provider) == (
            later,
            Err::<(), WiringError>(WiringError::AlreadyResolved),
        ),
{
    assert(slot_kept(injected(rules, slots, key).0, later, key));
}

/// Delegation equivalence: resolving a component of a closed inner module
/// through an outer module that delegates to it gives the same slots and the
/// same outcome as resolving it against the inner module directly.
pub proof fn law_delegation_equivalence<T, F: Callable<Vec<Arc<T>>, T>>(
    outer: Rules<F>,
    inner: Rules<F>,
    slots: Slots<T, F>,
    key: u64,
)
    requires
        outer.dom().finite(),
        inner.dom().finite(),
        closed(inner),
        delegates(outer, inner),
        inner.contains_key(key),
    ensures
        resolved(outer, slots, key) == resolved(inner, slots, key),
        injected(outer, slots, key) == injected(inner, slots, key),
    decreases unbooked(inner, slots), 0nat,
{
    assert(outer[key] == inner[key]);
    if !slots.contains_key(key) {
        let recipe = inner[key];
        let booked = slots.insert(key, TypeMapEntry::Resolving);
        lemma_unbooked_book(inner, slots, key, TypeMapEntry::Resolving);
        lemma_delegation_equivalence_list(outer, inner, booked, recipe.deps@, 0);
    }
}

/// The same for a list of components of the inner module.
pub proof fn lemma_delegation_equivalence_list<T, F: Callable<Vec<Arc<T>>, T>>(
    outer: Rules<F>,
    inner: Rules<F>,
    slots: Slots<T, F>,
    deps: Seq<u64>,
    from: nat,
)
    requires
        outer.dom().finite(),
        inner.dom().finite(),
        closed(inner),
        delegates(outer, inner),
        from <= deps.len(),
        forall|j: int| from <= j < deps.len() ==> inner.contains_key(#[trigger] deps[j]),
    ensures
        tuple_resolved(outer, slots, deps, from) == tuple_resolved(inner, slots, deps, from),
    decreases unbooked(inner, slots), deps.len() - from + 1,
{
    if from < deps.len() {
        let (after_first, first) = resolved(inner, slots, deps[from as int]);
        law_delegation_equivalence(outer, inner, slots, deps[from as int]);
        if first is Ok {
            lemma_resolved_keeps(inner, slots, deps[from as int]);
            lemma_keeps_grows(slots, after_first);
            lemma_unbooked_grow(inner, slots, after_first);
            lemma_delegation_equivalence_list(outer, inner, after_first, deps, from + 1);
        }
    }
}

} // verus!
