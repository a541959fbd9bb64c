//! Resolution: building the provider of a component, depth first.
//!
//! `resolved` says what resolving one component does to the slots of a registry
//! and which provider or error comes back. The registry's `resolve_with` computes
//! exactly that. A component whose slot is ready is answered from the cache. One
//! whose slot is resolving is being built further up the same chain, which is a
//! cyclic dependency. An empty slot is booked, the components that the recipe
//! takes are resolved left to right, and the slot is bound to the new provider.
//! When a build fails, its booking is given up: the slot is empty again, so a
//! later attempt starts afresh, while the providers that were completed on the
//! way stay cached.

use crate::module::{accepting, accepts_each, fits, Recipe, ResolverModule, Rules, Scope};
use crate::provide::{
    share, Callable, FactoryProvider, Provide, Provider, SingletonProvider, TupleProvider,
};
use crate::registry::{
    is_ready, is_resolving, Slots, TypeMap, TypeMapContent, TypeMapEntry, WiringError,
};
use std::sync::Arc;
use vstd::prelude::*;

verus! {

/// The number of recipes whose component has an empty slot. Each booking lowers
/// it, which bounds the depth of a resolution.
pub open spec fn unbooked<T, F>(rules: Rules<F>, slots: Slots<T, F>) -> nat {
    rules.dom().difference(slots.dom()).len()
}

/// Booking the empty slot of a declared component lowers the measure.
pub proof fn lemma_unbooked_book<T, F>(
    rules: Rules<F>,
    slots: Slots<T, F>,
    key: u64,
    entry: TypeMapEntry<T, F>,
)
    requires
        rules.dom().finite(),
        rules.contains_key(key),
        !slots.contains_key(key),
    ensures
        unbooked(rules, slots.insert(key, entry)) < unbooked(rules, slots),
{
    let open = rules.dom().difference(slots.dom());
    assert(rules.dom().difference(slots.insert(key, entry).dom()) =~= open.remove(key));
}

/// Slots that keep every key they had leave the measure as it was or lower.
pub proof fn lemma_unbooked_grow<T, F>(rules: Rules<F>, slots: Slots<T, F>, later: Slots<T, F>)
    requires
        rules.dom().finite(),
        slots.dom().subset_of(later.dom()),
    ensures
        unbooked(rules, later) <= unbooked(rules, slots),
{
    vstd::set_lib::lemma_len_subset(
        rules.dom().difference(later.dom()),
        rules.dom().difference(slots.dom()),
    );
}

/// The provider that a recipe yields once the providers of its dependencies are
/// known: a singleton is constructed at once, from the instances that they yield
/// now; a factory keeps them and constructs on each request.
pub open spec fn assemble<T, F: Callable<Vec<Arc<T>>, T>>(
    recipe: Recipe<F>,
    dependencies: TupleProvider<T, F>,
) -> Provider<T, F> {
    match recipe.scope {
        Scope::Singleton => Provider::Singleton(
            SingletonProvider(Arc::new(recipe.constructor.output(dependencies.provided()))),
        ),
        Scope::Instance => Provider::Factory(
            FactoryProvider { provider: dependencies, constructor: recipe.constructor },
        ),
    }
}

/// The slots after resolving `key`, and the provider or the error that the
/// resolution returns.
pub open spec fn resolved<T, F: Callable<Vec<Arc<T>>, T>>(
    rules: Rules<F>,
    slots: Slots<T, F>,
    key: u64,
) -> (Slots<T, F>, Result<Arc<Provider<T, F>>, WiringError>)
    decreases unbooked(rules, slots), 0nat,
    when rules.dom().finite()
{
    match slots.get(key) {
        Some(TypeMapEntry::Ready(provider)) => (slots, Ok(provider)),
        Some(TypeMapEntry::Resolving) => (slots, Err(WiringError::CyclicResolution)),
        None => match rules.get(key) {
            None => (slots, Err(WiringError::UnresolvableType)),
            Some(recipe) => {
                let booked = slots.insert(key, TypeMapEntry::Resolving);
                proof {
                    lemma_unbooked_book(rules, slots, key, TypeMapEntry::Resolving);
                }
                let (after, dependencies) = tuple_resolved(rules, booked, recipe.deps@, 0);
                match dependencies {
                    Err(error) => (after.remove(key), Err(error)),
                    Ok(tuple) => {
                        let provider = Arc::new(assemble(recipe, tuple));
                        (after.insert(key, TypeMapEntry::Ready(provider)), Ok(provider))
                    },
                }
            },
        },
    }
}

/// The slots after resolving the components `deps[from..]` left to right, and the
/// list of their providers, or the error of the first that fails.
pub open spec fn tuple_resolved<T, F: Callable<Vec<Arc<T>>, T>>(
    rules: Rules<F>,
    slots: Slots<T, F>,
    deps: Seq<u64>,
    from: nat,
) -> (Slots<T, F>, Result<TupleProvider<T, F>, WiringError>)
    decreases unbooked(rules, slots), deps.len() - from + 1,
    when rules.dom().finite()
{
    if from >= deps.len() {
        (slots, Ok(TupleProvider::Unit))
    } else {
        let (after_first, first) = resolved(rules, slots, deps[from as int]);
        match first {
            Err(error) => (after_first, Err(error)),
            Ok(provider) => {
                // A resolution never empties a slot that was occupied, so the
                // union is `after_first`; written so, the measure is plain.
                let kept = slots.union_prefer_right(after_first);
                proof {
                    lemma_unbooked_grow(rules, slots, kept);
                }
                let (after, rest) = tuple_resolved(rules, kept, deps, from + 1);
                match rest {
                    Err(error) => (after, Err(error)),
                    Ok(tail) => (after, Ok(TupleProvider::Pair(provider, Box::new(tail)))),
                }
            },
        }
    }
}

/// One slot after a resolution, against the same slot before: a ready slot is
/// as it was, a resolving slot is still resolving, and an empty slot is empty or
/// ready.
pub open spec fn slot_kept<T, F>(before: Slots<T, F>, after: Slots<T, F>, key: u64) -> bool {
    match before.get(key) {
        Some(TypeMapEntry::Ready(_)) => after.get(key) == before.get(key),
        Some(TypeMapEntry::Resolving) => is_resolving(after, key),
        None => !after.contains_key(key) || is_ready(after, key),
    }
}

/// Every slot is kept.
pub open spec fn keeps<T, F>(before: Slots<T, F>, after: Slots<T, F>) -> bool {
    forall|key: u64| #[trigger] slot_kept(before, after, key)
}

/// Slots that are kept lose no key.
pub proof fn lemma_keeps_grows<T, F>(before: Slots<T, F>, after: Slots<T, F>)
    requires
        keeps(before, after),
    ensures
        before.dom().subset_of(after.dom()),
        before.union_prefer_right(after) == after,
{
    assert forall|key: u64| before.contains_key(key) implies after.contains_key(key) by {
        assert(slot_kept(before, after, key));
    }
}

/// Keeping is transitive.
pub proof fn lemma_keeps_transitive<T, F>(
    first: Slots<T, F>,
    second: Slots<T, F>,
    third: Slots<T, F>,
)
    requires
        keeps(first, second),
        keeps(second, third),
    ensures
        keeps(first, third),
{
    assert forall|key: u64| #[trigger] slot_kept(first, third, key) by {
        assert(slot_kept(first, second, key));
        assert(slot_kept(second, third, key));
    }
}

/// A resolution keeps every slot. When it succeeds, the slot of `key` is ready
/// and holds the provider that is returned; when it fails, the slot of `key` is
/// as it was.
pub proof fn lemma_resolved_keeps<T, F: Callable<Vec<Arc<T>>, T>>(
    rules: Rules<F>,
    slots: Slots<T, F>,
    key: u64,
)
    requires
        rules.dom().finite(),
    ensures
        keeps(slots, resolved(rules, slots, key).0),
        resolved(rules, slots, key).1 matches Ok(provider) ==> resolved(rules, slots, key).0.get(
            key,
        ) == Some(TypeMapEntry::Ready(provider)),
        resolved(rules, slots, key).1 is Err ==> resolved(rules, slots, key).0.get(key)
            == slots.get(key),
    decreases unbooked(rules, slots), 0nat,
{
    let after = resolved(rules, slots, key).0;
    if !slots.contains_key(key) && rules.contains_key(key) {
        let recipe = rules[key];
        let booked = slots.insert(key, TypeMapEntry::Resolving);
        lemma_unbooked_book(rules, slots, key, TypeMapEntry::Resolving);
        lemma_tuple_resolved_keeps(rules, booked, recipe.deps@, 0);
        let inner = tuple_resolved(rules, booked, recipe.deps@, 0).0;
        assert forall|other: u64| #[trigger] slot_kept(slots, after, other) by {
            assert(slot_kept(booked, inner, other));
        }
    }
}

/// Resolving a list of components keeps every slot. When it succeeds, the list
/// that is returned holds, for each component in turn, the provider that its
/// slot caches.
pub proof fn lemma_tuple_resolved_keeps<T, F: Callable<Vec<Arc<T>>, T>>(
    rules: Rules<F>,
    slots: Slots<T, F>,
    deps: Seq<u64>,
    from: nat,
)
    requires
        rules.dom().finite(),
        from <= deps.len(),
    ensures
        keeps(slots, tuple_resolved(rules, slots, deps, from).0),
        tuple_resolved(rules, slots, deps, from).1 matches Ok(tuple) ==> {
            &&& tuple.providers().len() == deps.len() - from
            &&& forall|i: int|
                0 <= i < deps.len() - from ==> tuple_resolved(rules, slots, deps, from).0.get(
                    #[trigger] deps[from + i],
                ) == Some(TypeMapEntry::Ready(tuple.providers()[i]))
        },
    decreases unbooked(rules, slots), deps.len() - from + 1,
{
    let (after, outcome) = tuple_resolved(rules, slots, deps, from);
    if from < deps.len() {
        let (after_first, first) = resolved(rules, slots, deps[from as int]);
        lemma_resolved_keeps(rules, slots, deps[from as int]);
        if let Ok(provider) = first {
            lemma_keeps_grows(slots, after_first);
            lemma_unbooked_grow(rules, slots, after_first);
            lemma_tuple_resolved_keeps(rules, after_first, deps, from + 1);
            lemma_keeps_transitive(slots, after_first, after);
            if let Ok(tuple) = outcome {
                assert forall|i: int| 0 <= i < deps.len() - from implies after.get(
                    #[trigger] deps[from + i],
                ) == Some(TypeMapEntry::Ready(tuple.providers()[i])) by {
                    if i == 0 {
                        assert(slot_kept(after_first, after, deps[from as int]));
                    } else {
                        assert(deps[(from + 1) + (i - 1)] == deps[from + i]);
                    }
                }
            }
        }
    }
}

/// Every cached provider can be asked.
pub open spec fn usable_slots<T, F: Callable<Vec<Arc<T>>, T>>(slots: Slots<T, F>) -> bool {
    forall|key: u64|
        slots.contains_key(key) ==> (#[trigger] slots[key] matches TypeMapEntry::Ready(provider)
            ==> provider.usable())
}

/// With recipes that fit, a resolution caches and returns only providers that
/// can be asked.
pub proof fn lemma_resolved_usable<T, F: Callable<Vec<Arc<T>>, T>>(
    rules: Rules<F>,
    slots: Slots<T, F>,
    key: u64,
)
    requires
        rules.dom().finite(),
        accepting::<T, F>(rules),
        usable_slots(slots),
    ensures
        usable_slots(resolved(rules, slots, key).0),
        resolved(rules, slots, key).1 matches Ok(provider) ==> provider.usable(),
    decreases unbooked(rules, slots), 0nat,
{
    if !slots.contains_key(key) && rules.contains_key(key) {
        let recipe = rules[key];
        let booked = slots.insert(key, TypeMapEntry::Resolving);
        lemma_unbooked_book(rules, slots, key, TypeMapEntry::Resolving);
        lemma_tuple_resolved_usable(rules, booked, recipe.deps@, 0);
        lemma_tuple_resolved_keeps(rules, booked, recipe.deps@, 0);
        let dependencies = tuple_resolved(rules, booked, recipe.deps@, 0).1;
        if let Ok(tuple) = dependencies {
            tuple.lemma_provided();
        }
    }
}

/// The same for a list of components.
pub proof fn lemma_tuple_resolved_usable<T, F: Callable<Vec<Arc<T>>, T>>(
    rules: Rules<F>,
    slots: Slots<T, F>,
    deps: Seq<u64>,
    from: nat,
)
    requires
        rules.dom().finite(),
        accepting::<T, F>(rules),
        usable_slots(slots),
        from <= deps.len(),
    ensures
        usable_slots(tuple_resolved(rules, slots, deps, from).0),
        tuple_resolved(rules, slots, deps, from).1 matches Ok(tuple) ==> tuple.usable(),
    decreases unbooked(rules, slots), deps.len() - from + 1,
{
    if from < deps.len() {
        let (after_first, first) = resolved(rules, slots, deps[from as int]);
        lemma_resolved_usable(rules, slots, deps[from as int]);
        if first is Ok {
            lemma_resolved_keeps(rules, slots, deps[from as int]);
            lemma_keeps_grows(slots, after_first);
            lemma_unbooked_grow(rules, slots, after_first);
            lemma_tuple_resolved_usable(rules, after_first, deps, from + 1);
        }
    }
}

/// Obtain a provider for a target component.
pub trait Resolve<T, F: Callable<Vec<Arc<T>>, T>>: Sized {
    /// The recipes that the resolver holds or reaches.
    spec fn rules(&self) -> Rules<F>;

    /// The resolver is fit for use.
    spec fn valid(&self) -> bool;

    /// Construct the provider of one recipe: a singleton is constructed at once
    /// from one instance of each component that the recipe takes; a factory
    /// keeps the providers of those components and constructs on each request.
    ///
    /// The registry calls this while it holds the booking of the recipe's
    /// component; it is not meant to be called directly.
    fn build_provider(&self, recipe: &Recipe<F>, injector: &mut TypeMap<T, F>) -> (outcome: Result<
        Provider<T, F>,
        WiringError,
    >)
        requires
            self.valid(),
            accepting::<T, F>(self.rules()),
            fits::<T, F>(*recipe),
            usable_slots(old(injector)@),
        ensures
            final(injector)@ == tuple_resolved(self.rules(), old(injector)@, recipe.deps@, 0).0,
            outcome == match tuple_resolved(self.rules(), old(injector)@, recipe.deps@, 0).1 {
                Ok(dependencies) => Ok(assemble(*recipe, dependencies)),
                Err(error) => Err(error),
            },
    ;
}

impl<T, F: Callable<Vec<Arc<T>>, T>> Resolve<T, F> for ResolverModule<F> {
    open spec fn rules(&self) -> Rules<F> {
        self@
    }

    open spec fn valid(&self) -> bool {
        self.wf()
    }

    fn build_provider(&self, recipe: &Recipe<F>, injector: &mut TypeMap<T, F>) -> (outcome: Result<
        Provider<T, F>,
        WiringError,
    >)
        decreases unbooked(self@, old(injector)@), recipe.deps@.len() + 4,
    {
        match recipe.scope {
            Scope::Singleton => match injector.inject_and_call(
                self,
                &recipe.deps,
                &recipe.constructor,
            ) {
                Ok(instance) => Ok(Provider::Singleton(SingletonProvider(Arc::new(instance)))),
                Err(error) => Err(error),
            },
            Scope::Instance => match injector.inject_provider(self, &recipe.deps) {
                Ok(dependencies) => Ok(
                    Provider::Factory(
                        FactoryProvider::new(dependencies, share(&recipe.constructor)),
                    ),
                ),
                Err(error) => Err(error),
            },
        }
    }
}

/// Generic collection of providers.
///
/// A map from component keys to providers, which relies on a resolver module to
/// build the providers that it does not hold yet.
pub trait ProviderMap<T, F: Callable<Vec<Arc<T>>, T>>: Sized {
    /// The state of every slot of the collection.
    spec fn slots(&self) -> Slots<T, F>;

    /// Obtain the provider of a component.
    ///
    /// If the provider is already cached, it is returned; otherwise the resolver
    /// module builds a new provider, which is cached and returned.
    fn resolve_with(&mut self, resolver: &ResolverModule<F>, key: u64) -> (outcome: Result<
        Arc<Provider<T, F>>,
        WiringError,
    >)
        requires
            resolver.wf(),
            accepting::<T, F>(resolver@),
            usable_slots(old(self).slots()),
        ensures
            (final(self).slots(), outcome) == resolved(resolver@, old(self).slots(), key),
    ;

    /// Call a function after injecting its parameters: the components `deps`
    /// are resolved left to right, and `f` receives one instance of each.
    fn inject_and_call(&mut self, resolver: &ResolverModule<F>, deps: &Vec<u64>, f: &F) -> (outcome:
        Result<T, WiringError>)
        requires
            resolver.wf(),
            accepting::<T, F>(resolver@),
            usable_slots(old(self).slots()),
            accepts_each::<T, F>(*f, deps@.len()),
        ensures
            final(self).slots() == tuple_resolved(resolver@, old(self).slots(), deps@, 0).0,
            outcome == match tuple_resolved(resolver@, old(self).slots(), deps@, 0).1 {
                Ok(dependencies) => Ok(f.output(dependencies.provided())),
                Err(error) => Err::<T, WiringError>(error),
            },
    ;

    /// Obtain a provider for the parameters of a constructor: the list of the
    /// providers of `deps`, each resolved through this collection.
    fn inject_provider(&mut self, resolver: &ResolverModule<F>, deps: &Vec<u64>) -> (outcome:
        Result<TupleProvider<T, F>, WiringError>)
        requires
            resolver.wf(),
            accepting::<T, F>(resolver@),
            usable_slots(old(self).slots()),
        ensures
            (final(self).slots(), outcome) == tuple_resolved(
                resolver@,
                old(self).slots(),
                deps@,
                0,
            ),
    ;
}

/// A list of components that a resolver module can resolve together, as the
/// parameters of one constructor.
pub trait Injectable<T, F: Callable<Vec<Arc<T>>, T>>: Sized {
    /// The components of the list, in order.
    spec fn keys(&self) -> Seq<u64>;

    /// Resolve each component in turn and ask its provider for an instance at
    /// once.
    fn inject(&self, resolver: &ResolverModule<F>, injector: &mut TypeMap<T, F>) -> (outcome:
        Result<Vec<Arc<T>>, WiringError>)
        requires
            resolver.wf(),
            accepting::<T, F>(resolver@),
            usable_slots(old(injector)@),
        ensures
            final(injector)@ == tuple_resolved(resolver@, old(injector)@, self.keys(), 0).0,
            match tuple_resolved(resolver@, old(injector)@, self.keys(), 0).1 {
                Ok(dependencies) => outcome matches Ok(instances) && instances@
                    == dependencies.provided(),
                Err(error) => outcome matches Err(same) && same == error,
            },
    ;

    /// Resolve each component in turn and keep the providers, so that instances
    /// can be asked for later, any number of times.
    fn provide(&self, resolver: &ResolverModule<F>, injector: &mut TypeMap<T, F>) -> (outcome:
        Result<TupleProvider<T, F>, WiringError>)
        requires
            resolver.wf(),
            accepting::<T, F>(resolver@),
            usable_slots(old(injector)@),
        ensures
            (final(injector)@, outcome) == tuple_resolved(
                resolver@,
                old(injector)@,
                self.keys(),
                0,
            ),
    ;
}

impl<T, F: Callable<Vec<Arc<T>>, T>> TypeMap<T, F> {
    /// Resolve the components `deps[from..]`, left to right, and add one
    /// instance of each to `instances`.
    fn inject_from(
        &mut self,
        resolver: &ResolverModule<F>,
        deps: &Vec<u64>,
        from: usize,
        instances: &mut Vec<Arc<T>>,
    ) -> (outcome: Result<(), WiringError>)
        requires
            resolver.wf(),
            accepting::<T, F>(resolver@),
            usable_slots(old(self)@),
            from <= deps.len(),
        ensures
            final(self)@ == tuple_resolved(resolver@, old(self)@, deps@, from as nat).0,
            match tuple_resolved(resolver@, old(self)@, deps@, from as nat).1 {
                Ok(dependencies) => outcome is Ok && final(instances)@ == old(instances)@
                    + dependencies.provided(),
                Err(error) => outcome matches Err(same) && same == error,
            },
        decreases unbooked(resolver@, old(self)@), deps.len() - from + 1,
    {
        proof {
            resolver.lemma_finite();
        }
        if from >= deps.len() {
            return Ok(());
        }
        let ghost before = self@;
        let ghost given = instances@;
        match self.resolve_with(resolver, deps[from]) {
            Err(error) => Err(error),
            Ok(provider) => {
                proof {
                    lemma_resolved_keeps(resolver@, before, deps@[from as int]);
                    lemma_resolved_usable(resolver@, before, deps@[from as int]);
                    lemma_keeps_grows(before, self@);
                    lemma_unbooked_grow(resolver@, before, self@);
                }
                let ghost rest = tuple_resolved(resolver@, self@, deps@, (from + 1) as nat).1;
                instances.push(provider.provide());
                let outcome = self.inject_from(resolver, deps, from + 1, instances);
                proof {
                    if let Ok(tail) = rest {
                        assert(given.push(provider.provided()) + tail.provided() =~= given + (
                        seq![provider.provided()] + tail.provided()));
                    }
                }
                outcome
            },
        }
    }

    /// Resolve the components `deps[from..]`, left to right, and list their
    /// providers.
    fn provide_from(&mut self, resolver: &ResolverModule<F>, deps: &Vec<u64>, from: usize) -> (outcome:
        Result<TupleProvider<T, F>, WiringError>)
        requires
            resolver.wf(),
            accepting::<T, F>(resolver@),
            usable_slots(old(self)@),
            from <= deps.len(),
        ensures
            (final(self)@, outcome) == tuple_resolved(resolver@, old(self)@, deps@, from as nat),
        decreases unbooked(resolver@, old(self)@), deps.len() - from + 1,
    {
        proof {
            resolver.lemma_finite();
        }
        if from >= deps.len() {
            return Ok(TupleProvider::Unit);
        }
        let ghost before = self@;
        match self.resolve_with(resolver, deps[from]) {
            Err(error) => Err(error),
            Ok(provider) => {
                proof {
                    lemma_resolved_keeps(resolver@, before, deps@[from as int]);
                    lemma_resolved_usable(resolver@, before, deps@[from as int]);
                    lemma_keeps_grows(before, self@);
                    lemma_unbooked_grow(resolver@, before, self@);
                }
                match self.provide_from(resolver, deps, from + 1) {
                    Err(error) => Err(error),
                    Ok(tail) => Ok(TupleProvider::Pair(provider, Box::new(tail))),
                }
            },
        }
    }
}

impl<T, F: Callable<Vec<Arc<T>>, T>> Injectable<T, F> for Vec<u64> {
    open spec fn keys(&self) -> Seq<u64> {
        self@
    }

    fn inject(&self, resolver: &ResolverModule<F>, injector: &mut TypeMap<T, F>) -> (outcome:
        Result<Vec<Arc<T>>, WiringError>)
        decreases unbooked(resolver@, old(injector)@), self.len() + 2,
    {
        let mut instances: Vec<Arc<T>> = Vec::new();
        match injector.inject_from(resolver, self, 0, &mut instances) {
            Ok(_) => {
                proof {
                    let dependencies = tuple_resolved(resolver@, old(injector)@, self@, 0).1->Ok_0;
                    assert(Seq::<Arc<T>>::empty() + dependencies.provided()
                        =~= dependencies.provided());
                }
                Ok(instances)
            },
            Err(error) => Err(error),
        }
    }

    fn provide(&self, resolver: &ResolverModule<F>, injector: &mut TypeMap<T, F>) -> (outcome:
        Result<TupleProvider<T, F>, WiringError>)
        decreases unbooked(resolver@, old(injector)@), self.len() + 2,
    {
        injector.provide_from(resolver, self, 0)
    }
}

impl<T, F: Callable<Vec<Arc<T>>, T>> ProviderMap<T, F> for TypeMap<T, F> {
    open spec fn slots(&self) -> Slots<T, F> {
        self@
    }

    fn resolve_with(&mut self, resolver: &ResolverModule<F>, key: u64) -> (outcome: Result<
        Arc<Provider<T, F>>,
        WiringError,
    >)
        decreases unbooked(resolver@, old(self)@), 0nat,
    {
        proof {
            resolver.lemma_finite();
        }
        match self.get(key) {
            TypeMapContent::Ready(cached) => {
                return Ok(share(cached));
            },
            TypeMapContent::Resolving => {
                return Err(WiringError::CyclicResolution);
            },
            TypeMapContent::Vacant => {},
        }
        let recipe = match resolver.find(key) {
            None => {
                return Err(WiringError::UnresolvableType);
            },
            Some(recipe) => recipe,
        };
        let ghost before = self@;
        let _ = self.set_if_vacant(key, TypeMapEntry::Resolving);
        let ghost booked = self@;
        proof {
            lemma_unbooked_book(resolver@, before, key, TypeMapEntry::Resolving);
            lemma_tuple_resolved_keeps(resolver@, booked, recipe.deps@, 0);
            assert(slot_kept(booked, tuple_resolved(resolver@, booked, recipe.deps@, 0).0, key));
        }
        match resolver.build_provider(recipe, self) {
            Err(error) => {
                self.release(key);
                Err(error)
            },
            Ok(provider) => {
                let handle = Arc::new(provider);
                self.set_if_resolving(key, TypeMapEntry::Ready(share(&handle)));
                Ok(handle)
            },
        }
    }

    fn inject_and_call(&mut self, resolver: &ResolverModule<F>, deps: &Vec<u64>, f: &F) -> (outcome:
        Result<T, WiringError>)
        decreases unbooked(resolver@, old(self)@), deps.len() + 3,
    {
        let ghost before = self@;
        match deps.inject(resolver, self) {
            Ok(instances) => {
                proof {
                    resolver.lemma_finite();
                    lemma_tuple_resolved_keeps(resolver@, before, deps@, 0);
                    tuple_resolved(resolver@, before, deps@, 0).1->Ok_0.lemma_provided();
                }
                Ok(f.call(instances))
            },
            Err(error) => Err(error),
        }
    }

    fn inject_provider(&mut self, resolver: &ResolverModule<F>, deps: &Vec<u64>) -> (outcome:
        Result<TupleProvider<T, F>, WiringError>)
        decreases unbooked(resolver@, old(self)@), deps.len() + 3,
    {
        deps.provide(resolver, self)
    }
}

} // verus!
