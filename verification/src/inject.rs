//! The injector: one registry paired with one root resolver module.
//!
//! Requests and overrides take the injector by exclusive reference. That
//! reference is the one boundary around the registry: a request holds it for
//! its whole duration, and every nested resolution runs on it, so no second
//! build of the same graph can be under way. Between two operations no slot is
//! resolving.

use crate::cycles::{buildable, law_request_succeeds_exactly_when_buildable};
use crate::module::{accepting, accepts_each, closed, ResolverModule, Rules};
use crate::provide::{Callable, Provide, Provider};
use crate::registry::{Slots, TypeMap, TypeMapEntry, WiringError};
use crate::resolve::{
    keeps, lemma_resolved_keeps, lemma_resolved_usable, lemma_tuple_resolved_keeps,
    lemma_tuple_resolved_usable, resolved, slot_kept, tuple_resolved, usable_slots, ProviderMap,
};
use std::sync::Arc;
use vstd::prelude::*;

verus! {

/// No slot is resolving: no build is under way.
pub open spec fn settled<T, F>(slots: Slots<T, F>) -> bool {
    forall|key: u64| #[trigger] slots.contains_key(key) ==> slots[key] is Ready
}

/// Kept slots stay settled.
pub proof fn lemma_keeps_settled<T, F>(before: Slots<T, F>, after: Slots<T, F>)
    requires
        settled(before),
        keeps(before, after),
    ensures
        settled(after),
{
    assert forall|key: u64| #[trigger] after.contains_key(key) implies after[key] is Ready by {
        assert(slot_kept(before, after, key));
    }
}

/// The slots after a request for one instance of `key`, and the instance or the
/// error that the request returns. A component without a recipe is refused
/// before the registry is looked at.
pub open spec fn injected<T, F: Callable<Vec<Arc<T>>, T>>(
    rules: Rules<F>,
    slots: Slots<T, F>,
    key: u64,
) -> (Slots<T, F>, Result<Arc<T>, WiringError>) {
    if !rules.contains_key(key) {
        (slots, Err(WiringError::UnresolvableType))
    } else {
        let (after, outcome) = resolved(rules, slots, key);
        (
            after,
            match outcome {
                Ok(provider) => Ok(provider.provided()),
                Err(error) => Err(error),
            },
        )
    }
}

/// The slots after an override of `key`, and its outcome: the component must
/// have a recipe, and its slot must be empty.
pub open spec fn seeded<T, F>(
    rules: Rules<F>,
    slots: Slots<T, F>,
    key: u64,
    provider: Arc<Provider<T, F>>,
) -> (Slots<T, F>, Result<(), WiringError>) {
    if !rules.contains_key(key) {
        (slots, Err(WiringError::UnresolvableType))
    } else if slots.contains_key(key) {
        (slots, Err(WiringError::AlreadyResolved))
    } else {
        (slots.insert(key, TypeMapEntry::Ready(provider)), Ok(()))
    }
}

/// Dependency injection registry.
///
/// This struct combines a registry of providers with a resolver module. It can
/// then resolve and inject every component that the module resolves.
pub struct Hanami<T, F> {
    tm: TypeMap<T, F>,
    resolver: ResolverModule<F>,
}

impl<T, F: Callable<Vec<Arc<T>>, T>> Hanami<T, F> {
    /// The state of every slot of the registry.
    pub closed spec fn slots(&self) -> Slots<T, F> {
        self.tm@
    }

    /// The recipes of the resolver module.
    pub closed spec fn rules(&self) -> Rules<F> {
        self.resolver@
    }

    /// The module is well formed and its recipes fit, the registry is at rest,
    /// and every cached provider can be asked.
    pub closed spec fn wf(&self) -> bool {
        &&& self.resolver.wf()
        &&& accepting::<T, F>(self.resolver@)
        &&& settled(self.tm@)
        &&& usable_slots(self.tm@)
    }

    /// What being well formed means for the recipes and the slots.
    pub proof fn lemma_wf(&self)
        requires
            self.wf(),
        ensures
            self.rules().dom().finite(),
            accepting::<T, F>(self.rules()),
            settled(self.slots()),
            usable_slots(self.slots()),
    {
        self.resolver.lemma_finite();
    }

    /// Pair an empty registry with a resolver module.
    pub fn new(resolver: ResolverModule<F>) -> (injector: Self)
        requires
            resolver.wf(),
            accepting::<T, F>(resolver@),
        ensures
            injector.wf(),
            injector.rules() == resolver@,
            injector.slots() == Slots::<T, F>::empty(),
    {
        Hanami { tm: TypeMap::new(), resolver }
    }

    /// Pair a registry with a resolver module after validating the assembly:
    /// a module in which some recipe takes a component without a recipe is
    /// refused here, before anything is resolved.
    pub fn validated(resolver: ResolverModule<F>) -> (outcome: Result<Self, WiringError>)
        requires
            resolver.wf(),
            accepting::<T, F>(resolver@),
        ensures
            outcome is Ok <==> closed(resolver@),
            outcome matches Ok(injector) ==> injector.wf() && injector.rules() == resolver@
                && injector.slots() == Slots::<T, F>::empty(),
            outcome matches Err(error) ==> error == WiringError::UnresolvableType,
    {
        match resolver.validate() {
            Ok(_) => Ok(Hanami::new(resolver)),
            Err(error) => Err(error),
        }
    }

    /// The root resolver module, for reading.
    pub fn get_resolver(&self) -> (resolver: &ResolverModule<F>)
        requires
            self.wf(),
        ensures
            resolver.wf(),
            resolver@ == self.rules(),
    {
        &self.resolver
    }

    /// Obtain an instance of the target component.
    ///
    /// The request succeeds exactly when the component has a recipe and can be
    /// built: its provider is then cached, and the instance is what that provider
    /// yields. Otherwise an error is returned, and the slot of the component is
    /// left as it was. Every other slot is kept: one that was ready is as it was,
    /// and one that was empty is empty or has been filled on the way.
    pub fn inject(&mut self, key: u64) -> (outcome: Result<Arc<T>, WiringError>)
        requires
            old(self).wf(),
        ensures
            final(self).wf(),
            final(self).rules() == old(self).rules(),
            (final(self).slots(), outcome) == injected(old(self).rules(), old(self).slots(), key),
            keeps(old(self).slots(), final(self).slots()),
            outcome is Ok <==> old(self).rules().contains_key(key) && exists|depth: nat|
                buildable(old(self).rules(), old(self).slots(), key, depth),
            outcome matches Ok(instance) ==> final(self).slots().get(key) matches Some(
                TypeMapEntry::Ready(provider),
            ) && instance == provider.provided(),
            outcome is Err ==> final(self).slots().get(key) == old(self).slots().get(key),
    {
        proof {
            self.resolver.lemma_finite();
            lemma_resolved_keeps(self.resolver@, self.tm@, key);
            law_request_succeeds_exactly_when_buildable(self.resolver@, self.tm@, key);
        }
        if !self.resolver.resolves(key) {
            assert forall|other: u64| #[trigger] slot_kept(self.tm@, self.tm@, other) by {}
            return Err(WiringError::UnresolvableType);
        }
        proof {
            self.resolver.lemma_finite();
            lemma_resolved_keeps(self.resolver@, self.tm@, key);
            lemma_resolved_usable(self.resolver@, self.tm@, key);
            lemma_keeps_settled(self.tm@, resolved(self.resolver@, self.tm@, key).0);
        }
        match self.tm.resolve_with(&self.resolver, key) {
            Ok(provider) => Ok(provider.provide()),
            Err(error) => Err(error),
        }
    }

    /// Override the provider for the target component.
    ///
    /// Return an error if the component has no recipe, or if it has already been
    /// resolved; the registry is then left as it was.
    pub fn set_provider(&mut self, key: u64, provider: Arc<Provider<T, F>>) -> (outcome: Result<
        (),
        WiringError,
    >)
        requires
            old(self).wf(),
            provider.usable(),
        ensures
            final(self).wf(),
            final(self).rules() == old(self).rules(),
            (final(self).slots(), outcome) == seeded(
                old(self).rules(),
                old(self).slots(),
                key,
                provider,
            ),
            keeps(old(self).slots(), final(self).slots()),
    {
        proof {
            assert forall|other: u64| #[trigger]
                slot_kept(
                    self.tm@,
                    seeded(self.resolver@, self.tm@, key, provider).0,
                    other,
                ) by {}
        }
        if !self.resolver.resolves(key) {
            return Err(WiringError::UnresolvableType);
        }
        if self.tm.get_provider(key).is_some() {
            return Err(WiringError::AlreadyResolved);
        }
        match self.tm.set_if_vacant(key, TypeMapEntry::Ready(provider)) {
            Ok(_) => Ok(()),
            Err(error) => Err(error),
        }
    }

    /// Call a function after injecting all its parameters: one instance of each
    /// component of `deps`, in order.
    pub fn inject_and_call(&mut self, deps: &Vec<u64>, f: &F) -> (outcome: Result<T, WiringError>)
        requires
            old(self).wf(),
            accepts_each::<T, F>(*f, deps@.len()),
        ensures
            final(self).wf(),
            final(self).rules() == old(self).rules(),
            final(self).slots() == tuple_resolved(old(self).rules(), old(self).slots(), deps@, 0).0,
            outcome == match tuple_resolved(old(self).rules(), old(self).slots(), deps@, 0).1 {
                Ok(dependencies) => Ok(f.output(dependencies.provided())),
                Err(error) => Err::<T, WiringError>(error),
            },
    {
        proof {
            self.resolver.lemma_finite();
            lemma_tuple_resolved_keeps(self.resolver@, self.tm@, deps@, 0);
            lemma_tuple_resolved_usable(self.resolver@, self.tm@, deps@, 0);
            lemma_keeps_settled(self.tm@, tuple_resolved(self.resolver@, self.tm@, deps@, 0).0);
        }
        self.tm.inject_and_call(&self.resolver, deps, f)
    }
}

} // verus!
