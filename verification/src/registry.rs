//! The registry: one construction slot per component key.
//!
//! A slot is empty (the key is absent), resolving (its provider is being built)
//! or ready (its provider is cached). A ready slot never changes again.

use crate::provide::Provider;
use std::collections::HashMap;
use std::sync::Arc;
use vstd::prelude::*;

verus! {

broadcast use vstd::std_specs::hash::group_hash_axioms;

/// Errors triggered during the wiring process.
#[derive(Debug, Clone, Copy, PartialEq, Eq, Structural)]
pub enum WiringError {
    /// A component was requested again while its own provider was being built.
    CyclicResolution,
    /// An override targets a slot that is not empty any more.
    AlreadyResolved,
    /// No resolution rule exists for the requested component.
    UnresolvableType,
}

impl WiringError {
    /// The text that describes the error to a user.
    pub fn message(&self) -> (text: &'static str)
        ensures
            text@ == match *self {
                WiringError::CyclicResolution =>
                    "Cyclic dependencies: trying to start resolving in an open slot"@,
                WiringError::AlreadyResolved =>
                    "Consistency error: trying to replace an existing dependency"@,
                WiringError::UnresolvableType =>
                    "Missing rule: no resolver is declared for the requested type"@,
            },
    {
        match self {
            WiringError::CyclicResolution =>
                "Cyclic dependencies: trying to start resolving in an open slot",
            WiringError::AlreadyResolved =>
                "Consistency error: trying to replace an existing dependency",
            WiringError::UnresolvableType =>
                "Missing rule: no resolver is declared for the requested type",
        }
    }
}

/// What a slot of the registry holds once it is not empty.
pub enum TypeMapEntry<T, F> {
    Resolving,
    Ready(Arc<Provider<T, F>>),
}

/// What a lookup finds.
pub enum TypeMapContent<'a, T, F> {
    Vacant,
    Resolving,
    Ready(&'a Arc<Provider<T, F>>),
}

/// Store of providers, indexed by component key.
pub struct TypeMap<T, F>(HashMap<u64, TypeMapEntry<T, F>>);

/// The state of every slot: absent keys are empty.
pub type Slots<T, F> = Map<u64, TypeMapEntry<T, F>>;

/// The slot of `key` is ready.
pub open spec fn is_ready<T, F>(slots: Slots<T, F>, key: u64) -> bool {
    slots.contains_key(key) && slots[key] is Ready
}

/// The slot of `key` is resolving.
pub open spec fn is_resolving<T, F>(slots: Slots<T, F>, key: u64) -> bool {
    slots.contains_key(key) && slots[key] is Resolving
}

/// The error that refuses `data` on an occupied slot: booking a slot twice is a
/// cycle, overriding a booked or cached provider is a late override.
pub open spec fn refusal<T, F>(data: TypeMapEntry<T, F>) -> WiringError {
    match data {
        TypeMapEntry::Resolving => WiringError::CyclicResolution,
        TypeMapEntry::Ready(_) => WiringError::AlreadyResolved,
    }
}

impl<T, F> View for TypeMap<T, F> {
    type V = Map<u64, TypeMapEntry<T, F>>;

    closed spec fn view(&self) -> Map<u64, TypeMapEntry<T, F>> {
        self.0@
    }
}

impl<T, F> TypeMap<T, F> {
    /// A registry in which every slot is empty.
    pub fn new() -> (registry: Self)
        ensures
            registry@ == Slots::<T, F>::empty(),
    {
        TypeMap(HashMap::new())
    }

    /// Retrieve the state of a slot; the registry is not changed.
    pub fn get(&self, key: u64) -> (content: TypeMapContent<'_, T, F>)
        ensures
            content == match self@.get(key) {
                None => TypeMapContent::<T, F>::Vacant,
                Some(TypeMapEntry::Resolving) => TypeMapContent::Resolving,
                Some(TypeMapEntry::Ready(provider)) => TypeMapContent::Ready(&provider),
            },
    {
        match self.0.get(&key) {
            None => TypeMapContent::Vacant,
            Some(TypeMapEntry::Resolving) => TypeMapContent::Resolving,
            Some(TypeMapEntry::Ready(provider)) => TypeMapContent::Ready(provider),
        }
    }

    /// Retrieve a cached provider if the slot is ready.
    pub fn get_provider(&self, key: u64) -> (provider: Option<&Arc<Provider<T, F>>>)
        ensures
            provider == match self@.get(key) {
                Some(TypeMapEntry::Ready(cached)) => Some(&cached),
                _ => None,
            },
    {
        match self.get(key) {
            TypeMapContent::Ready(cached) => Some(cached),
            _ => None,
        }
    }

    /// Fill an empty slot, either to book it (`Resolving`) or to seed it with a
    /// provider (`Ready`). An occupied slot is left as it is.
    pub fn set_if_vacant(&mut self, key: u64, data: TypeMapEntry<T, F>) -> (outcome: Result<
        (),
        WiringError,
    >)
        ensures
            outcome is Ok <==> !old(self)@.contains_key(key),
            outcome is Ok ==> final(self)@ == old(self)@.insert(key, data),
            outcome is Err ==> final(self)@ == old(self)@,
            outcome matches Err(error) ==> error == refusal(data),
    {
        if self.0.contains_key(&key) {
            return Err(
                match data {
                    TypeMapEntry::Resolving => WiringError::CyclicResolution,
                    TypeMapEntry::Ready(_) => WiringError::AlreadyResolved,
                },
            );
        }
        self.0.insert(key, data);
        Ok(())
    }

    /// Fill a resolving slot. Any other slot is left as it is, and the answer is
    /// `false`.
    pub fn set_if_resolving(&mut self, key: u64, data: TypeMapEntry<T, F>) -> (done: bool)
        ensures
            done == is_resolving(old(self)@, key),
            done ==> final(self)@ == old(self)@.insert(key, data),
            !done ==> final(self)@ == old(self)@,
    {
        match self.get(key) {
            TypeMapContent::Resolving => {
                self.0.insert(key, data);
                true
            },
            _ => false,
        }
    }

    /// Give up a booking: a resolving slot becomes empty again. Any other slot is
    /// left as it is, and the answer is `false`.
    pub fn release(&mut self, key: u64) -> (done: bool)
        ensures
            done == is_resolving(old(self)@, key),
            done ==> final(self)@ == old(self)@.remove(key),
            !done ==> final(self)@ == old(self)@,
    {
        match self.get(key) {
            TypeMapContent::Resolving => {
                self.0.remove(&key);
                true
            },
            _ => false,
        }
    }
}

} // verus!
