//! Resolver modules: the recipes of a family of components, as plain data.
//!
//! A recipe names its component, says whether the component is a shared
//! singleton or built on demand, lists the components that its constructor
//! takes, in order, and holds the constructor. A module may adopt the recipes of
//! another module, which it then resolves by delegation.

use crate::provide::Callable;
use crate::registry::WiringError;
use std::sync::Arc;
use vstd::prelude::*;

verus! {

/// How long an instance lives.
#[derive(Debug, Clone, Copy, PartialEq, Eq, Structural)]
pub enum Scope {
    /// Built once and then shared.
    Singleton,
    /// Built anew on every request.
    Instance,
}

/// How to build one component.
pub struct Recipe<F> {
    pub key: u64,
    pub scope: Scope,
    pub deps: Vec<u64>,
    pub constructor: Arc<F>,
}

/// The recipes of a module, by component key.
pub type Rules<F> = Map<u64, Recipe<F>>;

/// Some recipe of the list builds `key`.
pub open spec fn declares<F>(recipes: Seq<Recipe<F>>, key: u64) -> bool {
    exists|i: int| 0 <= i < recipes.len() && #[trigger] recipes[i].key == key
}

/// No two recipes of the list build the same component.
pub open spec fn distinct_keys<F>(recipes: Seq<Recipe<F>>) -> bool {
    forall|i: int, j: int|
        0 <= i < recipes.len() && 0 <= j < recipes.len() && i != j ==> #[trigger] recipes[i].key
            != #[trigger] recipes[j].key
}

/// The list of recipes as a map from component key to recipe.
pub open spec fn rules_of<F>(recipes: Seq<Recipe<F>>) -> Rules<F> {
    Map::new(
        |key: u64| declares(recipes, key),
        |key: u64| recipes[choose|i: int| 0 <= i < recipes.len() && #[trigger] recipes[i].key == key],
    )
}

/// Every component that a recipe of `rules` takes has a recipe in `rules`.
pub open spec fn closed<F>(rules: Rules<F>) -> bool {
    forall|key: u64, j: int|
        rules.contains_key(key) && 0 <= j < rules[key].deps@.len() ==> rules.contains_key(
            #[trigger] rules[key].deps@[j],
        )
}

/// The outer module delegates to the inner one: every recipe of `inner` is the
/// recipe that `outer` has for the same component.
pub open spec fn delegates<F>(outer: Rules<F>, inner: Rules<F>) -> bool {
    forall|key: u64|
        inner.contains_key(key) ==> outer.contains_key(key) && #[trigger] outer[key] == inner[key]
}

/// The constructor of the recipe accepts every list of as many instances as the
/// recipe takes components.
pub open spec fn fits<T, F: Callable<Vec<Arc<T>>, T>>(recipe: Recipe<F>) -> bool {
    accepts_each::<T, F>(*recipe.constructor, recipe.deps@.len())
}

/// The constructor accepts every list of `count` instances.
pub open spec fn accepts_each<T, F: Callable<Vec<Arc<T>>, T>>(constructor: F, count: nat) -> bool {
    forall|args: Seq<Arc<T>>| args.len() == count ==> #[trigger] constructor.accepts(args)
}

/// Every recipe of `rules` fits components of type `T`.
pub open spec fn accepting<T, F: Callable<Vec<Arc<T>>, T>>(rules: Rules<F>) -> bool {
    forall|key: u64| #[trigger] rules.contains_key(key) ==> fits::<T, F>(rules[key])
}

/// Every component that the recipe takes has a recipe in `rules`.
pub open spec fn satisfied<F>(rules: Rules<F>, recipe: Recipe<F>) -> bool {
    forall|j: int| 0 <= j < recipe.deps@.len() ==> rules.contains_key(#[trigger] recipe.deps@[j])
}

/// Each recipe of a list of distinct keys is the one that the map gives for its
/// key.
pub proof fn lemma_rules_of_index<F>(recipes: Seq<Recipe<F>>, i: int)
    requires
        distinct_keys(recipes),
        0 <= i < recipes.len(),
    ensures
        rules_of(recipes).contains_key(recipes[i].key),
        rules_of(recipes)[recipes[i].key] == recipes[i],
{
}

/// The map of a list has finitely many keys.
pub proof fn lemma_rules_of_finite<F>(recipes: Seq<Recipe<F>>)
    ensures
        rules_of(recipes).dom().finite(),
    decreases recipes.len(),
{
    if recipes.len() == 0 {
        assert(rules_of(recipes).dom() =~= Set::<u64>::empty());
    } else {
        let front = recipes.drop_last();
        lemma_rules_of_finite(front);
        assert forall|key: u64|
            rules_of(recipes).dom().contains(key) <==> rules_of(front).dom().insert(
                recipes.last().key,
            ).contains(key) by {
            if declares(recipes, key) {
                let i = choose|i: int| 0 <= i < recipes.len() && #[trigger] recipes[i].key == key;
                if i < recipes.len() - 1 {
                    assert(front[i].key == key);
                }
            }
        }
        assert(rules_of(recipes).dom() =~= rules_of(front).dom().insert(recipes.last().key));
    }
}

/// Appending a recipe for a new component adds one entry to the map.
pub proof fn lemma_rules_of_push<F>(recipes: Seq<Recipe<F>>, recipe: Recipe<F>)
    requires
        distinct_keys(recipes),
        !declares(recipes, recipe.key),
    ensures
        distinct_keys(recipes.push(recipe)),
        rules_of(recipes.push(recipe)) == rules_of(recipes).insert(recipe.key, recipe),
{
    let longer = recipes.push(recipe);
    assert forall|key: u64|
        rules_of(longer).contains_key(key) <==> rules_of(recipes).insert(
            recipe.key,
            recipe,
        ).contains_key(key) by {
        if declares(recipes, key) {
            let i = choose|i: int| 0 <= i < recipes.len() && #[trigger] recipes[i].key == key;
            assert(longer[i].key == key);
        }
        if key == recipe.key {
            assert(longer[recipes.len() as int].key == key);
        }
    }
    assert forall|key: u64| rules_of(longer).contains_key(key) implies rules_of(longer)[key]
        == rules_of(recipes).insert(recipe.key, recipe)[key] by {}
}

/// A resolver module.
pub struct ResolverModule<F> {
    recipes: Vec<Recipe<F>>,
}

impl<F> View for ResolverModule<F> {
    type V = Map<u64, Recipe<F>>;

    closed spec fn view(&self) -> Map<u64, Recipe<F>> {
        rules_of(self.recipes@)
    }
}

impl<F> ResolverModule<F> {
    /// No component has two recipes.
    pub closed spec fn wf(&self) -> bool {
        distinct_keys(self.recipes@)
    }

    /// A well-formed module has finitely many recipes.
    pub proof fn lemma_finite(&self)
        ensures
            self@.dom().finite(),
    {
        lemma_rules_of_finite(self.recipes@);
    }

    /// A module without recipes.
    pub fn new() -> (module: Self)
        ensures
            module.wf(),
            module@ == Rules::<F>::empty(),
    {
        let module = ResolverModule { recipes: Vec::new() };
        module
    }

    /// The recipe of a component, if the module has one.
    pub fn find(&self, key: u64) -> (found: Option<&Recipe<F>>)
        requires
            self.wf(),
        ensures
            found == match self@.get(key) {
                Some(recipe) => Some(&recipe),
                None => None,
            },
    {
        let mut i: usize = 0;
        while i < self.recipes.len()
            invariant
                self.wf(),
                i <= self.recipes.len(),
                forall|j: int| 0 <= j < i ==> (#[trigger] self.recipes@[j]).key != key,
            decreases self.recipes.len() - i,
        {
            if self.recipes[i].key == key {
                return Some(&self.recipes[i]);
            }
            i += 1;
        }
        None
    }

    /// Whether the module has a recipe for the component, its own or adopted.
    pub fn resolves(&self, key: u64) -> (known: bool)
        requires
            self.wf(),
        ensures
            known == self@.contains_key(key),
    {
        self.find(key).is_some()
    }

    /// Add a recipe. A component that already has a recipe keeps it: the module is
    /// left as it is, and the answer is `false`.
    pub fn declare(&mut self, recipe: Recipe<F>) -> (accepted: bool)
        requires
            old(self).wf(),
        ensures
            final(self).wf(),
            accepted == !old(self)@.contains_key(recipe.key),
            accepted ==> final(self)@ == old(self)@.insert(recipe.key, recipe),
            !accepted ==> final(self)@ == old(self)@,
    {
        if self.resolves(recipe.key) {
            return false;
        }
        proof {
            lemma_rules_of_push(self.recipes@, recipe);
        }
        self.recipes.push(recipe);
        true
    }

    /// Declare that the module can provide a shared singleton of `key`, built once
    /// by `constructor` from the components `deps`.
    pub fn resolve_singleton(&mut self, key: u64, deps: Vec<u64>, constructor: F) -> (accepted:
        bool)
        requires
            old(self).wf(),
        ensures
            final(self).wf(),
            accepted == !old(self)@.contains_key(key),
            accepted ==> final(self)@ == old(self)@.insert(
                key,
                Recipe { key, scope: Scope::Singleton, deps, constructor: Arc::new(constructor) },
            ),
            !accepted ==> final(self)@ == old(self)@,
    {
        self.declare(
            Recipe { key, scope: Scope::Singleton, deps, constructor: Arc::new(constructor) },
        )
    }

    /// Declare that the module can create on-demand instances of `key`, each built
    /// by `constructor` from the components `deps`.
    pub fn resolve_instance(&mut self, key: u64, deps: Vec<u64>, constructor: F) -> (accepted:
        bool)
        requires
            old(self).wf(),
        ensures
            final(self).wf(),
            accepted == !old(self)@.contains_key(key),
            accepted ==> final(self)@ == old(self)@.insert(
                key,
                Recipe { key, scope: Scope::Instance, deps, constructor: Arc::new(constructor) },
            ),
            !accepted ==> final(self)@ == old(self)@,
    {
        self.declare(
            Recipe { key, scope: Scope::Instance, deps, constructor: Arc::new(constructor) },
        )
    }

    /// Whether no component of `inner` has a recipe in this module.
    pub fn disjoint_from(&self, inner: &ResolverModule<F>) -> (disjoint: bool)
        requires
            self.wf(),
            inner.wf(),
        ensures
            disjoint == self@.dom().disjoint(inner@.dom()),
    {
        let mut i: usize = 0;
        while i < inner.recipes.len()
            invariant
                self.wf(),
                inner.wf(),
                i <= inner.recipes.len(),
                forall|j: int|
                    0 <= j < i ==> !self@.contains_key((#[trigger] inner.recipes@[j]).key),
            decreases inner.recipes.len() - i,
        {
            if self.resolves(inner.recipes[i].key) {
                return false;
            }
            i += 1;
        }
        true
    }

    /// Declare that this module resolves by delegation every component that
    /// `inner` resolves. Where a component of `inner` already has a recipe here,
    /// the composition is refused: the module is left as it is, and the answer is
    /// `false`.
    pub fn resolve_delegated(&mut self, inner: ResolverModule<F>) -> (accepted: bool)
        requires
            old(self).wf(),
            inner.wf(),
        ensures
            final(self).wf(),
            accepted == old(self)@.dom().disjoint(inner@.dom()),
            accepted ==> final(self)@ == old(self)@.union_prefer_right(inner@),
            accepted ==> delegates(final(self)@, inner@),
            !accepted ==> final(self)@ == old(self)@,
    {
        if !self.disjoint_from(&inner) {
            return false;
        }
        let mut inner = inner;
        let ghost outer_rules = self@;
        let ghost inner_rules = inner@;
        while inner.recipes.len() > 0
            invariant
                self.wf(),
                inner.wf(),
                outer_rules.dom().disjoint(inner_rules.dom()),
                self@.dom().disjoint(inner@.dom()),
                self@.union_prefer_right(inner@) == outer_rules.union_prefer_right(inner_rules),
            decreases inner.recipes.len(),
        {
            let ghost before = inner.recipes@;
            let ghost here = self@;
            let recipe = inner.recipes.pop().unwrap();
            proof {
                let front = inner.recipes@;
                assert(before =~= front.push(recipe));
                assert(distinct_keys(front));
                assert(!declares(front, recipe.key));
                assert(rules_of(before).contains_key(recipe.key));
                lemma_rules_of_push(self.recipes@, recipe);
            }
            self.recipes.push(recipe);
            proof {
                assert(self@.union_prefer_right(inner@) =~= here.union_prefer_right(
                    rules_of(before),
                ));
            }
        }
        true
    }

    /// Validate the assembly: every component that some recipe takes must have a
    /// recipe itself, here or by delegation.
    pub fn validate(&self) -> (outcome: Result<(), WiringError>)
        requires
            self.wf(),
        ensures
            outcome is Ok <==> closed(self@),
            outcome matches Err(error) ==> error == WiringError::UnresolvableType,
    {
        let mut i: usize = 0;
        while i < self.recipes.len()
            invariant
                self.wf(),
                i <= self.recipes.len(),
                forall|k: int| 0 <= k < i ==> satisfied(self@, #[trigger] self.recipes@[k]),
            decreases self.recipes.len() - i,
        {
            let recipe = &self.recipes[i];
            let mut j: usize = 0;
            while j < recipe.deps.len()
                invariant
                    self.wf(),
                    i < self.recipes.len(),
                    *recipe == self.recipes@[i as int],
                    j <= recipe.deps.len(),
                    forall|k: int| 0 <= k < j ==> self@.contains_key(#[trigger] recipe.deps@[k]),
                decreases recipe.deps.len() - j,
            {
                if !self.resolves(recipe.deps[j]) {
                    proof {
                        lemma_rules_of_index(self.recipes@, i as int);
                    }
                    return Err(WiringError::UnresolvableType);
                }
                j += 1;
            }
            i += 1;
        }
        proof {
            assert forall|key: u64, j: int|
                self@.contains_key(key) && 0 <= j < self@[key].deps@.len() implies self@.contains_key(
                #[trigger] self@[key].deps@[j],
            ) by {}
        }
        Ok(())
    }
}

} // verus!
