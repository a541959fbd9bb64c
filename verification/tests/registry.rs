use hanami::{
    Callable, FactoryProvider, Injectable, InstanceProvider, Provide, Provider, ProviderMap, Recipe,
    Resolve, ResolverModule, Scope, SingletonProvider, TupleProvider, TypeMap, TypeMapContent,
    TypeMapEntry, WiringError,
};
use std::sync::atomic::{AtomicUsize, Ordering};
use std::sync::Arc;

/// A component that remembers its label and the instances it was built from.
struct Node {
    label: u64,
    parts: Vec<Arc<Node>>,
}

/// Builds a `Node` with a fixed label and counts how often it is called.
struct Make {
    label: u64,
    calls: Arc<AtomicUsize>,
}

impl Make {
    fn new(label: u64) -> Make {
        Make { label, calls: Arc::new(AtomicUsize::new(0)) }
    }

    fn counted(label: u64, calls: &Arc<AtomicUsize>) -> Make {
        Make { label, calls: calls.clone() }
    }
}

impl Callable<Vec<Arc<Node>>, Node> for Make {
    fn call(&self, args: Vec<Arc<Node>>) -> Node {
        self.calls.fetch_add(1, Ordering::SeqCst);
        Node { label: self.label, parts: args }
    }
}

fn leaf(label: u64) -> Arc<Node> {
    Arc::new(Node { label, parts: vec![] })
}

fn seed(label: u64) -> Arc<Provider<Node, Make>> {
    SingletonProvider::build(leaf(label))
}

fn state(registry: &TypeMap<Node, Make>, key: u64) -> &'static str {
    match registry.get(key) {
        TypeMapContent::Vacant => "empty",
        TypeMapContent::Resolving => "resolving",
        TypeMapContent::Ready(_) => "ready",
    }
}

#[test]
fn slots_start_empty() {
    let registry: TypeMap<Node, Make> = TypeMap::new();
    assert_eq!(state(&registry, 1), "empty");
    assert!(registry.get_provider(1).is_none());
}

#[test]
fn book_bind_is_one_way() {
    let mut registry: TypeMap<Node, Make> = TypeMap::new();
    assert_eq!(registry.set_if_vacant(1, TypeMapEntry::Resolving), Ok(()));
    assert_eq!(state(&registry, 1), "resolving");
    assert!(registry.get_provider(1).is_none());
    // booking twice is a cycle
    assert_eq!(
        registry.set_if_vacant(1, TypeMapEntry::Resolving),
        Err(WiringError::CyclicResolution)
    );
    // seeding a booked slot is refused
    assert_eq!(
        registry.set_if_vacant(1, TypeMapEntry::Ready(seed(7))),
        Err(WiringError::AlreadyResolved)
    );
    assert_eq!(state(&registry, 1), "resolving");
    let provider = seed(8);
    assert!(registry.set_if_resolving(1, TypeMapEntry::Ready(provider.clone())));
    assert_eq!(state(&registry, 1), "ready");
    assert!(Arc::ptr_eq(registry.get_provider(1).unwrap(), &provider));
    // a ready slot never changes again
    assert!(!registry.set_if_resolving(1, TypeMapEntry::Ready(seed(9))));
    assert!(!registry.release(1));
    assert_eq!(
        registry.set_if_vacant(1, TypeMapEntry::Ready(seed(9))),
        Err(WiringError::AlreadyResolved)
    );
    assert_eq!(
        registry.set_if_vacant(1, TypeMapEntry::Resolving),
        Err(WiringError::CyclicResolution)
    );
    assert!(Arc::ptr_eq(registry.get_provider(1).unwrap(), &provider));
    assert_eq!(registry.get_provider(1).unwrap().provide().label, 8);
}

#[test]
fn bind_needs_a_booking() {
    let mut registry: TypeMap<Node, Make> = TypeMap::new();
    assert!(!registry.set_if_resolving(1, TypeMapEntry::Ready(seed(7))));
    assert_eq!(state(&registry, 1), "empty");
    assert!(!registry.release(1));
    assert_eq!(state(&registry, 1), "empty");
}

#[test]
fn release_gives_up_a_booking() {
    let mut registry: TypeMap<Node, Make> = TypeMap::new();
    assert_eq!(registry.set_if_vacant(1, TypeMapEntry::Resolving), Ok(()));
    assert_eq!(registry.set_if_vacant(2, TypeMapEntry::Resolving), Ok(()));
    assert!(registry.release(1));
    assert_eq!(state(&registry, 1), "empty");
    assert_eq!(state(&registry, 2), "resolving");
    assert_eq!(registry.set_if_vacant(1, TypeMapEntry::Ready(seed(7))), Ok(()));
    assert_eq!(state(&registry, 1), "ready");
}

#[test]
fn seed_fills_an_empty_slot() {
    let mut registry: TypeMap<Node, Make> = TypeMap::new();
    let provider = seed(3);
    assert_eq!(registry.set_if_vacant(5, TypeMapEntry::Ready(provider.clone())), Ok(()));
    match registry.get(5) {
        TypeMapContent::Ready(cached) => assert!(Arc::ptr_eq(cached, &provider)),
        _ => panic!("the slot must be ready"),
    }
    assert_eq!(state(&registry, 4), "empty");
}

#[test]
fn singleton_provider_shares_its_instance() {
    let instance = leaf(4);
    let provider: Arc<Provider<Node, Make>> = SingletonProvider::build(instance.clone());
    let first = provider.provide();
    let second = provider.provide();
    assert!(Arc::ptr_eq(&first, &instance));
    assert!(Arc::ptr_eq(&second, &instance));
    assert_eq!(Arc::strong_count(&instance), 4);
    let bare = SingletonProvider(instance.clone());
    assert!(Arc::ptr_eq(&bare.provide(), &instance));
}

#[test]
fn factory_provider_constructs_on_each_request() {
    let calls = Arc::new(AtomicUsize::new(0));
    let shared = leaf(1);
    let other = leaf(2);
    let tuple = TupleProvider::Pair(
        SingletonProvider::build(shared.clone()),
        Box::new(TupleProvider::Pair(
            SingletonProvider::build(other.clone()),
            Box::new(TupleProvider::Unit),
        )),
    );
    let factory = FactoryProvider::new(tuple, Arc::new(Make::counted(9, &calls)));
    assert_eq!(calls.load(Ordering::SeqCst), 0);
    let first = factory.provide();
    let second = factory.provide();
    assert_eq!(calls.load(Ordering::SeqCst), 2);
    assert!(!Arc::ptr_eq(&first, &second));
    assert_eq!(first.label, 9);
    assert_eq!(first.parts.len(), 2);
    assert!(Arc::ptr_eq(&first.parts[0], &shared));
    assert!(Arc::ptr_eq(&first.parts[1], &other));
    assert!(Arc::ptr_eq(&second.parts[0], &shared));
    assert!(Arc::ptr_eq(&second.parts[1], &other));
}

#[test]
fn instance_provider_is_the_factory() {
    let factory: InstanceProvider<Node, Make> =
        InstanceProvider::new(TupleProvider::Unit, Arc::new(Make::new(6)));
    let built = Provider::Factory(factory).provide();
    assert_eq!(built.label, 6);
    assert!(built.parts.is_empty());
}

#[test]
fn tuple_provider_keeps_the_order() {
    let empty: TupleProvider<Node, Make> = TupleProvider::Unit;
    assert!(empty.provide().is_empty());
    let tuple: TupleProvider<Node, Make> = TupleProvider::Pair(
        seed(1),
        Box::new(TupleProvider::Pair(
            seed(2),
            Box::new(TupleProvider::Pair(seed(3), Box::new(TupleProvider::Unit))),
        )),
    );
    let labels: Vec<u64> = tuple.provide().iter().map(|node| node.label).collect();
    assert_eq!(labels, vec![1, 2, 3]);
}

fn chain() -> ResolverModule<Make> {
    // 1 is a singleton leaf, 2 a factory over 1, 3 a factory over (2, 1, 2),
    // 4 a singleton over 3
    let mut module = ResolverModule::new();
    assert!(module.resolve_singleton(1, vec![], Make::new(10)));
    assert!(module.resolve_instance(2, vec![1], Make::new(20)));
    assert!(module.resolve_instance(3, vec![2, 1, 2], Make::new(30)));
    assert!(module.resolve_singleton(4, vec![3], Make::new(40)));
    module
}

#[test]
fn resolve_with_caches_every_provider_on_the_way() {
    let module = chain();
    let mut registry: TypeMap<Node, Make> = TypeMap::new();
    let provider = registry.resolve_with(&module, 3).ok().unwrap();
    assert_eq!(state(&registry, 1), "ready");
    assert_eq!(state(&registry, 2), "ready");
    assert_eq!(state(&registry, 3), "ready");
    assert_eq!(state(&registry, 4), "empty");
    assert!(Arc::ptr_eq(registry.get_provider(3).unwrap(), &provider));
    let again = registry.resolve_with(&module, 3).ok().unwrap();
    assert!(Arc::ptr_eq(&again, &provider));

    let built = provider.provide();
    assert_eq!(built.label, 30);
    let labels: Vec<u64> = built.parts.iter().map(|node| node.label).collect();
    assert_eq!(labels, vec![20, 10, 20]);
    // the nested factory ran once per position, the singleton is shared by all
    assert!(!Arc::ptr_eq(&built.parts[0], &built.parts[2]));
    let one = registry.get_provider(1).unwrap().provide();
    assert!(Arc::ptr_eq(&built.parts[1], &one));
    assert!(Arc::ptr_eq(&built.parts[0].parts[0], &one));
    assert!(Arc::ptr_eq(&built.parts[2].parts[0], &one));
}

#[test]
fn singleton_over_a_factory_is_built_once() {
    let module = chain();
    let mut registry: TypeMap<Node, Make> = TypeMap::new();
    let four = registry.resolve_with(&module, 4).ok().unwrap();
    let first = four.provide();
    let second = four.provide();
    assert!(Arc::ptr_eq(&first, &second));
    assert_eq!(first.label, 40);
    assert_eq!(first.parts.len(), 1);
    assert_eq!(first.parts[0].label, 30);
    assert!(matches!(*four, Provider::Singleton(_)));
    assert!(matches!(**registry.get_provider(3).unwrap(), Provider::Factory(_)));
}

#[test]
fn constructors_run_once_per_singleton_and_once_per_request() {
    let singleton_calls = Arc::new(AtomicUsize::new(0));
    let factory_calls = Arc::new(AtomicUsize::new(0));
    let mut module = ResolverModule::new();
    assert!(module.resolve_singleton(1, vec![], Make::counted(10, &singleton_calls)));
    assert!(module.resolve_instance(2, vec![1, 1], Make::counted(20, &factory_calls)));
    let mut registry: TypeMap<Node, Make> = TypeMap::new();
    let provider = registry.resolve_with(&module, 2).ok().unwrap();
    // resolving builds the singleton, and only keeps the factory
    assert_eq!(singleton_calls.load(Ordering::SeqCst), 1);
    assert_eq!(factory_calls.load(Ordering::SeqCst), 0);
    let _ = provider.provide();
    let _ = provider.provide();
    let _ = registry.resolve_with(&module, 2).ok().unwrap().provide();
    assert_eq!(singleton_calls.load(Ordering::SeqCst), 1);
    assert_eq!(factory_calls.load(Ordering::SeqCst), 3);
}

#[test]
fn resolve_with_reports_what_is_missing() {
    let mut module = ResolverModule::new();
    assert!(module.resolve_singleton(1, vec![], Make::new(10)));
    assert!(module.resolve_singleton(2, vec![1, 9], Make::new(20)));
    let mut registry: TypeMap<Node, Make> = TypeMap::new();
    assert_eq!(registry.resolve_with(&module, 9).err(), Some(WiringError::UnresolvableType));
    assert_eq!(registry.resolve_with(&module, 2).err(), Some(WiringError::UnresolvableType));
    // the booking of 2 was given up, the provider of 1 stays
    assert_eq!(state(&registry, 2), "empty");
    assert_eq!(state(&registry, 1), "ready");
    assert_eq!(state(&registry, 9), "empty");
}

#[test]
fn resolve_with_meets_a_booked_slot() {
    let module = chain();
    let mut registry: TypeMap<Node, Make> = TypeMap::new();
    assert_eq!(registry.set_if_vacant(1, TypeMapEntry::Resolving), Ok(()));
    assert_eq!(registry.resolve_with(&module, 1).err(), Some(WiringError::CyclicResolution));
    assert_eq!(registry.resolve_with(&module, 2).err(), Some(WiringError::CyclicResolution));
    assert_eq!(state(&registry, 1), "resolving");
    assert_eq!(state(&registry, 2), "empty");
}

#[test]
fn self_dependency_is_cyclic() {
    let mut module = ResolverModule::new();
    assert!(module.resolve_instance(1, vec![1], Make::new(10)));
    let mut registry: TypeMap<Node, Make> = TypeMap::new();
    assert_eq!(registry.resolve_with(&module, 1).err(), Some(WiringError::CyclicResolution));
    assert_eq!(state(&registry, 1), "empty");
}

#[test]
fn long_cycle_is_cyclic_and_leaves_finished_work() {
    let mut module = ResolverModule::new();
    assert!(module.resolve_singleton(1, vec![5, 2], Make::new(10)));
    assert!(module.resolve_singleton(2, vec![3], Make::new(20)));
    assert!(module.resolve_singleton(3, vec![1], Make::new(30)));
    assert!(module.resolve_singleton(5, vec![], Make::new(50)));
    assert_eq!(module.validate(), Ok(()));
    let mut registry: TypeMap<Node, Make> = TypeMap::new();
    assert_eq!(registry.resolve_with(&module, 1).err(), Some(WiringError::CyclicResolution));
    assert_eq!(state(&registry, 1), "empty");
    assert_eq!(state(&registry, 2), "empty");
    assert_eq!(state(&registry, 3), "empty");
    assert_eq!(state(&registry, 5), "ready");
    assert_eq!(registry.resolve_with(&module, 3).err(), Some(WiringError::CyclicResolution));
}

#[test]
fn inject_mode_yields_instances() {
    let module = chain();
    let mut registry: TypeMap<Node, Make> = TypeMap::new();
    let instances = vec![2u64, 1, 2].inject(&module, &mut registry).ok().unwrap();
    let labels: Vec<u64> = instances.iter().map(|node| node.label).collect();
    assert_eq!(labels, vec![20, 10, 20]);
    assert!(!Arc::ptr_eq(&instances[0], &instances[2]));
    assert!(Arc::ptr_eq(&instances[0].parts[0], &instances[1]));
    let none = Vec::<u64>::new().inject(&module, &mut registry).ok().unwrap();
    assert!(none.is_empty());
    assert_eq!(
        vec![1u64, 9].inject(&module, &mut registry).err(),
        Some(WiringError::UnresolvableType)
    );
}

#[test]
fn provide_mode_yields_the_cached_providers() {
    let module = chain();
    let mut registry: TypeMap<Node, Make> = TypeMap::new();
    let tuple = vec![2u64, 1].provide(&module, &mut registry).ok().unwrap();
    match &tuple {
        TupleProvider::Pair(first, rest) => {
            assert!(Arc::ptr_eq(first, registry.get_provider(2).unwrap()));
            match &**rest {
                TupleProvider::Pair(second, end) => {
                    assert!(Arc::ptr_eq(second, registry.get_provider(1).unwrap()));
                    assert!(matches!(**end, TupleProvider::Unit));
                }
                TupleProvider::Unit => panic!("two providers were asked for"),
            }
        }
        TupleProvider::Unit => panic!("two providers were asked for"),
    }
    // the same component in two positions is served by the same cached provider
    let twice = vec![1u64, 1].provide(&module, &mut registry).ok().unwrap();
    match &twice {
        TupleProvider::Pair(first, rest) => match &**rest {
            TupleProvider::Pair(second, _) => assert!(Arc::ptr_eq(first, second)),
            TupleProvider::Unit => panic!("two providers were asked for"),
        },
        TupleProvider::Unit => panic!("two providers were asked for"),
    }
    let same = registry.inject_provider(&module, &vec![2u64, 1]).ok().unwrap();
    let labels: Vec<u64> = same.provide().iter().map(|node| node.label).collect();
    assert_eq!(labels, vec![20, 10]);
    assert!(matches!(
        Vec::<u64>::new().provide(&module, &mut registry),
        Ok(TupleProvider::Unit)
    ));
}

#[test]
fn registry_inject_and_call() {
    let module = chain();
    let mut registry: TypeMap<Node, Make> = TypeMap::new();
    let built = registry.inject_and_call(&module, &vec![1u64, 2], &Make::new(77)).ok().unwrap();
    assert_eq!(built.label, 77);
    assert_eq!(built.parts.len(), 2);
    assert!(Arc::ptr_eq(&built.parts[1].parts[0], &built.parts[0]));
}

#[test]
fn build_provider_follows_the_scope() {
    let module = chain();
    let mut registry: TypeMap<Node, Make> = TypeMap::new();
    let calls = Arc::new(AtomicUsize::new(0));
    let shared = Recipe {
        key: 100,
        scope: Scope::Singleton,
        deps: vec![1],
        constructor: Arc::new(Make::counted(5, &calls)),
    };
    let built = module.build_provider(&shared, &mut registry).ok().unwrap();
    assert!(matches!(built, Provider::Singleton(_)));
    assert_eq!(calls.load(Ordering::SeqCst), 1);
    assert_eq!(built.provide().label, 5);
    assert_eq!(calls.load(Ordering::SeqCst), 1);
    let fresh = Recipe {
        key: 101,
        scope: Scope::Instance,
        deps: vec![1],
        constructor: Arc::new(Make::counted(6, &calls)),
    };
    let built = module.build_provider(&fresh, &mut registry).ok().unwrap();
    assert!(matches!(built, Provider::Factory(_)));
    assert_eq!(calls.load(Ordering::SeqCst), 1);
    assert_eq!(built.provide().label, 6);
    assert_eq!(calls.load(Ordering::SeqCst), 2);
    // the registry itself was not given the new providers
    assert_eq!(state(&registry, 100), "empty");
    assert_eq!(state(&registry, 1), "ready");
}
