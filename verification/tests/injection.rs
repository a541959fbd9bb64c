use hanami::{Callable, Hanami, ResolverModule, SingletonProvider, WiringError};
use std::sync::Arc;

trait TestTrait: Send + Sync {
    fn cheers(&self);
}

#[derive(Default)]
struct SecretImpl {}
impl TestTrait for SecretImpl {
    fn cheers(&self) {
        println!("here is the secret ingredient");
    }
}

trait TestActionable {
    fn get_helper(&self) -> Arc<Component>;
}

struct ConcreteActionable {
    helper: Arc<Component>,
}

impl ConcreteActionable {
    fn new(helper: Arc<Component>) -> Self {
        Self { helper }
    }
}

impl TestActionable for ConcreteActionable {
    fn get_helper(&self) -> Arc<Component> {
        self.helper.clone()
    }
}

struct CyclicalA;
impl CyclicalA {
    fn with(_: Arc<Component>) -> Self {
        Self
    }
}
struct CyclicalB;
impl CyclicalB {
    fn with(_: Arc<Component>) -> Self {
        Self
    }
}

struct SimpleAction;

impl SimpleAction {
    fn create() -> Self {
        SimpleAction
    }

    fn callme(&self) {
        println!("The simple action was called");
    }
}

#[allow(dead_code)]
enum Component {
    Helper(Box<dyn TestTrait>),
    Actionable(Box<dyn TestActionable>),
    Simple(SimpleAction),
    A(CyclicalA),
    B(CyclicalB),
}

impl Component {
    fn cheers(&self) {
        match self {
            Component::Helper(helper) => helper.cheers(),
            _ => panic!("not a helper"),
        }
    }

    fn get_helper(&self) -> Arc<Component> {
        match self {
            Component::Actionable(actionable) => actionable.get_helper(),
            _ => panic!("not an actionable"),
        }
    }

    fn callme(&self) {
        match self {
            Component::Simple(action) => action.callme(),
            _ => panic!("not a simple action"),
        }
    }
}

struct Constructor(fn(Vec<Arc<Component>>) -> Component);

impl Callable<Vec<Arc<Component>>, Component> for Constructor {
    fn call(&self, args: Vec<Arc<Component>>) -> Component {
        (self.0)(args)
    }
}

const TEST_TRAIT: u64 = 1;
const CYCLICAL_A: u64 = 2;
const CYCLICAL_B: u64 = 3;
const SIMPLE_ACTION: u64 = 4;
const TEST_ACTIONABLE: u64 = 5;

fn secret(_: Vec<Arc<Component>>) -> Component {
    Component::Helper(Box::new(SecretImpl::default()))
}

fn cyclical_a(args: Vec<Arc<Component>>) -> Component {
    Component::A(CyclicalA::with(args[0].clone()))
}

fn cyclical_b(args: Vec<Arc<Component>>) -> Component {
    Component::B(CyclicalB::with(args[0].clone()))
}

fn simple_action(_: Vec<Arc<Component>>) -> Component {
    Component::Simple(SimpleAction::create())
}

fn actionable(args: Vec<Arc<Component>>) -> Component {
    Component::Actionable(Box::new(ConcreteActionable::new(args[0].clone())))
}

fn test_module() -> ResolverModule<Constructor> {
    let mut module = ResolverModule::new();
    assert!(module.resolve_singleton(TEST_TRAIT, vec![], Constructor(secret)));
    // define cyclical resolution rules
    assert!(module.resolve_singleton(CYCLICAL_A, vec![CYCLICAL_B], Constructor(cyclical_a)));
    assert!(module.resolve_singleton(CYCLICAL_B, vec![CYCLICAL_A], Constructor(cyclical_b)));
    assert!(module.resolve_instance(SIMPLE_ACTION, vec![], Constructor(simple_action)));
    assert!(module.resolve_instance(TEST_ACTIONABLE, vec![TEST_TRAIT], Constructor(actionable)));
    module
}

fn is_same_ptr<T: ?Sized>(a1: &Arc<T>, a2: &Arc<T>) -> bool {
    Arc::ptr_eq(a1, a2)
}

#[test]
fn resolve_singleton() {
    let mut resolver = Hanami::new(test_module());

    let v1: Arc<Component> = resolver.inject(TEST_TRAIT).unwrap();
    let v2: Arc<Component> = resolver.inject(TEST_TRAIT).unwrap();

    v1.cheers();
    assert!(is_same_ptr(&v1, &v2));

    // retrieve two on-demand instances: they are different but share the same helper
    let a1: Arc<Component> = resolver.inject(TEST_ACTIONABLE).unwrap();
    let a2: Arc<Component> = resolver.inject(TEST_ACTIONABLE).unwrap();
    let (h1, h2) = (a1.get_helper(), a2.get_helper());
    assert!(is_same_ptr(&h1, &h2));

    let simple_action: Arc<Component> = resolver.inject(SIMPLE_ACTION).unwrap();
    simple_action.callme();
}

#[test]
fn set_provider_early() -> Result<(), WiringError> {
    let mut resolver = Hanami::new(test_module());

    let singleton: Arc<Component> = Arc::new(secret(vec![]));
    resolver.set_provider(TEST_TRAIT, SingletonProvider::build(singleton.clone()))?;

    let v1: Arc<Component> = resolver.inject(TEST_TRAIT)?;
    assert!(is_same_ptr(&v1, &singleton));

    Ok(())
}

#[test]
fn set_provider_late() {
    let mut resolver = Hanami::new(test_module());

    let v1: Arc<Component> = resolver.inject(TEST_TRAIT).unwrap();

    let singleton: Arc<Component> = Arc::new(secret(vec![]));
    assert!(resolver
        .set_provider(TEST_TRAIT, SingletonProvider::build(singleton.clone()))
        .is_err());

    let v2: Arc<Component> = resolver.inject(TEST_TRAIT).unwrap();
    assert!(!is_same_ptr(&v1, &singleton));
    assert!(is_same_ptr(&v1, &v2));
}

#[test]
#[should_panic]
fn detect_cyclical() {
    let mut resolver = Hanami::new(test_module());
    let _v1: Arc<Component> = resolver.inject(CYCLICAL_A).unwrap();
}

#[test]
fn on_demand_instances_are_distinct() {
    let mut resolver = Hanami::new(test_module());
    let a1 = resolver.inject(TEST_ACTIONABLE).unwrap();
    let a2 = resolver.inject(TEST_ACTIONABLE).unwrap();
    assert!(!is_same_ptr(&a1, &a2));
    let helper = resolver.inject(TEST_TRAIT).unwrap();
    assert!(is_same_ptr(&a1.get_helper(), &helper));
    assert!(is_same_ptr(&a2.get_helper(), &helper));
}

#[test]
fn cycle_is_reported_from_either_end() {
    let mut resolver = Hanami::new(test_module());
    assert_eq!(resolver.inject(CYCLICAL_A).err(), Some(WiringError::CyclicResolution));
    assert_eq!(resolver.inject(CYCLICAL_B).err(), Some(WiringError::CyclicResolution));
    // deterministic: the same walk fails the same way again
    assert_eq!(resolver.inject(CYCLICAL_A).err(), Some(WiringError::CyclicResolution));
}

#[test]
fn failed_build_gives_up_its_bookings() {
    let mut resolver = Hanami::new(test_module());
    assert_eq!(resolver.inject(CYCLICAL_A).err(), Some(WiringError::CyclicResolution));
    // both slots are empty again, so an override is still accepted
    let b: Arc<Component> = Arc::new(Component::B(CyclicalB));
    assert_eq!(resolver.set_provider(CYCLICAL_B, SingletonProvider::build(b.clone())), Ok(()));
    // and with one end of the cycle seeded, the other end can be built
    let a = resolver.inject(CYCLICAL_A).unwrap();
    assert!(matches!(*a, Component::A(_)));
    assert!(is_same_ptr(&resolver.inject(CYCLICAL_B).unwrap(), &b));
}

#[test]
fn late_override_is_already_resolved() {
    let mut resolver = Hanami::new(test_module());
    let v1 = resolver.inject(TEST_TRAIT).unwrap();
    let other: Arc<Component> = Arc::new(secret(vec![]));
    assert_eq!(
        resolver.set_provider(TEST_TRAIT, SingletonProvider::build(other)),
        Err(WiringError::AlreadyResolved)
    );
    assert!(is_same_ptr(&v1, &resolver.inject(TEST_TRAIT).unwrap()));
}

#[test]
fn second_override_is_already_resolved() {
    let mut resolver = Hanami::new(test_module());
    let first: Arc<Component> = Arc::new(secret(vec![]));
    let second: Arc<Component> = Arc::new(secret(vec![]));
    assert_eq!(resolver.set_provider(TEST_TRAIT, SingletonProvider::build(first.clone())), Ok(()));
    assert_eq!(
        resolver.set_provider(TEST_TRAIT, SingletonProvider::build(second)),
        Err(WiringError::AlreadyResolved)
    );
    assert!(is_same_ptr(&first, &resolver.inject(TEST_TRAIT).unwrap()));
}

#[test]
fn undeclared_component_is_unresolvable() {
    let mut resolver = Hanami::new(test_module());
    assert_eq!(resolver.inject(99).err(), Some(WiringError::UnresolvableType));
    let stray: Arc<Component> = Arc::new(secret(vec![]));
    assert_eq!(
        resolver.set_provider(99, SingletonProvider::build(stray)),
        Err(WiringError::UnresolvableType)
    );
}

#[test]
fn inject_and_call_feeds_instances_in_order() {
    fn pick_second(args: Vec<Arc<Component>>) -> Component {
        assert_eq!(args.len(), 2);
        assert!(matches!(*args[0], Component::Simple(_)));
        Component::Actionable(Box::new(ConcreteActionable::new(args[1].clone())))
    }
    let mut resolver = Hanami::new(test_module());
    let built = resolver
        .inject_and_call(&vec![SIMPLE_ACTION, TEST_TRAIT], &Constructor(pick_second))
        .ok()
        .unwrap();
    let helper = resolver.inject(TEST_TRAIT).unwrap();
    assert!(is_same_ptr(&built.get_helper(), &helper));
    assert_eq!(
        resolver
            .inject_and_call(&vec![TEST_TRAIT, CYCLICAL_A], &Constructor(pick_second))
            .err(),
        Some(WiringError::CyclicResolution)
    );
    let nothing = resolver.inject_and_call(&vec![], &Constructor(simple_action)).ok().unwrap();
    assert!(matches!(nothing, Component::Simple(_)));
}

#[test]
fn get_resolver_gives_the_root_module() {
    let resolver = Hanami::new(test_module());
    assert!(resolver.get_resolver().resolves(TEST_ACTIONABLE));
    assert!(!resolver.get_resolver().resolves(99));
}

#[test]
fn error_messages() {
    assert_eq!(
        WiringError::CyclicResolution.message(),
        "Cyclic dependencies: trying to start resolving in an open slot"
    );
    assert_eq!(
        WiringError::AlreadyResolved.message(),
        "Consistency error: trying to replace an existing dependency"
    );
    assert_eq!(
        WiringError::UnresolvableType.message(),
        "Missing rule: no resolver is declared for the requested type"
    );
}
