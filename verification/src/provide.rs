//! Providers: handles that yield one instance of a component on demand.
//!
//! Every component of a given injector has the same carrier type `T`, and every
//! instance travels as an `Arc<T>`. A singleton provider hands out the handle it
//! stores; a factory provider builds a new instance on every request from the
//! values of the providers it depends on.

use std::sync::Arc;
use vstd::prelude::*;

verus! {

/// A callable with a single argument and a single return type.
///
/// A constructor receives its resolved dependencies as one argument list, of any
/// length, in the order in which its recipe declares them, and must cope with
/// every list: it is the constructor that tells its arguments apart.
pub trait Callable<Args: View, Ret> {
    /// The arguments that `call` can be given. A constructor may insist on the
    /// number of its arguments, which a recipe fixes; where an implementation
    /// says nothing, every argument is accepted.
    open spec fn accepts(&self, args: Args::V) -> bool {
        true
    }

    /// The value that `call` returns, as a function of the arguments alone. An
    /// implementation states here what it computes; where it does not, nothing
    /// is known of the value but that equal arguments give equal results.
    open spec fn output(&self, args: Args::V) -> Ret {
        arbitrary()
    }

    fn call(&self, args: Args) -> (ret: Ret)
        requires
            self.accepts(args@),
        ensures
            ret == self.output(args@),
    ;
}

/// Provide an instance of a given type.
///
/// This trait gives one interface to shared components (the provider holds the
/// singleton) and to on-demand instances (the provider is a factory).
pub trait Provide<T> {
    /// The provider can be asked: every constructor that it would call accepts
    /// the arguments that it would be given.
    spec fn usable(&self) -> bool;

    /// The instance that the next call of `provide` yields.
    spec fn provided(&self) -> T;

    fn provide(&self) -> (instance: T)
        requires
            self.usable(),
        ensures
            instance == self.provided(),
    ;
}

/// `Arc::clone`: the result is a second handle to the allocation of `handle`, so
/// it denotes the same value.
#[verifier::external_body]
pub(crate) fn share<T>(handle: &Arc<T>) -> (shared: Arc<T>)
    ensures
        shared == *handle,
{
    Arc::clone(handle)
}

/// Clone-based provider of one shared instance.
pub struct SingletonProvider<T>(pub Arc<T>);

/// Provider of single-use instances: each request feeds the current values of
/// `provider` through `constructor`.
pub struct FactoryProvider<T, F> {
    pub provider: TupleProvider<T, F>,
    pub constructor: Arc<F>,
}

/// On-demand instances are what a factory provides: the same provider, named
/// after its use.
pub type InstanceProvider<T, F> = FactoryProvider<T, F>;

/// Any provider that a registry can hold.
pub enum Provider<T, F> {
    Singleton(SingletonProvider<T>),
    Factory(FactoryProvider<T, F>),
}

/// An ordered list of providers, which provides the list of their instances.
pub enum TupleProvider<T, F> {
    Unit,
    Pair(Arc<Provider<T, F>>, Box<TupleProvider<T, F>>),
}

impl<T> SingletonProvider<T> {
    /// Wrap a shared instance into a ready-to-use provider handle.
    pub fn build<F>(data: Arc<T>) -> (handle: Arc<Provider<T, F>>)
        ensures
            *handle == Provider::<T, F>::Singleton(SingletonProvider(data)),
    {
        Arc::new(Provider::Singleton(SingletonProvider(data)))
    }
}

impl<T> Provide<Arc<T>> for SingletonProvider<T> {
    open spec fn usable(&self) -> bool {
        true
    }

    open spec fn provided(&self) -> Arc<T> {
        self.0
    }

    fn provide(&self) -> (instance: Arc<T>) {
        share(&self.0)
    }
}

impl<T, F> FactoryProvider<T, F> {
    /// A factory that feeds what `provider` yields through `constructor`.
    pub fn new(provider: TupleProvider<T, F>, constructor: Arc<F>) -> (factory: Self)
        ensures
            factory == (FactoryProvider { provider, constructor }),
    {
        FactoryProvider { provider, constructor }
    }
}

impl<T, F: Callable<Vec<Arc<T>>, T>> TupleProvider<T, F> {
    /// The number of providers in the list.
    pub open spec fn len(&self) -> nat
        decreases self,
    {
        match self {
            TupleProvider::Unit => 0,
            TupleProvider::Pair(_, rest) => 1 + rest.len(),
        }
    }

    /// The providers of the list, in order.
    pub open spec fn providers(&self) -> Seq<Arc<Provider<T, F>>>
        decreases self,
    {
        match self {
            TupleProvider::Unit => Seq::empty(),
            TupleProvider::Pair(first, rest) => seq![*first] + rest.providers(),
        }
    }

    /// The instances that the providers of the list yield, in order.
    pub open spec fn provided(&self) -> Seq<Arc<T>>
        decreases self,
    {
        match self {
            TupleProvider::Unit => Seq::empty(),
            TupleProvider::Pair(first, rest) => seq![first.provided()] + rest.provided(),
        }
    }

    /// Every provider of the list can be asked.
    pub open spec fn usable(&self) -> bool
        decreases self,
    {
        match self {
            TupleProvider::Unit => true,
            TupleProvider::Pair(first, rest) => first.usable() && rest.usable(),
        }
    }

    /// The list has as many providers and instances as its length says, and
    /// each instance is what the provider in its place yields.
    pub proof fn lemma_provided(self)
        ensures
            self.providers().len() == self.len(),
            self.provided().len() == self.len(),
            forall|i: int|
                0 <= i < self.len() ==> #[trigger] self.provided()[i]
                    == self.providers()[i].provided(),
        decreases self,
    {
        match self {
            TupleProvider::Unit => {},
            TupleProvider::Pair(first, rest) => {
                rest.lemma_provided();
                assert(self.provided() =~= seq![first.provided()] + rest.provided());
            },
        }
    }

    /// Ask every provider of the list for an instance, left to right.
    pub fn provide(&self) -> (instances: Vec<Arc<T>>)
        requires
            self.usable(),
        ensures
            instances@ == self.provided(),
        decreases self,
    {
        let mut instances: Vec<Arc<T>> = Vec::new();
        let mut cursor = self;
        loop
            invariant
                instances@ + cursor.provided() == self.provided(),
                cursor.usable(),
                cursor == self || decreases_to!(self => cursor),
            ensures
                instances@ == self.provided(),
            decreases cursor,
        {
            match cursor {
                TupleProvider::Unit => {
                    break ;
                },
                TupleProvider::Pair(first, rest) => {
                    let instance = first.provide();
                    proof {
                        assert(instances@.push(instance) + rest.provided() =~= instances@
                            + cursor.provided());
                    }
                    instances.push(instance);
                    cursor = &**rest;
                },
            }
        }
        instances
    }
}

impl<T, F: Callable<Vec<Arc<T>>, T>> Provide<Arc<T>> for FactoryProvider<T, F> {
    open spec fn usable(&self) -> bool
        decreases self,
    {
        self.provider.usable() && self.constructor.accepts(self.provider.provided())
    }

    open spec fn provided(&self) -> Arc<T>
        decreases self,
    {
        Arc::new(self.constructor.output(self.provider.provided()))
    }

    fn provide(&self) -> (instance: Arc<T>)
        decreases self,
    {
        Arc::new(self.constructor.call(self.provider.provide()))
    }
}

impl<T, F: Callable<Vec<Arc<T>>, T>> Provide<Arc<T>> for Provider<T, F> {
    open spec fn usable(&self) -> bool
        decreases self,
    {
        match self {
            Provider::Singleton(singleton) => singleton.usable(),
            Provider::Factory(factory) => factory.usable(),
        }
    }

    open spec fn provided(&self) -> Arc<T>
        decreases self,
    {
        match self {
            Provider::Singleton(singleton) => singleton.provided(),
            Provider::Factory(factory) => factory.provided(),
        }
    }

    fn provide(&self) -> (instance: Arc<T>)
        decreases self,
    {
        match self {
            Provider::Singleton(singleton) => singleton.provide(),
            Provider::Factory(factory) => factory.provide(),
        }
    }
}

} // verus!
