//! Dependency injection with composable resolution rules and modules.
//!
//! A resolver module lists the recipes of a family of components. An injector
//! pairs one module with one registry of providers, builds each provider on first
//! demand, caches it, and reports cyclic dependencies instead of looping.
//!
//! # Components, keys and constructors
//!
//! The components of one injector share a carrier type `T`, most often an enum
//! with one variant per kind of component, and every instance is handed out as
//! an `Arc<T>`. A component is named by a `u64` key. A constructor is any type
//! that implements [`Callable`]: it receives one instance of each component that
//! its recipe takes, in order, and returns the new component.
//!
//! ```text
//! let mut module = ResolverModule::new();
//! module.resolve_singleton(CLOCK, vec![], Build::clock());
//! module.resolve_instance(REPORT, vec![CLOCK], Build::report());
//!
//! let mut injector = Hanami::new(module);
//! let first = injector.inject(REPORT)?;   // a new report ...
//! let second = injector.inject(REPORT)?;  // ... and another, on the same clock
//! ```
//!
//! # Mechanism
//!
//! * [`Provide`] is what yields an instance: a [`SingletonProvider`] holds the
//!   one shared instance, a [`FactoryProvider`] constructs on each request.
//! * [`ResolverModule`] holds the recipes, its own and those of the modules it
//!   delegates to, and builds a provider from a recipe ([`Resolve`]).
//! * [`TypeMap`] is the registry: one slot per key, which is empty, resolving or
//!   ready. It resolves a key through a module ([`ProviderMap`]).
//! * [`Hanami`] pairs a registry with a root module.
//!
//! # Cyclical dependencies
//!
//! A component that is requested while its own provider is being built is
//! reported as [`WiringError::CyclicResolution`]. The bookings of the failed
//! build are given up, so the registry is left at rest and can be used again.
//!
//! # Override
//!
//! The provider of a component can be set by hand before the component is first
//! resolved, for instance to a mock: see [`Hanami::set_provider`].

pub mod cycles;
pub mod inject;
pub mod laws;
pub mod module;
pub mod provide;
pub mod registry;
pub mod resolve;

pub use inject::Hanami;
pub use module::{Recipe, ResolverModule, Scope};
pub use provide::{
    Callable, FactoryProvider, InstanceProvider, Provide, Provider, SingletonProvider,
    TupleProvider,
};
pub use registry::{TypeMap, TypeMapContent, TypeMapEntry, WiringError};
pub use resolve::{Injectable, ProviderMap, Resolve};
