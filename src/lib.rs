//! A self-installing chain of contracts on a modelled execution engine.
//!
//! The engine keeps an append-only registry of contracts, each with a fixed
//! table of entry points and a fixed namespace of named keys. The probe
//! installs three generations that point back at each other and dispatches a
//! call through the chain until it reaches the first generation.
pub mod engine;
pub mod probe;
pub mod types;

pub use probe::{call, contract_ext};
pub use engine::{Checkpoint, Contract, ContractView, Engine, EngineView};
pub use types::{
    ApiError, CLType, ContractHash, EntryPoint, EntryPointAccess, EntryPointType, EntryPoints, Key,
    NamedKeys, Parameter,
};
