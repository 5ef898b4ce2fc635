//! Concord: the authority path of a scientific campaign kernel.

pub mod allocator;
pub mod canonical;
pub mod capabilities;
pub mod clock;
pub mod dispatch;
pub mod epact;
pub mod epact_eval;
pub mod epact_runtime;
pub mod kernel;
pub mod kernel_laws;
pub mod notes;
pub mod openai_compatible;
pub mod operational;
pub mod order;
pub mod packages;
pub mod records;
pub mod reference;
pub mod search;
pub mod snapshot;
pub mod sorting;
pub mod store;
pub mod store_laws;
pub mod text;
pub mod verifiability;
pub mod workspaces;
