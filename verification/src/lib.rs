//! A user-session service supervisor: loads a dependency graph of service
//! descriptors from layered configuration directories, validates it (override
//! by first match, cycle detection), and drives the lifecycle of the described
//! processes for one login session.

pub mod desc;
pub mod errors;
pub mod loader;
pub mod manager;
pub mod node;
