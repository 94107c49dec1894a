//! Host runtime for untrusted checker modules: a bump-allocating memory
//! manager that injects named datasets into a guest's linear memory, a
//! dataset registry, append-only pass/fail state, and the host functions a
//! guest calls to report verdicts.

pub mod checker;
pub mod memory;
pub mod wasm;
pub mod wire;
