//! Build-orchestration core for cross-compiled sysroots.
//!
//! The crate resolves compiler flags from layered configuration sources,
//! computes a cache-key contribution that is stable across flag variations
//! that do not affect the cached artifacts, and guards a shared on-disk
//! sysroot with per-target advisory locks.

pub mod cargo;
pub mod errors;
pub mod text;
pub mod tree;
pub mod xargo;
