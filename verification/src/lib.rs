//! Core of a version-resolution engine for a package manager: translation of
//! user-facing requirements into resolver constraints, and an adaptive batch
//! prefetcher that speculatively requests package metadata while the resolver
//! runs.

pub mod identity;
pub mod version_range;
pub mod prefetch;
pub mod translate;
pub mod burst;
