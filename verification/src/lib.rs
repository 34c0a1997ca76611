//! A generic caching layer that keeps locally stored values synchronized with
//! an authoritative external source while bounding storage through eviction.
//!
//! The crate is organised around three capability interfaces:
//! [`store::CacheStoreStrategy`] (key/value persistence),
//! [`source_of_record::SourceOfRecord`] (the authority that produces values
//! and judges their freshness), and [`hydration::CacheHydrationStrategy`]
//! (the policy that decides when and how to consult the source).

pub mod hydration;
pub mod keys;
pub mod managed_cache;
pub mod source_of_record;
pub mod store;
