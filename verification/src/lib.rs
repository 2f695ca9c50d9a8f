//! Verified core of a live asset-bundle proxy: request routing and HTTP
//! framing, the hash-to-entity index, bundle resolution, cache eviction,
//! the serve-or-fall-back decisions, build timestamps, and the GPU block
//! layout.

pub mod bundle;
pub mod calendar;
pub mod content;
pub mod eviction;
pub mod gpu;
pub mod http;
pub mod index;
pub mod route;
pub mod serve;
pub mod text;
pub mod versions;
