//! Process and memory-layout introspection: the region model, permission
//! normalisation, map coalescing, window clipping and module resolution that sit
//! between an operating system's raw mapping records and a caller's callback.
pub mod coalesce;
pub mod error;
pub mod feed;
pub mod mapping;
pub mod model;
pub mod modules;
pub mod os;
pub mod pipeline;
pub mod process;
pub mod ranges;
pub mod region;
pub mod stream;
