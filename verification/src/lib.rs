//! A fork-aware cache of verified and compiled on-chain programs.
//!
//! The cache keeps, for each program address, the versions of the program
//! that were deployed on any fork ([`second_level`]), and serves batches of
//! transactions the versions that are visible on their fork ([`extract`],
//! [`batch`]). Workers that miss the same program load it once between them
//! ([`loader`], [`loading_task`]). Rerooting removes what became unreachable
//! ([`prune`]), and eviction bounds the number of compiled programs
//! ([`evict`]). What holds across these operations is stated in [`laws`].
//!
//! The programs themselves, the environments they run in and the fork graph
//! are not part of the cache: it holds handles of the first two
//! ([`loaded_program`], [`environment`]) and asks the third ([`fork_graph`]).

pub mod address;
pub mod address_map;
pub mod batch;
pub mod cache;
pub mod environment;
pub mod evict;
pub mod extract;
pub mod fork_graph;
pub mod laws;
pub mod loaded_program;
pub mod loader;
pub mod loading_task;
pub mod outside;
pub mod prioritization_fee;
pub mod prune;
pub mod recording;
pub mod rent_state;
pub mod second_level;
pub mod stats;
