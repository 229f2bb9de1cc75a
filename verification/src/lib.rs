//! Verified logic of a build cache for Cargo: reading build plans and unit
//! graphs, computing unit hashes, rewriting fingerprints, and deciding what to
//! upload when the units of a build are saved.
pub mod build_plan;
pub mod course_laws;
pub mod fingerprint;
pub mod fingerprint_laws;
pub mod hash_laws;
pub mod hasher;
pub mod object_laws;
pub mod path;
pub mod plan_laws;
pub mod progress_laws;
pub mod save;
pub mod save_laws;
pub mod session;
pub mod session_laws;
pub mod string_map;
pub mod target;
pub mod text;
pub mod text_laws;
pub mod unit_graph;
pub mod unit_hash;
pub mod unit_walk;
pub mod view_laws;
