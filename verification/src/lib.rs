//! A per-application configuration persistence layer.
//!
//! A typed configuration object is loaded from a JSON file on disk, falling
//! back to its default value when the file is missing, and upgraded toward the
//! current default shape by a recursive default-biased merge when the on-disk
//! shape no longer deserializes directly. A secondary index — the known
//! projects — records which configuration files exist and when they were last
//! accessed.
//!
//! The crate verifies the decision logic: the merge engine, the load/save
//! protocol, the key resolution, and the index bookkeeping. File reads and
//! writes themselves are performed by the embedding application, which drives
//! the protocol step by step.

pub mod clock;
pub mod commands;
pub mod codec;
pub mod error;
pub mod json;
pub mod known_projects;
pub mod merge;
pub mod persistable_state;
pub mod persistence_key;
pub mod sample_config;
