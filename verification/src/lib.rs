//! A layered virtual filesystem.
//!
//! Reusable content layers are snapshotted from plain disk listings into
//! immutable, content-identified trees ([`layer`], [`node`], [`hashing`]),
//! composed in priority order into one merged view ([`merge`], [`compose`],
//! with its declarative semantics in [`overlay`] and the guarantees callers
//! lean on in [`laws`]), and queried by virtual path ([`paths`]) or for
//! aggregate counts ([`stats`]).  Around that core, [`config`],
//! [`structure`], [`registry`], [`save`] and [`etag`] hold the registry of
//! games, instances and save files that feeds the engine; all reading and
//! writing of the disk stays with the caller.

pub mod compose;
pub mod config;
pub mod etag;
pub mod hashing;
pub mod kv;
pub mod laws;
pub mod layer;
pub mod merge;
pub mod node;
pub mod overlay;
pub mod paths;
pub mod registry;
pub mod save;
pub mod stats;
pub mod structure;
