//! Data layer of a desktop music player.
//!
//! The crate turns a walked local directory tree, or the records fetched from
//! a Subsonic-compatible media server, into one unified collection of tracks
//! and hierarchical folders, with a revision fingerprint for cheap change
//! detection, an incremental per-root metadata cache, and an on-demand cover
//! art service.
//!
//! Everything that decides or computes lives here, verified; the surrounding
//! application performs the filesystem walks, tag probes and HTTP calls and
//! hands their outcomes in as plain values.

pub mod assoc;
pub mod cache;
pub mod codec;
pub mod cover;
pub mod fingerprint;
pub mod ini;
pub mod local;
pub mod meta;
pub mod model;
pub mod remote;
pub mod roots;
pub mod scan_laws;
pub mod strutil;
