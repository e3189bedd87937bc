//! A sandboxed virtual filesystem core: a segment-based path model that
//! confines every real path under one root directory, the planning of
//! entity operations on those paths, collision-free naming, directory
//! listings, an archive engine with zip-slip protection, and the
//! controller of a single background capture worker.

use vstd::prelude::*;

pub mod archive;
pub mod error;
pub mod file_path;
pub mod folder;
pub mod forms;
pub mod forward;
pub mod listing;
pub mod metadata;
pub mod naming;
pub mod timelapse;
pub mod upload;
pub mod user;
pub mod strutil;
