//! A read-only filesystem core where entries mirror the objects stored in a
//! cloud bucket.
//!
//! The bucket is listed once, when the filesystem is built; every object
//! becomes a regular file under a single flat root directory. Object contents
//! are downloaded on a per-read basis with no caching, so changes made to the
//! bucket after construction are not visible through the filesystem.
//!
//! This crate holds the bridging core: the identity table that maps bucket
//! entries onto numeric inodes and attributes, and the handlers for the four
//! request kinds a filesystem transport issues (attribute lookup, name lookup,
//! directory enumeration, content read). Mounting, configuration loading and
//! the concrete storage client live outside it; the core reaches storage only
//! through the [`backends::Backend`] trait.

pub mod backends;
pub mod fs;

use vstd::prelude::*;

verus! {

/// Application configuration: which bucket to expose, where to mount it, and
/// which storage backend to use.
#[derive(Debug)]
pub struct Config {
    pub source: SourceOptions,
    pub filesystem: FilesystemOptions,
    pub backend: BackendOptions,
}

/// Names the bucket whose objects the filesystem exposes.
#[derive(Debug)]
pub struct SourceOptions {
    pub bucket_name: String,
}

/// Where the filesystem is to be mounted.
#[derive(Debug)]
pub struct FilesystemOptions {
    pub mountpoint: String,
}

/// Selects the storage backend and carries its options.
#[derive(Debug)]
pub enum BackendOptions {
    Aws(crate::backends::Options),
}

} // verus!
