//! The storage interface the filesystem core consumes, and the data it
//! exchanges with a backend.
//!
//! A backend is asynchronous and network-bound by nature; the core, however,
//! must answer each request before doing further work. The [`Backend`] trait
//! is therefore the *blocking* face of a storage service: implementations
//! (outside this crate) own an executor, submit the underlying asynchronous
//! call to it, and park the calling thread until the outcome arrives.

use vstd::prelude::*;

verus! {

/// A failure reported by a storage backend, carried upward unchanged in kind.
#[derive(Debug, Clone)]
pub struct BackendError {
    pub message: String,
}

/// One entry of a bucket listing, as the wire delivers it: every field the
/// table needs may be absent. Validation happens during table construction,
/// not here.
#[derive(Debug, Clone)]
pub struct RawEntry {
    /// The object's key (its name), if the listing carried one.
    pub key: Option<String>,
    /// The object's size in bytes.
    pub size: u64,
    /// Seconds since the Unix epoch at which the object was last modified,
    /// if the listing carried a representable timestamp.
    pub last_modified: Option<u64>,
}

/// A bucket entry that passed validation: all three required fields present.
#[derive(Debug, Clone)]
pub struct Object {
    pub name: String,
    pub size: u64,
    pub last_modified: u64,
}

/// An entry may enter the identity table exactly when its key and its
/// timestamp are both present.
pub open spec fn entry_is_valid(e: RawEntry) -> bool {
    e.key is Some && e.last_modified is Some
}

/// The object a valid entry stands for.
pub open spec fn spec_object_of(e: RawEntry) -> Object
    recommends
        entry_is_valid(e),
{
    Object { name: e.key->0, size: e.size, last_modified: e.last_modified->0 }
}

/// Extracts the three required fields from a listing entry, or reports that
/// one is missing. This is the only place partial data is tolerated: an
/// invalid entry is dropped by the caller and construction continues.
pub fn try_from_entry(e: &RawEntry) -> (r: Option<Object>)
    ensures
        entry_is_valid(*e) ==> r == Some(spec_object_of(*e)),
        !entry_is_valid(*e) ==> r is None,
{
    match (&e.key, e.last_modified) {
        (Some(name), Some(mtime)) => Some(
            Object { name: name.clone(), size: e.size, last_modified: mtime },
        ),
        _ => None,
    }
}

/// The blocking face of a storage service. The core calls `list_objects`
/// exactly once, at construction, and `download_object` once per content
/// read. Nothing is assumed of either call's outcome: the core is verified
/// for every value a backend may return.
pub trait Backend {
    /// Best-effort current contents of the bucket.
    fn list_objects(&self, bucket_name: &str) -> Result<Vec<RawEntry>, BackendError>;

    /// The complete byte content of the object addressed by `key`.
    fn download_object(&self, bucket_name: &str, key: &str) -> Result<Vec<u8>, BackendError>;
}

/// Options for the cloud object-store backend: at most an endpoint override,
/// as an absolute URI in text form.
#[derive(Debug)]
pub struct Options {
    pub endpoint_uri: Option<String>,
}

} // verus!
