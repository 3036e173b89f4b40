//! The data the indexer works on: configured roots, the files a scan
//! discovered, and the resources built from them.

use vstd::prelude::*;

use crate::fingerprint::id_spec;
use crate::fingerprint::resource_id;

verus! {

/// The configuration the indexer's caller owns: the ordered list of root
/// paths a run scans. Read-only for the lifetime of a run, and cloned per
/// run so concurrent runs never alias mutable state.
#[derive(Clone)]
pub struct ResourceReader {
    pub local_resource_paths: Vec<String>,
}

/// One file a scan discovered under some root, together with the outcome of
/// the metadata-extraction step: `captured_at` is the capture timestamp in
/// seconds when extraction succeeded, and `None` when it failed or the file
/// carries no such field. A failed extraction still yields a `ScannedFile`,
/// so the file is indexed with its path-derived identity alone.
pub struct ScannedFile {
    pub path: String,
    pub captured_at: Option<u64>,
}

/// Everything one configured root contributed to a scan. A root that does
/// not exist or cannot be read contributes an empty `files` list.
pub struct RootScan {
    pub root: String,
    pub files: Vec<ScannedFile>,
}

/// One resource as it is installed in the store: a stable identifier derived
/// from the path, the originating path, and the metadata that augmentation
/// could establish. Resources are built fresh every run and never mutated.
pub struct Resource {
    pub id: String,
    pub path: String,
    pub captured_at: Option<u64>,
}

impl ResourceReader {
    /// Wraps a list of root paths as the indexer's configuration.
    pub fn new(local_resource_paths: Vec<String>) -> (r: ResourceReader)
        ensures
            r.local_resource_paths@ == local_resource_paths@,
    {
        ResourceReader { local_resource_paths }
    }
}

/// Builds the resource for one discovered file. Whatever the augmentation
/// outcome was, the file is included: the identifier and path are always
/// established, and a failed extraction merely leaves `captured_at` empty.
pub fn build_resource(f: &ScannedFile) -> (r: Resource)
    ensures
        r.id@ == id_spec(f.path@),
        r.path@ == f.path@,
        r.captured_at == f.captured_at,
{
    Resource { id: resource_id(f.path.as_str()), path: f.path.clone(), captured_at: f.captured_at }
}

} // verus!
