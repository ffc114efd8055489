//! Where a table lives: a local directory, or remote object storage named by
//! a URI.

use vstd::prelude::*;
use crate::config::{has_prefix, starts_with_text};

verus! {

/// A location on remote storage: it starts with `abfss://` or `az://`.
pub open spec fn is_remote(path: Seq<char>) -> bool {
    has_prefix(path, "abfss://"@) || has_prefix(path, "az://"@)
}

/// Whether the table location is a remote URI, which is not looked up on
/// the local file system before opening.
pub fn is_remote_path(path: &str) -> (r: bool)
    ensures
        r == is_remote(path@),
{
    starts_with_text(path, "abfss://") || starts_with_text(path, "az://")
}

} // verus!
