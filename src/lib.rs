//! File-integrity tracking: content digests, a path-to-digest store, and the
//! `init` / `check` / `update` reconciliation rules built on them.
pub mod digest;
pub mod reconcile;
pub mod store;

pub use digest::{digest_bytes, to_lower_hex, DigestEngine};
pub use reconcile::{
    check_files, classify, compare_hash, init_store, target_files, update_hash, update_store,
    FileStatus, IntegrityError, TargetKind,
};
pub use store::{DigestStore, FileRecord};
