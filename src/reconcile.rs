//! The reconciler: what `init`, `check` and `update` decide, given the files of
//! a target and the digests computed for them.
use vstd::prelude::*;
use crate::store::{
    lemma_merged_contains, lemma_merged_untouched, lemma_record_map_lookup, merged, names_path,
    record_map, unique_paths, DigestMap, DigestStore, FileRecord,
};

verus! {

/// How a file compares with the store.
#[derive(PartialEq, Eq, Structural, Debug, Clone, Copy)]
pub enum FileStatus {
    /// The stored digest equals the current one.
    Unchanged,
    /// A digest is stored for the path and differs from the current one.
    Modified,
    /// No digest is stored for the path.
    Untracked,
}

/// The errors that the reconciliation rules report.
#[derive(PartialEq, Eq, Structural, Debug, Clone, Copy)]
pub enum IntegrityError {
    /// A comparison was asked for a path that has no stored digest.
    MissingDigest,
    /// The target is neither a regular file nor a directory.
    InvalidTarget,
}

/// What a target path turned out to be.
#[derive(PartialEq, Eq, Structural, Debug, Clone, Copy)]
pub enum TargetKind {
    File,
    Directory,
    Other,
}

/// The status of a file with path `path` and current digest `digest`.
pub open spec fn status_of(m: DigestMap, path: Seq<char>, digest: Seq<char>) -> FileStatus {
    if !m.contains_key(path) {
        FileStatus::Untracked
    } else if m[path] == digest {
        FileStatus::Unchanged
    } else {
        FileStatus::Modified
    }
}

/// The report of `check`: one status per observed file, in order.
pub open spec fn check_report(m: DigestMap, observed: Seq<FileRecord>) -> Seq<FileStatus> {
    Seq::new(observed.len(), |i: int| status_of(m, observed[i].path@, observed[i].digest@))
}

/// Compares the current digest of `path` with the one stored for it.
/// Fails with `MissingDigest` exactly when no digest is stored for `path`.
pub fn compare_hash(path: &String, current: &String, hashes: &DigestStore) -> (r: Result<
    bool,
    IntegrityError,
>)
    requires
        hashes.wf(),
    ensures
        r is Ok <==> hashes@.contains_key(path@),
        r matches Ok(same) ==> same == (hashes@[path@] == current@),
        r matches Err(e) ==> e == IntegrityError::MissingDigest,
{
    match hashes.get(path) {
        Some(stored) => Ok(*stored == *current),
        None => Err(IntegrityError::MissingDigest),
    }
}

/// Records `current` as the digest of `path`, inserting or replacing it.
pub fn update_hash(path: &String, current: String, hashes: &mut DigestStore)
    requires
        old(hashes).wf(),
    ensures
        final(hashes).wf(),
        final(hashes)@ == old(hashes)@.insert(path@, current@),
{
    hashes.insert(path.clone(), current);
}

/// The status of one file: a missing digest is a result, not a failure.
pub fn classify(store: &DigestStore, path: &String, current: &String) -> (r: FileStatus)
    requires
        store.wf(),
    ensures
        r == status_of(store@, path@, current@),
{
    match compare_hash(path, current, store) {
        Ok(true) => FileStatus::Unchanged,
        Ok(false) => FileStatus::Modified,
        Err(_) => FileStatus::Untracked,
    }
}

/// The files that an operation on a target covers: the target itself if it
/// is a file, its immediate entries (one level, no recursion) if it is a
/// directory. Fails with `InvalidTarget` when it is neither.
pub fn target_files(kind: TargetKind, target: String, entries: Vec<String>) -> (r: Result<
    Vec<String>,
    IntegrityError,
>)
    ensures
        kind == TargetKind::File ==> (r matches Ok(files) && files@.len() == 1 && files@[0]
            == target),
        kind == TargetKind::Directory ==> (r matches Ok(files) && files@ == entries@),
        kind == TargetKind::Other ==> r == Err::<Vec<String>, IntegrityError>(
            IntegrityError::InvalidTarget,
        ),
{
    match kind {
        TargetKind::File => Ok(vec![target]),
        TargetKind::Directory => Ok(entries),
        TargetKind::Other => Err(IntegrityError::InvalidTarget),
    }
}

/// `init`: the new store is exactly the observed files with their digests;
/// whatever was stored before is discarded.
pub fn init_store(observed: &Vec<FileRecord>) -> (r: DigestStore)
    ensures
        r.wf(),
        r@ == record_map(observed@),
{
    DigestStore::from_rows(observed)
}

/// `check`: one status per observed file, in order; the store is not changed.
pub fn check_files(store: &DigestStore, observed: &Vec<FileRecord>) -> (r: Vec<FileStatus>)
    requires
        store.wf(),
    ensures
        r@ == check_report(store@, observed@),
{
    let mut out: Vec<FileStatus> = Vec::new();
    let mut i: usize = 0;
    while i < observed.len()
        invariant
            i <= observed@.len(),
            store.wf(),
            out@ == check_report(store@, observed@).subrange(0, i as int),
        decreases observed@.len() - i,
    {
        let status = classify(store, &observed[i].path, &observed[i].digest);
        out.push(status);
        assert(out@ =~= check_report(store@, observed@).subrange(0, i + 1));
        i = i + 1;
    }
    assert(out@ =~= check_report(store@, observed@));
    out
}

/// `update`: the observed digests are merged into the loaded store, each
/// inserting or replacing the digest of its path; other paths are kept.
pub fn update_store(store: &mut DigestStore, observed: &Vec<FileRecord>)
    requires
        old(store).wf(),
    ensures
        final(store).wf(),
        final(store)@ == merged(old(store)@, observed@),
{
    store.merge(observed);
}

proof fn lemma_merged_reinsert(m: DigestMap, rows: Seq<FileRecord>, k: Seq<char>, v: Seq<char>)
    ensures
        merged(m.insert(k, v), rows).insert(k, v) == merged(m, rows).insert(k, v),
    decreases rows.len(),
{
    if rows.len() == 0 {
        assert(m.insert(k, v).insert(k, v) =~= m.insert(k, v));
    } else {
        let prev = rows.drop_last();
        let (pk, pv) = (rows.last().path@, rows.last().digest@);
        lemma_merged_reinsert(m, prev, k, v);
        let a = merged(m.insert(k, v), prev);
        let b = merged(m, prev);
        if pk == k {
            assert(a.insert(pk, pv).insert(k, v) =~= a.insert(k, v));
            assert(b.insert(pk, pv).insert(k, v) =~= b.insert(k, v));
        } else {
            assert(a.insert(pk, pv).insert(k, v) =~= a.insert(k, v).insert(pk, pv));
            assert(b.insert(pk, pv).insert(k, v) =~= b.insert(k, v).insert(pk, pv));
        }
    }
}

/// `update` is idempotent: merging the same observed digests a second time
/// changes nothing.
pub proof fn lemma_update_idempotent(m: DigestMap, observed: Seq<FileRecord>)
    ensures
        merged(merged(m, observed), observed) == merged(m, observed),
    decreases observed.len(),
{
    if observed.len() > 0 {
        let prev = observed.drop_last();
        let (k, v) = (observed.last().path@, observed.last().digest@);
        lemma_update_idempotent(m, prev);
        lemma_merged_reinsert(merged(m, prev), prev, k, v);
    }
}

/// `check` right after `init` on the same files, none of them modified,
/// reports every file unchanged.
pub proof fn lemma_check_after_init(observed: Seq<FileRecord>)
    requires
        unique_paths(observed),
    ensures
        forall|i: int|
            0 <= i < observed.len() ==> #[trigger] check_report(record_map(observed), observed)[i]
                == FileStatus::Unchanged,
{
    assert forall|i: int| 0 <= i < observed.len() implies #[trigger] check_report(
        record_map(observed),
        observed,
    )[i] == FileStatus::Unchanged by {
        lemma_record_map_lookup(observed, i);
    }
}

/// `check` after `init`, with the content of one file changed since, reports
/// that file modified and every other file unchanged.
pub proof fn lemma_check_after_modify(observed: Seq<FileRecord>, j: int, changed: FileRecord)
    requires
        unique_paths(observed),
        0 <= j < observed.len(),
        changed.path@ == observed[j].path@,
        changed.digest@ != observed[j].digest@,
    ensures
        check_report(record_map(observed), observed.update(j, changed))[j] == FileStatus::Modified,
        forall|i: int|
            0 <= i < observed.len() && i != j ==> #[trigger] check_report(
                record_map(observed),
                observed.update(j, changed),
            )[i] == FileStatus::Unchanged,
{
    lemma_record_map_lookup(observed, j);
    assert forall|i: int| 0 <= i < observed.len() && i != j implies #[trigger] check_report(
        record_map(observed),
        observed.update(j, changed),
    )[i] == FileStatus::Unchanged by {
        lemma_record_map_lookup(observed, i);
    }
}

/// A path that no `init` and no later `update` ever recorded is reported
/// untracked, while every other file of the same check still gets its own
/// status.
pub proof fn lemma_check_untracked(
    initial: Seq<FileRecord>,
    updated: Seq<FileRecord>,
    observed: Seq<FileRecord>,
    i: int,
)
    requires
        0 <= i < observed.len(),
        !names_path(initial, observed[i].path@),
        !names_path(updated, observed[i].path@),
    ensures
        check_report(merged(record_map(initial), updated), observed).len() == observed.len(),
        check_report(merged(record_map(initial), updated), observed)[i] == FileStatus::Untracked,
        forall|j: int|
            0 <= j < observed.len() ==> #[trigger] check_report(
                merged(record_map(initial), updated),
                observed,
            )[j] == status_of(
                merged(record_map(initial), updated),
                observed[j].path@,
                observed[j].digest@,
            ),
{
    let p = observed[i].path@;
    lemma_merged_contains(DigestMap::empty(), initial, p);
    lemma_merged_untouched(record_map(initial), updated, p);
}

} // verus!
