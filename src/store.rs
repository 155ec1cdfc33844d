//! The digest store: a mapping from file path to digest string, kept as a
//! list of records with unique paths, and its conversion to and from the rows
//! of a durable medium.
use vstd::prelude::*;

verus! {

/// One path and the digest recorded for it.
pub struct FileRecord {
    pub path: String,
    pub digest: String,
}

/// The mapping from path to digest, in the model.
pub type DigestMap = Map<Seq<char>, Seq<char>>;

/// `m` with the records applied in order, each one inserting or replacing
/// the digest of its path: a later record for a path shadows an earlier one.
pub open spec fn merged(m: DigestMap, rows: Seq<FileRecord>) -> DigestMap
    decreases rows.len(),
{
    if rows.len() == 0 {
        m
    } else {
        merged(m, rows.drop_last()).insert(rows.last().path@, rows.last().digest@)
    }
}

/// The mapping that a list of records describes, later records shadowing
/// earlier ones for the same path.
pub open spec fn record_map(rows: Seq<FileRecord>) -> DigestMap {
    merged(Map::empty(), rows)
}

/// No two records name the same path.
pub open spec fn unique_paths(rows: Seq<FileRecord>) -> bool {
    forall|i: int, j: int|
        0 <= i < rows.len() && 0 <= j < rows.len() && i != j ==> rows[i].path@ != rows[j].path@
}

/// Some record names path `p`.
pub open spec fn names_path(rows: Seq<FileRecord>, p: Seq<char>) -> bool {
    exists|i: int| 0 <= i < rows.len() && rows[i].path@ == p
}

/// A path holds after merging exactly when it held before or a record names it.
pub proof fn lemma_merged_contains(m: DigestMap, rows: Seq<FileRecord>, p: Seq<char>)
    ensures
        merged(m, rows).contains_key(p) <==> (m.contains_key(p) || names_path(rows, p)),
    decreases rows.len(),
{
    if rows.len() > 0 {
        let prev = rows.drop_last();
        lemma_merged_contains(m, prev, p);
        if names_path(prev, p) {
            let i = choose|i: int| 0 <= i < prev.len() && prev[i].path@ == p;
            assert(rows[i].path@ == p);
        }
        if names_path(rows, p) && rows.last().path@ != p {
            let i = choose|i: int| 0 <= i < rows.len() && rows[i].path@ == p;
            assert(prev[i].path@ == p);
        }
    }
}

/// A path that no record names keeps its digest.
pub proof fn lemma_merged_untouched(m: DigestMap, rows: Seq<FileRecord>, p: Seq<char>)
    requires
        !names_path(rows, p),
    ensures
        merged(m, rows).contains_key(p) == m.contains_key(p),
        merged(m, rows)[p] == m[p],
    decreases rows.len(),
{
    if rows.len() > 0 {
        let prev = rows.drop_last();
        assert(rows.last().path@ != p);
        assert forall|i: int| 0 <= i < prev.len() implies prev[i].path@ != p by {
            assert(rows[i].path@ != p);
        }
        lemma_merged_untouched(m, prev, p);
    }
}

/// A record that no later record shadows decides the digest of its path.
pub proof fn lemma_merged_latest(m: DigestMap, rows: Seq<FileRecord>, i: int)
    requires
        0 <= i < rows.len(),
        forall|j: int| i < j < rows.len() ==> rows[j].path@ != rows[i].path@,
    ensures
        merged(m, rows).contains_key(rows[i].path@),
        merged(m, rows)[rows[i].path@] == rows[i].digest@,
    decreases rows.len(),
{
    let prev = rows.drop_last();
    if i < rows.len() - 1 {
        assert forall|j: int| i < j < prev.len() implies prev[j].path@ != prev[i].path@ by {
            assert(rows[j].path@ != rows[i].path@);
        }
        lemma_merged_latest(m, prev, i);
    }
}

/// With unique paths, every record's digest is the one the mapping holds.
pub proof fn lemma_record_map_lookup(rows: Seq<FileRecord>, i: int)
    requires
        unique_paths(rows),
        0 <= i < rows.len(),
    ensures
        record_map(rows).contains_key(rows[i].path@),
        record_map(rows)[rows[i].path@] == rows[i].digest@,
{
    lemma_merged_latest(Map::empty(), rows, i);
}

/// With unique paths, the mapping has one path per record.
pub proof fn lemma_record_map_len(rows: Seq<FileRecord>)
    requires
        unique_paths(rows),
    ensures
        record_map(rows).dom().finite(),
        record_map(rows).dom().len() == rows.len(),
    decreases rows.len(),
{
    if rows.len() > 0 {
        let prev = rows.drop_last();
        assert(unique_paths(prev)) by {
            assert forall|i: int, j: int|
                0 <= i < prev.len() && 0 <= j < prev.len() && i != j implies prev[i].path@
                != prev[j].path@ by {
                assert(rows[i].path@ != rows[j].path@);
            }
        }
        lemma_record_map_len(prev);
        let last = rows.last().path@;
        assert forall|i: int| 0 <= i < prev.len() implies prev[i].path@ != last by {
            assert(rows[i].path@ != rows[rows.len() - 1].path@);
        }
        lemma_merged_contains(Map::empty(), prev, last);
    }
}

/// Replacing the digest of one record of a list with unique paths replaces
/// that path's digest in the mapping.
pub proof fn lemma_record_map_replace(rows: Seq<FileRecord>, i: int, r: FileRecord)
    requires
        unique_paths(rows),
        0 <= i < rows.len(),
        r.path@ == rows[i].path@,
    ensures
        unique_paths(rows.update(i, r)),
        record_map(rows.update(i, r)) == record_map(rows).insert(r.path@, r.digest@),
{
    let new_rows = rows.update(i, r);
    assert(unique_paths(new_rows)) by {
        assert forall|a: int, b: int|
            0 <= a < new_rows.len() && 0 <= b < new_rows.len() && a != b implies new_rows[a].path@
            != new_rows[b].path@ by {
            assert(new_rows[a].path@ == rows[a].path@);
            assert(new_rows[b].path@ == rows[b].path@);
        }
    }
    let lhs = record_map(new_rows);
    let rhs = record_map(rows).insert(r.path@, r.digest@);
    assert forall|p: Seq<char>| #[trigger] lhs.contains_key(p) == rhs.contains_key(p) && (
    lhs.contains_key(p) ==> lhs[p] == rhs[p]) by {
        lemma_merged_contains(Map::empty(), new_rows, p);
        lemma_merged_contains(Map::empty(), rows, p);
        if p == r.path@ {
            lemma_record_map_lookup(new_rows, i);
        } else if names_path(rows, p) {
            let j = choose|j: int| 0 <= j < rows.len() && rows[j].path@ == p;
            assert(new_rows[j] == rows[j]);
            lemma_record_map_lookup(new_rows, j);
            lemma_record_map_lookup(rows, j);
        } else {
            assert forall|j: int| 0 <= j < new_rows.len() implies new_rows[j].path@ != p by {
                assert(new_rows[j].path@ == rows[j].path@);
            }
        }
    }
    assert(lhs =~= rhs);
}

/// The digest store held in memory: one record per path.
pub struct DigestStore {
    entries: Vec<FileRecord>,
}

impl View for DigestStore {
    type V = DigestMap;

    closed spec fn view(&self) -> DigestMap {
        record_map(self.entries@)
    }
}

fn copy_record(r: &FileRecord) -> (c: FileRecord)
    ensures
        c == *r,
{
    FileRecord { path: r.path.clone(), digest: r.digest.clone() }
}

impl DigestStore {
    /// Paths are unique among the records.
    pub closed spec fn wf(&self) -> bool {
        unique_paths(self.entries@)
    }

    /// An empty store.
    pub fn new() -> (r: DigestStore)
        ensures
            r.wf(),
            r@ == DigestMap::empty(),
    {
        DigestStore { entries: Vec::new() }
    }

    /// The number of paths held.
    pub fn len(&self) -> (r: usize)
        requires
            self.wf(),
        ensures
            self@.dom().finite(),
            r == self@.dom().len(),
    {
        proof {
            lemma_record_map_len(self.entries@);
        }
        self.entries.len()
    }

    /// Whether no path is held.
    pub fn is_empty(&self) -> (r: bool)
        requires
            self.wf(),
        ensures
            r <==> self@ == DigestMap::empty(),
    {
        proof {
            lemma_record_map_len(self.entries@);
            if self.entries@.len() > 0 {
                lemma_record_map_lookup(self.entries@, 0);
            }
        }
        let r = self.entries.len() == 0;
        if r {
            assert(self@ =~= DigestMap::empty());
        }
        r
    }

    fn position(&self, path: &String) -> (r: Option<usize>)
        requires
            self.wf(),
        ensures
            r matches Some(i) ==> i < self.entries@.len() && self.entries@[i as int].path@ == path@,
            r is None ==> !names_path(self.entries@, path@),
    {
        let mut i: usize = 0;
        while i < self.entries.len()
            invariant
                i <= self.entries@.len(),
                forall|j: int| 0 <= j < i ==> self.entries@[j].path@ != path@,
            decreases self.entries@.len() - i,
        {
            if self.entries[i].path == *path {
                return Some(i);
            }
            i = i + 1;
        }
        None
    }

    /// The digest stored for `path`, if any.
    pub fn get(&self, path: &String) -> (r: Option<&String>)
        requires
            self.wf(),
        ensures
            r is Some <==> self@.contains_key(path@),
            r matches Some(d) ==> d@ == self@[path@],
    {
        proof {
            lemma_merged_contains(DigestMap::empty(), self.entries@, path@);
        }
        match self.position(path) {
            Some(i) => {
                proof {
                    lemma_record_map_lookup(self.entries@, i as int);
                }
                Some(&self.entries[i].digest)
            },
            None => None,
        }
    }

    /// Inserts the digest of `path`, replacing the one stored before, if any.
    pub fn insert(&mut self, path: String, digest: String)
        requires
            old(self).wf(),
        ensures
            final(self).wf(),
            final(self)@ == old(self)@.insert(path@, digest@),
    {
        match self.position(&path) {
            Some(i) => {
                let r = FileRecord { path, digest };
                proof {
                    lemma_record_map_replace(self.entries@, i as int, r);
                }
                self.entries.set(i, r);
            },
            None => {
                let r = FileRecord { path, digest };
                let ghost before = self.entries@;
                self.entries.push(r);
                proof {
                    assert(self.entries@.drop_last() =~= before);
                    assert forall|a: int, b: int|
                        0 <= a < self.entries@.len() && 0 <= b < self.entries@.len() && a
                            != b implies self.entries@[a].path@ != self.entries@[b].path@ by {
                        if a == before.len() {
                            assert(before[b].path@ != r.path@);
                        } else if b == before.len() {
                            assert(before[a].path@ != r.path@);
                        }
                    }
                }
            },
        }
    }

    /// Applies the records in order, each inserting or replacing the digest
    /// of its path.
    pub fn merge(&mut self, rows: &Vec<FileRecord>)
        requires
            old(self).wf(),
        ensures
            final(self).wf(),
            final(self)@ == merged(old(self)@, rows@),
    {
        let ghost start = self@;
        let mut i: usize = 0;
        while i < rows.len()
            invariant
                i <= rows@.len(),
                self.wf(),
                self@ == merged(start, rows@.subrange(0, i as int)),
            decreases rows@.len() - i,
        {
            let r = copy_record(&rows[i]);
            self.insert(r.path, r.digest);
            assert(rows@.subrange(0, i + 1).drop_last() =~= rows@.subrange(0, i as int));
            i = i + 1;
        }
        assert(rows@.subrange(0, rows@.len() as int) =~= rows@);
    }

    /// The store described by the rows of a durable medium, later rows
    /// shadowing earlier rows for the same path. No rows give an empty store.
    pub fn from_rows(rows: &Vec<FileRecord>) -> (r: DigestStore)
        ensures
            r.wf(),
            r@ == record_map(rows@),
            rows@.len() == 0 ==> r@ == DigestMap::empty(),
    {
        let mut r = DigestStore::new();
        r.merge(rows);
        r
    }

    /// The rows to write to a durable medium: one per path held.
    pub fn rows(&self) -> (r: Vec<FileRecord>)
        requires
            self.wf(),
        ensures
            unique_paths(r@),
            record_map(r@) == self@,
            r@.len() == self@.dom().len(),
    {
        proof {
            lemma_record_map_len(self.entries@);
        }
        let mut out: Vec<FileRecord> = Vec::new();
        let mut i: usize = 0;
        while i < self.entries.len()
            invariant
                i <= self.entries@.len(),
                out@ == self.entries@.subrange(0, i as int),
            decreases self.entries@.len() - i,
        {
            out.push(copy_record(&self.entries[i]));
            assert(out@ =~= self.entries@.subrange(0, i + 1));
            i = i + 1;
        }
        assert(out@ =~= self.entries@);
        out
    }
}

/// Loading what was saved gives the mapping back: for records with unique
/// paths, the mapping that loading them describes holds each record's digest
/// under its path, and no other path.
pub proof fn lemma_load_after_save(rows: Seq<FileRecord>)
    requires
        unique_paths(rows),
    ensures
        record_map(rows).dom().finite(),
        record_map(rows).dom().len() == rows.len(),
        forall|i: int|
            0 <= i < rows.len() ==> #[trigger] record_map(rows)[rows[i].path@] == rows[i].digest@,
        forall|p: Seq<char>| #[trigger] record_map(rows).contains_key(p) <==> names_path(rows, p),
{
    lemma_record_map_len(rows);
    assert forall|i: int| 0 <= i < rows.len() implies #[trigger] record_map(rows)[rows[i].path@]
        == rows[i].digest@ by {
        lemma_record_map_lookup(rows, i);
    }
    assert forall|p: Seq<char>| #[trigger]
        record_map(rows).contains_key(p) <==> names_path(rows, p) by {
        lemma_merged_contains(DigestMap::empty(), rows, p);
    }
}

/// Round trip: records that list a finite mapping, one record per path with
/// that path's digest, load back as exactly that mapping.
pub proof fn lemma_round_trip(m: DigestMap, saved: Seq<FileRecord>)
    requires
        m.dom().finite(),
        unique_paths(saved),
        saved.len() == m.dom().len(),
        forall|i: int|
            0 <= i < saved.len() ==> #[trigger] m.contains_key(saved[i].path@) && m[saved[i].path@]
                == saved[i].digest@,
    ensures
        record_map(saved) == m,
{
    lemma_load_after_save(saved);
    let loaded = record_map(saved);
    assert forall|p: Seq<char>| loaded.contains_key(p) implies m.contains_key(p) && loaded[p]
        == m[p] by {
        let i = choose|i: int| 0 <= i < saved.len() && saved[i].path@ == p;
        assert(m.contains_key(saved[i].path@));
        assert(loaded[saved[i].path@] == saved[i].digest@);
    }
    assert(loaded.dom().subset_of(m.dom()));
    vstd::set_lib::lemma_subset_equality(loaded.dom(), m.dom());
    assert(loaded =~= m);
}

} // verus!
