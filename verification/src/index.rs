//! The duplicate index: the in-memory mapping from a content digest to the
//! set of canonical file paths that carried it.
//!
//! The index is modelled as a `Map<Seq<char>, Set<Seq<char>>>`: digest view
//! to set of path views. It is stored as a vector of records, one per
//! digest, with unique digests across records and unique paths within a
//! record. The same record shape is what the job store persists between
//! runs, so loading and saving are a merge of records and a snapshot of
//! records.

use vstd::prelude::*;
use vstd::seq_lib::*;

verus! {

/// One persisted record of the job state: a digest and the files whose
/// content carried it.
pub struct DataSignature {
    pub hash: String,
    pub files: Vec<String>,
}

/// The views of a list of path strings.
pub open spec fn path_views(files: Seq<String>) -> Seq<Seq<char>> {
    files.map_values(|f: String| f@)
}

impl DataSignature {
    /// The digest this record is keyed by, as a sequence of characters.
    pub open spec fn hash_view(self) -> Seq<char> {
        self.hash@
    }

    /// The paths of this record, as sequences of characters.
    pub open spec fn files_view(self) -> Seq<Seq<char>> {
        path_views(self.files@)
    }

    /// The group this record denotes: its paths as a set.
    pub open spec fn files_set(self) -> Set<Seq<char>> {
        self.files_view().to_set()
    }

    /// No path occurs twice in this record.
    pub open spec fn files_unique(self) -> bool {
        self.files_view().no_duplicates()
    }
}

/// No digest is shared between two records.
pub open spec fn hashes_unique(records: Seq<DataSignature>) -> bool {
    forall|i: int, j: int|
        0 <= i < j < records.len() ==> (#[trigger] records[i].hash_view()) != (
        #[trigger] records[j].hash_view())
}

/// The map obtained from `m` by merging `records` in order: each record
/// replaces the group of its digest wholesale, as loading the persisted job
/// state does.
pub open spec fn loaded_map(
    m: Map<Seq<char>, Set<Seq<char>>>,
    records: Seq<DataSignature>,
) -> Map<Seq<char>, Set<Seq<char>>>
    decreases records.len(),
{
    if records.len() == 0 {
        m
    } else {
        loaded_map(m, records.drop_last()).insert(
            records.last().hash_view(),
            records.last().files_set(),
        )
    }
}

/// The group of digest `d` in `m`, or the empty set where `m` has no such
/// group yet.
pub open spec fn group_or_empty(m: Map<Seq<char>, Set<Seq<char>>>, d: Seq<char>) -> Set<
    Seq<char>,
> {
    if m.contains_key(d) {
        m[d]
    } else {
        Set::<Seq<char>>::empty()
    }
}

/// Appending a path not yet present keeps a path list free of repetitions.
proof fn lemma_push_no_dup(s: Seq<Seq<char>>, x: Seq<char>)
    requires
        s.no_duplicates(),
        !s.contains(x),
    ensures
        s.push(x).no_duplicates(),
{
    assert forall|a: int, b: int| 0 <= a < b < s.push(x).len() implies (#[trigger] s.push(x)[a])
        != (#[trigger] s.push(x)[b]) by {
        if b == s.len() {
            assert(s.push(x)[a] == s[a]);
            assert(s.contains(s[a]));
        } else {
            assert(s.push(x)[a] == s[a]);
            assert(s.push(x)[b] == s[b]);
        }
    }
}

/// The set of an extended path list is the old set with the new path.
proof fn lemma_push_to_set(s: Seq<Seq<char>>, x: Seq<char>)
    ensures
        s.push(x).to_set() == s.to_set().insert(x),
{
    assert forall|y: Seq<char>| s.push(x).to_set().contains(y) implies s.to_set().insert(
        x,
    ).contains(y) by {
        let i = choose|i: int| 0 <= i < s.push(x).len() && s.push(x)[i] == y;
        if i < s.len() {
            assert(s[i] == y);
            assert(s.contains(y));
        }
    }
    assert forall|y: Seq<char>| s.to_set().insert(x).contains(y) implies s.push(x).to_set()
        .contains(y) by {
        if y == x {
            assert(s.push(x)[s.len() as int] == x);
            assert(s.push(x).contains(y));
        } else {
            let i = choose|i: int| 0 <= i < s.len() && s[i] == y;
            assert(s.push(x)[i] == y);
            assert(s.push(x).contains(y));
        }
    }
    assert(s.push(x).to_set() =~= s.to_set().insert(x));
}

/// A key is in the merged map exactly when it is in the base map or is the
/// digest of one of the merged records.
pub proof fn lemma_loaded_map_contains(
    m: Map<Seq<char>, Set<Seq<char>>>,
    records: Seq<DataSignature>,
    h: Seq<char>,
)
    ensures
        loaded_map(m, records).contains_key(h) <==> (m.contains_key(h) || exists|i: int|
            0 <= i < records.len() && (#[trigger] records[i].hash_view()) == h),
    decreases records.len(),
{
    if records.len() == 0 {
    } else {
        lemma_loaded_map_contains(m, records.drop_last(), h);
        if records.last().hash_view() == h {
            assert(records[records.len() - 1].hash_view() == h);
        } else {
            if exists|i: int| 0 <= i < records.len() && (#[trigger] records[i].hash_view()) == h {
                let i = choose|i: int|
                    0 <= i < records.len() && (#[trigger] records[i].hash_view()) == h;
                assert(records.drop_last()[i].hash_view() == h);
            }
            if exists|i: int|
                0 <= i < records.drop_last().len() && (
                #[trigger] records.drop_last()[i].hash_view()) == h {
                let i = choose|i: int|
                    0 <= i < records.drop_last().len() && (
                    #[trigger] records.drop_last()[i].hash_view()) == h;
                assert(records[i].hash_view() == h);
            }
        }
    }
}

/// With unique digests, the merged map holds each record's group under its
/// digest.
pub proof fn lemma_loaded_map_index(
    m: Map<Seq<char>, Set<Seq<char>>>,
    records: Seq<DataSignature>,
    i: int,
)
    requires
        hashes_unique(records),
        0 <= i < records.len(),
    ensures
        loaded_map(m, records).contains_key(records[i].hash_view()),
        loaded_map(m, records)[records[i].hash_view()] == records[i].files_set(),
    decreases records.len(),
{
    if i == records.len() - 1 {
    } else {
        assert(hashes_unique(records.drop_last())) by {
            assert(forall|a: int, b: int|
                0 <= a < b < records.drop_last().len() ==> (
                #[trigger] records.drop_last()[a].hash_view()) != (
                #[trigger] records.drop_last()[b].hash_view())) by {
                assert(forall|a: int, b: int|
                    0 <= a < b < records.drop_last().len() ==> records.drop_last()[a]
                        == records[a] && records.drop_last()[b] == records[b]);
            }
        }
        assert(records.drop_last()[i] == records[i]);
        lemma_loaded_map_index(m, records.drop_last(), i);
        assert(records[records.len() - 1].hash_view() != records[i].hash_view());
    }
}

/// Replacing record `i` by one with the same digest merges as an insert of
/// the new group.
pub proof fn lemma_loaded_map_update(
    m: Map<Seq<char>, Set<Seq<char>>>,
    records: Seq<DataSignature>,
    i: int,
    rec: DataSignature,
)
    requires
        hashes_unique(records),
        0 <= i < records.len(),
        rec.hash_view() == records[i].hash_view(),
    ensures
        loaded_map(m, records.update(i, rec)) == loaded_map(m, records).insert(
            rec.hash_view(),
            rec.files_set(),
        ),
    decreases records.len(),
{
    let u = records.update(i, rec);
    if i == records.len() - 1 {
        assert(u.drop_last() =~= records.drop_last());
        assert(u.last() == rec);
        assert(loaded_map(m, u) =~= loaded_map(m, records).insert(
            rec.hash_view(),
            rec.files_set(),
        ));
    } else {
        assert(hashes_unique(records.drop_last())) by {
            assert(forall|a: int, b: int|
                0 <= a < b < records.drop_last().len() ==> records.drop_last()[a] == records[a]
                    && records.drop_last()[b] == records[b]);
        }
        assert(records.drop_last()[i] == records[i]);
        lemma_loaded_map_update(m, records.drop_last(), i, rec);
        assert(u.drop_last() =~= records.drop_last().update(i, rec));
        assert(u.last() == records.last());
        assert(records[records.len() - 1].hash_view() != rec.hash_view());
        assert(loaded_map(m, u) =~= loaded_map(m, records).insert(
            rec.hash_view(),
            rec.files_set(),
        ));
    }
}

/// Whether `files` holds a path whose view is `p`.
fn contains_path(files: &Vec<String>, p: &String) -> (r: bool)
    ensures
        r == path_views(files@).contains(p@),
{
    let n = files.len();
    let mut j: usize = 0;
    while j < n
        invariant
            j <= n,
            n == files@.len(),
            forall|k: int| 0 <= k < j ==> (#[trigger] path_views(files@)[k]) != p@,
        decreases n - j,
    {
        if files[j].eq(p) {
            assert(path_views(files@)[j as int] == p@);
            assert(path_views(files@).contains(p@));
            return true;
        }
        assert(path_views(files@)[j as int] == files@[j as int]@);
        j = j + 1;
    }
    assert(!path_views(files@).contains(p@));
    false
}

/// The position of the path whose view is `p`, if `files` holds one.
fn find_path(files: &Vec<String>, p: &String) -> (r: Option<usize>)
    ensures
        match r {
            Some(j) => j < files@.len() && files@[j as int]@ == p@,
            None => !path_views(files@).contains(p@),
        },
{
    let n = files.len();
    let mut j: usize = 0;
    while j < n
        invariant
            j <= n,
            n == files@.len(),
            forall|k: int| 0 <= k < j ==> (#[trigger] path_views(files@)[k]) != p@,
        decreases n - j,
    {
        if files[j].eq(p) {
            return Some(j);
        }
        assert(path_views(files@)[j as int] == files@[j as int]@);
        j = j + 1;
    }
    assert(!path_views(files@).contains(p@));
    None
}

/// Copies a list of paths, dropping every repetition of a path already
/// copied.
fn dedup_paths(files: &Vec<String>) -> (r: Vec<String>)
    ensures
        path_views(r@).no_duplicates(),
        path_views(r@).to_set() == path_views(files@).to_set(),
{
    let n = files.len();
    let mut out: Vec<String> = Vec::new();
    let mut j: usize = 0;
    while j < n
        invariant
            j <= n,
            n == files@.len(),
            path_views(out@).no_duplicates(),
            path_views(out@).to_set() == path_views(files@.take(j as int)).to_set(),
        decreases n - j,
    {
        let ghost prev = out@;
        let present = contains_path(&out, &files[j]);
        if !present {
            out.push(files[j].clone());
            proof {
                assert(path_views(out@) =~= path_views(prev).push(files@[j as int]@));
                lemma_push_no_dup(path_views(prev), files@[j as int]@);
                lemma_push_to_set(path_views(prev), files@[j as int]@);
            }
        }
        proof {
            assert(path_views(files@.take(j + 1)) =~= path_views(files@.take(j as int)).push(
                files@[j as int]@,
            ));
            lemma_push_to_set(path_views(files@.take(j as int)), files@[j as int]@);
            if present {
                assert(path_views(prev).to_set().contains(files@[j as int]@));
                assert(path_views(out@).to_set() =~= path_views(files@.take(j + 1)).to_set());
            } else {
                assert(path_views(out@).to_set() =~= path_views(files@.take(j + 1)).to_set());
            }
        }
        j = j + 1;
    }
    proof {
        assert(files@.take(n as int) =~= files@);
    }
    out
}

/// Copies a list of paths as it stands.
fn clone_paths(files: &Vec<String>) -> (r: Vec<String>)
    ensures
        r@ =~= files@,
{
    let n = files.len();
    let mut out: Vec<String> = Vec::new();
    let mut j: usize = 0;
    while j < n
        invariant
            j <= n,
            n == files@.len(),
            out@ =~= files@.take(j as int),
        decreases n - j,
    {
        out.push(files[j].clone());
        proof {
            assert(out@ =~= files@.take(j + 1));
        }
        j = j + 1;
    }
    proof {
        assert(files@.take(n as int) =~= files@);
    }
    out
}

/// What a snapshot of an index states of the map it was taken from: the
/// records carry unique digests, each record is exactly one group of the
/// map, and every group of the map has its record.
pub open spec fn snapshot_describes(
    records: Seq<DataSignature>,
    m: Map<Seq<char>, Set<Seq<char>>>,
) -> bool {
    &&& hashes_unique(records)
    &&& forall|i: int|
        0 <= i < records.len() ==> (#[trigger] records[i]).files_unique() && m.contains_key(
            records[i].hash_view(),
        ) && records[i].files_set() == m[records[i].hash_view()]
    &&& forall|h: Seq<char>|
        #[trigger] m.contains_key(h) ==> exists|i: int|
            0 <= i < records.len() && (#[trigger] records[i].hash_view()) == h
}

/// Round-trip persistence: merging a snapshot of an index into an empty
/// index restores exactly the groups the snapshot was taken from, whatever
/// order the records stand in.
pub proof fn lemma_snapshot_round_trip(
    records: Seq<DataSignature>,
    m: Map<Seq<char>, Set<Seq<char>>>,
)
    requires
        snapshot_describes(records, m),
    ensures
        loaded_map(Map::<Seq<char>, Set<Seq<char>>>::empty(), records) == m,
{
    let empty = Map::<Seq<char>, Set<Seq<char>>>::empty();
    let loaded = loaded_map(empty, records);
    assert forall|h: Seq<char>| loaded.contains_key(h) implies m.contains_key(h) by {
        lemma_loaded_map_contains(empty, records, h);
        let i = choose|i: int|
            0 <= i < records.len() && (#[trigger] records[i].hash_view()) == h;
        assert(m.contains_key(records[i].hash_view()));
    }
    assert forall|h: Seq<char>| m.contains_key(h) implies loaded.contains_key(h) && loaded[h]
        == m[h] by {
        let i = choose|i: int|
            0 <= i < records.len() && (#[trigger] records[i].hash_view()) == h;
        lemma_loaded_map_index(empty, records, i);
    }
    assert(loaded =~= m);
}

/// The in-memory duplicate index: digest to group of canonical paths.
///
/// The index is deliberately never pruned of paths that no longer exist on
/// disk: a path leaves a group only when delete mode removes it or a
/// merged record replaces the group wholesale.
pub struct DuplicateIndex {
    records: Vec<DataSignature>,
}

impl View for DuplicateIndex {
    type V = Map<Seq<char>, Set<Seq<char>>>;

    closed spec fn view(&self) -> Map<Seq<char>, Set<Seq<char>>> {
        loaded_map(Map::<Seq<char>, Set<Seq<char>>>::empty(), self.records@)
    }
}

impl DuplicateIndex {
    /// The index keeps unique digests across records and unique paths
    /// within each record.
    pub closed spec fn wf(self) -> bool {
        hashes_unique(self.records@) && forall|i: int|
            0 <= i < self.records@.len() ==> (#[trigger] self.records@[i]).files_unique()
    }

    /// A fresh, empty index.
    pub fn new() -> (r: DuplicateIndex)
        ensures
            r.wf(),
            r@ == Map::<Seq<char>, Set<Seq<char>>>::empty(),
    {
        DuplicateIndex { records: Vec::new() }
    }

    /// The position of the record keyed by `digest`, if the index has one.
    fn find_record(&self, digest: &String) -> (r: Option<usize>)
        ensures
            match r {
                Some(i) => i < self.records@.len() && self.records@[i as int].hash_view()
                    == digest@,
                None => forall|i: int|
                    0 <= i < self.records@.len() ==> (#[trigger] self.records@[i].hash_view())
                        != digest@,
            },
    {
        let n = self.records.len();
        let mut j: usize = 0;
        while j < n
            invariant
                j <= n,
                n == self.records@.len(),
                forall|i: int|
                    0 <= i < j ==> (#[trigger] self.records@[i].hash_view()) != digest@,
            decreases n - j,
        {
            if self.records[j].hash.eq(digest) {
                return Some(j);
            }
            j = j + 1;
        }
        None
    }

    /// Whether the index has a group for `digest`.
    pub fn contains_digest(&self, digest: &String) -> (r: bool)
        ensures
            r == self@.contains_key(digest@),
    {
        let found = self.find_record(digest);
        proof {
            lemma_loaded_map_contains(
                Map::<Seq<char>, Set<Seq<char>>>::empty(),
                self.records@,
                digest@,
            );
        }
        match found {
            Some(i) => {
                assert(self.records@[i as int].hash_view() == digest@);
                true
            },
            None => false,
        }
    }

    /// The number of members in the group of `digest`; zero where the index
    /// has no such group.
    pub fn group_len(&self, digest: &String) -> (n: usize)
        requires
            self.wf(),
        ensures
            self@.contains_key(digest@) ==> n == self@[digest@].len(),
            !self@.contains_key(digest@) ==> n == 0,
    {
        proof {
            lemma_loaded_map_contains(
                Map::<Seq<char>, Set<Seq<char>>>::empty(),
                self.records@,
                digest@,
            );
        }
        match self.find_record(digest) {
            Some(i) => {
                proof {
                    lemma_loaded_map_index(
                        Map::<Seq<char>, Set<Seq<char>>>::empty(),
                        self.records@,
                        i as int,
                    );
                    self.records@[i as int].files_view().unique_seq_to_set();
                }
                self.records[i].files.len()
            },
            None => 0,
        }
    }

    /// Whether the group of `digest` holds `path`.
    pub fn group_contains(&self, digest: &String, path: &String) -> (r: bool)
        requires
            self.wf(),
        ensures
            r == (self@.contains_key(digest@) && self@[digest@].contains(path@)),
    {
        proof {
            lemma_loaded_map_contains(
                Map::<Seq<char>, Set<Seq<char>>>::empty(),
                self.records@,
                digest@,
            );
        }
        match self.find_record(digest) {
            Some(i) => {
                proof {
                    lemma_loaded_map_index(
                        Map::<Seq<char>, Set<Seq<char>>>::empty(),
                        self.records@,
                        i as int,
                    );
                }
                contains_path(&self.records[i].files, path)
            },
            None => false,
        }
    }

    /// Inserts `path` into the group of `digest`, creating the group where
    /// it is absent. Inserting a path already in its group changes nothing:
    /// re-scanning an unchanged file is a no-op after the first insertion.
    pub fn insert(&mut self, digest: String, path: String)
        requires
            old(self).wf(),
        ensures
            final(self).wf(),
            final(self)@ == old(self)@.insert(
                digest@,
                group_or_empty(old(self)@, digest@).insert(path@),
            ),
    {
        let ghost empty = Map::<Seq<char>, Set<Seq<char>>>::empty();
        proof {
            lemma_loaded_map_contains(empty, self.records@, digest@);
        }
        match self.find_record(&digest) {
            Some(i) => {
                proof {
                    lemma_loaded_map_index(empty, self.records@, i as int);
                }
                let ghost old_records = self.records@;
                let ghost old_rec = self.records@[i as int];
                if !contains_path(&self.records[i].files, &path) {
                    let ghost p = path@;
                    self.records[i].files.push(path);
                    proof {
                        let new_rec = self.records@[i as int];
                        assert(self.records@ =~= old_records.update(i as int, new_rec));
                        assert(new_rec.files_view() =~= old_rec.files_view().push(p));
                        lemma_push_no_dup(old_rec.files_view(), p);
                        lemma_push_to_set(old_rec.files_view(), p);
                        lemma_loaded_map_update(empty, old_records, i as int, new_rec);
                        assert(self@ =~~= old(self)@.insert(
                            digest@,
                            group_or_empty(old(self)@, digest@).insert(p),
                        ));
                    }
                } else {
                    proof {
                        assert(old_rec.files_set().contains(path@));
                        assert(old_rec.files_set().insert(path@) =~= old_rec.files_set());
                        assert(old(self)@.insert(digest@, old_rec.files_set()) =~= old(self)@);
                        assert(self@ =~~= old(self)@.insert(
                            digest@,
                            group_or_empty(old(self)@, digest@).insert(path@),
                        ));
                    }
                }
            },
            None => {
                let ghost old_records = self.records@;
                let ghost p = path@;
                let ghost d = digest@;
                let rec = DataSignature { hash: digest, files: vec![path] };
                proof {
                    assert(rec.files_view() =~= seq![p]);
                    assert(rec.files_unique());
                    assert(rec.files_set() =~= Set::<Seq<char>>::empty().insert(p)) by {
                        assert(rec.files_view()[0] == p);
                        assert forall|y: Seq<char>| rec.files_set().contains(y) implies y == p by {
                            let k = choose|k: int|
                                0 <= k < rec.files_view().len() && rec.files_view()[k] == y;
                        }
                        assert(rec.files_view().contains(p));
                    }
                }
                self.records.push(rec);
                proof {
                    assert(self.records@.drop_last() =~= old_records);
                    assert(self.records@.last() == rec);
                    assert(!old(self)@.contains_key(d));
                    assert(hashes_unique(self.records@)) by {
                        assert(forall|a: int|
                            0 <= a < old_records.len() ==> (
                            #[trigger] self.records@[a].hash_view()) == old_records[a].hash_view()
                                && old_records[a].hash_view() != d);
                    }
                    assert(self@ =~~= old(self)@.insert(
                        d,
                        group_or_empty(old(self)@, d).insert(p),
                    ));
                }
            },
        }
    }

    /// Removes `path` from the group of `digest`. A group the index does
    /// not have, or a path its group does not hold, leaves the index
    /// unchanged.
    pub fn remove_path(&mut self, digest: &String, path: &String)
        requires
            old(self).wf(),
        ensures
            final(self).wf(),
            old(self)@.contains_key(digest@) ==> final(self)@ == old(self)@.insert(
                digest@,
                old(self)@[digest@].remove(path@),
            ),
            !old(self)@.contains_key(digest@) ==> final(self)@ == old(self)@,
    {
        let ghost empty = Map::<Seq<char>, Set<Seq<char>>>::empty();
        proof {
            lemma_loaded_map_contains(empty, self.records@, digest@);
        }
        match self.find_record(digest) {
            Some(i) => {
                proof {
                    lemma_loaded_map_index(empty, self.records@, i as int);
                }
                let ghost old_records = self.records@;
                let ghost old_rec = self.records@[i as int];
                match find_path(&self.records[i].files, path) {
                    Some(j) => {
                        self.records[i].files.remove(j);
                        proof {
                            let new_rec = self.records@[i as int];
                            assert(self.records@ =~= old_records.update(i as int, new_rec));
                            assert(new_rec.files_view() =~= old_rec.files_view().remove(j as int));
                            old_rec.files_view().remove_ensures(j as int);
                            assert(new_rec.files_unique()) by {
                                assert forall|a: int, b: int|
                                    0 <= a < b < new_rec.files_view().len() implies (
                                #[trigger] new_rec.files_view()[a]) != (
                                #[trigger] new_rec.files_view()[b]) by {
                                    let a0: int = if a < j { a } else { a + 1 };
                                    let b0: int = if b < j { b } else { b + 1 };
                                    assert(new_rec.files_view()[a] == old_rec.files_view()[a0]);
                                    assert(new_rec.files_view()[b] == old_rec.files_view()[b0]);
                                }
                            }
                            assert(new_rec.files_set() =~= old_rec.files_set().remove(path@)) by {
                                assert forall|x: Seq<char>|
                                    new_rec.files_set().contains(x) implies old_rec.files_set()
                                    .remove(path@).contains(x) by {
                                    let a = choose|a: int|
                                        0 <= a < new_rec.files_view().len()
                                            && new_rec.files_view()[a] == x;
                                    let a0: int = if a < j { a } else { a + 1 };
                                    assert(old_rec.files_view()[a0] == x);
                                    assert(old_rec.files_view().contains(x));
                                    assert(x != path@) by {
                                        if x == path@ {
                                            assert(old_rec.files_view()[j as int] == path@);
                                            assert(a0 != j);
                                        }
                                    }
                                }
                                assert forall|x: Seq<char>|
                                    old_rec.files_set().remove(path@).contains(x) implies new_rec
                                    .files_set().contains(x) by {
                                    let a0 = choose|a0: int|
                                        0 <= a0 < old_rec.files_view().len()
                                            && old_rec.files_view()[a0] == x;
                                    assert(old_rec.files_view()[j as int] == path@);
                                    assert(a0 != j);
                                    let a: int = if a0 < j { a0 } else { a0 - 1 };
                                    assert(new_rec.files_view()[a] == x);
                                    assert(new_rec.files_view().contains(x));
                                }
                            }
                            lemma_loaded_map_update(empty, old_records, i as int, new_rec);
                            assert(self@ =~~= old(self)@.insert(
                                digest@,
                                old(self)@[digest@].remove(path@),
                            ));
                        }
                    },
                    None => {
                        proof {
                            assert(!old_rec.files_set().contains(path@));
                            assert(old_rec.files_set().remove(path@) =~= old_rec.files_set());
                            assert(old(self)@.insert(digest@, old_rec.files_set()) =~= old(
                                self,
                            )@);
                            assert(self@ =~~= old(self)@.insert(
                                digest@,
                                old(self)@[digest@].remove(path@),
                            ));
                        }
                    },
                }
            },
            None => {},
        }
    }

    /// Replaces the group of `hash` by the set of the given paths, creating
    /// the group where it is absent. Repeated paths collapse to one.
    fn set_group(&mut self, hash: String, files: &Vec<String>)
        requires
            old(self).wf(),
        ensures
            final(self).wf(),
            final(self)@ == old(self)@.insert(hash@, path_views(files@).to_set()),
    {
        let ghost empty = Map::<Seq<char>, Set<Seq<char>>>::empty();
        let deduped = dedup_paths(files);
        match self.find_record(&hash) {
            Some(i) => {
                let ghost old_records = self.records@;
                self.records[i].files = deduped;
                proof {
                    let new_rec = self.records@[i as int];
                    assert(self.records@ =~= old_records.update(i as int, new_rec));
                    assert(new_rec.files_set() == path_views(files@).to_set());
                    lemma_loaded_map_update(empty, old_records, i as int, new_rec);
                    assert(self@ =~~= old(self)@.insert(hash@, path_views(files@).to_set()));
                }
            },
            None => {
                let ghost old_records = self.records@;
                let ghost h = hash@;
                let rec = DataSignature { hash, files: deduped };
                self.records.push(rec);
                proof {
                    assert(self.records@.drop_last() =~= old_records);
                    assert(self.records@.last() == rec);
                    assert(hashes_unique(self.records@)) by {
                        assert(forall|a: int|
                            0 <= a < old_records.len() ==> (
                            #[trigger] self.records@[a].hash_view()) == old_records[a].hash_view()
                                && old_records[a].hash_view() != h);
                    }
                    assert(self@ =~~= old(self)@.insert(h, path_views(files@).to_set()));
                }
            },
        }
    }

    /// Merges persisted records into the index, in order: each record
    /// replaces the group of its digest wholesale, and repeated paths in a
    /// record collapse to one.
    pub fn merge_records(&mut self, records: &Vec<DataSignature>)
        requires
            old(self).wf(),
        ensures
            final(self).wf(),
            final(self)@ == loaded_map(old(self)@, records@),
    {
        let ghost m0 = self@;
        let n = records.len();
        let mut j: usize = 0;
        while j < n
            invariant
                self.wf(),
                j <= n,
                n == records@.len(),
                self@ == loaded_map(m0, records@.take(j as int)),
            decreases n - j,
        {
            let rec = &records[j];
            self.set_group(rec.hash.clone(), &rec.files);
            proof {
                assert(records@.take(j + 1).drop_last() =~= records@.take(j as int));
                assert(records@.take(j + 1).last() == records@[j as int]);
            }
            j = j + 1;
        }
        proof {
            assert(records@.take(n as int) =~= records@);
        }
    }

    /// A snapshot of the index: one record per digest, for the job store to
    /// persist. Merging the snapshot into an empty index restores exactly
    /// this index's groups (see `lemma_snapshot_round_trip`).
    pub fn snapshot(&self) -> (r: Vec<DataSignature>)
        requires
            self.wf(),
        ensures
            snapshot_describes(r@, self@),
    {
        let ghost empty = Map::<Seq<char>, Set<Seq<char>>>::empty();
        let n = self.records.len();
        let mut out: Vec<DataSignature> = Vec::new();
        let mut j: usize = 0;
        while j < n
            invariant
                self.wf(),
                j <= n,
                n == self.records@.len(),
                out@.len() == j,
                forall|i: int|
                    0 <= i < j ==> (#[trigger] out@[i]).hash_view()
                        == self.records@[i].hash_view() && out@[i].files_view()
                        == self.records@[i].files_view(),
            decreases n - j,
        {
            let rec = &self.records[j];
            let copy = DataSignature { hash: rec.hash.clone(), files: clone_paths(&rec.files) };
            proof {
                assert(copy.files_view() =~= rec.files_view());
            }
            out.push(copy);
            j = j + 1;
        }
        proof {
            assert(hashes_unique(out@));
            assert forall|i: int| 0 <= i < out@.len() implies (#[trigger] out@[i]).files_unique()
                && self@.contains_key(out@[i].hash_view()) && out@[i].files_set()
                == self@[out@[i].hash_view()] by {
                lemma_loaded_map_index(empty, self.records@, i);
                assert(out@[i].files_set() =~= self.records@[i].files_set());
            }
            assert forall|h: Seq<char>| #[trigger] self@.contains_key(h) implies exists|i: int|
                0 <= i < out@.len() && (#[trigger] out@[i].hash_view()) == h by {
                lemma_loaded_map_contains(empty, self.records@, h);
                let i = choose|i: int|
                    0 <= i < self.records@.len() && (#[trigger] self.records@[i].hash_view())
                        == h;
                assert(out@[i].hash_view() == h);
            }
        }
        out
    }

    /// The duplicate groups: every group with more than one member, as
    /// records. Groups of one are not duplicates and are left out.
    pub fn duplicate_groups(&self) -> (r: Vec<DataSignature>)
        requires
            self.wf(),
        ensures
            hashes_unique(r@),
            forall|i: int|
                0 <= i < r@.len() ==> (#[trigger] r@[i]).files_unique() && self@.contains_key(
                    r@[i].hash_view(),
                ) && r@[i].files_set() == self@[r@[i].hash_view()] && r@[i].files_set().len() > 1,
            forall|h: Seq<char>|
                #[trigger] self@.contains_key(h) && self@[h].len() > 1 ==> exists|i: int|
                    0 <= i < r@.len() && (#[trigger] r@[i].hash_view()) == h,
    {
        let ghost empty = Map::<Seq<char>, Set<Seq<char>>>::empty();
        let n = self.records.len();
        let mut out: Vec<DataSignature> = Vec::new();
        let mut j: usize = 0;
        while j < n
            invariant
                self.wf(),
                j <= n,
                n == self.records@.len(),
                hashes_unique(out@),
                forall|i: int| 0 <= i < out@.len() ==> (#[trigger] out@[i]).files_set().len() > 1,
                forall|i: int|
                    0 <= i < out@.len() ==> exists|k: int|
                        0 <= k < j && (#[trigger] out@[i]).hash_view()
                            == self.records@[k].hash_view() && out@[i].files_view()
                            == self.records@[k].files_view(),
                forall|k: int|
                    0 <= k < j && (#[trigger] self.records@[k]).files_set().len() > 1
                        ==> exists|i: int|
                        0 <= i < out@.len() && (#[trigger] out@[i].hash_view())
                            == self.records@[k].hash_view(),
            decreases n - j,
        {
            let ghost prev = out@;
            let rec = &self.records[j];
            proof {
                assert(self.records@[j as int].files_unique());
                rec.files_view().unique_seq_to_set();
            }
            if rec.files.len() > 1 {
                let copy = DataSignature { hash: rec.hash.clone(), files: clone_paths(&rec.files) };
                proof {
                    assert(copy.files_view() =~= rec.files_view());
                }
                out.push(copy);
                proof {
                    assert(out@.len() == prev.len() + 1);
                    assert(forall|i: int| 0 <= i < prev.len() ==> (#[trigger] out@[i]) == prev[i]);
                    assert(out@[prev.len() as int] == copy);
                    assert(copy.hash_view() == self.records@[j as int].hash_view());
                    assert(copy.files_view() == self.records@[j as int].files_view());
                    assert(copy.files_set() == self.records@[j as int].files_set());
                    assert(out@[prev.len() as int].files_set().len() > 1);
                    assert forall|i: int| 0 <= i < out@.len() implies exists|k: int|
                        0 <= k < j + 1 && (#[trigger] out@[i]).hash_view()
                            == self.records@[k].hash_view() && out@[i].files_view()
                            == self.records@[k].files_view() by {
                        if i < prev.len() {
                            let k = choose|k: int|
                                0 <= k < j && (#[trigger] prev[i]).hash_view()
                                    == self.records@[k].hash_view() && prev[i].files_view()
                                    == self.records@[k].files_view();
                            assert(0 <= k < j + 1 && out@[i].hash_view()
                                == self.records@[k].hash_view() && out@[i].files_view()
                                == self.records@[k].files_view());
                        } else {
                            assert(0 <= j < j + 1 && out@[i].hash_view()
                                == self.records@[j as int].hash_view() && out@[i].files_view()
                                == self.records@[j as int].files_view());
                        }
                    }
                    assert(hashes_unique(out@)) by {
                        assert forall|a: int, b: int| 0 <= a < b < out@.len() implies (
                        #[trigger] out@[a].hash_view()) != (#[trigger] out@[b].hash_view()) by {
                            if b == out@.len() - 1 {
                                let k = choose|k: int|
                                    0 <= k < j && (#[trigger] prev[a]).hash_view()
                                        == self.records@[k].hash_view() && prev[a].files_view()
                                        == self.records@[k].files_view();
                                assert(out@[a] == prev[a]);
                                assert(self.records@[k].hash_view()
                                    != self.records@[j as int].hash_view());
                            } else {
                                assert(out@[a] == prev[a]);
                                assert(out@[b] == prev[b]);
                            }
                        }
                    }
                    assert forall|k: int|
                        0 <= k < j + 1 && (#[trigger] self.records@[k]).files_set().len() > 1
                            implies exists|i: int|
                        0 <= i < out@.len() && (#[trigger] out@[i].hash_view())
                            == self.records@[k].hash_view() by {
                        if k < j {
                            let i = choose|i: int|
                                0 <= i < prev.len() && (#[trigger] prev[i].hash_view())
                                    == self.records@[k].hash_view();
                            assert(0 <= i < out@.len() && out@[i].hash_view()
                                == self.records@[k].hash_view());
                        } else {
                            assert(0 <= prev.len() < out@.len() && out@[prev.len() as int].hash_view()
                                == self.records@[j as int].hash_view());
                        }
                    }
                }
            } else {
                proof {
                    assert(self.records@[j as int].files_set().len() <= 1);
                }
            }
            j = j + 1;
        }
        proof {
            assert forall|i: int| 0 <= i < out@.len() implies (#[trigger] out@[i]).files_unique()
                && self@.contains_key(out@[i].hash_view()) && out@[i].files_set()
                == self@[out@[i].hash_view()] && out@[i].files_set().len() > 1 by {
                let k = choose|k: int|
                    0 <= k < n && (#[trigger] out@[i].hash_view()) == self.records@[k].hash_view()
                        && out@[i].files_view() == self.records@[k].files_view();
                lemma_loaded_map_index(empty, self.records@, k);
                self.records@[k].files_view().unique_seq_to_set();
            }
            assert forall|h: Seq<char>|
                #[trigger] self@.contains_key(h) && self@[h].len() > 1 implies exists|i: int|
                0 <= i < out@.len() && (#[trigger] out@[i].hash_view()) == h by {
                lemma_loaded_map_contains(empty, self.records@, h);
                let k = choose|k: int|
                    0 <= k < self.records@.len() && (#[trigger] self.records@[k].hash_view())
                        == h;
                lemma_loaded_map_index(empty, self.records@, k);
                self.records@[k].files_view().unique_seq_to_set();
                assert(self.records@[k].files_set().len() > 1);
            }
        }
        out
    }
}

} // verus!
