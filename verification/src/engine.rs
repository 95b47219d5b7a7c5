//! The decision engine: which walked entries take part in a scan, how
//! freshly computed `(path, digest)` pairs are merged into the duplicate
//! index, and which redundant copies delete mode may remove.
//!
//! The safety invariant of delete mode is proved here: a digest group is
//! never emptied, so the last copy of any content is never removed; and
//! once every member of a group has been scanned, exactly one member is
//! left.

use vstd::prelude::*;
use vstd::set_lib::*;
use crate::file_filter::{FileFilter, regex_match};
use crate::index::{DuplicateIndex, group_or_empty};

verus! {

/// A directory entry as the walker reports it: its base name, where that
/// name is representable as text, and whether it is a directory. An entry
/// the walker could not produce is handed in as `None`.
pub struct WalkedEntry {
    pub file_name: Option<String>,
    pub is_dir: bool,
}

/// One freshly computed pair from the scan pipeline: a canonical file path
/// and the digest of the file's content.
pub struct FileDigest {
    pub path: String,
    pub digest: String,
}

/// An entry is eligible for hashing exactly when the walker produced it
/// without error, its base name is representable as text, no ignore pattern
/// matches that name, and it is not a directory.
pub open spec fn spec_eligible(entry: Option<WalkedEntry>, patterns: Seq<Seq<char>>) -> bool {
    &&& entry matches Some(e)
    &&& e.file_name matches Some(name)
    &&& !regex_match(patterns, name@)
    &&& !e.is_dir
}

/// Decides whether a walked entry takes part in hashing.
pub fn entry_eligible(entry: &Option<WalkedEntry>, filter: &FileFilter) -> (r: bool)
    ensures
        r == spec_eligible(*entry, filter.patterns()),
{
    match entry {
        None => false,
        Some(e) => match &e.file_name {
            None => false,
            Some(name) => {
                if filter.matches(name) {
                    false
                } else {
                    !e.is_dir
                }
            },
        },
    }
}

/// Filter correctness: an entry whose base name an ignore pattern matches
/// is never eligible for hashing.
pub proof fn lemma_ignored_never_eligible(entry: Option<WalkedEntry>, patterns: Seq<Seq<char>>)
    requires
        entry matches Some(e) && e.file_name matches Some(name) && regex_match(patterns, name@),
    ensures
        !spec_eligible(entry, patterns),
{
}

/// The effect on the index of recording one scanned pair: the path joins
/// the group of its digest.
pub open spec fn spec_merge_step(
    m: Map<Seq<char>, Set<Seq<char>>>,
    d: Seq<char>,
    p: Seq<char>,
) -> Map<Seq<char>, Set<Seq<char>>> {
    m.insert(d, group_or_empty(m, d).insert(p))
}

/// The effect on the index of recording a whole scan, pair by pair in
/// order.
pub open spec fn spec_merge_pairs(
    m: Map<Seq<char>, Set<Seq<char>>>,
    pairs: Seq<FileDigest>,
) -> Map<Seq<char>, Set<Seq<char>>>
    decreases pairs.len(),
{
    if pairs.len() == 0 {
        m
    } else {
        spec_merge_pairs(spec_merge_step(m, pairs[0].digest@, pairs[0].path@), pairs.drop_first())
    }
}

proof fn lemma_merge_pairs_push(
    m: Map<Seq<char>, Set<Seq<char>>>,
    pairs: Seq<FileDigest>,
    fd: FileDigest,
)
    ensures
        spec_merge_pairs(m, pairs.push(fd)) == spec_merge_step(
            spec_merge_pairs(m, pairs),
            fd.digest@,
            fd.path@,
        ),
    decreases pairs.len(),
{
    if pairs.len() == 0 {
        assert(pairs.push(fd)[0] == fd);
        assert(pairs.push(fd).drop_first() =~= Seq::<FileDigest>::empty());
        assert(spec_merge_pairs(m, pairs.push(fd)) == spec_merge_pairs(
            spec_merge_step(m, fd.digest@, fd.path@),
            pairs.push(fd).drop_first(),
        ));
    } else {
        assert(pairs.push(fd)[0] == pairs[0]);
        assert(pairs.push(fd).drop_first() =~= pairs.drop_first().push(fd));
        lemma_merge_pairs_push(
            spec_merge_step(m, pairs[0].digest@, pairs[0].path@),
            pairs.drop_first(),
            fd,
        );
    }
}

/// Merges the pairs computed by this run into the index, in order. This is
/// the sequential merge phase that follows the parallel hashing phase.
pub fn merge_pairs(index: &mut DuplicateIndex, pairs: &Vec<FileDigest>)
    requires
        old(index).wf(),
    ensures
        final(index).wf(),
        final(index)@ == spec_merge_pairs(old(index)@, pairs@),
{
    let ghost m0 = index@;
    let n = pairs.len();
    let mut j: usize = 0;
    while j < n
        invariant
            index.wf(),
            j <= n,
            n == pairs@.len(),
            index@ == spec_merge_pairs(m0, pairs@.take(j as int)),
        decreases n - j,
    {
        let fd = &pairs[j];
        index.insert(fd.digest.clone(), fd.path.clone());
        proof {
            assert(pairs@.take(j + 1) =~= pairs@.take(j as int).push(pairs@[j as int]));
            lemma_merge_pairs_push(m0, pairs@.take(j as int), pairs@[j as int]);
        }
        j = j + 1;
    }
    proof {
        assert(pairs@.take(n as int) =~= pairs@);
    }
}

/// Whether the index already records a pair: the path stands in the group
/// of the digest.
pub open spec fn pair_recorded(m: Map<Seq<char>, Set<Seq<char>>>, fd: FileDigest) -> bool {
    m.contains_key(fd.digest@) && m[fd.digest@].contains(fd.path@)
}

proof fn lemma_merge_step_monotone(
    m: Map<Seq<char>, Set<Seq<char>>>,
    d: Seq<char>,
    p: Seq<char>,
    fd: FileDigest,
)
    requires
        pair_recorded(m, fd),
    ensures
        pair_recorded(spec_merge_step(m, d, p), fd),
{
}

proof fn lemma_merge_pairs_monotone(
    m: Map<Seq<char>, Set<Seq<char>>>,
    pairs: Seq<FileDigest>,
    fd: FileDigest,
)
    requires
        pair_recorded(m, fd),
    ensures
        pair_recorded(spec_merge_pairs(m, pairs), fd),
    decreases pairs.len(),
{
    if pairs.len() == 0 {
    } else {
        lemma_merge_step_monotone(m, pairs[0].digest@, pairs[0].path@, fd);
        lemma_merge_pairs_monotone(
            spec_merge_step(m, pairs[0].digest@, pairs[0].path@),
            pairs.drop_first(),
            fd,
        );
    }
}

proof fn lemma_merge_pairs_records_all(m: Map<Seq<char>, Set<Seq<char>>>, pairs: Seq<FileDigest>)
    ensures
        forall|i: int|
            0 <= i < pairs.len() ==> pair_recorded(spec_merge_pairs(m, pairs), #[trigger] pairs[i]),
    decreases pairs.len(),
{
    if pairs.len() == 0 {
    } else {
        let m1 = spec_merge_step(m, pairs[0].digest@, pairs[0].path@);
        assert(pair_recorded(m1, pairs[0]));
        lemma_merge_pairs_monotone(m1, pairs.drop_first(), pairs[0]);
        lemma_merge_pairs_records_all(m1, pairs.drop_first());
        assert forall|i: int|
            0 <= i < pairs.len() implies pair_recorded(
            spec_merge_pairs(m, pairs),
            #[trigger] pairs[i],
        ) by {
            if i > 0 {
                assert(pairs.drop_first()[i - 1] == pairs[i]);
            }
        }
    }
}

proof fn lemma_merge_pairs_recorded_noop(m: Map<Seq<char>, Set<Seq<char>>>, pairs: Seq<FileDigest>)
    requires
        forall|i: int| 0 <= i < pairs.len() ==> pair_recorded(m, #[trigger] pairs[i]),
    ensures
        spec_merge_pairs(m, pairs) == m,
    decreases pairs.len(),
{
    if pairs.len() == 0 {
    } else {
        let d = pairs[0].digest@;
        let p = pairs[0].path@;
        assert(pair_recorded(m, pairs[0]));
        assert(group_or_empty(m, d).insert(p) =~= m[d]);
        assert(spec_merge_step(m, d, p) =~~= m);
        assert forall|i: int|
            0 <= i < pairs.drop_first().len() implies pair_recorded(
            m,
            #[trigger] pairs.drop_first()[i],
        ) by {
            assert(pairs.drop_first()[i] == pairs[i + 1]);
        }
        lemma_merge_pairs_recorded_noop(m, pairs.drop_first());
    }
}

/// Idempotent grouping: merging the pairs of one scan a second time leaves
/// the index exactly as after the first merge. Scanning an unchanged tree
/// twice therefore yields the groups of a single scan.
pub proof fn lemma_merge_pairs_idempotent(
    m: Map<Seq<char>, Set<Seq<char>>>,
    pairs: Seq<FileDigest>,
)
    ensures
        spec_merge_pairs(spec_merge_pairs(m, pairs), pairs) == spec_merge_pairs(m, pairs),
{
    lemma_merge_pairs_records_all(m, pairs);
    lemma_merge_pairs_recorded_noop(spec_merge_pairs(m, pairs), pairs);
}

/// What delete mode decides for one scanned pair against the finalized
/// index: the path is redundant unless its digest has no group at all, or
/// the group's sole member is this very path.
pub open spec fn spec_delete_decision(
    m: Map<Seq<char>, Set<Seq<char>>>,
    d: Seq<char>,
    p: Seq<char>,
) -> bool {
    m.contains_key(d) && !(m[d].len() == 1 && m[d].contains(p))
}

/// The index after acting on one scanned pair in delete mode: a removed
/// path leaves its digest's group.
pub open spec fn spec_delete_step(
    m: Map<Seq<char>, Set<Seq<char>>>,
    d: Seq<char>,
    p: Seq<char>,
) -> Map<Seq<char>, Set<Seq<char>>> {
    if spec_delete_decision(m, d, p) {
        m.insert(d, m[d].remove(p))
    } else {
        m
    }
}

/// The index after a whole delete run over the scanned pairs, in order.
pub open spec fn spec_run_delete(
    m: Map<Seq<char>, Set<Seq<char>>>,
    pairs: Seq<FileDigest>,
) -> Map<Seq<char>, Set<Seq<char>>>
    decreases pairs.len(),
{
    if pairs.len() == 0 {
        m
    } else {
        spec_run_delete(spec_delete_step(m, pairs[0].digest@, pairs[0].path@), pairs.drop_first())
    }
}

proof fn lemma_run_delete_push(
    m: Map<Seq<char>, Set<Seq<char>>>,
    pairs: Seq<FileDigest>,
    fd: FileDigest,
)
    ensures
        spec_run_delete(m, pairs.push(fd)) == spec_delete_step(
            spec_run_delete(m, pairs),
            fd.digest@,
            fd.path@,
        ),
    decreases pairs.len(),
{
    if pairs.len() == 0 {
        assert(pairs.push(fd)[0] == fd);
        assert(pairs.push(fd).drop_first() =~= Seq::<FileDigest>::empty());
        assert(spec_run_delete(m, pairs.push(fd)) == spec_run_delete(
            spec_delete_step(m, fd.digest@, fd.path@),
            pairs.push(fd).drop_first(),
        ));
    } else {
        assert(pairs.push(fd)[0] == pairs[0]);
        assert(pairs.push(fd).drop_first() =~= pairs.drop_first().push(fd));
        lemma_run_delete_push(
            spec_delete_step(m, pairs[0].digest@, pairs[0].path@),
            pairs.drop_first(),
            fd,
        );
    }
}

/// What delete mode decided for one scanned pair.
#[derive(Clone, Copy, Debug, PartialEq, Eq, Structural)]
pub enum DeleteDecision {
    /// The path must stay: its digest has no group, or the path is the
    /// group's last copy.
    Keep,
    /// The path is a redundant copy and may be removed from disk.
    Delete,
}

/// Decides one scanned pair in delete mode and records the removal in the
/// index, so that later decisions see the shrunken group.
pub fn decide_delete(index: &mut DuplicateIndex, digest: &String, path: &String) -> (d:
    DeleteDecision)
    requires
        old(index).wf(),
    ensures
        final(index).wf(),
        (d == DeleteDecision::Delete) == spec_delete_decision(old(index)@, digest@, path@),
        final(index)@ == spec_delete_step(old(index)@, digest@, path@),
{
    if !index.contains_digest(digest) {
        return DeleteDecision::Keep;
    }
    let len = index.group_len(digest);
    let inside = index.group_contains(digest, path);
    if len == 1 && inside {
        DeleteDecision::Keep
    } else {
        index.remove_path(digest, path);
        DeleteDecision::Delete
    }
}

/// Runs delete mode over all pairs scanned in this run, in order, and
/// returns the decision for each pair, aligned with the input.
pub fn run_delete(index: &mut DuplicateIndex, pairs: &Vec<FileDigest>) -> (decisions: Vec<
    DeleteDecision,
>)
    requires
        old(index).wf(),
    ensures
        final(index).wf(),
        final(index)@ == spec_run_delete(old(index)@, pairs@),
        decisions@.len() == pairs@.len(),
        forall|i: int|
            0 <= i < pairs@.len() ==> ((#[trigger] decisions@[i]) == DeleteDecision::Delete)
                == spec_delete_decision(
                spec_run_delete(old(index)@, pairs@.take(i)),
                pairs@[i].digest@,
                pairs@[i].path@,
            ),
{
    let ghost m0 = index@;
    let n = pairs.len();
    let mut decisions: Vec<DeleteDecision> = Vec::new();
    let mut j: usize = 0;
    while j < n
        invariant
            index.wf(),
            j <= n,
            n == pairs@.len(),
            index@ == spec_run_delete(m0, pairs@.take(j as int)),
            decisions@.len() == j,
            forall|i: int|
                0 <= i < j ==> ((#[trigger] decisions@[i]) == DeleteDecision::Delete)
                    == spec_delete_decision(
                    spec_run_delete(m0, pairs@.take(i)),
                    pairs@[i].digest@,
                    pairs@[i].path@,
                ),
        decreases n - j,
    {
        let fd = &pairs[j];
        let d = decide_delete(index, &fd.digest, &fd.path);
        decisions.push(d);
        proof {
            assert(pairs@.take(j + 1) =~= pairs@.take(j as int).push(pairs@[j as int]));
            lemma_run_delete_push(m0, pairs@.take(j as int), pairs@[j as int]);
        }
        j = j + 1;
    }
    proof {
        assert(pairs@.take(n as int) =~= pairs@);
    }
    decisions
}

/// Safety invariant, one step: a group whose sole member is the scanned
/// path keeps that member, and the index is untouched.
pub proof fn lemma_sole_member_never_deleted(
    m: Map<Seq<char>, Set<Seq<char>>>,
    d: Seq<char>,
    p: Seq<char>,
)
    requires
        m.contains_key(d),
        m[d].len() == 1,
        m[d].contains(p),
    ensures
        !spec_delete_decision(m, d, p),
        spec_delete_step(m, d, p) == m,
{
}

proof fn lemma_delete_step_keeps_nonempty(
    m: Map<Seq<char>, Set<Seq<char>>>,
    d: Seq<char>,
    p: Seq<char>,
    h: Seq<char>,
)
    requires
        m.contains_key(h),
        m[h].finite(),
        m[h].len() >= 1,
    ensures
        spec_delete_step(m, d, p).contains_key(h),
        spec_delete_step(m, d, p)[h].finite(),
        spec_delete_step(m, d, p)[h].len() >= 1,
        spec_delete_step(m, d, p)[h].subset_of(m[h]),
{
    let m1 = spec_delete_step(m, d, p);
    if spec_delete_decision(m, d, p) && d == h {
        if m[h].contains(p) {
            assert(m[h].len() != 1);
            assert(m[h].remove(p).len() == m[h].len() - 1);
        } else {
            assert(m[h].remove(p) =~= m[h]);
        }
    }
}

/// Safety invariant over a whole run: a digest that has at least one copy
/// before delete mode runs still has at least one copy after it, whatever
/// was scanned. The last copy of any content is never removed.
pub proof fn lemma_run_delete_never_empties(
    m: Map<Seq<char>, Set<Seq<char>>>,
    pairs: Seq<FileDigest>,
    h: Seq<char>,
)
    requires
        m.contains_key(h),
        m[h].finite(),
        m[h].len() >= 1,
    ensures
        spec_run_delete(m, pairs).contains_key(h),
        spec_run_delete(m, pairs)[h].finite(),
        spec_run_delete(m, pairs)[h].len() >= 1,
        spec_run_delete(m, pairs)[h].subset_of(m[h]),
    decreases pairs.len(),
{
    if pairs.len() == 0 {
    } else {
        let m1 = spec_delete_step(m, pairs[0].digest@, pairs[0].path@);
        lemma_delete_step_keeps_nonempty(m, pairs[0].digest@, pairs[0].path@, h);
        lemma_run_delete_never_empties(m1, pairs.drop_first(), h);
    }
}

proof fn lemma_run_delete_covered(
    m: Map<Seq<char>, Set<Seq<char>>>,
    pairs: Seq<FileDigest>,
    h: Seq<char>,
)
    requires
        m.contains_key(h),
        m[h].finite(),
        m[h].len() >= 1,
        m[h].len() >= 2 ==> forall|p: Seq<char>|
            m[h].contains(p) ==> exists|i: int|
                0 <= i < pairs.len() && (#[trigger] pairs[i]).digest@ == h && pairs[i].path@ == p,
    ensures
        spec_run_delete(m, pairs).contains_key(h),
        spec_run_delete(m, pairs)[h].len() == 1,
        spec_run_delete(m, pairs)[h].subset_of(m[h]),
    decreases pairs.len(),
{
    if pairs.len() == 0 {
        if m[h].len() >= 2 {
            assert forall|p: Seq<char>| !m[h].contains(p) by {
                if m[h].contains(p) {
                    let i = choose|i: int|
                        0 <= i < pairs.len() && (#[trigger] pairs[i]).digest@ == h
                            && pairs[i].path@ == p;
                }
            }
            assert(m[h] =~= Set::<Seq<char>>::empty());
        }
    } else {
        let fd = pairs[0];
        let m1 = spec_delete_step(m, fd.digest@, fd.path@);
        lemma_delete_step_keeps_nonempty(m, fd.digest@, fd.path@, h);
        assert(m1[h].len() >= 2 ==> forall|p: Seq<char>|
            m1[h].contains(p) ==> exists|i: int|
                0 <= i < pairs.drop_first().len() && (#[trigger] pairs.drop_first()[i]).digest@
                    == h && pairs.drop_first()[i].path@ == p) by {
            if m1[h].len() >= 2 {
                lemma_len_subset(m1[h], m[h]);
                assert(m[h].len() >= 2);
                assert forall|p: Seq<char>| m1[h].contains(p) implies exists|i: int|
                    0 <= i < pairs.drop_first().len() && (
                    #[trigger] pairs.drop_first()[i]).digest@ == h && pairs.drop_first()[i].path@
                    == p by {
                    assert(m[h].contains(p));
                    let i = choose|i: int|
                        0 <= i < pairs.len() && (#[trigger] pairs[i]).digest@ == h
                            && pairs[i].path@ == p;
                    if i == 0 {
                        assert(spec_delete_decision(m, h, p));
                        assert(m1[h] == m[h].remove(p));
                        assert(!m1[h].contains(p));
                        assert(false);
                    } else {
                        assert(pairs.drop_first()[i - 1] == pairs[i]);
                    }
                }
            }
        }
        lemma_run_delete_covered(m1, pairs.drop_first(), h);
    }
}

/// Completeness of delete mode: once every member of a digest group is
/// among the scanned pairs, a full delete run leaves that group with
/// exactly one member, and that member was one of the group.
pub proof fn lemma_run_delete_leaves_exactly_one(
    m: Map<Seq<char>, Set<Seq<char>>>,
    pairs: Seq<FileDigest>,
    h: Seq<char>,
)
    requires
        m.contains_key(h),
        m[h].finite(),
        m[h].len() >= 1,
        forall|p: Seq<char>|
            m[h].contains(p) ==> exists|i: int|
                0 <= i < pairs.len() && (#[trigger] pairs[i]).digest@ == h && pairs[i].path@ == p,
    ensures
        spec_run_delete(m, pairs).contains_key(h),
        spec_run_delete(m, pairs)[h].len() == 1,
        spec_run_delete(m, pairs)[h].subset_of(m[h]),
{
    lemma_run_delete_covered(m, pairs, h);
}

} // verus!
