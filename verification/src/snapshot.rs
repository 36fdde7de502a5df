//! Snapshots and the diff engine.
//!
//! A snapshot is an immutable record of one fingerprint per regular file
//! under a root path, keyed by the file's path.  The map is held as a
//! vector with provably unique keys.  Two snapshots can be diffed into
//! the created / deleted / changed path lists.

use crate::digits::{dec_u128, spec_dec};
use crate::hasher::HashType;
use vstd::prelude::*;
use vstd::string::{StrSliceExecFns, StringExecFns};

verus! {

/// One regular file's fingerprint: checksum plus best-effort metadata.
/// An empty `check_sum` marks a failed read; such a record is never
/// stored in a snapshot map.
#[derive(Debug, Clone)]
pub struct FileMetadata {
    pub path: String,
    pub check_sum: Vec<u8>,
    pub size: u64,
    pub ino: u64,
    pub ctime: i64,
    pub mtime: i64,
}

/// The mathematical value of a fingerprint record.
#[verifier::ext_equal]
pub struct FileMetadataV {
    pub path: Seq<char>,
    pub check_sum: Seq<u8>,
    pub size: u64,
    pub ino: u64,
    pub ctime: i64,
    pub mtime: i64,
}

impl View for FileMetadata {
    type V = FileMetadataV;

    open spec fn view(&self) -> FileMetadataV {
        FileMetadataV {
            path: self.path@,
            check_sum: self.check_sum@,
            size: self.size,
            ino: self.ino,
            ctime: self.ctime,
            mtime: self.mtime,
        }
    }
}

impl Default for FileMetadata {
    fn default() -> (d: Self)
        ensures
            d@.path == Seq::<char>::empty(),
            d@.check_sum == Seq::<u8>::empty(),
            d@.size == 0,
            d@.ino == 0,
            d@.ctime == 0,
            d@.mtime == 0,
    {
        FileMetadata {
            path: String::new(),
            check_sum: Vec::new(),
            size: 0,
            ino: 0,
            ctime: 0,
            mtime: 0,
        }
    }
}

impl FileMetadata {
    /// Assemble a record from a file's fingerprint: the checksum and the
    /// best-effort stat values, under the path that keys it.
    pub fn from_result(path: String, r: crate::hasher::HashResult) -> (m: FileMetadata)
        ensures
            m@.path == path@,
            m@.check_sum == r.check_sum@,
            m@.size == r.size,
            m@.ino == r.ino,
            m@.ctime == r.ctime,
            m@.mtime == r.mtime,
    {
        FileMetadata {
            path,
            check_sum: r.check_sum,
            size: r.size,
            ino: r.ino,
            ctime: r.ctime,
            mtime: r.mtime,
        }
    }
}

/// A point-in-time record of every scanned file under a root path.
#[derive(Debug, Clone)]
pub struct Snapshot {
    pub file_hashes: Vec<FileMetadata>,
    pub black_list: Vec<String>,
    pub root_path: String,
    pub hash_type: HashType,
    pub uuid: String,
    pub date_created: i64,
}

/// The mathematical value of a snapshot.
#[verifier::ext_equal]
pub struct SnapshotV {
    pub entries: Seq<FileMetadataV>,
    pub black_list: Seq<Seq<char>>,
    pub root_path: Seq<char>,
    pub hash_type: HashType,
    pub uuid: Seq<char>,
    pub date_created: i64,
}

/// The views of a sequence of strings.
pub open spec fn views_of_strings(s: Seq<String>) -> Seq<Seq<char>> {
    s.map(|i: int, x: String| x@)
}

/// The views of a vector of fingerprint records.
pub open spec fn views_of_entries(s: Seq<FileMetadata>) -> Seq<FileMetadataV> {
    s.map(|i: int, m: FileMetadata| m@)
}

impl View for Snapshot {
    type V = SnapshotV;

    open spec fn view(&self) -> SnapshotV {
        SnapshotV {
            entries: views_of_entries(self.file_hashes@),
            black_list: views_of_strings(self.black_list@),
            root_path: self.root_path@,
            hash_type: self.hash_type,
            uuid: self.uuid@,
            date_created: self.date_created,
        }
    }
}

/// No two records share a path.
pub open spec fn unique_paths(s: Seq<FileMetadataV>) -> bool {
    forall|i: int, j: int| 0 <= i < j < s.len() ==> s[i].path != s[j].path
}

/// Some record has the given path.
pub open spec fn has_path(s: Seq<FileMetadataV>, p: Seq<char>) -> bool {
    exists|i: int| 0 <= i < s.len() && s[i].path == p
}

/// An index of a record with the given path (the index, when paths are
/// unique).
pub open spec fn path_index(s: Seq<FileMetadataV>, p: Seq<char>) -> int {
    choose|i: int| 0 <= i < s.len() && s[i].path == p
}

/// The record with the given path.
pub open spec fn entry_at(s: Seq<FileMetadataV>, p: Seq<char>) -> FileMetadataV {
    s[path_index(s, p)]
}

/// Insert a record, replacing any existing record with the same path
/// (last write wins).
pub open spec fn spec_upsert(s: Seq<FileMetadataV>, e: FileMetadataV) -> Seq<FileMetadataV> {
    if has_path(s, e.path) {
        s.update(path_index(s, e.path), e)
    } else {
        s.push(e)
    }
}

/// A path is blacklisted when some blacklist entry is a prefix of it.
pub open spec fn spec_blacklisted(p: Seq<char>, black_list: Seq<Seq<char>>) -> bool {
    exists|i: int| 0 <= i < black_list.len() && black_list[i].is_prefix_of(p)
}

/// No stored record has a blacklisted path.
pub open spec fn blacklist_clean(v: SnapshotV) -> bool {
    forall|i: int| 0 <= i < v.entries.len() ==> !spec_blacklisted(v.entries[i].path, v.black_list)
}

/// Well-formedness of a snapshot value: keys are unique and every stored
/// record carries a real (non-empty) checksum.
pub open spec fn wf_v(v: SnapshotV) -> bool {
    &&& unique_paths(v.entries)
    &&& forall|i: int| 0 <= i < v.entries.len() ==> v.entries[i].check_sum.len() > 0
}

impl Snapshot {
    pub open spec fn wf(self) -> bool {
        wf_v(self@)
    }
}

pub proof fn lemma_path_index_unique(s: Seq<FileMetadataV>, p: Seq<char>, j: int)
    requires
        unique_paths(s),
        0 <= j < s.len(),
        s[j].path == p,
    ensures
        has_path(s, p),
        path_index(s, p) == j,
        entry_at(s, p) == s[j],
{
    assert(has_path(s, p));
    let i = path_index(s, p);
    if i != j {
        assert(s[i].path != s[j].path);
    }
}

/// The failure taxonomy: configuration rejection of a path, an I/O
/// failure, a malformed persisted document, and a failed worker join are
/// distinct, so callers never conflate them.
#[derive(Debug, Clone, Copy, PartialEq, Eq, Structural)]
pub enum SnapshotError {
    Path,
    Io,
    Serialization,
    Concurrency,
}

impl SnapshotError {
    /// A short description of the failure, for callers that print it.
    pub fn describe(&self) -> String {
        match self {
            SnapshotError::Path => String::from_str("path rejected or not resolvable"),
            SnapshotError::Io => String::from_str("file could not be read or written"),
            SnapshotError::Serialization => String::from_str("snapshot document is malformed"),
            SnapshotError::Concurrency => String::from_str("a worker task failed"),
        }
    }
}

/// The coarse summary flag for a diff: the last non-empty category in
/// the fixed evaluation order created, deleted, changed.
#[derive(Debug, PartialEq, Eq, Structural)]
pub enum SnapshotChangeType {
    Unchanged,
    Created,
    Deleted,
    Changed,
}

/// The three path lists a diff produces.
#[derive(Debug)]
pub struct SnapshotCompareResult {
    pub created: Vec<String>,
    pub deleted: Vec<String>,
    pub changed: Vec<String>,
}

/// Paths of records of `l` that are absent from `r`, in `l`'s order.
pub open spec fn missing_paths(l: Seq<FileMetadataV>, r: Seq<FileMetadataV>) -> Seq<Seq<char>>
    decreases l.len(),
{
    if l.len() == 0 {
        Seq::<Seq<char>>::empty()
    } else {
        missing_paths(l.drop_last(), r) + if has_path(r, l.last().path) {
            Seq::<Seq<char>>::empty()
        } else {
            seq![l.last().path]
        }
    }
}

/// What one shared path contributes to the changed list: its path once
/// if the checksums differ, and once more if, under the combined policy,
/// either timestamp differs.  A path changed in both ways is thus listed
/// twice under the combined policy; callers that need a set de-duplicate.
pub open spec fn changed_entry_paths(le: FileMetadataV, re: FileMetadataV, with_time: bool) -> Seq<
    Seq<char>,
> {
    (if re.check_sum != le.check_sum {
        seq![re.path]
    } else {
        Seq::<Seq<char>>::empty()
    }) + (if with_time && (re.mtime != le.mtime || re.ctime != le.ctime) {
        seq![re.path]
    } else {
        Seq::<Seq<char>>::empty()
    })
}

/// Paths listed as changed between `l` and `r`, walking `l` in order and
/// comparing each record shared with `r`.
pub open spec fn changed_paths(
    l: Seq<FileMetadataV>,
    r: Seq<FileMetadataV>,
    with_time: bool,
) -> Seq<Seq<char>>
    decreases l.len(),
{
    if l.len() == 0 {
        Seq::<Seq<char>>::empty()
    } else {
        changed_paths(l.drop_last(), r, with_time) + if has_path(r, l.last().path) {
            changed_entry_paths(l.last(), entry_at(r, l.last().path), with_time)
        } else {
            Seq::<Seq<char>>::empty()
        }
    }
}

/// The summary flag: `Changed` wins over `Deleted`, which wins over
/// `Created`; `None` only when all three lists are empty.
pub open spec fn spec_summary(
    created: Seq<Seq<char>>,
    deleted: Seq<Seq<char>>,
    changed: Seq<Seq<char>>,
) -> SnapshotChangeType {
    if changed.len() > 0 {
        SnapshotChangeType::Changed
    } else if deleted.len() > 0 {
        SnapshotChangeType::Deleted
    } else if created.len() > 0 {
        SnapshotChangeType::Created
    } else {
        SnapshotChangeType::Unchanged
    }
}

/// Byte-vector equality, decided element by element.
fn bytes_eq(a: &Vec<u8>, b: &Vec<u8>) -> (r: bool)
    ensures
        r == (a@ == b@),
{
    if a.len() != b.len() {
        return false;
    }
    let n = a.len();
    for i in 0..n
        invariant
            n == a.len() == b.len(),
            forall|k: int| 0 <= k < i ==> a@[k] == b@[k],
    {
        if a[i] != b[i] {
            return false;
        }
    }
    proof {
        assert(a@ =~= b@);
    }
    true
}

/// Find the index of the record with the given path, scanning in order.
fn find_entry(entries: &Vec<FileMetadata>, path: &String) -> (r: Option<usize>)
    ensures
        match r {
            Some(j) => j < entries@.len() && entries@[j as int]@.path == path@,
            None => !has_path(views_of_entries(entries@), path@),
        },
{
    let n = entries.len();
    for j in 0..n
        invariant
            n == entries@.len(),
            forall|k: int| 0 <= k < j ==> views_of_entries(entries@)[k].path != path@,
    {
        if entries[j].path.eq(path) {
            return Some(j);
        }
    }
    None
}

/// The shared diff walk.  `with_time` selects the combined
/// checksum-and-timestamp policy.
fn compare_core(left: &Snapshot, right: &Snapshot, with_time: bool) -> (r: (
    SnapshotChangeType,
    SnapshotCompareResult,
))
    requires
        left.wf(),
        right.wf(),
    ensures
        views_of_strings(r.1.created@) == missing_paths(right@.entries, left@.entries),
        views_of_strings(r.1.deleted@) == missing_paths(left@.entries, right@.entries),
        views_of_strings(r.1.changed@) == changed_paths(left@.entries, right@.entries, with_time),
        r.0 == spec_summary(
            missing_paths(right@.entries, left@.entries),
            missing_paths(left@.entries, right@.entries),
            changed_paths(left@.entries, right@.entries, with_time),
        ),
{
    let ghost lv = left@.entries;
    let ghost rv = right@.entries;
    let mut created: Vec<String> = Vec::new();
    let mut deleted: Vec<String> = Vec::new();
    let mut changed: Vec<String> = Vec::new();

    let nl = left.file_hashes.len();
    proof {
        assert(lv.take(0) =~= Seq::<FileMetadataV>::empty());
    }
    for i in 0..nl
        invariant
            nl == left.file_hashes@.len(),
            lv == left@.entries,
            rv == right@.entries,
            unique_paths(rv),
            views_of_strings(deleted@) == missing_paths(lv.take(i as int), rv),
            views_of_strings(changed@) == changed_paths(lv.take(i as int), rv, with_time),
            created@.len() == 0,
    {
        let ghost deleted_prev = deleted@;
        let ghost changed_prev = changed@;
        let le = &left.file_hashes[i];
        proof {
            assert(lv.take(i + 1).drop_last() =~= lv.take(i as int));
            assert(lv.take(i + 1).last() == lv[i as int]);
        }
        match find_entry(&right.file_hashes, &le.path) {
            Some(j) => {
                proof {
                    lemma_path_index_unique(rv, le@.path, j as int);
                }
                let re = &right.file_hashes[j];
                if !bytes_eq(&re.check_sum, &le.check_sum) {
                    changed.push(re.path.clone());
                }
                if with_time && (re.mtime != le.mtime || re.ctime != le.ctime) {
                    changed.push(re.path.clone());
                }
                proof {
                    assert(views_of_strings(changed@) =~= views_of_strings(changed_prev)
                        + changed_entry_paths(lv[i as int], rv[j as int], with_time));
                }
            },
            None => {
                deleted.push(le.path.clone());
                proof {
                    assert(views_of_strings(deleted@) =~= views_of_strings(deleted_prev) + seq![
                        lv[i as int].path,
                    ]);
                }
            },
        }
        proof {
            assert(views_of_strings(deleted@) =~= missing_paths(lv.take(i + 1), rv));
            assert(views_of_strings(changed@) =~= changed_paths(lv.take(i + 1), rv, with_time));
        }
    }
    proof {
        assert(lv.take(nl as int) =~= lv);
        assert(rv.take(0) =~= Seq::<FileMetadataV>::empty());
    }

    let nr = right.file_hashes.len();
    for i in 0..nr
        invariant
            nr == right.file_hashes@.len(),
            lv == left@.entries,
            rv == right@.entries,
            views_of_strings(created@) == missing_paths(rv.take(i as int), lv),
            views_of_strings(deleted@) == missing_paths(lv, rv),
            views_of_strings(changed@) == changed_paths(lv, rv, with_time),
    {
        let ghost created_prev = created@;
        let re = &right.file_hashes[i];
        proof {
            assert(rv.take(i + 1).drop_last() =~= rv.take(i as int));
            assert(rv.take(i + 1).last() == rv[i as int]);
        }
        match find_entry(&left.file_hashes, &re.path) {
            Some(j) => {
                proof {
                    assert(lv[j as int].path == rv[i as int].path);
                    assert(has_path(lv, rv[i as int].path));
                }
            },
            None => {
                created.push(re.path.clone());
                proof {
                    assert(views_of_strings(created@) =~= views_of_strings(created_prev) + seq![
                        rv[i as int].path,
                    ]);
                }
            },
        }
        proof {
            assert(views_of_strings(created@) =~= missing_paths(rv.take(i + 1), lv));
        }
    }
    proof {
        assert(rv.take(nr as int) =~= rv);
    }

    let change_type = if changed.len() > 0 {
        SnapshotChangeType::Changed
    } else if deleted.len() > 0 {
        SnapshotChangeType::Deleted
    } else if created.len() > 0 {
        SnapshotChangeType::Created
    } else {
        SnapshotChangeType::Unchanged
    };
    (change_type, SnapshotCompareResult { created, deleted, changed })
}

/// Diff two snapshots under the checksum-only policy.  The result lists
/// exactly the created, deleted and changed paths, and the summary flag
/// follows the fixed precedence.
pub fn compare_hashes(left: Snapshot, right: Snapshot) -> (r: Option<
    (SnapshotChangeType, SnapshotCompareResult),
>)
    requires
        left.wf(),
        right.wf(),
    ensures
        r is Some,
        views_of_strings(r.unwrap().1.created@) == missing_paths(right@.entries, left@.entries),
        views_of_strings(r.unwrap().1.deleted@) == missing_paths(left@.entries, right@.entries),
        views_of_strings(r.unwrap().1.changed@) == changed_paths(
            left@.entries,
            right@.entries,
            false,
        ),
        r.unwrap().0 == spec_summary(
            missing_paths(right@.entries, left@.entries),
            missing_paths(left@.entries, right@.entries),
            changed_paths(left@.entries, right@.entries, false),
        ),
{
    Some(compare_core(&left, &right, false))
}

/// Diff two snapshots under the combined checksum-and-timestamp policy:
/// a shared path is also listed as changed when its `mtime` or `ctime`
/// differ, even with matching checksums.
pub fn compare_hashes_and_modify_date(left: Snapshot, right: Snapshot) -> (r: Option<
    (SnapshotChangeType, SnapshotCompareResult),
>)
    requires
        left.wf(),
        right.wf(),
    ensures
        r is Some,
        views_of_strings(r.unwrap().1.created@) == missing_paths(right@.entries, left@.entries),
        views_of_strings(r.unwrap().1.deleted@) == missing_paths(left@.entries, right@.entries),
        views_of_strings(r.unwrap().1.changed@) == changed_paths(
            left@.entries,
            right@.entries,
            true,
        ),
        r.unwrap().0 == spec_summary(
            missing_paths(right@.entries, left@.entries),
            missing_paths(left@.entries, right@.entries),
            changed_paths(left@.entries, right@.entries, true),
        ),
{
    Some(compare_core(&left, &right, true))
}

proof fn lemma_self_diff_rec(l: Seq<FileMetadataV>, r: Seq<FileMetadataV>, with_time: bool)
    requires
        forall|i: int| #![trigger l[i]] 0 <= i < l.len() ==> has_path(r, l[i].path) && entry_at(
            r,
            l[i].path,
        ) == l[i],
    ensures
        missing_paths(l, r).len() == 0,
        changed_paths(l, r, with_time).len() == 0,
    decreases l.len(),
{
    if l.len() > 0 {
        assert(forall|i: int| #![trigger l.drop_last()[i]] 0 <= i < l.drop_last().len()
            ==> l.drop_last()[i] == l[i]);
        lemma_self_diff_rec(l.drop_last(), r, with_time);
        assert(l.last() == l[l.len() - 1]);
        assert(changed_entry_paths(l.last(), entry_at(r, l.last().path), with_time).len() == 0);
    }
}

/// Law: a snapshot diffed against itself reports nothing, under either
/// policy — no created, no deleted, no changed paths, and the summary
/// flag `None`.
pub proof fn lemma_no_self_diff(s: Snapshot, with_time: bool)
    requires
        s.wf(),
    ensures
        missing_paths(s@.entries, s@.entries).len() == 0,
        changed_paths(s@.entries, s@.entries, with_time).len() == 0,
        spec_summary(
            missing_paths(s@.entries, s@.entries),
            missing_paths(s@.entries, s@.entries),
            changed_paths(s@.entries, s@.entries, with_time),
        ) == SnapshotChangeType::Unchanged,
{
    let e = s@.entries;
    assert forall|i: int| #![trigger e[i]] 0 <= i < e.len() implies has_path(e, e[i].path)
        && entry_at(e, e[i].path) == e[i] by {
        lemma_path_index_unique(e, e[i].path, i);
    }
    lemma_self_diff_rec(e, e, with_time);
}

/// Convert a string slice to the vector of its characters.
pub fn str_to_chars(s: &str) -> (r: Vec<char>)
    ensures
        r@ == s@,
{
    let n = s.unicode_len();
    let mut out: Vec<char> = Vec::new();
    for i in 0..n
        invariant
            n == s@.len(),
            out@ == s@.take(i as int),
    {
        out.push(s.get_char(i));
        proof {
            assert(out@ =~= s@.take(i + 1));
        }
    }
    proof {
        assert(s@.take(n as int) =~= s@);
    }
    out
}

/// Relies on Iterator::collect for String: builds the string holding
/// exactly the given characters.
#[verifier::external_body]
pub(crate) fn chars_to_string(v: &Vec<char>) -> (r: String)
    ensures
        r@ == v@,
{
    v.iter().collect()
}

/// The resolved form of a path against a working directory: a path
/// starting with `./` is rebased onto the working directory; any other
/// path is kept as it is.
pub open spec fn spec_resolved(path: Seq<char>, cwd: Seq<char>) -> Seq<char> {
    if path.len() >= 2 && path[0] == '.' && path[1] == '/' {
        cwd + seq!['/'] + path.skip(2)
    } else {
        path
    }
}

/// Normalize a possibly `./`-relative path against the given working
/// directory.
pub fn path_resolve(path: &String, cwd: &String) -> (r: String)
    ensures
        r@ == spec_resolved(path@, cwd@),
{
    let pc = str_to_chars(path.as_str());
    if pc.len() >= 2 && pc[0] == '.' && pc[1] == '/' {
        let mut out = str_to_chars(cwd.as_str());
        out.push('/');
        let n = pc.len();
        for i in 2..n
            invariant
                n == pc@.len(),
                pc@ == path@,
                out@ == cwd@ + seq!['/'] + pc@.subrange(2, i as int),
        {
            out.push(pc[i]);
            proof {
                assert(out@ =~= cwd@ + seq!['/'] + pc@.subrange(2, i + 1));
            }
        }
        proof {
            assert(pc@.subrange(2, n as int) =~= path@.skip(2));
        }
        chars_to_string(&out)
    } else {
        proof {
            assert(pc@ == path@);
        }
        chars_to_string(&pc)
    }
}

/// Does `pre` stand at the start of `p`?
fn chars_has_prefix(p: &Vec<char>, pre: &Vec<char>) -> (r: bool)
    ensures
        r == pre@.is_prefix_of(p@),
{
    if pre.len() > p.len() {
        return false;
    }
    let n = pre.len();
    for i in 0..n
        invariant
            n == pre@.len() <= p@.len(),
            forall|k: int| 0 <= k < i ==> pre@[k] == p@[k],
    {
        if pre[i] != p[i] {
            return false;
        }
    }
    proof {
        assert(pre@ =~= p@.subrange(0, pre@.len() as int));
    }
    true
}

/// Is the path covered by one of the blacklist prefixes?
pub fn is_blacklisted(path: &String, black_list: &Vec<String>) -> (r: bool)
    ensures
        r == spec_blacklisted(path@, views_of_strings(black_list@)),
{
    let pc = str_to_chars(path.as_str());
    let n = black_list.len();
    for i in 0..n
        invariant
            pc@ == path@,
            n == black_list@.len(),
            forall|k: int| 0 <= k < i ==> !views_of_strings(black_list@)[k].is_prefix_of(path@),
    {
        let bc = str_to_chars(black_list[i].as_str());
        if chars_has_prefix(&pc, &bc) {
            proof {
                assert(views_of_strings(black_list@)[i as int].is_prefix_of(path@));
            }
            return true;
        }
    }
    false
}

/// Relies on rand::random: a fresh 128-bit value from the thread-local
/// generator; nothing is promised of its distribution.
#[verifier::external_body]
fn random_u128() -> u128 {
    rand::random::<u128>()
}

/// Relies on chrono::Utc::now / DateTime::timestamp: the current wall
/// clock as Unix seconds; nothing is promised of its value.
#[verifier::external_body]
fn timestamp_now() -> i64 {
    chrono::Utc::now().timestamp()
}

impl Snapshot {
    /// Start an empty snapshot for the given root: a fresh random uuid
    /// rendered in decimal, the construction time, and no entries yet.
    pub fn begin(root_path: String, hash_type: HashType, black_list: Vec<String>) -> (s: Snapshot)
        ensures
            s@.entries.len() == 0,
            s@.root_path == root_path@,
            s@.hash_type == hash_type,
            s@.black_list == views_of_strings(black_list@),
            exists|n: u128| s@.uuid == spec_dec(n as nat),
            s.wf(),
            blacklist_clean(s@),
    {
        let id: u128 = random_u128();
        let uuid = chars_to_string(&dec_u128(id));
        proof {
            assert(uuid@ == spec_dec(id as nat));
        }
        let s = Snapshot {
            file_hashes: Vec::new(),
            black_list,
            root_path,
            hash_type,
            uuid,
            date_created: timestamp_now(),
        };
        proof {
            assert(s@.entries =~= Seq::<FileMetadataV>::empty());
        }
        s
    }

    /// Record one fingerprint, enforcing the blacklist and refusing
    /// failed reads: a record whose resolved path is covered by a
    /// blacklist prefix, or whose checksum is empty, is never stored.
    /// Otherwise the record lands in the map, replacing any earlier
    /// record with the same path.
    pub fn record(&mut self, meta: FileMetadata) -> (added: bool)
        requires
            old(self).wf(),
        ensures
            final(self).wf(),
            final(self)@.root_path == old(self)@.root_path,
            final(self)@.hash_type == old(self)@.hash_type,
            final(self)@.black_list == old(self)@.black_list,
            final(self)@.uuid == old(self)@.uuid,
            final(self)@.date_created == old(self)@.date_created,
            added == (meta@.check_sum.len() > 0 && !spec_blacklisted(
                meta@.path,
                old(self)@.black_list,
            )),
            added ==> final(self)@.entries == spec_upsert(old(self)@.entries, meta@),
            !added ==> final(self)@.entries == old(self)@.entries,
            blacklist_clean(old(self)@) ==> blacklist_clean(final(self)@),
    {
        if meta.check_sum.len() == 0 {
            return false;
        }
        if is_blacklisted(&meta.path, &self.black_list) {
            return false;
        }
        let ghost old_entries = self@.entries;
        match find_entry(&self.file_hashes, &meta.path) {
            Some(j) => {
                proof {
                    lemma_path_index_unique(old_entries, meta@.path, j as int);
                }
                self.file_hashes[j] = meta;
                proof {
                    assert(self@.entries =~= old_entries.update(j as int, meta@));
                    assert(forall|k: int| 0 <= k < self@.entries.len() ==> self@.entries[k].path
                        == old_entries[k].path);
                }
            },
            None => {
                self.file_hashes.push(meta);
                proof {
                    assert(self@.entries =~= old_entries.push(meta@));
                }
            },
        }
        true
    }
}

/// Insert a record into a unique-keyed record vector, replacing any
/// existing record with the same path (last write wins).
pub fn upsert_entry(entries: &mut Vec<FileMetadata>, meta: FileMetadata)
    requires
        unique_paths(views_of_entries(old(entries)@)),
    ensures
        views_of_entries(final(entries)@) == spec_upsert(views_of_entries(old(entries)@), meta@),
        unique_paths(views_of_entries(final(entries)@)),
{
    let ghost old_entries = views_of_entries(entries@);
    match find_entry(entries, &meta.path) {
        Some(j) => {
            proof {
                lemma_path_index_unique(old_entries, meta@.path, j as int);
            }
            entries[j] = meta;
            proof {
                assert(views_of_entries(entries@) =~= old_entries.update(
                    j as int,
                    meta@,
                ));
                assert(forall|k: int|
                    0 <= k < views_of_entries(entries@).len() ==> views_of_entries(entries@)[k].path
                        == old_entries[k].path);
            }
        },
        None => {
            entries.push(meta);
            proof {
                assert(views_of_entries(entries@) =~= old_entries.push(meta@));
            }
        },
    }
}

impl Default for Snapshot {
    /// The empty snapshot: no entries, empty provenance, the strong
    /// default algorithm.
    fn default() -> (s: Self)
        ensures
            s@.entries.len() == 0,
            s@.black_list.len() == 0,
            s@.root_path.len() == 0,
            s@.hash_type == HashType::BLAKE3,
            s@.uuid.len() == 0,
            s@.date_created == 0,
            s.wf(),
    {
        let s = Snapshot {
            file_hashes: Vec::new(),
            black_list: Vec::new(),
            root_path: String::new(),
            hash_type: HashType::BLAKE3,
            uuid: String::new(),
            date_created: 0,
        };
        proof {
            assert(s@.entries =~= Seq::<FileMetadataV>::empty());
            assert(s@.black_list =~= Seq::<Seq<char>>::empty());
        }
        s
    }
}

} // verus!
