use vstd::prelude::*;

use crate::text::{bytes_eq, copy_bytes, has_segment, has_segment_exec, DOT, SLASH};

verus! {

/// One file of a template: its path relative to the tree's root, and its bytes.
pub struct FileEntry {
    pub relative_path: Vec<u8>,
    pub content: Vec<u8>,
}

/// The files of a template, anchored at the origin they were loaded from.
pub struct FileTree {
    pub origin: String,
    pub files: Vec<FileEntry>,
}

/// The segment `..`.
pub open spec fn parent_segment() -> Seq<u8> {
    seq![DOT, DOT]
}

/// The segment `.git`, the version-control metadata directory.
pub open spec fn vcs_segment() -> Seq<u8> {
    seq![DOT, 103u8, 105u8, 116u8]
}

/// A relative path that stays inside the tree's root.
pub open spec fn is_safe_path(p: Seq<u8>) -> bool {
    &&& p.len() > 0
    &&& p[0] != SLASH
    &&& !has_segment(p, parent_segment())
}

/// A path inside version-control metadata, which loading leaves out.
pub open spec fn is_vcs_path(p: Seq<u8>) -> bool {
    has_segment(p, vcs_segment())
}

pub open spec fn entry_view(e: FileEntry) -> (Seq<u8>, Seq<u8>) {
    (e.relative_path@, e.content@)
}

/// Paths are safe and pairwise distinct.
pub open spec fn entries_wf(s: Seq<(Seq<u8>, Seq<u8>)>) -> bool {
    &&& forall|k: int| 0 <= k < s.len() ==> is_safe_path(#[trigger] s[k].0)
    &&& forall|k: int, l: int| 0 <= k < l < s.len() ==> #[trigger] s[k].0 != #[trigger] s[l].0
}

impl FileTree {
    /// The (path, content) pairs of the tree, in order.
    pub open spec fn entries(&self) -> Seq<(Seq<u8>, Seq<u8>)> {
        self.files@.map_values(|e: FileEntry| entry_view(e))
    }

    pub open spec fn wf(&self) -> bool {
        entries_wf(self.entries())
    }

    /// The content of the file at `path`, if the tree holds one.
    pub fn find(&self, path: &[u8]) -> (r: Option<&Vec<u8>>)
        ensures
            r is None <==> forall|k: int| 0 <= k < self.entries().len() ==> self.entries()[k].0 != path@,
            r is Some ==> exists|k: int| 0 <= k < self.entries().len()
                && self.entries()[k].0 == path@ && #[trigger] self.entries()[k].1 == r->Some_0@,
    {
        let mut i: usize = 0;
        while i < self.files.len()
            invariant
                i <= self.files@.len(),
                forall|k: int| 0 <= k < i ==> self.entries()[k].0 != path@,
            decreases self.files@.len() - i,
        {
            if bytes_eq(self.files[i].relative_path.as_slice(), path) {
                assert(self.entries()[i as int].0 == path@);
                assert(self.entries()[i as int].1 == self.files@[i as int].content@);
                return Some(&self.files[i].content);
            }
            i = i + 1;
        }
        None
    }
}

/// What a directory walk reported for one file.
pub enum ListedFile {
    Read(Vec<u8>, Vec<u8>),
    Unreadable(Vec<u8>, String),
}

impl ListedFile {
    pub open spec fn path(&self) -> Seq<u8> {
        match self {
            ListedFile::Read(p, _) => p@,
            ListedFile::Unreadable(p, _) => p@,
        }
    }
}

/// The bytes that a walk read for a file.
pub open spec fn listed_content(l: ListedFile) -> Seq<u8> {
    match l {
        ListedFile::Read(_, c) => c@,
        ListedFile::Unreadable(_, _) => Seq::empty(),
    }
}

/// What a walk of a local origin found: no such directory, or its files.
pub enum LocalListing {
    Missing,
    Listed(Vec<ListedFile>),
}

/// A template kept in a remote repository, at a branch.
pub struct RemoteOrigin {
    pub remote_url: String,
    pub branch: String,
}

pub enum LoadError {
    OriginNotFound(String),
    ReadError(Vec<u8>, String),
    InvalidPath(Vec<u8>),
    DuplicatePath(Vec<u8>),
    /// Fetching the origin (its url and branch) failed, for the reason given.
    RemoteFetchError(String, String, String),
}

/// Why one listed file stops a load.
#[derive(Clone, Copy, PartialEq, Eq, Structural)]
pub enum LoadFailure {
    Unreadable,
    InvalidPath,
    DuplicatePath,
}

/// What one listed file does to the entries gathered so far.
pub open spec fn scan_step(acc: Seq<(Seq<u8>, Seq<u8>)>, e: ListedFile, idx: int) -> Result<
    Seq<(Seq<u8>, Seq<u8>)>,
    (int, LoadFailure),
> {
    if is_vcs_path(e.path()) {
        Ok(acc)
    } else {
        match e {
            ListedFile::Unreadable(_, _) => Err((idx, LoadFailure::Unreadable)),
            ListedFile::Read(p, c) => if !is_safe_path(p@) {
                Err((idx, LoadFailure::InvalidPath))
            } else if exists|k: int| 0 <= k < acc.len() && #[trigger] acc[k].0 == p@ {
                Err((idx, LoadFailure::DuplicatePath))
            } else {
                Ok(acc.push((p@, c@)))
            },
        }
    }
}

/// The entries of a listing in order, or the first listed file that stops the load.
pub open spec fn scan(listed: Seq<ListedFile>) -> Result<Seq<(Seq<u8>, Seq<u8>)>, (int, LoadFailure)>
    decreases listed.len(),
{
    if listed.len() == 0 {
        Ok(Seq::empty())
    } else {
        match scan(listed.drop_last()) {
            Err(e) => Err(e),
            Ok(acc) => scan_step(acc, listed.last(), listed.len() - 1),
        }
    }
}

/// `e` is the error that `f` on the listed file `l` is reported as.
pub open spec fn reports(e: LoadError, l: ListedFile, f: LoadFailure) -> bool {
    match f {
        LoadFailure::Unreadable => match (e, l) {
            (LoadError::ReadError(p, c), ListedFile::Unreadable(lp, lc)) => p@ == lp@ && c@ == lc@,
            _ => false,
        },
        LoadFailure::InvalidPath => e is InvalidPath && e->InvalidPath_0@ == l.path(),
        LoadFailure::DuplicatePath => e is DuplicatePath && e->DuplicatePath_0@ == l.path(),
    }
}

/// The outcome of loading a local origin from what walking it found.
pub open spec fn local_outcome(origin: Seq<char>, listing: LocalListing, r: Result<FileTree, LoadError>) -> bool {
    match listing {
        LocalListing::Missing => r is Err && r->Err_0 is OriginNotFound && r->Err_0->OriginNotFound_0@
            == origin,
        LocalListing::Listed(listed) => listed_outcome(origin, listed@, r),
    }
}

/// The outcome of loading the files that a walk listed.
pub open spec fn listed_outcome(origin: Seq<char>, listed: Seq<ListedFile>, r: Result<FileTree, LoadError>) -> bool {
    match scan(listed) {
        Ok(entries) => r is Ok && r->Ok_0.entries() == entries && r->Ok_0.origin@ == origin,
        Err((i, f)) => 0 <= i < listed.len() && r is Err && reports(r->Err_0, listed[i], f),
    }
}

proof fn lemma_scan_wf(listed: Seq<ListedFile>)
    ensures
        scan(listed) is Ok ==> entries_wf(scan(listed)->Ok_0),
        scan(listed) is Err ==> 0 <= scan(listed)->Err_0.0 < listed.len(),
    decreases listed.len(),
{
    if listed.len() > 0 {
        lemma_scan_wf(listed.drop_last());
    }
}

proof fn lemma_scan_err_prefix(listed: Seq<ListedFile>, n: int)
    requires
        0 <= n <= listed.len(),
        scan(listed.take(n)) is Err,
    ensures
        scan(listed) == scan(listed.take(n)),
    decreases listed.len(),
{
    if n == listed.len() {
        assert(listed.take(n) =~= listed);
    } else {
        assert(listed.drop_last().take(n) =~= listed.take(n));
        lemma_scan_err_prefix(listed.drop_last(), n);
    }
}

/// A walk that read every one of N files, at safe and distinct paths outside
/// version-control metadata, loads as a tree of exactly those N files, each with
/// its path and its bytes, in the order listed.
pub proof fn lemma_load_keeps_every_file(origin: Seq<char>, listed: Seq<ListedFile>)
    requires
        forall|k: int| 0 <= k < listed.len() ==> #[trigger] listed[k] is Read,
        forall|k: int| 0 <= k < listed.len() ==> is_safe_path(#[trigger] listed[k].path()),
        forall|k: int| 0 <= k < listed.len() ==> !is_vcs_path(#[trigger] listed[k].path()),
        forall|k: int, l: int| 0 <= k < l < listed.len() ==> #[trigger] listed[k].path() != #[trigger] listed[l].path(),
    ensures
        forall|r: Result<FileTree, LoadError>| #[trigger] listed_outcome(origin, listed, r) ==> {
            &&& r is Ok
            &&& r->Ok_0.entries().len() == listed.len()
            &&& forall|k: int| 0 <= k < listed.len() ==> #[trigger] r->Ok_0.entries()[k] == (listed[k].path(), listed_content(listed[k]))
        },
{
    lemma_scan_all_read(listed);
}

proof fn lemma_scan_all_read(listed: Seq<ListedFile>)
    requires
        forall|k: int| 0 <= k < listed.len() ==> #[trigger] listed[k] is Read,
        forall|k: int| 0 <= k < listed.len() ==> is_safe_path(#[trigger] listed[k].path()),
        forall|k: int| 0 <= k < listed.len() ==> !is_vcs_path(#[trigger] listed[k].path()),
        forall|k: int, l: int| 0 <= k < l < listed.len() ==> #[trigger] listed[k].path() != #[trigger] listed[l].path(),
    ensures
        scan(listed) is Ok,
        scan(listed)->Ok_0.len() == listed.len(),
        forall|k: int| 0 <= k < listed.len() ==> #[trigger] scan(listed)->Ok_0[k] == (listed[k].path(), listed_content(listed[k])),
    decreases listed.len(),
{
    if listed.len() > 0 {
        let d = listed.drop_last();
        assert forall|k: int, l: int| 0 <= k < l < d.len() implies #[trigger] d[k].path() != #[trigger] d[l].path() by {
            assert(d[k] == listed[k] && d[l] == listed[l]);
        }
        assert forall|k: int| 0 <= k < d.len() implies #[trigger] d[k] is Read && is_safe_path(d[k].path()) && !is_vcs_path(d[k].path()) by {
            assert(d[k] == listed[k]);
        }
        lemma_scan_all_read(d);
        let acc = scan(d)->Ok_0;
        let n = listed.len() - 1;
        assert(listed[n] is Read);
        assert(is_safe_path(listed[n].path()) && !is_vcs_path(listed[n].path()));
        assert forall|k: int| 0 <= k < acc.len() implies #[trigger] acc[k].0 != listed[n].path() by {
            assert(acc[k] == (d[k].path(), listed_content(d[k])));
            assert(d[k] == listed[k]);
        }
    }
}

/// Builds the tree of a local origin from what walking it found: version-control
/// metadata is left out, and the first unreadable file, unsafe path or repeated
/// path aborts the whole load.
pub fn load_local(origin: String, listing: LocalListing) -> (r: Result<FileTree, LoadError>)
    ensures
        local_outcome(origin@, listing, r),
        r is Ok ==> r->Ok_0.wf(),
{
    match listing {
        LocalListing::Missing => Err(LoadError::OriginNotFound(origin)),
        LocalListing::Listed(listed) => load_listed(origin, listed),
    }
}

fn load_listed(origin: String, listed: Vec<ListedFile>) -> (r: Result<FileTree, LoadError>)
    ensures
        listed_outcome(origin@, listed@, r),
        r is Ok ==> r->Ok_0.wf(),
{
    let mut files: Vec<FileEntry> = Vec::new();
    let mut i: usize = 0;
    assert(listed@.take(0) =~= Seq::<ListedFile>::empty());
    assert(files@.map_values(|e: FileEntry| entry_view(e)) =~= Seq::empty());
    while i < listed.len()
        invariant
            i <= listed@.len(),
            scan(listed@.take(i as int)) == Ok::<_, (int, LoadFailure)>(
                files@.map_values(|e: FileEntry| entry_view(e)),
            ),
        decreases listed@.len() - i,
    {
        proof {
            assert(listed@.take(i + 1).drop_last() =~= listed@.take(i as int));
            assert(listed@.take(i + 1).last() == listed@[i as int]);
            lemma_scan_wf(listed@.take(i as int));
        }
        let ghost acc = files@.map_values(|e: FileEntry| entry_view(e));
        assert(scan(listed@.take(i + 1)) == scan_step(acc, listed@[i as int], i as int));
        let vcs: [u8; 4] = [DOT, 103u8, 105u8, 116u8];
        assert(vcs@ =~= vcs_segment());
        match &listed[i] {
            ListedFile::Unreadable(p, c) => {
                if !has_segment_exec(p.as_slice(), &vcs) {
                    proof {
                        lemma_scan_err_prefix(listed@, i + 1);
                    }
                    return Err(LoadError::ReadError(copy_bytes(p.as_slice()), c.clone()));
                }
            },
            ListedFile::Read(p, c) => {
                if !has_segment_exec(p.as_slice(), &vcs) {
                    if !is_safe_path_exec(p.as_slice()) {
                        proof {
                            lemma_scan_err_prefix(listed@, i + 1);
                        }
                        return Err(LoadError::InvalidPath(copy_bytes(p.as_slice())));
                    }
                    let mut k: usize = 0;
                    while k < files.len()
                        invariant
                            i < listed@.len(),
                            listed@[i as int] is Read,
                            listed@[i as int].path() == p@,
                            !is_vcs_path(p@),
                            is_safe_path(p@),
                            scan(listed@.take(i + 1)) == scan_step(acc, listed@[i as int], i as int),
                            k <= files@.len(),
                            acc == files@.map_values(|e: FileEntry| entry_view(e)),
                            forall|m: int| 0 <= m < k ==> acc[m].0 != p@,
                        decreases files@.len() - k,
                    {
                        if bytes_eq(files[k].relative_path.as_slice(), p.as_slice()) {
                            assert(acc[k as int].0 == p@ && 0 <= k < acc.len());
                            assert(scan_step(acc, listed@[i as int], i as int) == Err::<Seq<(Seq<u8>, Seq<u8>)>, (int, LoadFailure)>(
                                (i as int, LoadFailure::DuplicatePath)));
                            proof {
                                lemma_scan_err_prefix(listed@, i + 1);
                            }
                            return Err(LoadError::DuplicatePath(copy_bytes(p.as_slice())));
                        }
                        k = k + 1;
                    }
                    files.push(FileEntry { relative_path: copy_bytes(p.as_slice()), content: copy_bytes(c.as_slice()) });
                    assert(files@.map_values(|e: FileEntry| entry_view(e)) =~= acc.push((p@, c@)));
                }
            },
        }
        i = i + 1;
    }
    assert(listed@.take(i as int) =~= listed@);
    proof {
        lemma_scan_wf(listed@);
    }
    Ok(FileTree { origin, files })
}

pub fn is_safe_path_exec(p: &[u8]) -> (r: bool)
    ensures
        r == is_safe_path(p@),
{
    let parent: [u8; 2] = [DOT, DOT];
    assert(parent@ =~= parent_segment());
    p.len() > 0 && p[0] != SLASH && !has_segment_exec(p, &parent)
}

/// Builds the tree of a remote origin from the fetch: a failed fetch or checkout
/// is reported with the origin and its cause, and a working copy is loaded as a
/// local origin.
pub fn load_remote(origin: &RemoteOrigin, fetched: Result<LocalListing, String>) -> (r: Result<FileTree, LoadError>)
    ensures
        match fetched {
            Err(cause) => r is Err && r->Err_0 is RemoteFetchError
                && r->Err_0->RemoteFetchError_0@ == origin.remote_url@
                && r->Err_0->RemoteFetchError_1@ == origin.branch@
                && r->Err_0->RemoteFetchError_2@ == cause@,
            Ok(listing) => local_outcome(origin.remote_url@, listing, r),
        },
        r is Ok ==> r->Ok_0.wf(),
{
    match fetched {
        Err(cause) => Err(LoadError::RemoteFetchError(origin.remote_url.clone(), origin.branch.clone(), cause)),
        Ok(listing) => load_local(origin.remote_url.clone(), listing),
    }
}

} // verus!
