//! Path allocation: materialize the directory prefix, then find (and
//! create) a unique file near the desired path, trying the literal name
//! first and then the suffixed candidates `stem(1).ext`, `stem(2).ext`, …
//! in counter order. The first candidate at which no file exists is taken;
//! nothing is created at the skipped candidates.
//!
//! The existence check and the creation are two separate observations of
//! the file system, so against a real file system two racing allocators
//! can pick the same candidate and one of them loses; the model has a
//! single actor and never does.

use vstd::prelude::*;
use vstd::set_lib::lemma_len_subset;
use crate::fs_model::FsModel;
use crate::fs_model::FsState;
use crate::paths::cand;
use crate::paths::cands_below;
use crate::paths::candidate_path;
use crate::paths::dir_prefix;
use crate::paths::dir_prefix_of;
use crate::paths::has_separator;
use crate::paths::lemma_cands_below_len;
use crate::paths::path_has_separator;
use crate::LogError;

verus! {

/// Whether `n` is the first counter whose candidate path is free: every
/// smaller counter's candidate is an existing file, and its own is not.
pub open spec fn is_first_free(files: Map<Seq<char>, Seq<char>>, path: Seq<char>, n: nat) -> bool {
    &&& !files.dom().contains(cand(path, n))
    &&& forall|m: nat| m < n ==> files.dom().contains(cand(path, m))
}

/// The first counter whose candidate path is free.
pub open spec fn first_free(files: Map<Seq<char>, Seq<char>>, path: Seq<char>) -> nat {
    choose|n: nat| is_first_free(files, path, n)
}

/// The path that allocation resolves to: the first free candidate.
pub open spec fn alloc_resolved(files: Map<Seq<char>, Seq<char>>, path: Seq<char>) -> Seq<char> {
    cand(path, first_free(files, path))
}

/// There is at most one first free counter, so exhibiting one pins
/// `first_free` down.
pub proof fn lemma_first_free_unique(
    files: Map<Seq<char>, Seq<char>>,
    path: Seq<char>,
    n: nat,
)
    requires
        is_first_free(files, path, n),
    ensures
        first_free(files, path) == n,
{
    let k = first_free(files, path);
    assert(is_first_free(files, path, k));
    if k < n {
        assert(files.dom().contains(cand(path, k)));
    } else if n < k {
        assert(files.dom().contains(cand(path, n)));
    }
}

/// Below any free candidate there is a first free one.
proof fn lemma_least_free_below(files: Map<Seq<char>, Seq<char>>, path: Seq<char>, m: nat)
    requires
        !files.dom().contains(cand(path, m)),
    ensures
        exists|n: nat| is_first_free(files, path, n),
    decreases m,
{
    if forall|k: nat| k < m ==> files.dom().contains(cand(path, k)) {
        assert(is_first_free(files, path, m));
    } else {
        let k = choose|k: nat| k < m && !files.dom().contains(cand(path, k));
        lemma_least_free_below(files, path, k);
    }
}

/// Finitely many files cannot take every candidate: a first free counter
/// exists, so `first_free` picks the one counter that `is_first_free`.
pub proof fn lemma_first_free_exists(files: Map<Seq<char>, Seq<char>>, path: Seq<char>)
    requires
        files.dom().finite(),
    ensures
        is_first_free(files, path, first_free(files, path)),
{
    let l = files.dom().len();
    if forall|m: nat| m <= l ==> files.dom().contains(cand(path, m)) {
        lemma_cands_below_len(path, l + 1);
        assert forall|s: Seq<char>| cands_below(path, l + 1).contains(s)
            implies files.dom().contains(s) by {
            let m = choose|m: nat| m < l + 1 && s == cand(path, m);
            assert(files.dom().contains(cand(path, m)));
        }
        lemma_len_subset(cands_below(path, l + 1), files.dom());
        assert(false);
    }
    let m = choose|m: nat| m <= l && !files.dom().contains(cand(path, m));
    lemma_least_free_below(files, path, m);
}

/// What allocation does to the file system: with a separator present, the
/// directory prefix is materialized and an empty file appears at the first
/// free candidate; without one, nothing changes.
pub open spec fn alloc_next(st: FsState, path: Seq<char>) -> FsState {
    if has_separator(path) {
        FsState {
            files: st.files.insert(alloc_resolved(st.files, path), Seq::<char>::empty()),
            dirs: st.dirs.insert(dir_prefix_of(path)),
        }
    } else {
        st
    }
}

/// Ensures the directory chain of `path` exists, then creates an empty
/// file at the first candidate path where none exists, and returns that
/// resolved path.
///
/// A path without a directory separator leaves no directory prefix to
/// materialize; allocation rejects it up front, touching nothing.
pub fn allocate_in(fs: &mut FsModel, path: &str) -> (r: Result<String, LogError>)
    requires
        old(fs).wf(),
    ensures
        final(fs).wf(),
        final(fs)@ == alloc_next(old(fs)@, path@),
        r is Ok <==> has_separator(path@),
        r is Err ==> r->Err_0 is AllocationFailure,
        r is Ok ==> (r->Ok_0)@ == alloc_resolved(old(fs)@.files, path@)
            && !old(fs)@.files.dom().contains((r->Ok_0)@),
{
    if !path_has_separator(path) {
        return Err(
            LogError::AllocationFailure(
                String::from_str("path has no directory separator"),
            ),
        );
    }
    let prefix = dir_prefix(path);
    fs.mkdir_all(prefix.as_str());
    let ghost files0 = old(fs)@.files;
    let ghost dirs1 = fs@.dirs;
    let mut n: u64 = 0;
    loop
        invariant
            fs.wf(),
            has_separator(path@),
            files0 == old(fs)@.files,
            dirs1 == old(fs)@.dirs.insert(dir_prefix_of(path@)),
            fs@.files == files0,
            fs@.dirs == dirs1,
            files0.dom().finite(),
            forall|m: nat| m < n ==> files0.dom().contains(cand(path@, m)),
            n <= files0.dom().len(),
        decreases files0.dom().len() - n,
    {
        let c = candidate_path(path, n);
        if !fs.file_exists(c.as_str()) {
            proof {
                assert(is_first_free(files0, path@, n as nat));
                lemma_first_free_unique(files0, path@, n as nat);
            }
            fs.write_file(c.clone(), String::new());
            proof {
                assert(fs@ =~= alloc_next(old(fs)@, path@));
            }
            return Ok(c);
        }
        proof {
            lemma_cands_below_len(path@, (n + 1) as nat);
            assert forall|s: Seq<char>| cands_below(path@, (n + 1) as nat).contains(s)
                implies files0.dom().contains(s) by {
                let m = choose|m: nat| m < n + 1 && s == cand(path@, m);
                assert(files0.dom().contains(cand(path@, m)));
            }
            lemma_len_subset(cands_below(path@, (n + 1) as nat), files0.dom());
            assert(n + 1 <= files0.dom().len());
        }
        n = n + 1;
    }
}

} // verus!
