//! Laws relating allocation and appending across calls. Single-call
//! behavior — a rejected path changes nothing, an existing file grows by
//! exactly the message — is already stated on `append_in` itself; the
//! proofs here chain those contracts over several calls.

use vstd::prelude::*;
use crate::allocate::alloc_next;
use crate::allocate::lemma_first_free_exists;
use crate::allocate::alloc_resolved;
use crate::allocate::is_first_free;
use crate::allocate::lemma_first_free_unique;
use crate::append::append_next;
use crate::append::append_ok;
use crate::fs_model::FsState;
use crate::paths::cand;
use crate::paths::has_separator;
use crate::paths::lemma_cand_injective;
use crate::paths::path_valid;
use crate::paths::with_suffix;
use crate::AllowedExts;

verus! {

/// Appending twice in sequence to an initially nonexistent path succeeds
/// both times and leaves the file holding the two messages back to back.
pub proof fn lemma_append_twice_accumulates(
    st: FsState,
    path: Seq<char>,
    m1: Seq<char>,
    m2: Seq<char>,
    exts: AllowedExts,
)
    requires
        path_valid(path, exts),
        has_separator(path),
        !st.files.dom().contains(path),
    ensures
        append_ok(st, path, exts),
        append_ok(append_next(st, path, m1, exts), path, exts),
        append_next(append_next(st, path, m1, exts), path, m2, exts).files[path] == m1 + m2,
{
    let st1 = append_next(st, path, m1, exts);
    assert(st1.files == st.files.insert(path, m1));
    assert(st1.files.dom().contains(path));
    let st2 = append_next(st1, path, m2, exts);
    assert(st2.files[path] == st1.files[path] + m2);
}

/// Allocation is not idempotent on purpose: two allocations in a row on a
/// fresh path resolve to two distinct paths — the literal name first, then
/// its first suffixed sibling — because the first call's file creation
/// changes what the second call observes.
pub proof fn lemma_allocate_twice_distinct(st: FsState, path: Seq<char>)
    requires
        has_separator(path),
        !st.files.dom().contains(cand(path, 0)),
        !st.files.dom().contains(cand(path, 1)),
    ensures
        alloc_resolved(st.files, path) == path,
        alloc_resolved(alloc_next(st, path).files, path) == with_suffix(path, 1),
        alloc_resolved(st.files, path) != alloc_resolved(alloc_next(st, path).files, path),
{
    assert(is_first_free(st.files, path, 0));
    lemma_first_free_unique(st.files, path, 0);
    let st1 = alloc_next(st, path);
    lemma_cand_injective(path, 0, 1);
    assert(st1.files.dom().contains(cand(path, 0)));
    assert(!st1.files.dom().contains(cand(path, 1)));
    assert(is_first_free(st1.files, path, 1));
    lemma_first_free_unique(st1.files, path, 1);
}

/// Allocation never overwrites an existing, unrelated file: it resolves to
/// a path where no file exists, and every file present before keeps its
/// content.
pub proof fn lemma_allocate_preserves_existing_files(st: FsState, path: Seq<char>, k: Seq<char>)
    requires
        st.files.dom().finite(),
        st.files.dom().contains(k),
    ensures
        alloc_next(st, path).files.dom().contains(k),
        alloc_next(st, path).files[k] == st.files[k],
{
    if has_separator(path) {
        lemma_first_free_exists(st.files, path);
        assert(!st.files.dom().contains(alloc_resolved(st.files, path)));
    }
}

/// When the literal name and its first nine suffixed siblings are all
/// taken and the tenth is free, allocation resolves to exactly the tenth,
/// and creates only that file — nothing is left behind at the candidates
/// it skipped over.
pub proof fn lemma_allocate_takes_first_gap(st: FsState, path: Seq<char>)
    requires
        has_separator(path),
        forall|m: nat| m <= 9 ==> st.files.dom().contains(cand(path, m)),
        !st.files.dom().contains(cand(path, 10)),
    ensures
        alloc_resolved(st.files, path) == with_suffix(path, 10),
        alloc_next(st, path).files == st.files.insert(with_suffix(path, 10), Seq::<char>::empty()),
{
    assert(is_first_free(st.files, path, 10));
    lemma_first_free_unique(st.files, path, 10);
}

} // verus!
