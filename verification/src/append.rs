//! Appending a message to a log file.
//!
//! The path is validated first: an empty path or one without an allowed
//! extension is rejected with [`LogError::InvalidPath`] before anything is
//! touched. When a file exists at the path, the message is appended to its
//! content. When none exists, the path is allocated — parent directories
//! materialized, the file created — and the message is written to the
//! resolved file; a failure to allocate is returned to the caller as
//! [`LogError::AllocationFailure`], never folded into the logged content.
//!
//! With a single actor, the allocation inside `append_in` always resolves
//! to the requested path itself: the literal name was just observed free,
//! so the first candidate is taken and no collision suffix appears.

use vstd::prelude::*;
use crate::allocate::allocate_in;
use crate::allocate::is_first_free;
use crate::allocate::lemma_first_free_unique;
use crate::fs_model::FsModel;
use crate::fs_model::FsState;
use crate::paths::cand;
use crate::paths::dir_prefix_of;
use crate::paths::has_separator;
use crate::paths::path_is_valid;
use crate::paths::path_valid;
use crate::AllowedExts;
use crate::LogError;

verus! {

/// Whether appending succeeds: the path must be valid, and the message
/// lands either in the existing file or, when the path also names a
/// directory to materialize, in a freshly allocated one.
pub open spec fn append_ok(st: FsState, path: Seq<char>, exts: AllowedExts) -> bool {
    path_valid(path, exts) && (st.files.dom().contains(path) || has_separator(path))
}

/// What appending does to the file system: nothing on a rejected path; on
/// an existing file, its content grows by the message; on a missing file,
/// the directory prefix is materialized and the file appears holding
/// exactly the message.
pub open spec fn append_next(
    st: FsState,
    path: Seq<char>,
    msg: Seq<char>,
    exts: AllowedExts,
) -> FsState {
    if !path_valid(path, exts) {
        st
    } else if st.files.dom().contains(path) {
        FsState { files: st.files.insert(path, st.files[path] + msg), dirs: st.dirs }
    } else if has_separator(path) {
        FsState { files: st.files.insert(path, msg), dirs: st.dirs.insert(dir_prefix_of(path)) }
    } else {
        st
    }
}

/// Appends `message` to the file at `path`, creating missing directories
/// and the file itself when needed.
pub fn append_in(
    fs: &mut FsModel,
    path: &str,
    message: &str,
    exts: AllowedExts,
) -> (r: Result<(), LogError>)
    requires
        old(fs).wf(),
    ensures
        final(fs).wf(),
        final(fs)@ == append_next(old(fs)@, path@, message@, exts),
        r is Ok <==> append_ok(old(fs)@, path@, exts),
        !path_valid(path@, exts) ==> (r matches Err(e) && e is InvalidPath),
        path_valid(path@, exts) && !append_ok(old(fs)@, path@, exts) ==> (r matches Err(e)
            && e is AllocationFailure),
{
    if !path_is_valid(path, exts) {
        return Err(LogError::InvalidPath);
    }
    if fs.file_exists(path) {
        let mut content = fs.read_file(path);
        content.append(message);
        fs.write_file(path.to_owned(), content);
        proof {
            assert(fs@ =~= append_next(old(fs)@, path@, message@, exts));
        }
        return Ok(());
    }
    match allocate_in(fs, path) {
        Ok(resolved) => {
            proof {
                assert(cand(path@, 0) == path@);
                assert(is_first_free(old(fs)@.files, path@, 0));
                lemma_first_free_unique(old(fs)@.files, path@, 0);
                assert(resolved@ == path@);
            }
            let mut content = fs.read_file(resolved.as_str());
            content.append(message);
            fs.write_file(resolved, content);
            proof {
                assert(Seq::<char>::empty() + message@ =~= message@);
                assert(fs@.files =~= old(fs)@.files.insert(path@, message@));
                assert(fs@ =~= append_next(old(fs)@, path@, message@, exts));
            }
            Ok(())
        },
        Err(e) => Err(e),
    }
}

} // verus!
