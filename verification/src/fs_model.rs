//! An in-memory model of the file system: the state that allocation and
//! appending read and change. A file is a path string mapped to its content;
//! a directory entry records a materialized directory chain.
//!
//! The allocate and append algorithms are verified against this model; a
//! shell around the library can replay their decisions against a real file
//! system, one blocking call per model operation.

use vstd::prelude::*;
use vstd::hash_map::StringHashMap;

verus! {

broadcast use vstd::hash_map::group_hash_map_axioms;

/// The abstract file-system state: file contents by path, and the set of
/// directory chains that have been materialized.
#[verifier::ext_equal]
pub struct FsState {
    pub files: Map<Seq<char>, Seq<char>>,
    pub dirs: Set<Seq<char>>,
}

/// The executable model: a table of files and a table of directories.
pub struct FsModel {
    files: StringHashMap<String>,
    dirs: StringHashMap<bool>,
}

impl View for FsModel {
    type V = FsState;

    closed spec fn view(&self) -> FsState {
        FsState { files: self.files@.map_values(|c: String| c@), dirs: self.dirs@.dom() }
    }
}

impl FsModel {
    /// A model holds finitely many files and directories — no more than a
    /// real table could: its file count fits in a machine word.
    pub open spec fn wf(&self) -> bool {
        &&& self@.files.dom().finite()
        &&& self@.files.dom().len() <= usize::MAX
        &&& self@.dirs.finite()
    }

    /// An empty file system: no files, no directories.
    pub fn new() -> (r: FsModel)
        ensures
            r.wf(),
            r@.files == Map::<Seq<char>, Seq<char>>::empty(),
            r@.dirs == Set::<Seq<char>>::empty(),
    {
        let r = FsModel { files: StringHashMap::new(), dirs: StringHashMap::new() };
        proof {
            assert(r@.files =~= Map::<Seq<char>, Seq<char>>::empty());
            assert(r@.dirs =~= Set::<Seq<char>>::empty());
        }
        r
    }

    /// Whether a file exists at the given path.
    pub fn file_exists(&self, path: &str) -> (r: bool)
        ensures
            r == self@.files.dom().contains(path@),
    {
        self.files.contains_key(path)
    }

    /// Whether the given directory chain has been materialized.
    pub fn dir_exists(&self, prefix: &str) -> (r: bool)
        ensures
            r == self@.dirs.contains(prefix@),
    {
        self.dirs.contains_key(prefix)
    }

    /// The content of the file at the given path.
    pub fn read_file(&self, path: &str) -> (r: String)
        requires
            self@.files.dom().contains(path@),
        ensures
            r@ == self@.files[path@],
    {
        match self.files.get(path) {
            Some(c) => c.clone(),
            None => {
                proof {
                    assert(false);
                }
                String::new()
            },
        }
    }

    /// Creates or replaces the file at the given path with the given
    /// content.
    pub fn write_file(&mut self, path: String, content: String)
        requires
            old(self).wf(),
        ensures
            final(self).wf(),
            final(self)@.files == old(self)@.files.insert(path@, content@),
            final(self)@.dirs == old(self)@.dirs,
    {
        let ghost gpath = path@;
        let ghost gcontent = content@;
        self.files.insert(path, content);
        proof {
            assert(self@.files =~= old(self)@.files.insert(gpath, gcontent));
            assert(self@.files.dom() =~= old(self)@.files.dom().insert(gpath));
            assert(self.files.spec_len() == self.files@.len());
            assert(self@.files.dom() =~= self.files@.dom());
        }
    }

    /// Materializes a directory chain; idempotent when it already exists.
    pub fn mkdir_all(&mut self, prefix: &str)
        requires
            old(self).wf(),
        ensures
            final(self).wf(),
            final(self)@.files == old(self)@.files,
            final(self)@.dirs == old(self)@.dirs.insert(prefix@),
    {
        self.dirs.insert(prefix.to_owned(), true);
        proof {
            assert(self@.files =~= old(self)@.files);
            assert(self@.dirs =~= old(self)@.dirs.insert(prefix@));
        }
    }
}

} // verus!
