//! An explicit filesystem model, and the export operation over it.
//!
//! [`FsTree`] is the mathematical picture of a filesystem as the exporter
//! sees one: the set of directory paths that exist, and a map from each
//! file path to the full content it holds. [`FsModel`] is its executable
//! counterpart, an in-memory filesystem that records directory creations
//! and file writes; its view is an [`FsTree`].
//!
//! The export operation itself is specified by [`export_tree`] and
//! [`export_ok`] and carried out by [`FsModel::export_log_for_profile`]:
//! derive the destination's parent directory, create the missing chain
//! above it, then write the content, overwriting whatever file was there.
//! A host program repeats the same steps against the real filesystem.

use vstd::prelude::*;
use vstd::string::*;

use crate::errors::ExportError;
use crate::paths::ancestor_dirs;
use crate::paths::lemma_ancestors_contain_self;
use crate::paths::lemma_parent_ancestors_miss_self;
use crate::paths::lemma_parent_ancestors_subset;
use crate::paths::lemma_parent_shorter;
use crate::paths::parent_of;
use crate::paths::parent_path;

verus! {

/// A filesystem, as the exporter sees one: which directory paths exist,
/// and what content the file at each path holds.
#[verifier::ext_equal]
pub struct FsTree {
    /// The directory paths that exist.
    pub dirs: Set<Seq<char>>,
    /// The full content of the file at each file path that exists.
    pub files: Map<Seq<char>, Seq<char>>,
}

/// Creating the directory chain above `path` succeeds exactly when no
/// member of that chain is an existing regular file. A path without a
/// parent needs no chain, so the step trivially succeeds.
pub open spec fn dir_create_ok(fs: FsTree, path: Seq<char>) -> bool {
    match parent_path(path) {
        Some(par) => forall|q: Seq<char>|
            ancestor_dirs(par).contains(q) ==> !fs.files.dom().contains(q),
        None => true,
    }
}

/// The directories that exist once the chain above `path` is created.
pub open spec fn dirs_after(fs: FsTree, path: Seq<char>) -> Set<Seq<char>> {
    match parent_path(path) {
        Some(par) => fs.dirs.union(ancestor_dirs(par)),
        None => fs.dirs,
    }
}

/// Creating (or truncating) the file at `path` succeeds exactly when no
/// directory sits at `path` itself; its parent, if it has one, exists by
/// the time this step runs.
pub open spec fn file_create_ok(fs: FsTree, path: Seq<char>) -> bool {
    !dirs_after(fs, path).contains(path)
}

/// Whether an export to `path` succeeds on `fs`.
pub open spec fn export_ok(fs: FsTree, path: Seq<char>) -> bool {
    dir_create_ok(fs, path) && file_create_ok(fs, path)
}

/// The filesystem after an export of `content` to `path`. Directories
/// are created before the file step, so they remain even when that step
/// then fails; on a directory-creation failure nothing has changed.
pub open spec fn export_tree(fs: FsTree, content: Seq<char>, path: Seq<char>) -> FsTree {
    if !dir_create_ok(fs, path) {
        fs
    } else if !file_create_ok(fs, path) {
        FsTree { dirs: dirs_after(fs, path), files: fs.files }
    } else {
        FsTree { dirs: dirs_after(fs, path), files: fs.files.insert(path, content) }
    }
}

/// One file of the model: the path it sits at and its content.
pub struct FileEntry {
    pub path: String,
    pub content: String,
}

/// An in-memory filesystem. Directory creations and file writes are
/// recorded in order; a later write to a path shadows an earlier one.
pub struct FsModel {
    dirs: Vec<String>,
    files: Vec<FileEntry>,
}

/// The set of directory paths that a record of creations yields.
pub open spec fn dirs_set(s: Seq<String>) -> Set<Seq<char>>
    decreases s.len(),
{
    if s.len() == 0 {
        Set::<Seq<char>>::empty()
    } else {
        dirs_set(s.drop_last()).insert(s.last()@)
    }
}

/// The path-to-content map that a record of writes yields; the last
/// write to a path wins.
pub open spec fn files_map(s: Seq<FileEntry>) -> Map<Seq<char>, Seq<char>>
    decreases s.len(),
{
    if s.len() == 0 {
        Map::<Seq<char>, Seq<char>>::empty()
    } else {
        files_map(s.drop_last()).insert(s.last().path@, s.last().content@)
    }
}

impl View for FsModel {
    type V = FsTree;

    closed spec fn view(&self) -> FsTree {
        FsTree { dirs: dirs_set(self.dirs@), files: files_map(self.files@) }
    }
}

proof fn lemma_dirs_set_contains(s: Seq<String>, p: Seq<char>)
    ensures
        dirs_set(s).contains(p) <==> exists|i: int| 0 <= i < s.len() && s[i]@ == p,
    decreases s.len(),
{
    if s.len() > 0 {
        lemma_dirs_set_contains(s.drop_last(), p);
        if dirs_set(s).contains(p) {
            if s.last()@ == p {
                assert(s[s.len() - 1]@ == p);
            } else {
                let i = choose|i: int| 0 <= i < s.drop_last().len() && s.drop_last()[i]@ == p;
                assert(s[i]@ == p);
            }
        }
        if exists|i: int| 0 <= i < s.len() && s[i]@ == p {
            let i = choose|i: int| 0 <= i < s.len() && s[i]@ == p;
            if i < s.len() - 1 {
                assert(s.drop_last()[i]@ == p);
            }
        }
    }
}

proof fn lemma_files_map_dom(s: Seq<FileEntry>, p: Seq<char>)
    ensures
        files_map(s).dom().contains(p) <==> exists|i: int| 0 <= i < s.len() && s[i].path@ == p,
    decreases s.len(),
{
    if s.len() > 0 {
        lemma_files_map_dom(s.drop_last(), p);
        if files_map(s).dom().contains(p) {
            if s.last().path@ == p {
                assert(s[s.len() - 1].path@ == p);
            } else {
                let i = choose|i: int|
                    0 <= i < s.drop_last().len() && s.drop_last()[i].path@ == p;
                assert(s[i].path@ == p);
            }
        }
        if exists|i: int| 0 <= i < s.len() && s[i].path@ == p {
            let i = choose|i: int| 0 <= i < s.len() && s[i].path@ == p;
            if i < s.len() - 1 {
                assert(s.drop_last()[i].path@ == p);
            }
        }
    }
}

/// The content that `files_map` assigns to `p` is the one of the last
/// recorded write to `p`.
proof fn lemma_files_map_at(s: Seq<FileEntry>, i: int, p: Seq<char>)
    requires
        0 <= i < s.len(),
        s[i].path@ == p,
        forall|j: int| i < j < s.len() ==> s[j].path@ != p,
    ensures
        files_map(s).dom().contains(p),
        files_map(s)[p] == s[i].content@,
    decreases s.len(),
{
    if i == s.len() - 1 {
    } else {
        assert(s.drop_last()[i].path@ == p);
        lemma_files_map_at(s.drop_last(), i, p);
        assert(s.last().path@ != p);
    }
}

impl FsModel {
    /// An empty filesystem: no directories, no files.
    pub fn new() -> (r: FsModel)
        ensures
            r@.dirs =~= Set::<Seq<char>>::empty(),
            r@.files =~= Map::<Seq<char>, Seq<char>>::empty(),
    {
        FsModel { dirs: Vec::new(), files: Vec::new() }
    }

    /// Whether a directory exists at `path`.
    pub fn dir_exists(&self, path: &str) -> (r: bool)
        ensures
            r == self@.dirs.contains(path@),
    {
        proof {
            lemma_dirs_set_contains(self.dirs@, path@);
        }
        let p: String = path.to_owned();
        let mut k: usize = 0;
        while k < self.dirs.len()
            invariant
                p@ == path@,
                k <= self.dirs@.len(),
                forall|j: int| 0 <= j < k ==> self.dirs@[j]@ != path@,
            decreases self.dirs@.len() - k,
        {
            if self.dirs[k].eq(&p) {
                proof {
                    assert(self.dirs@[k as int]@ == path@);
                    lemma_dirs_set_contains(self.dirs@, path@);
                }
                return true;
            }
            k = k + 1;
        }
        false
    }

    /// Whether a file exists at `path`.
    pub fn file_exists(&self, path: &str) -> (r: bool)
        ensures
            r == self@.files.dom().contains(path@),
    {
        proof {
            lemma_files_map_dom(self.files@, path@);
        }
        let p: String = path.to_owned();
        let mut k: usize = 0;
        while k < self.files.len()
            invariant
                p@ == path@,
                k <= self.files@.len(),
                forall|j: int| 0 <= j < k ==> self.files@[j].path@ != path@,
            decreases self.files@.len() - k,
        {
            if self.files[k].path.eq(&p) {
                proof {
                    assert(self.files@[k as int].path@ == path@);
                    lemma_files_map_dom(self.files@, path@);
                }
                return true;
            }
            k = k + 1;
        }
        false
    }

    /// The content of the file at `path`, when one exists.
    pub fn read_file(&self, path: &str) -> (r: Option<String>)
        ensures
            (r is Some) == self@.files.dom().contains(path@),
            r matches Some(c) ==> self@.files[path@] == c@,
    {
        proof {
            lemma_files_map_dom(self.files@, path@);
        }
        let p: String = path.to_owned();
        let mut k: usize = self.files.len();
        while k > 0
            invariant
                p@ == path@,
                k <= self.files@.len(),
                forall|j: int| k <= j < self.files@.len() ==> self.files@[j].path@ != path@,
            decreases k,
        {
            k = k - 1;
            if self.files[k].path.eq(&p) {
                proof {
                    lemma_files_map_at(self.files@, k as int, path@);
                }
                return Some(self.files[k].content.clone());
            }
        }
        None
    }

    /// Create the directory at `path` together with every missing
    /// ancestor, the way recursive directory creation works: members of
    /// the chain that already exist are left alone. It fails exactly
    /// when a member of the chain is an existing regular file, and then
    /// changes nothing.
    pub fn create_dir_all(&mut self, path: &str) -> (r: Result<(), ()>)
        ensures
            (r is Ok) == (forall|q: Seq<char>|
                ancestor_dirs(path@).contains(q) ==> !old(self)@.files.dom().contains(q)),
            r is Ok ==> final(self)@.dirs =~= old(self)@.dirs.union(ancestor_dirs(path@)),
            r is Ok ==> final(self)@.files == old(self)@.files,
            r is Err ==> *final(self) == *old(self),
    {
        // First pass: fail, changing nothing, if a chain member is a file.
        let mut cur: String = path.to_owned();
        loop
            invariant
                *self == *old(self),
                ancestor_dirs(cur@).subset_of(ancestor_dirs(path@)),
                forall|q: Seq<char>|
                    ancestor_dirs(path@).contains(q) && !ancestor_dirs(cur@).contains(q)
                        ==> !self@.files.dom().contains(q),
            ensures
                *self == *old(self),
                forall|q: Seq<char>|
                    ancestor_dirs(path@).contains(q) ==> !self@.files.dom().contains(q),
            decreases cur@.len(),
        {
            if self.file_exists(cur.as_str()) {
                proof {
                    lemma_ancestors_contain_self(cur@);
                }
                return Err(());
            }
            proof {
                lemma_ancestors_contain_self(cur@);
                lemma_parent_shorter(cur@);
                lemma_parent_ancestors_subset(cur@);
            }
            match parent_of(cur.as_str()) {
                Some(par) => {
                    cur = par;
                },
                None => {
                    break;
                },
            }
        }
        // Second pass: record the whole chain; duplicates change nothing
        // in the resulting directory set.
        let ghost dirs0 = self@.dirs;
        let ghost files0 = self@.files;
        let mut cur: String = path.to_owned();
        proof {
            lemma_ancestors_contain_self(path@);
        }
        loop
            invariant_except_break
                self@.dirs =~= dirs0.union(
                    ancestor_dirs(path@).difference(ancestor_dirs(cur@)),
                ),
            invariant
                self.files@ == old(self).files@,
                self@.files == files0,
                ancestor_dirs(cur@).subset_of(ancestor_dirs(path@)),
                ancestor_dirs(path@).contains(cur@),
            ensures
                self.files@ == old(self).files@,
                self@.files == files0,
                self@.dirs =~= dirs0.union(ancestor_dirs(path@)),
            decreases cur@.len(),
        {
            let ghost pre = self.dirs@;
            self.dirs.push(cur.clone());
            proof {
                assert(self.dirs@.drop_last() =~= pre);
            }
            match parent_of(cur.as_str()) {
                Some(par) => {
                    proof {
                        lemma_parent_shorter(cur@);
                        lemma_parent_ancestors_subset(cur@);
                        lemma_parent_ancestors_miss_self(cur@);
                        lemma_ancestors_contain_self(par@);
                        assert(self@.dirs =~= dirs0.union(
                            ancestor_dirs(path@).difference(ancestor_dirs(par@)),
                        ));
                    }
                    cur = par;
                },
                None => {
                    proof {
                        assert(self@.dirs =~= dirs0.union(ancestor_dirs(path@)));
                    }
                    break;
                },
            }
        }
        Ok(())
    }

    /// Create or truncate the file at `path` and write `content` to it,
    /// replacing in full whatever the file held before. It fails exactly
    /// when a directory sits at `path` or the parent directory is
    /// missing, and then changes nothing.
    pub fn write_file(&mut self, path: &str, content: &str) -> (r: Result<(), ()>)
        ensures
            (r is Ok) == (!old(self)@.dirs.contains(path@) && (match parent_path(path@) {
                Some(par) => old(self)@.dirs.contains(par),
                None => true,
            })),
            r is Ok ==> final(self)@.files =~= old(self)@.files.insert(path@, content@),
            r is Ok ==> final(self)@.dirs == old(self)@.dirs,
            r is Err ==> *final(self) == *old(self),
    {
        if self.dir_exists(path) {
            return Err(());
        }
        match parent_of(path) {
            Some(par) => {
                if !self.dir_exists(par.as_str()) {
                    return Err(());
                }
            },
            None => {},
        }
        let ghost pre = self.files@;
        self.files.push(FileEntry { path: path.to_owned(), content: content.to_owned() });
        proof {
            assert(self.files@.drop_last() =~= pre);
        }
        Ok(())
    }

    /// Export `log_to_save` to the file at `path_save_to`: derive the
    /// parent directory, create the missing chain above it, then create
    /// or overwrite the file so that it holds exactly this content.
    /// Directories created before a failing file step remain; a
    /// directory-creation failure aborts before the file is touched.
    pub fn export_log_for_profile(&mut self, log_to_save: &str, path_save_to: &str) -> (r: Result<
        (),
        ExportError,
    >)
        ensures
            final(self)@.dirs =~= export_tree(old(self)@, log_to_save@, path_save_to@).dirs,
            final(self)@.files =~= export_tree(old(self)@, log_to_save@, path_save_to@).files,
            (r is Ok) == export_ok(old(self)@, path_save_to@),
            !dir_create_ok(old(self)@, path_save_to@) ==> (r matches Err(
                ExportError::DirCreate(m),
            ) && m@ == "a path segment is an existing file"@),
            dir_create_ok(old(self)@, path_save_to@) && !file_create_ok(old(self)@, path_save_to@)
                ==> (r matches Err(ExportError::FileCreate(m))
                && m@ == "the path is an existing directory"@),
    {
        match parent_of(path_save_to) {
            Some(par) => {
                match self.create_dir_all(par.as_str()) {
                    Ok(()) => {
                        proof {
                            lemma_ancestors_contain_self(par@);
                        }
                    },
                    Err(()) => {
                        return Err(ExportError::DirCreate(String::from_str(
                            "a path segment is an existing file",
                        )));
                    },
                }
            },
            None => {},
        }
        match self.write_file(path_save_to, log_to_save) {
            Ok(()) => Ok(()),
            Err(()) => Err(ExportError::FileCreate(String::from_str(
                "the path is an existing directory",
            ))),
        }
    }
}

} // verus!
