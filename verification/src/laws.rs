//! The exporter's laws, stated over the filesystem picture and proved.
//!
//! [`FsModel::export_log_for_profile`] relates the model to
//! [`export_tree`] and [`export_ok`]; the proofs here say what those two
//! guarantee, so each law below holds of every export the model runs.

use vstd::prelude::*;

use crate::fs_model::dir_create_ok;
use crate::fs_model::dirs_after;
use crate::fs_model::export_ok;
use crate::fs_model::export_tree;
use crate::fs_model::file_create_ok;
use crate::fs_model::FsTree;
use crate::paths::ancestor_dirs;
use crate::paths::lemma_ancestors_contain_self;
use crate::paths::lemma_ancestors_no_longer;
use crate::paths::lemma_parent_shorter;
use crate::paths::parent_path;

verus! {

/// After a successful export, the file at the destination holds exactly
/// the exported content, and the whole directory chain above the
/// destination exists — whether or not it existed before.
pub proof fn lemma_export_success(fs: FsTree, content: Seq<char>, path: Seq<char>)
    requires
        export_ok(fs, path),
    ensures
        export_tree(fs, content, path).files.dom().contains(path),
        export_tree(fs, content, path).files[path] == content,
        parent_path(path) matches Some(par) ==> ancestor_dirs(par).subset_of(
            export_tree(fs, content, path).dirs,
        ),
{
}

/// A successful export to a path that already holds a file replaces that
/// file's content in full: nothing of the prior content remains.
pub proof fn lemma_export_overwrites(fs: FsTree, content: Seq<char>, path: Seq<char>)
    requires
        export_ok(fs, path),
        fs.files.dom().contains(path),
    ensures
        export_tree(fs, content, path).files[path] == content,
{
}

/// When the directory chain cannot be created — some member of it is an
/// existing regular file — the export changes nothing; in particular it
/// does not create the destination file.
pub proof fn lemma_export_dir_failure(fs: FsTree, content: Seq<char>, path: Seq<char>)
    requires
        !dir_create_ok(fs, path),
    ensures
        export_tree(fs, content, path) == fs,
        !fs.files.dom().contains(path) ==> !export_tree(fs, content, path).files.dom().contains(
            path,
        ),
{
}

/// The export is idempotent: a second export with the same arguments
/// reports the same outcome as the first and leaves the filesystem — in
/// particular the final file content — exactly as one export does.
pub proof fn lemma_export_idempotent(fs: FsTree, content: Seq<char>, path: Seq<char>)
    ensures
        export_ok(export_tree(fs, content, path), path) == export_ok(fs, path),
        export_tree(export_tree(fs, content, path), content, path) =~~= export_tree(
            fs,
            content,
            path,
        ),
{
    let t1 = export_tree(fs, content, path);
    if !dir_create_ok(fs, path) {
    } else {
        match parent_path(path) {
            Some(par) => {
                lemma_parent_shorter(path);
                lemma_ancestors_no_longer(par);
                lemma_ancestors_contain_self(par);
                assert(dir_create_ok(t1, path));
                assert(dirs_after(t1, path) =~= dirs_after(fs, path));
            },
            None => {
                assert(dir_create_ok(t1, path));
                assert(dirs_after(t1, path) =~= dirs_after(fs, path));
            },
        }
        if !file_create_ok(fs, path) {
            assert(!file_create_ok(t1, path));
            assert(export_tree(t1, content, path) =~~= t1);
        } else {
            assert(file_create_ok(t1, path));
            assert(export_tree(t1, content, path) =~~= t1);
        }
    }
}

} // verus!
