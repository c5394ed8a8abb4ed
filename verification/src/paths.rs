//! Destination paths, as character strings.
//!
//! A path is an arbitrary string whose components are separated by `/`.
//! Nothing is normalized: two spellings of the same directory (say `a//b`
//! and `a/b`) are distinct path strings here, since the exporter hands
//! paths to the filesystem exactly as the caller wrote them.

use vstd::prelude::*;
use vstd::string::*;

verus! {

/// Index of the last `/` in `s`, or `-1` when `s` holds none.
pub open spec fn last_slash(s: Seq<char>) -> int
    decreases s.len(),
{
    if s.len() == 0 {
        -1
    } else if s[s.len() - 1] == '/' {
        s.len() - 1
    } else {
        last_slash(s.drop_last())
    }
}

pub proof fn lemma_last_slash_bounds(s: Seq<char>)
    ensures
        -1 <= last_slash(s) < s.len(),
    decreases s.len(),
{
    if s.len() == 0 {
    } else if s[s.len() - 1] == '/' {
    } else {
        lemma_last_slash_bounds(s.drop_last());
    }
}

/// The parent directory of a path: everything before the last `/`.
/// A bare file name has no parent, the root `/` has none either, and a
/// path directly under the root has the root as its parent.
pub open spec fn parent_path(s: Seq<char>) -> Option<Seq<char>> {
    let i = last_slash(s);
    if i == -1 {
        None
    } else if i == 0 {
        if s.len() == 1 {
            None
        } else {
            Some(seq!['/'])
        }
    } else {
        Some(s.subrange(0, i))
    }
}

/// A parent is never empty and always strictly shorter than the path.
pub proof fn lemma_parent_shorter(s: Seq<char>)
    ensures
        parent_path(s) matches Some(p) ==> 0 < p.len() < s.len(),
{
    lemma_last_slash_bounds(s);
}

/// The directory chain that must exist for `p` to exist as a directory:
/// `p` itself and every ancestor above it.
pub open spec fn ancestor_dirs(p: Seq<char>) -> Set<Seq<char>>
    decreases p.len(),
    via ancestor_dirs_decreases
{
    match parent_path(p) {
        Some(q) => ancestor_dirs(q).insert(p),
        None => Set::<Seq<char>>::empty().insert(p),
    }
}

#[via_fn]
proof fn ancestor_dirs_decreases(p: Seq<char>) {
    lemma_parent_shorter(p);
}

pub proof fn lemma_ancestors_contain_self(p: Seq<char>)
    ensures
        ancestor_dirs(p).contains(p),
{
}

/// No ancestor of `p` is longer than `p` itself.
pub proof fn lemma_ancestors_no_longer(p: Seq<char>)
    ensures
        forall|q: Seq<char>| ancestor_dirs(p).contains(q) ==> q.len() <= p.len(),
    decreases p.len(),
{
    lemma_parent_shorter(p);
    assert forall|q: Seq<char>| ancestor_dirs(p).contains(q) implies q.len() <= p.len() by {
        match parent_path(p) {
            Some(r) => {
                lemma_ancestors_no_longer(r);
                if q != p {
                    assert(ancestor_dirs(r).contains(q));
                }
            },
            None => {
                assert(q == p);
            },
        }
    }
}

/// The ancestors of a path's parent are among the ancestors of the path.
pub proof fn lemma_parent_ancestors_subset(p: Seq<char>)
    ensures
        parent_path(p) matches Some(q) ==> ancestor_dirs(q).subset_of(ancestor_dirs(p)),
{
}

/// A path is not an ancestor of its own parent.
pub proof fn lemma_parent_ancestors_miss_self(p: Seq<char>)
    ensures
        parent_path(p) matches Some(q) ==> !ancestor_dirs(q).contains(p),
{
    match parent_path(p) {
        Some(q) => {
            lemma_parent_shorter(p);
            lemma_ancestors_no_longer(q);
        },
        None => {},
    }
}

/// Index of the last `/` in `path`, found by scanning from the end.
fn find_last_slash(path: &str) -> (r: Option<usize>)
    ensures
        r matches Some(j) ==> last_slash(path@) == j as int,
        r is None ==> last_slash(path@) == -1,
{
    let n: usize = path.unicode_len();
    let mut i: usize = n;
    let mut r: Option<usize> = None;
    proof {
        assert(path@.subrange(0, n as int) =~= path@);
    }
    loop
        invariant_except_break
            r is None,
        invariant
            i <= n,
            n == path@.len(),
            last_slash(path@) == last_slash(path@.subrange(0, i as int)),
        ensures
            r matches Some(j) ==> last_slash(path@) == j as int,
            r is None ==> last_slash(path@) == -1,
        decreases i,
    {
        if i == 0 {
            proof {
                assert(path@.subrange(0, 0) =~= Seq::<char>::empty());
            }
            break;
        }
        let c = path.get_char(i - 1);
        if c == '/' {
            proof {
                assert(path@.subrange(0, i as int)[i as int - 1] == '/');
            }
            r = Some(i - 1);
            break;
        }
        proof {
            assert(path@.subrange(0, i as int).drop_last() =~= path@.subrange(
                0,
                i as int - 1,
            ));
        }
        i = i - 1;
    }
    r
}

/// The parent directory of `path`, as [`parent_path`] gives it: `None`
/// for a bare file name and for the root.
pub fn parent_of(path: &str) -> (r: Option<String>)
    ensures
        (r is Some) == (parent_path(path@) is Some),
        r matches Some(p) ==> parent_path(path@) == Some(p@),
{
    proof {
        lemma_last_slash_bounds(path@);
    }
    match find_last_slash(path) {
        None => None,
        Some(j) => {
            if j == 0 {
                if path.unicode_len() == 1 {
                    None
                } else {
                    let root = String::from_str("/");
                    proof {
                        reveal_strlit("/");
                        assert(root@ =~= seq!['/']);
                    }
                    Some(root)
                }
            } else {
                let p = path.substring_char(0, j);
                Some(p.to_owned())
            }
        },
    }
}

} // verus!
