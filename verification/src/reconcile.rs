//! Reconciliation of produced output paths back to their source files.
//!
//! Paths are modeled as plain text with `/` as the separator: joining a
//! relative path onto a root inserts a separator unless the root already ends
//! in one, and stripping a root succeeds exactly when the path lies under it.

use vstd::prelude::*;
use crate::text::{chars_from, chars_to_string, has_prefix, starts_with_chars, str_to_chars};

verus! {

/// The path ends in the separator.
pub open spec fn ends_with_sep(s: Seq<char>) -> bool {
    s.len() > 0 && s.last() == '/'
}

/// `rel` joined under the directory `root`.
pub open spec fn spec_join_path(root: Seq<char>, rel: Seq<char>) -> Seq<char> {
    if root.len() == 0 {
        rel
    } else if ends_with_sep(root) {
        root + rel
    } else {
        root + seq!['/'] + rel
    }
}

/// The relative remainder of `path` under the directory `root`, or nothing
/// when `path` does not lie under `root`.
pub open spec fn spec_rel_under(path: Seq<char>, root: Seq<char>) -> Option<Seq<char>> {
    if root.len() == 0 {
        Some(path)
    } else if ends_with_sep(root) {
        if has_prefix(path, root) {
            Some(path.skip(root.len() as int))
        } else {
            None
        }
    } else {
        if path == root {
            Some(Seq::empty())
        } else if has_prefix(path, root + seq!['/']) {
            Some(path.skip(root.len() as int + 1))
        } else {
            None
        }
    }
}

/// A joined path keeps its root as a prefix.
pub proof fn lemma_join_keeps_root_prefix(root: Seq<char>, rel: Seq<char>)
    ensures
        has_prefix(spec_join_path(root, rel), root),
{
    if root.len() == 0 {
        assert(spec_join_path(root, rel).take(0) =~= root);
    } else if ends_with_sep(root) {
        assert((root + rel).take(root.len() as int) =~= root);
    } else {
        assert((root + seq!['/'] + rel).take(root.len() as int) =~= root);
    }
}

/// `rel` joined under the directory `root`.
pub fn join_path(root: &str, rel: &Vec<char>) -> (r: String)
    ensures
        r@ == spec_join_path(root@, rel@),
        has_prefix(r@, root@),
{
    let root_chars = str_to_chars(root);
    let mut v = root_chars;
    if v.len() > 0 && v[v.len() - 1] != '/' {
        v.push('/');
    }
    let mut i: usize = 0;
    let ghost base = v@;
    while i < rel.len()
        invariant
            i <= rel.len(),
            v@ == base + rel@.take(i as int),
        decreases rel.len() - i,
    {
        v.push(rel[i]);
        proof {
            assert(v@ =~= base + rel@.take(i + 1));
        }
        i = i + 1;
    }
    proof {
        assert(rel@.take(rel@.len() as int) =~= rel@);
        assert(v@ =~= spec_join_path(root@, rel@));
        lemma_join_keeps_root_prefix(root@, rel@);
    }
    chars_to_string(&v)
}

/// The source path corresponding to a produced destination path: the
/// destination root is stripped and the remainder is joined under the source
/// root. Nothing is returned — the pair is skipped, not an error — when the
/// destination path does not lie under the destination root.
pub fn derive_source_path(dest_path: &str, dest_root: &str, source_root: &str) -> (r: Option<
    String,
>)
    ensures
        r is Some <==> spec_rel_under(dest_path@, dest_root@) is Some,
        r matches Some(p) ==> p@ == spec_join_path(
            source_root@,
            spec_rel_under(dest_path@, dest_root@)->0,
        ),
{
    let path_chars = str_to_chars(dest_path);
    let root_chars = str_to_chars(dest_root);
    if root_chars.len() == 0 {
        return Some(join_path(source_root, &path_chars));
    }
    if root_chars[root_chars.len() - 1] == '/' {
        if starts_with_chars(&path_chars, &root_chars) {
            let rel = chars_from(&path_chars, root_chars.len());
            return Some(join_path(source_root, &rel));
        }
        return None;
    }
    if path_chars.len() == root_chars.len() {
        if starts_with_chars(&path_chars, &root_chars) {
            proof {
                assert(dest_path@.take(dest_root@.len() as int) =~= dest_path@);
            }
            let rel: Vec<char> = Vec::new();
            return Some(join_path(source_root, &rel));
        }
        proof {
            if dest_path@ == dest_root@ {
                assert(dest_path@.take(dest_root@.len() as int) =~= dest_root@);
            }
        }
        return None;
    }
    let mut sep_root = root_chars;
    sep_root.push('/');
    proof {
        assert(sep_root@ =~= dest_root@ + seq!['/']);
        if dest_path@ == dest_root@ {
            assert(dest_path@.len() == dest_root@.len());
        }
    }
    if starts_with_chars(&path_chars, &sep_root) {
        let rel = chars_from(&path_chars, sep_root.len());
        return Some(join_path(source_root, &rel));
    }
    None
}

} // verus!
