//! Path handling for package locations: stripping the workspace-root prefix
//! from a manifest path, trimming the manifest filename and trailing
//! separators of either platform convention, and joining the workspace root
//! back onto a relative path.

use vstd::prelude::*;
use crate::strutil::str_eq;

verus! {

/// A path separator of either platform convention.
pub open spec fn is_sep(c: char) -> bool {
    c == '/' || c == '\\'
}

/// The manifest path with the workspace-root prefix removed, or `None` when
/// the path is not rooted under the workspace root. A separator immediately
/// after the prefix is consumed.
pub open spec fn strip_root(root: Seq<char>, manifest: Seq<char>) -> Option<Seq<char>> {
    if manifest.len() >= root.len() && manifest.take(root.len() as int) == root {
        let rest = manifest.skip(root.len() as int);
        if rest.len() == 0 {
            Some(rest)
        } else if root.len() > 0 && is_sep(root[root.len() - 1]) {
            Some(rest)
        } else if is_sep(rest[0]) {
            Some(rest.skip(1))
        } else {
            None
        }
    } else {
        None
    }
}

/// Whether `s` ends with `suffix`.
pub open spec fn ends_with(s: Seq<char>, suffix: Seq<char>) -> bool {
    s.len() >= suffix.len() && s.skip(s.len() - suffix.len()) == suffix
}

/// `s` with every trailing occurrence of `suffix` removed.
pub open spec fn trim_suffix_all(s: Seq<char>, suffix: Seq<char>) -> Seq<char>
    decreases s.len(),
{
    if suffix.len() > 0 && ends_with(s, suffix) {
        trim_suffix_all(s.take(s.len() - suffix.len()), suffix)
    } else {
        s
    }
}

/// `s` with every trailing occurrence of the character `c` removed.
pub open spec fn trim_char_all(s: Seq<char>, c: char) -> Seq<char>
    decreases s.len(),
{
    if s.len() > 0 && s.last() == c {
        trim_char_all(s.drop_last(), c)
    } else {
        s
    }
}

/// A stripped manifest path normalized to a relative package path: the
/// manifest filename removed, then trailing separators of either convention.
/// The empty sequence denotes the workspace root itself.
pub open spec fn normalize_rel(s: Seq<char>) -> Seq<char> {
    trim_char_all(trim_char_all(trim_suffix_all(s, "Cargo.toml"@), '/'), '\\')
}

/// The relative package path derived from a manifest path, or `None` when the
/// manifest does not lie under the workspace root.
pub open spec fn rel_path_of(root: Seq<char>, manifest: Seq<char>) -> Option<Seq<char>> {
    match strip_root(root, manifest) {
        Some(rest) => Some(normalize_rel(rest)),
        None => None,
    }
}

/// The workspace root joined with a relative package path.
pub open spec fn join_rel(root: Seq<char>, rel: Seq<char>) -> Seq<char> {
    if rel.len() == 0 {
        root
    } else {
        root + seq!['/'] + rel
    }
}

fn is_sep_exec(c: char) -> (r: bool)
    ensures
        r == is_sep(c),
{
    c == '/' || c == '\\'
}

/// Strips the workspace-root prefix from a manifest path.
pub fn strip_root_str(root: &str, manifest: &str) -> (r: Option<String>)
    ensures
        match r {
            Some(s) => strip_root(root@, manifest@) == Some(s@),
            None => strip_root(root@, manifest@) is None,
        },
{
    let rootlen = root.unicode_len();
    let manlen = manifest.unicode_len();
    if manlen < rootlen {
        return None;
    }
    let prefix = manifest.substring_char(0, rootlen);
    proof {
        assert(manifest@.subrange(0, rootlen as int) =~= manifest@.take(rootlen as int));
    }
    if !str_eq(prefix, root) {
        return None;
    }
    let rest = manifest.substring_char(rootlen, manlen);
    proof {
        assert(manifest@.subrange(rootlen as int, manlen as int) =~= manifest@.take(
            rootlen as int,
        ).skip(rootlen as int) + manifest@.skip(rootlen as int));
        assert(rest@ =~= manifest@.skip(rootlen as int));
    }
    let restlen = manlen - rootlen;
    if restlen == 0 {
        return Some(String::from_str(rest));
    }
    if rootlen > 0 && is_sep_exec(root.get_char(rootlen - 1)) {
        return Some(String::from_str(rest));
    }
    if is_sep_exec(rest.get_char(0)) {
        let tail = rest.substring_char(1, restlen);
        proof {
            assert(rest@.subrange(1, restlen as int) =~= rest@.skip(1));
        }
        return Some(String::from_str(tail));
    }
    None
}

/// Normalizes a stripped manifest path to a relative package path.
pub fn normalize_rel_str(s: &str) -> (r: String)
    ensures
        r@ == normalize_rel(s@),
{
    let suffix = "Cargo.toml";
    let suflen = suffix.unicode_len();
    let mut e = s.unicode_len();
    proof {
        assert(s@.take(e as int) =~= s@);
    }
    loop
        invariant
            e <= s@.len(),
            suflen == suffix@.len(),
            trim_suffix_all(s@, suffix@) == trim_suffix_all(s@.take(e as int), suffix@),
        ensures
            e <= s@.len(),
            trim_suffix_all(s@, suffix@) == s@.take(e as int),
        decreases e,
    {
        if suflen == 0 || e < suflen {
            proof {
                assert(!ends_with(s@.take(e as int), suffix@) || suflen == 0);
                assert(trim_suffix_all(s@.take(e as int), suffix@) == s@.take(e as int));
            }
            break;
        }
        let seg = s.substring_char(e - suflen, e);
        proof {
            assert(s@.subrange(e - suflen, e as int) =~= s@.take(e as int).skip(e - suflen));
        }
        if !str_eq(seg, suffix) {
            proof {
                assert(!ends_with(s@.take(e as int), suffix@));
                assert(trim_suffix_all(s@.take(e as int), suffix@) == s@.take(e as int));
            }
            break;
        }
        proof {
            assert(s@.take(e as int).take(e - suflen) =~= s@.take(e - suflen));
        }
        e = e - suflen;
    }
    let ghost t1 = s@.take(e as int);
    while e > 0 && s.get_char(e - 1) == '/'
        invariant
            e <= s@.len(),
            s@.take(e as int).len() == e,
            trim_char_all(t1, '/') == trim_char_all(s@.take(e as int), '/'),
        decreases e,
    {
        proof {
            assert(s@.take(e as int).last() == s@[e - 1]);
            assert(s@.take(e as int).drop_last() =~= s@.take(e - 1));
        }
        e = e - 1;
    }
    let ghost t2 = s@.take(e as int);
    proof {
        assert(t2 == trim_char_all(t1, '/'));
    }
    while e > 0 && s.get_char(e - 1) == '\\'
        invariant
            e <= s@.len(),
            trim_char_all(t2, '\\') == trim_char_all(s@.take(e as int), '\\'),
        decreases e,
    {
        proof {
            assert(s@.take(e as int).last() == s@[e - 1]);
            assert(s@.take(e as int).drop_last() =~= s@.take(e - 1));
        }
        e = e - 1;
    }
    let out = s.substring_char(0, e);
    proof {
        assert(out@ =~= s@.take(e as int));
    }
    String::from_str(out)
}

/// Joins the workspace root with a relative package path.
pub fn join_rel_str(root: &str, rel: &str) -> (r: String)
    ensures
        r@ == join_rel(root@, rel@),
{
    if rel.unicode_len() == 0 {
        String::from_str(root)
    } else {
        let mut r = String::from_str(root);
        r.append("/");
        r.append(rel);
        proof {
            reveal_strlit("/");
            assert(r@ =~= root@ + seq!['/'] + rel@);
        }
        r
    }
}

/// Stripping the root back off a joined path recovers the relative path,
/// provided the root carries no trailing separator of its own.
pub proof fn lemma_strip_join(root: Seq<char>, rel: Seq<char>)
    requires
        root.len() > 0 ==> !is_sep(root[root.len() - 1]),
    ensures
        strip_root(root, join_rel(root, rel)) == Some(rel),
{
    let joined = join_rel(root, rel);
    if rel.len() == 0 {
        assert(joined.take(root.len() as int) =~= root);
        assert(joined.skip(root.len() as int) =~= Seq::<char>::empty());
        assert(strip_root(root, joined) == Some(joined.skip(root.len() as int)));
        assert(joined.skip(root.len() as int) == rel);
    } else {
        assert(joined.take(root.len() as int) =~= root);
        let rest = joined.skip(root.len() as int);
        assert(rest =~= seq!['/'] + rel);
        assert(rest.len() > 0);
        assert(is_sep(rest[0]));
        assert(rest.skip(1) =~= rel);
    }
}

/// Normalization is a no-op on a path that already carries no trailing
/// manifest filename and no trailing separator.
pub proof fn lemma_normalize_noop(rel: Seq<char>)
    requires
        !ends_with(rel, "Cargo.toml"@),
        rel.len() > 0 ==> !is_sep(rel[rel.len() - 1]),
    ensures
        normalize_rel(rel) == rel,
{
    assert(trim_suffix_all(rel, "Cargo.toml"@) == rel);
    if rel.len() > 0 {
        assert(rel.last() == rel[rel.len() - 1]);
    }
    assert(trim_char_all(rel, '/') == rel);
    assert(trim_char_all(rel, '\\') == rel);
}

/// Round trip: a normalized relative path joined onto the workspace root and
/// derived back yields the same relative path, provided the root carries no
/// trailing separator and the relative path carries no trailing manifest
/// filename or separator.
pub proof fn lemma_rel_path_round_trip(root: Seq<char>, rel: Seq<char>)
    requires
        root.len() > 0 ==> !is_sep(root[root.len() - 1]),
        !ends_with(rel, "Cargo.toml"@),
        rel.len() > 0 ==> !is_sep(rel[rel.len() - 1]),
    ensures
        rel_path_of(root, join_rel(root, rel)) == Some(rel),
{
    lemma_strip_join(root, rel);
    lemma_normalize_noop(rel);
}

} // verus!
