//! Freeform, dynamically-shaped package metadata, and the permissive traversal
//! that reads the workspace-scoped `independent` flag out of it: every lookup
//! step that fails (missing key, wrong shape) degrades to `false`, never to an
//! error.

use vstd::prelude::*;

verus! {

/// A freeform structured value. Only the shapes the traversal distinguishes
/// are represented: booleans, string-keyed objects, and everything else.
pub enum Meta {
    Bool(bool),
    Object(Vec<(String, Meta)>),
    Other,
}

/// The value under `key` in an entry list: the first entry whose key matches,
/// if any.
pub open spec fn spec_lookup(entries: Seq<(String, Meta)>, key: Seq<char>) -> Option<Meta>
    decreases entries.len(),
{
    if entries.len() == 0 {
        None
    } else if entries[0].0@ == key {
        Some(entries[0].1)
    } else {
        spec_lookup(entries.drop_first(), key)
    }
}

/// Whether a metadata value carries `workspaces.independent = true`: the value
/// is an object, its `workspaces` entry is an object, and that object's
/// `independent` entry is the boolean `true`. Any other shape yields `false`.
pub open spec fn spec_is_independent(m: Meta) -> bool {
    match m {
        Meta::Object(entries) => match spec_lookup(entries@, "workspaces"@) {
            Some(Meta::Object(inner)) => match spec_lookup(inner@, "independent"@) {
                Some(Meta::Bool(b)) => b,
                _ => false,
            },
            _ => false,
        },
        _ => false,
    }
}

/// Finds the first entry whose key matches, if any.
pub fn lookup<'a>(entries: &'a Vec<(String, Meta)>, key: &str) -> (r: Option<&'a Meta>)
    ensures
        match r {
            Some(m) => spec_lookup(entries@, key@) == Some(*m),
            None => spec_lookup(entries@, key@) is None,
        },
{
    let mut i: usize = 0;
    proof {
        assert(entries@.skip(0) =~= entries@);
    }
    while i < entries.len()
        invariant
            i <= entries@.len(),
            spec_lookup(entries@, key@) == spec_lookup(entries@.skip(i as int), key@),
        decreases entries@.len() - i,
    {
        if crate::strutil::str_eq(entries[i].0.as_str(), key) {
            return Some(&entries[i].1);
        }
        proof {
            assert(entries@.skip(i as int).drop_first() =~= entries@.skip(i + 1));
        }
        i += 1;
    }
    None
}

/// Whether the freeform metadata marks the package as independently versioned.
pub fn is_independent(metadata: &Meta) -> (r: bool)
    ensures
        r == spec_is_independent(*metadata),
{
    match metadata {
        Meta::Object(entries) => match lookup(entries, "workspaces") {
            Some(Meta::Object(inner)) => match lookup(inner, "independent") {
                Some(Meta::Bool(b)) => *b,
                _ => false,
            },
            _ => false,
        },
        _ => false,
    }
}

} // verus!
