//! The resolver: turns raw workspace metadata into the ordered, filtered
//! collection of [`Pkg`] records. Members whose record cannot be located are
//! collected as non-fatal warnings; a manifest outside the workspace root and
//! an empty result are fatal.

use vstd::prelude::*;
use crate::version::{Version, ver_lt, lemma_ver_lt_asymmetric};
use crate::meta::{Meta, spec_is_independent, is_independent};
use crate::paths::{
    rel_path_of,
    join_rel,
    strip_root_str,
    normalize_rel_str,
    join_rel_str,
    is_sep,
    ends_with,
    lemma_rel_path_round_trip,
};
use crate::strutil::{lex_lt, str_eq, str_lt, lemma_lex_lt_asymmetric, lemma_lex_lt_irreflexive};

verus! {

/// One member package as the metadata provider reports it.
pub struct PackageEntry {
    pub id: String,
    pub name: String,
    pub version: Version,
    pub manifest_path: String,
    pub publish: Option<Vec<String>>,
    pub metadata: Meta,
}

/// The provider's workspace description: the root directory, the declared
/// member identities, and the full record of every known package.
pub struct Metadata {
    pub workspace_root: String,
    pub workspace_members: Vec<String>,
    pub packages: Vec<PackageEntry>,
}

/// One resolved workspace package.
pub struct Pkg {
    pub id: String,
    pub name: String,
    pub version: Version,
    pub location: String,
    pub path: String,
    pub private: bool,
    pub independent: bool,
}

/// Mathematical image of a [`Pkg`].
pub struct PkgV {
    pub id: Seq<char>,
    pub name: Seq<char>,
    pub version: crate::version::VersionV,
    pub location: Seq<char>,
    pub path: Seq<char>,
    pub private: bool,
    pub independent: bool,
}

impl View for Pkg {
    type V = PkgV;

    open spec fn view(&self) -> PkgV {
        PkgV {
            id: self.id@,
            name: self.name@,
            version: self.version@,
            location: self.location@,
            path: self.path@,
            private: self.private,
            independent: self.independent,
        }
    }
}

/// A resolution failure.
#[derive(Debug)]
pub enum Error {
    /// Fatal: a member's manifest lies outside the workspace root.
    PackageNotInWorkspace { id: String, ws: String },
    /// Non-fatal: a declared member whose record cannot be located.
    PackageNotFound { id: String },
    /// Fatal: no package remains after resolution and filtering.
    EmptyWorkspace,
}

/// Mathematical image of an [`Error`].
pub enum ErrorV {
    PackageNotInWorkspace { id: Seq<char>, ws: Seq<char> },
    PackageNotFound { id: Seq<char> },
    EmptyWorkspace,
}

impl View for Error {
    type V = ErrorV;

    open spec fn view(&self) -> ErrorV {
        match self {
            Error::PackageNotInWorkspace { id, ws } => ErrorV::PackageNotInWorkspace {
                id: id@,
                ws: ws@,
            },
            Error::PackageNotFound { id } => ErrorV::PackageNotFound { id: id@ },
            Error::EmptyWorkspace => ErrorV::EmptyWorkspace,
        }
    }
}

/// The views of a package sequence.
pub open spec fn pkg_views(s: Seq<Pkg>) -> Seq<PkgV> {
    s.map_values(|p: Pkg| p@)
}

/// The views of a string sequence.
pub open spec fn str_views(s: Seq<String>) -> Seq<Seq<char>> {
    s.map_values(|x: String| x@)
}

/// Whether a package declares an explicitly empty publish allow-list: the one
/// configuration that classifies it private. No restriction (`None`) and a
/// non-empty allow-list are not private.
pub open spec fn spec_private(p: PackageEntry) -> bool {
    match p.publish {
        Some(list) => list@.len() == 0,
        None => false,
    }
}

/// Whether the package's publish configuration classifies it private.
pub fn is_private(p: &PackageEntry) -> (r: bool)
    ensures
        r == spec_private(*p),
{
    match &p.publish {
        Some(list) => list.len() == 0,
        None => false,
    }
}

/// The first package record carrying the given identity, if any.
pub open spec fn spec_find(packages: Seq<PackageEntry>, id: Seq<char>) -> Option<PackageEntry>
    decreases packages.len(),
{
    if packages.len() == 0 {
        None
    } else if packages[0].id@ == id {
        Some(packages[0])
    } else {
        spec_find(packages.drop_first(), id)
    }
}

fn find_pkg<'a>(packages: &'a Vec<PackageEntry>, id: &String) -> (r: Option<&'a PackageEntry>)
    ensures
        match r {
            Some(p) => spec_find(packages@, id@) == Some(*p),
            None => spec_find(packages@, id@) is None,
        },
{
    let mut i: usize = 0;
    proof {
        assert(packages@.skip(0) =~= packages@);
    }
    while i < packages.len()
        invariant
            i <= packages@.len(),
            spec_find(packages@, id@) == spec_find(packages@.skip(i as int), id@),
        decreases packages@.len() - i,
    {
        if str_eq(packages[i].id.as_str(), id.as_str()) {
            return Some(&packages[i]);
        }
        proof {
            assert(packages@.skip(i as int).drop_first() =~= packages@.skip(i + 1));
        }
        i += 1;
    }
    None
}

/// The resolved record for one member: every field the provider reported,
/// plus the derived relative path, absolute location, and the two flags.
pub open spec fn spec_pkg_of(root: Seq<char>, p: PackageEntry, rel: Seq<char>) -> PkgV {
    PkgV {
        id: p.id@,
        name: p.name@,
        version: p.version@,
        location: join_rel(root, rel),
        path: rel,
        private: spec_private(p),
        independent: spec_is_independent(p.metadata),
    }
}

/// A successful intermediate outcome: resolved packages plus the identities
/// of members whose record was missing.
pub open spec fn resolve_ok(pkgs: Seq<PkgV>, warns: Seq<Seq<char>>) -> Result<
    (Seq<PkgV>, Seq<Seq<char>>),
    ErrorV,
> {
    Ok((pkgs, warns))
}

/// The outcome of resolving the first `n` declared members, in declaration
/// order: the packages constructed so far and the missing-member warnings, or
/// the first fatal condition.
pub open spec fn spec_resolve_upto(m: Metadata, all: bool, n: int) -> Result<
    (Seq<PkgV>, Seq<Seq<char>>),
    ErrorV,
>
    decreases n,
{
    if n <= 0 {
        resolve_ok(Seq::empty(), Seq::empty())
    } else {
        match spec_resolve_upto(m, all, n - 1) {
            Err(e) => Err(e),
            Ok((pkgs, warns)) => {
                let id = m.workspace_members@[n - 1];
                match spec_find(m.packages@, id@) {
                    None => resolve_ok(pkgs, warns.push(id@)),
                    Some(p) => {
                        if !all && spec_private(p) {
                            resolve_ok(pkgs, warns)
                        } else {
                            match rel_path_of(m.workspace_root@, p.manifest_path@) {
                                None => Err(
                                    ErrorV::PackageNotInWorkspace {
                                        id: p.id@,
                                        ws: m.workspace_root@,
                                    },
                                ),
                                Some(rel) => resolve_ok(
                                    pkgs.push(spec_pkg_of(m.workspace_root@, p, rel)),
                                    warns,
                                ),
                            }
                        }
                    },
                }
            },
        }
    }
}

/// Strict resolution order on packages: name first, lexicographically, then
/// semantic-versioning precedence.
pub open spec fn pkg_lt(a: PkgV, b: PkgV) -> bool {
    lex_lt(a.name, b.name) || (a.name == b.name && ver_lt(a.version, b.version))
}

/// Non-strict resolution order on packages.
pub open spec fn pkg_le(a: PkgV, b: PkgV) -> bool {
    !pkg_lt(b, a)
}

/// The resolution order is asymmetric.
pub proof fn lemma_pkg_lt_asymmetric(a: PkgV, b: PkgV)
    ensures
        !(pkg_lt(a, b) && pkg_lt(b, a)),
{
    lemma_lex_lt_asymmetric(a.name, b.name);
    lemma_lex_lt_irreflexive(a.name);
    lemma_ver_lt_asymmetric(a.version, b.version);
}

/// The resolution order is total: of any two packages, at least one orders no
/// higher than the other.
pub proof fn lemma_pkg_order_total(a: PkgV, b: PkgV)
    ensures
        pkg_le(a, b) || pkg_le(b, a),
{
    lemma_pkg_lt_asymmetric(a, b);
}

/// Whether every adjacent pair of a package sequence is in resolution order.
pub open spec fn sorted_pkgs(s: Seq<PkgV>) -> bool {
    forall|i: int| 0 <= i < s.len() - 1 ==> pkg_le(s[i], #[trigger] s[i + 1])
}

/// `p` inserted into `s` before the first element it orders strictly below.
pub open spec fn insert_sorted(p: PkgV, s: Seq<PkgV>) -> Seq<PkgV>
    decreases s.len(),
{
    if s.len() == 0 {
        seq![p]
    } else if pkg_lt(p, s[0]) {
        seq![p] + s
    } else {
        seq![s[0]] + insert_sorted(p, s.drop_first())
    }
}

/// `s` sorted by the resolution order, stably, by repeated insertion.
pub open spec fn spec_sort(s: Seq<PkgV>) -> Seq<PkgV>
    decreases s.len(),
{
    if s.len() == 0 {
        Seq::empty()
    } else {
        insert_sorted(s.last(), spec_sort(s.drop_last()))
    }
}

proof fn lemma_insert_sorted_len(p: PkgV, s: Seq<PkgV>)
    ensures
        insert_sorted(p, s).len() == s.len() + 1,
    decreases s.len(),
{
    if s.len() > 0 && !pkg_lt(p, s[0]) {
        lemma_insert_sorted_len(p, s.drop_first());
    }
}

proof fn lemma_insert_sorted_sorted(p: PkgV, s: Seq<PkgV>)
    requires
        sorted_pkgs(s),
    ensures
        sorted_pkgs(insert_sorted(p, s)),
    decreases s.len(),
{
    if s.len() == 0 {
    } else if pkg_lt(p, s[0]) {
        lemma_pkg_lt_asymmetric(p, s[0]);
        let res = seq![p] + s;
        assert forall|i: int| 0 <= i < res.len() - 1 implies pkg_le(res[i], #[trigger] res[i
            + 1]) by {
            if i > 0 {
                assert(res[i] == s[i - 1]);
                assert(res[i + 1] == s[i]);
                assert(pkg_le(s[i - 1], s[i - 1 + 1]));
            }
        }
    } else {
        let tail = s.drop_first();
        assert(sorted_pkgs(tail)) by {
            assert forall|i: int| 0 <= i < tail.len() - 1 implies pkg_le(
                tail[i],
                #[trigger] tail[i + 1],
            ) by {
                assert(tail[i] == s[i + 1]);
                assert(tail[i + 1] == s[i + 1 + 1]);
                assert(pkg_le(s[i + 1], s[i + 1 + 1]));
            }
        }
        lemma_insert_sorted_sorted(p, tail);
        lemma_insert_sorted_len(p, tail);
        let rest = insert_sorted(p, tail);
        let res = seq![s[0]] + rest;
        assert(insert_sorted(p, s) == res);
        assert(pkg_le(s[0], rest[0])) by {
            if tail.len() == 0 {
                assert(rest == seq![p]);
                assert(rest[0] == p);
            } else if pkg_lt(p, tail[0]) {
                assert(rest == seq![p] + tail);
                assert(rest[0] == p);
            } else {
                assert(rest == seq![tail[0]] + insert_sorted(p, tail.drop_first()));
                assert(rest[0] == tail[0]);
                assert(tail[0] == s[1]);
                assert(pkg_le(s[0int], s[0int + 1]));
            }
        }
        assert forall|i: int| 0 <= i < res.len() - 1 implies pkg_le(res[i], #[trigger] res[i
            + 1]) by {
            if i == 0 {
                assert(res[1] == rest[0]);
            } else {
                assert(res[i] == rest[i - 1]);
                assert(res[i + 1] == rest[i]);
                assert(pkg_le(rest[i - 1], rest[i - 1 + 1]));
            }
        }
    }
}

proof fn lemma_insert_sorted_multiset(p: PkgV, s: Seq<PkgV>)
    ensures
        insert_sorted(p, s).to_multiset() == s.to_multiset().insert(p),
    decreases s.len(),
{
    broadcast use vstd::seq_lib::group_to_multiset_ensures;

    if s.len() == 0 {
        assert(seq![p] =~= Seq::<PkgV>::empty().push(p));
        assert(insert_sorted(p, s).to_multiset() =~= s.to_multiset().insert(p));
    } else if pkg_lt(p, s[0]) {
        lemma_concat_head_multiset(p, s);
    } else {
        lemma_insert_sorted_multiset(p, s.drop_first());
        lemma_concat_head_multiset(s[0], insert_sorted(p, s.drop_first()));
        lemma_concat_head_multiset(s[0], s.drop_first());
        assert(seq![s[0]] + s.drop_first() =~= s);
        assert((seq![s[0]] + insert_sorted(p, s.drop_first())).to_multiset() =~= s.to_multiset().insert(
            p,
        ));
    }
}

proof fn lemma_concat_head_multiset(p: PkgV, s: Seq<PkgV>)
    ensures
        (seq![p] + s).to_multiset() == s.to_multiset().insert(p),
    decreases s.len(),
{
    broadcast use vstd::seq_lib::group_to_multiset_ensures;

    if s.len() == 0 {
        assert(seq![p] + s =~= Seq::<PkgV>::empty().push(p));
        assert((seq![p] + s).to_multiset() =~= s.to_multiset().insert(p));
    } else {
        lemma_concat_head_multiset(p, s.drop_last());
        assert(seq![p] + s =~= (seq![p] + s.drop_last()).push(s.last()));
        assert(s =~= s.drop_last().push(s.last()));
        assert((seq![p] + s).to_multiset() =~= s.to_multiset().insert(p));
    }
}

/// Sorting keeps the length, keeps the collection as a multiset, and yields a
/// sequence in resolution order.
pub proof fn lemma_spec_sort(s: Seq<PkgV>)
    ensures
        sorted_pkgs(spec_sort(s)),
        spec_sort(s).to_multiset() == s.to_multiset(),
        spec_sort(s).len() == s.len(),
    decreases s.len(),
{
    broadcast use vstd::seq_lib::group_to_multiset_ensures;

    if s.len() > 0 {
        lemma_spec_sort(s.drop_last());
        lemma_insert_sorted_sorted(s.last(), spec_sort(s.drop_last()));
        lemma_insert_sorted_len(s.last(), spec_sort(s.drop_last()));
        lemma_insert_sorted_multiset(s.last(), spec_sort(s.drop_last()));
        assert(s =~= s.drop_last().push(s.last()));
        assert(spec_sort(s).to_multiset() =~= s.to_multiset());
    }
}

proof fn lemma_insert_sorted_at(p: PkgV, s: Seq<PkgV>, j: int)
    requires
        0 <= j <= s.len(),
        forall|k: int| 0 <= k < j ==> !pkg_lt(p, #[trigger] s[k]),
        j == s.len() || pkg_lt(p, s[j]),
    ensures
        insert_sorted(p, s) == s.insert(j, p),
    decreases j,
{
    if j == 0 {
        if s.len() == 0 {
            assert(insert_sorted(p, s) =~= s.insert(0, p));
        } else {
            assert(pkg_lt(p, s[0]));
            assert(seq![p] + s =~= s.insert(0, p));
        }
    } else {
        assert(!pkg_lt(p, s[0]));
        let tail = s.drop_first();
        assert(forall|k: int| 0 <= k < j - 1 ==> !pkg_lt(p, #[trigger] tail[k]));
        assert(j - 1 == tail.len() || pkg_lt(p, tail[j - 1]));
        lemma_insert_sorted_at(p, tail, j - 1);
        assert(seq![s[0]] + tail.insert(j - 1, p) =~= s.insert(j, p));
    }
}

fn pkg_lt_exec(a: &Pkg, b: &Pkg) -> (r: bool)
    ensures
        r == pkg_lt(a@, b@),
{
    if str_lt(a.name.as_str(), b.name.as_str()) {
        true
    } else if str_eq(a.name.as_str(), b.name.as_str()) {
        a.version.lt(&b.version)
    } else {
        false
    }
}

fn insert_pkg(r: &mut Vec<Pkg>, p: Pkg)
    ensures
        pkg_views(final(r)@) == insert_sorted(p@, pkg_views(old(r)@)),
{
    let ghost s = pkg_views(r@);
    let mut j: usize = 0;
    loop
        invariant
            r@ == old(r)@,
            s == pkg_views(r@),
            j <= s.len(),
            forall|k: int| 0 <= k < j ==> !pkg_lt(p@, #[trigger] s[k]),
        ensures
            r@ == old(r)@,
            j <= s.len(),
            forall|k: int| 0 <= k < j ==> !pkg_lt(p@, #[trigger] s[k]),
            j == s.len() || pkg_lt(p@, s[j as int]),
        decreases s.len() - j,
    {
        if j >= r.len() {
            break;
        }
        if pkg_lt_exec(&p, &r[j]) {
            break;
        }
        j += 1;
    }
    proof {
        lemma_insert_sorted_at(p@, s, j as int);
    }
    r.insert(j, p);
    proof {
        assert(pkg_views(r@) =~= s.insert(j as int, p@));
    }
}

fn sort_pkgs(pkgs: Vec<Pkg>) -> (r: Vec<Pkg>)
    ensures
        pkg_views(r@) == spec_sort(pkg_views(pkgs@)),
{
    let ghost orig = pkgs@;
    let mut v = pkgs;
    let mut r: Vec<Pkg> = Vec::new();
    proof {
        assert(orig.skip(0) =~= orig);
        assert(pkg_views(orig.take(0)) =~= Seq::<PkgV>::empty());
    }
    while v.len() > 0
        invariant
            v@.len() <= orig.len(),
            orig.skip(orig.len() - v@.len()) == v@,
            pkg_views(r@) == spec_sort(pkg_views(orig.take(orig.len() - v@.len()))),
        decreases v@.len(),
    {
        let ghost k = orig.len() - v@.len();
        proof {
            assert(v@[0] == orig.skip(k as int)[0]);
            assert(v@[0] == orig[k as int]);
        }
        let p = v.remove(0);
        proof {
            assert(v@ =~= orig.skip(k + 1));
            let prefix = pkg_views(orig.take(k + 1));
            assert(prefix.last() == orig[k as int]@);
            assert(prefix.drop_last() =~= pkg_views(orig.take(k as int)));
            assert(spec_sort(prefix) == insert_sorted(p@, spec_sort(pkg_views(orig.take(
                k as int,
            )))));
        }
        insert_pkg(&mut r, p);
    }
    proof {
        assert(orig.take(orig.len() as int) =~= orig);
    }
    r
}

fn clone_string(s: &String) -> (r: String)
    ensures
        r == *s,
{
    s.clone()
}

fn clone_pre_ident(p: &crate::version::PreIdent) -> (r: crate::version::PreIdent)
    ensures
        r@ == p@,
{
    match p {
        crate::version::PreIdent::Num(n) => crate::version::PreIdent::Num(*n),
        crate::version::PreIdent::Alpha(s) => crate::version::PreIdent::Alpha(s.clone()),
    }
}

fn clone_version(v: &Version) -> (r: Version)
    ensures
        r@ == v@,
{
    let mut pre: Vec<crate::version::PreIdent> = Vec::new();
    let mut i: usize = 0;
    while i < v.pre.len()
        invariant
            i <= v.pre@.len(),
            pre@.len() == i,
            forall|k: int| 0 <= k < i ==> pre@[k]@ == #[trigger] v.pre@[k]@,
        decreases v.pre@.len() - i,
    {
        let c = clone_pre_ident(&v.pre[i]);
        pre.push(c);
        i += 1;
    }
    let r = Version {
        major: v.major,
        minor: v.minor,
        patch: v.patch,
        pre,
        build: v.build.clone(),
    };
    proof {
        assert(r@.pre =~= v@.pre);
    }
    r
}

/// The outcome of resolving every declared member: the packages sorted by the
/// resolution order together with the missing-member warnings; or the first
/// manifest found outside the workspace root; or, when nothing remains, the
/// empty-workspace condition.
pub open spec fn spec_resolve(m: Metadata, all: bool) -> Result<
    (Seq<PkgV>, Seq<Seq<char>>),
    ErrorV,
> {
    match spec_resolve_upto(m, all, m.workspace_members@.len() as int) {
        Err(e) => Err(e),
        Ok((pkgs, warns)) => {
            if pkgs.len() == 0 {
                Err(ErrorV::EmptyWorkspace)
            } else {
                resolve_ok(spec_sort(pkgs), warns)
            }
        },
    }
}

proof fn lemma_upto_err_persists(m: Metadata, all: bool, j: int, n: int)
    requires
        0 <= j <= n,
        spec_resolve_upto(m, all, j) is Err,
    ensures
        spec_resolve_upto(m, all, n) == spec_resolve_upto(m, all, j),
    decreases n - j,
{
    if n > j {
        lemma_upto_err_persists(m, all, j, n - 1);
    }
}

/// Resolves the declared workspace members into the sorted package collection.
///
/// On success the resolved packages come back together with the identities of
/// declared members whose record the provider did not carry (the non-fatal
/// warnings, to be reported by the caller). When a found member's manifest
/// lies outside the workspace root, resolution aborts with
/// `PackageNotInWorkspace`; when nothing remains after filtering, it fails
/// with `EmptyWorkspace`. With `all` false, private packages are silently
/// excluded.
pub fn get_pkgs(metadata: &Metadata, all: bool) -> (r: Result<(Vec<Pkg>, Vec<String>), Error>)
    ensures
        match r {
            Ok(out) => spec_resolve(*metadata, all) == resolve_ok(
                pkg_views(out.0@),
                str_views(out.1@),
            ),
            Err(e) => spec_resolve(*metadata, all) == Err::<
                (Seq<PkgV>, Seq<Seq<char>>),
                ErrorV,
            >(e@),
        },
{
    let mut pkgs: Vec<Pkg> = Vec::new();
    let mut warns: Vec<String> = Vec::new();
    let mut i: usize = 0;
    proof {
        assert(pkg_views(pkgs@) =~= Seq::<PkgV>::empty());
        assert(str_views(warns@) =~= Seq::<Seq<char>>::empty());
    }
    let n = metadata.workspace_members.len();
    while i < n
        invariant
            n == metadata.workspace_members@.len(),
            i <= n,
            spec_resolve_upto(*metadata, all, i as int) == resolve_ok(
                pkg_views(pkgs@),
                str_views(warns@),
            ),
        decreases n - i,
    {
        let ghost old_pkgs = pkg_views(pkgs@);
        let ghost old_warns = str_views(warns@);
        let id = &metadata.workspace_members[i];
        match find_pkg(&metadata.packages, id) {
            None => {
                let w = clone_string(id);
                warns.push(w);
                proof {
                    assert(str_views(warns@) =~= old_warns.push(id@));
                    assert(spec_resolve_upto(*metadata, all, i + 1) == resolve_ok(
                        pkg_views(pkgs@),
                        str_views(warns@),
                    ));
                }
            },
            Some(p) => {
                let private = is_private(p);
                if all || !private {
                    match strip_root_str(
                        metadata.workspace_root.as_str(),
                        p.manifest_path.as_str(),
                    ) {
                        None => {
                            let e = Error::PackageNotInWorkspace {
                                id: clone_string(&p.id),
                                ws: clone_string(&metadata.workspace_root),
                            };
                            proof {
                                assert(spec_resolve_upto(*metadata, all, i + 1) == Err::<
                                    (Seq<PkgV>, Seq<Seq<char>>),
                                    ErrorV,
                                >(
                                    ErrorV::PackageNotInWorkspace {
                                        id: p.id@,
                                        ws: metadata.workspace_root@,
                                    },
                                ));
                                lemma_upto_err_persists(*metadata, all, i + 1, n as int);
                            }
                            return Err(e);
                        },
                        Some(rest) => {
                            let rel = normalize_rel_str(rest.as_str());
                            let location = join_rel_str(
                                metadata.workspace_root.as_str(),
                                rel.as_str(),
                            );
                            let independent = is_independent(&p.metadata);
                            let pkg = Pkg {
                                id: clone_string(&p.id),
                                name: clone_string(&p.name),
                                version: clone_version(&p.version),
                                location,
                                path: rel,
                                private,
                                independent,
                            };
                            proof {
                                assert(pkg@ == spec_pkg_of(metadata.workspace_root@, *p, pkg.path@));
                            }
                            pkgs.push(pkg);
                            proof {
                                assert(pkg_views(pkgs@) =~= old_pkgs.push(pkg@));
                                assert(spec_resolve_upto(*metadata, all, i + 1) == resolve_ok(
                                    pkg_views(pkgs@),
                                    str_views(warns@),
                                ));
                            }
                        },
                    }
                } else {
                    proof {
                        assert(spec_resolve_upto(*metadata, all, i + 1) == resolve_ok(
                            pkg_views(pkgs@),
                            str_views(warns@),
                        ));
                    }
                }
            },
        }
        i += 1;
    }
    if pkgs.len() == 0 {
        return Err(Error::EmptyWorkspace);
    }
    let sorted = sort_pkgs(pkgs);
    Ok((sorted, warns))
}

/// Resolution is a function of the metadata alone: two successful outcomes of
/// the same metadata and the same filter are element-wise equal, in the same
/// order, with the same warnings.
pub proof fn lemma_resolve_deterministic(
    m: Metadata,
    all: bool,
    a: Seq<PkgV>,
    wa: Seq<Seq<char>>,
    b: Seq<PkgV>,
    wb: Seq<Seq<char>>,
)
    requires
        spec_resolve(m, all) == resolve_ok(a, wa),
        spec_resolve(m, all) == resolve_ok(b, wb),
    ensures
        a == b,
        wa == wb,
{
}

/// A resolved collection is never empty: an empty result is returned as the
/// `EmptyWorkspace` condition instead.
pub proof fn lemma_resolved_nonempty(m: Metadata, all: bool, pkgs: Seq<PkgV>, warns: Seq<Seq<char>>)
    requires
        spec_resolve(m, all) == resolve_ok(pkgs, warns),
    ensures
        pkgs.len() > 0,
{
    let acc = spec_resolve_upto(m, all, m.workspace_members@.len() as int)->Ok_0;
    lemma_spec_sort(acc.0);
}

/// Whether every package of a collection is located at the workspace root
/// joined with its own relative path.
pub open spec fn located_under(root: Seq<char>, s: Seq<PkgV>) -> bool {
    forall|i: int| 0 <= i < s.len() ==> (#[trigger] s[i]).location == join_rel(root, s[i].path)
}

proof fn lemma_upto_located(m: Metadata, all: bool, n: int)
    requires
        0 <= n,
    ensures
        spec_resolve_upto(m, all, n) matches Ok(acc) ==> located_under(m.workspace_root@, acc.0),
    decreases n,
{
    if n > 0 {
        lemma_upto_located(m, all, n - 1);
        if spec_resolve_upto(m, all, n) is Ok && spec_resolve_upto(m, all, n - 1) is Ok {
            let prev = spec_resolve_upto(m, all, n - 1)->Ok_0;
            let acc = spec_resolve_upto(m, all, n)->Ok_0;
            assert forall|i: int| 0 <= i < acc.0.len() implies (#[trigger] acc.0[i]).location
                == join_rel(m.workspace_root@, acc.0[i].path) by {
                if i < prev.0.len() {
                    assert(acc.0[i] == prev.0[i]);
                }
            }
        }
    }
}

proof fn lemma_located_after_sort(root: Seq<char>, s: Seq<PkgV>)
    requires
        located_under(root, s),
    ensures
        located_under(root, spec_sort(s)),
{
    broadcast use vstd::seq_lib::group_to_multiset_ensures;

    lemma_spec_sort(s);
    assert forall|i: int| 0 <= i < spec_sort(s).len() implies (#[trigger] spec_sort(s)[i]).location
        == join_rel(root, spec_sort(s)[i].path) by {
        let p = spec_sort(s)[i];
        assert(spec_sort(s).contains(p));
        assert(s.to_multiset().count(p) > 0);
        assert(s.contains(p));
        let j = choose|j: int| 0 <= j < s.len() && s[j] == p;
        assert(s[j].location == join_rel(root, s[j].path));
    }
}

/// Round trip: each resolved package's absolute location is the workspace
/// root joined with its relative path; and — provided the root carries no
/// trailing separator and the relative path carries no trailing manifest
/// filename or separator — deriving the relative path back from the absolute
/// location yields the same string.
pub proof fn lemma_resolved_round_trip(
    m: Metadata,
    all: bool,
    pkgs: Seq<PkgV>,
    warns: Seq<Seq<char>>,
    i: int,
)
    requires
        spec_resolve(m, all) == resolve_ok(pkgs, warns),
        0 <= i < pkgs.len(),
    ensures
        pkgs[i].location == join_rel(m.workspace_root@, pkgs[i].path),
        (m.workspace_root@.len() > 0 ==> !is_sep(m.workspace_root@[m.workspace_root@.len() - 1]))
            && !ends_with(pkgs[i].path, "Cargo.toml"@) && (pkgs[i].path.len() > 0 ==> !is_sep(
            pkgs[i].path[pkgs[i].path.len() - 1],
        )) ==> rel_path_of(m.workspace_root@, pkgs[i].location) == Some(pkgs[i].path),
{
    let n = m.workspace_members@.len() as int;
    lemma_upto_located(m, all, n);
    let acc = spec_resolve_upto(m, all, n)->Ok_0;
    lemma_located_after_sort(m.workspace_root@, acc.0);
    if (m.workspace_root@.len() > 0 ==> !is_sep(m.workspace_root@[m.workspace_root@.len() - 1]))
        && !ends_with(pkgs[i].path, "Cargo.toml"@) && (pkgs[i].path.len() > 0 ==> !is_sep(
        pkgs[i].path[pkgs[i].path.len() - 1],
    )) {
        lemma_rel_path_round_trip(m.workspace_root@, pkgs[i].path);
    }
}

/// A successful resolution returns exactly the packages the member walk
/// selects — the declared members found and not filtered by privacy — as a
/// multiset, arranged in resolution order (name, then version).
pub proof fn lemma_resolve_complete_and_sorted(m: Metadata, all: bool)
    requires
        spec_resolve_upto(m, all, m.workspace_members@.len() as int) matches Ok(acc)
            && acc.0.len() > 0,
    ensures
        spec_resolve(m, all) matches Ok(out) && spec_resolve_upto(
            m,
            all,
            m.workspace_members@.len() as int,
        ) matches Ok(acc) && {
            &&& out.0.to_multiset() == acc.0.to_multiset()
            &&& out.0.len() == acc.0.len()
            &&& out.1 == acc.1
            &&& sorted_pkgs(out.0)
        },
{
    let acc = spec_resolve_upto(m, all, m.workspace_members@.len() as int)->Ok_0;
    lemma_spec_sort(acc.0);
}

} // verus!
