//! Semantic versions: a structured value totally ordered by semantic-versioning
//! precedence (numeric core, then pre-release identifiers; build metadata is
//! carried for display only), together with their textual rendering.

use vstd::prelude::*;
use crate::strutil::{lex_lt, lemma_lex_lt_asymmetric, dec_str, dec};

verus! {

/// One pre-release identifier: numeric identifiers order below alphanumeric
/// ones and compare as numbers; alphanumeric ones compare lexicographically.
pub enum PreIdent {
    Num(u64),
    Alpha(String),
}

/// Mathematical image of a [`PreIdent`].
pub enum PreIdentV {
    Num(u64),
    Alpha(Seq<char>),
}

impl View for PreIdent {
    type V = PreIdentV;

    open spec fn view(&self) -> PreIdentV {
        match self {
            PreIdent::Num(n) => PreIdentV::Num(*n),
            PreIdent::Alpha(s) => PreIdentV::Alpha(s@),
        }
    }
}

/// A semantic version: `major.minor.patch`, an optional pre-release identifier
/// list, and opaque build metadata.
pub struct Version {
    pub major: u64,
    pub minor: u64,
    pub patch: u64,
    pub pre: Vec<PreIdent>,
    pub build: String,
}

/// Mathematical image of a [`Version`].
pub struct VersionV {
    pub major: u64,
    pub minor: u64,
    pub patch: u64,
    pub pre: Seq<PreIdentV>,
    pub build: Seq<char>,
}

impl View for Version {
    type V = VersionV;

    open spec fn view(&self) -> VersionV {
        VersionV {
            major: self.major,
            minor: self.minor,
            patch: self.patch,
            pre: self.pre@.map_values(|p: PreIdent| p@),
            build: self.build@,
        }
    }
}

/// Strict precedence order on single pre-release identifiers.
pub open spec fn ident_lt(a: PreIdentV, b: PreIdentV) -> bool {
    match (a, b) {
        (PreIdentV::Num(x), PreIdentV::Num(y)) => x < y,
        (PreIdentV::Num(_), PreIdentV::Alpha(_)) => true,
        (PreIdentV::Alpha(_), PreIdentV::Num(_)) => false,
        (PreIdentV::Alpha(s), PreIdentV::Alpha(t)) => lex_lt(s, t),
    }
}

/// Whether two pre-release identifiers are the same value.
pub open spec fn ident_eqv(a: PreIdentV, b: PreIdentV) -> bool {
    match (a, b) {
        (PreIdentV::Num(x), PreIdentV::Num(y)) => x == y,
        (PreIdentV::Alpha(s), PreIdentV::Alpha(t)) => s == t,
        _ => false,
    }
}

/// Strict precedence order on pre-release identifier lists: identifier by
/// identifier, a shorter list ordering below any extension of it.
pub open spec fn pre_lt(a: Seq<PreIdentV>, b: Seq<PreIdentV>) -> bool
    decreases a.len(),
{
    if a.len() == 0 {
        b.len() > 0
    } else if b.len() == 0 {
        false
    } else if ident_lt(a[0], b[0]) {
        true
    } else if ident_lt(b[0], a[0]) {
        false
    } else if ident_eqv(a[0], b[0]) {
        pre_lt(a.drop_first(), b.drop_first())
    } else {
        false
    }
}

/// Strict semantic-versioning precedence on whole versions: the numeric core
/// first; on an equal core a pre-release orders below the plain release, and
/// two pre-releases compare by their identifier lists. Build metadata has no
/// effect on precedence.
pub open spec fn ver_lt(a: VersionV, b: VersionV) -> bool {
    if a.major != b.major {
        a.major < b.major
    } else if a.minor != b.minor {
        a.minor < b.minor
    } else if a.patch != b.patch {
        a.patch < b.patch
    } else if a.pre.len() > 0 && b.pre.len() == 0 {
        true
    } else if a.pre.len() == 0 {
        false
    } else {
        pre_lt(a.pre, b.pre)
    }
}

proof fn lemma_ident_lt_asymmetric(a: PreIdentV, b: PreIdentV)
    ensures
        !(ident_lt(a, b) && ident_lt(b, a)),
{
    match (a, b) {
        (PreIdentV::Alpha(s), PreIdentV::Alpha(t)) => lemma_lex_lt_asymmetric(s, t),
        _ => {},
    }
}

proof fn lemma_pre_lt_asymmetric(a: Seq<PreIdentV>, b: Seq<PreIdentV>)
    ensures
        !(pre_lt(a, b) && pre_lt(b, a)),
    decreases a.len(),
{
    if a.len() > 0 && b.len() > 0 {
        lemma_ident_lt_asymmetric(a[0], b[0]);
        if !ident_lt(a[0], b[0]) && !ident_lt(b[0], a[0]) && ident_eqv(a[0], b[0]) {
            lemma_pre_lt_asymmetric(a.drop_first(), b.drop_first());
        }
    }
}

/// Semantic-versioning precedence is asymmetric: no two versions order below
/// each other at once.
pub proof fn lemma_ver_lt_asymmetric(a: VersionV, b: VersionV)
    ensures
        !(ver_lt(a, b) && ver_lt(b, a)),
{
    lemma_pre_lt_asymmetric(a.pre, b.pre);
}

fn ident_lt_exec(a: &PreIdent, b: &PreIdent) -> (r: bool)
    ensures
        r == ident_lt(a@, b@),
{
    match (a, b) {
        (PreIdent::Num(x), PreIdent::Num(y)) => x < y,
        (PreIdent::Num(_), PreIdent::Alpha(_)) => true,
        (PreIdent::Alpha(_), PreIdent::Num(_)) => false,
        (PreIdent::Alpha(s), PreIdent::Alpha(t)) => crate::strutil::str_lt(s.as_str(), t.as_str()),
    }
}

fn ident_eq_exec(a: &PreIdent, b: &PreIdent) -> (r: bool)
    ensures
        r == ident_eqv(a@, b@),
{
    match (a, b) {
        (PreIdent::Num(x), PreIdent::Num(y)) => x == y,
        (PreIdent::Alpha(s), PreIdent::Alpha(t)) => crate::strutil::str_eq(s.as_str(), t.as_str()),
        _ => false,
    }
}

/// The view of a pre-release identifier vector.
pub open spec fn pre_view(v: Vec<PreIdent>) -> Seq<PreIdentV> {
    v@.map_values(|p: PreIdent| p@)
}

fn pre_lt_exec(a: &Vec<PreIdent>, b: &Vec<PreIdent>) -> (r: bool)
    ensures
        r == pre_lt(pre_view(*a), pre_view(*b)),
{
    let ghost va = pre_view(*a);
    let ghost vb = pre_view(*b);
    let mut i: usize = 0;
    proof {
        assert(va.skip(0) =~= va);
        assert(vb.skip(0) =~= vb);
    }
    loop
        invariant
            va == pre_view(*a),
            vb == pre_view(*b),
            va.len() == a@.len(),
            vb.len() == b@.len(),
            i <= va.len(),
            i <= vb.len(),
            pre_lt(va, vb) == pre_lt(va.skip(i as int), vb.skip(i as int)),
        decreases va.len() - i,
    {
        if i >= a.len() {
            return b.len() > a.len();
        }
        if i >= b.len() {
            return false;
        }
        let pa = &a[i];
        let pb = &b[i];
        if ident_lt_exec(pa, pb) {
            return true;
        }
        if ident_lt_exec(pb, pa) {
            return false;
        }
        if !ident_eq_exec(pa, pb) {
            return false;
        }
        proof {
            assert(va.skip(i as int).drop_first() =~= va.skip(i + 1));
            assert(vb.skip(i as int).drop_first() =~= vb.skip(i + 1));
        }
        i += 1;
    }
}

impl Version {
    /// A plain release version with no pre-release and no build metadata.
    pub fn new(major: u64, minor: u64, patch: u64) -> (r: Version)
        ensures
            r@ == (VersionV {
                major,
                minor,
                patch,
                pre: Seq::<PreIdentV>::empty(),
                build: Seq::<char>::empty(),
            }),
    {
        let r = Version { major, minor, patch, pre: Vec::new(), build: String::new() };
        proof {
            assert(r@.pre =~= Seq::<PreIdentV>::empty());
        }
        r
    }

    /// Whether `self` orders strictly below `other` in precedence.
    pub fn lt(&self, other: &Version) -> (r: bool)
        ensures
            r == ver_lt(self@, other@),
    {
        if self.major != other.major {
            return self.major < other.major;
        }
        if self.minor != other.minor {
            return self.minor < other.minor;
        }
        if self.patch != other.patch {
            return self.patch < other.patch;
        }
        if self.pre.len() > 0 && other.pre.len() == 0 {
            return true;
        }
        if self.pre.len() == 0 {
            return false;
        }
        pre_lt_exec(&self.pre, &other.pre)
    }
}

/// The characters of one rendered pre-release identifier.
pub open spec fn ident_str(p: PreIdentV) -> Seq<char> {
    match p {
        PreIdentV::Num(n) => dec_str(n as nat),
        PreIdentV::Alpha(s) => s,
    }
}

/// The characters of a rendered pre-release identifier list, dot-separated.
pub open spec fn pre_str(s: Seq<PreIdentV>) -> Seq<char>
    decreases s.len(),
{
    if s.len() == 0 {
        Seq::empty()
    } else if s.len() == 1 {
        ident_str(s[0])
    } else {
        pre_str(s.drop_last()) + seq!['.'] + ident_str(s.last())
    }
}

/// The characters of a rendered version: the dotted numeric core, then
/// `-` and the pre-release list if present, then `+` and the build metadata
/// if present.
pub open spec fn version_str(v: VersionV) -> Seq<char> {
    dec_str(v.major as nat) + seq!['.'] + dec_str(v.minor as nat) + seq!['.'] + dec_str(
        v.patch as nat,
    ) + (if v.pre.len() > 0 {
        seq!['-'] + pre_str(v.pre)
    } else {
        Seq::<char>::empty()
    }) + (if v.build.len() > 0 {
        seq!['+'] + v.build
    } else {
        Seq::<char>::empty()
    })
}

fn ident_render(p: &PreIdent) -> (r: String)
    ensures
        r@ == ident_str(p@),
{
    match p {
        PreIdent::Num(n) => dec(*n),
        PreIdent::Alpha(s) => {
            let r = String::new();
            r.concat(s.as_str())
        },
    }
}

/// Renders a version as text.
pub fn render_version(v: &Version) -> (r: String)
    ensures
        r@ == version_str(v@),
{
    let mut r = dec(v.major);
    r.append(".");
    let minor = dec(v.minor);
    r.append(minor.as_str());
    r.append(".");
    let patch = dec(v.patch);
    r.append(patch.as_str());
    proof {
        reveal_strlit(".");
        assert(r@ =~= dec_str(v@.major as nat) + seq!['.'] + dec_str(v@.minor as nat) + seq!['.']
            + dec_str(v@.patch as nat));
    }
    let ghost core = r@;
    if v.pre.len() > 0 {
        r.append("-");
        proof {
            reveal_strlit("-");
        }
        let mut i: usize = 0;
        while i < v.pre.len()
            invariant
                i <= v.pre.len(),
                v.pre.len() > 0,
                r@ =~= core + seq!['-'] + pre_str(pre_view(v.pre).take(i as int)),
            decreases v.pre.len() - i,
        {
            if i > 0 {
                r.append(".");
                proof {
                    reveal_strlit(".");
                }
            }
            let part = ident_render(&v.pre[i]);
            r.append(part.as_str());
            proof {
                let pv = pre_view(v.pre);
                assert(pv.take(i + 1).drop_last() =~= pv.take(i as int));
                assert(pv.take(i + 1).last() == pv[i as int]);
                assert(r@ =~= core + seq!['-'] + pre_str(pv.take(i + 1)));
            }
            i += 1;
        }
        proof {
            assert(pre_view(v.pre).take(v.pre@.len() as int) =~= pre_view(v.pre));
        }
    }
    let ghost with_pre = r@;
    if v.build.unicode_len() > 0 {
        r.append("+");
        r.append(v.build.as_str());
        proof {
            reveal_strlit("+");
            assert(r@ =~= with_pre + seq!['+'] + v@.build);
        }
    }
    proof {
        assert(r@ =~= version_str(v@));
    }
    r
}

} // verus!
