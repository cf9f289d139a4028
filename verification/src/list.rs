//! The presenter: renders a resolved package collection as a column-aligned
//! textual table. Column widths are computed once over the whole collection,
//! so all rows align; each row is produced as its plain segments, so a sink
//! may style the version, the path and the private marker before writing.

use vstd::prelude::*;
use crate::pkg::{Pkg, PkgV, pkg_views};
use crate::version::{Version, version_str, render_version};
use crate::strutil::{spaces_seq, spaces};

verus! {

/// Listing options: structured output, extended columns, private annotation.
pub struct ListOpt {
    pub json: bool,
    pub long: bool,
    pub all: bool,
}

/// The name-column width: the longest package name.
pub open spec fn name_width(s: Seq<PkgV>) -> int
    decreases s.len(),
{
    if s.len() == 0 {
        0
    } else {
        let rest = name_width(s.drop_last());
        let last = s.last().name.len() as int;
        if rest >= last {
            rest
        } else {
            last
        }
    }
}

/// The characters of the version column entry for one package.
pub open spec fn vtext_of(p: PkgV) -> Seq<char> {
    seq!['v'] + version_str(p.version)
}

/// The version-column width: the longest rendered `v`-prefixed version.
pub open spec fn ver_width(s: Seq<PkgV>) -> int
    decreases s.len(),
{
    if s.len() == 0 {
        0
    } else {
        let rest = ver_width(s.drop_last());
        let last = vtext_of(s.last()).len() as int;
        if rest >= last {
            rest
        } else {
            last
        }
    }
}

/// The path-column width: the longest relative path, each path counting at
/// least one column (a package at the workspace root displays as `.`).
pub open spec fn path_width(s: Seq<PkgV>) -> int
    decreases s.len(),
{
    if s.len() == 0 {
        0
    } else {
        let rest = path_width(s.drop_last());
        let plen = s.last().path.len() as int;
        let last = if plen >= 1 {
            plen
        } else {
            1
        };
        if rest >= last {
            rest
        } else {
            last
        }
    }
}

/// Every row's fields fit inside the column widths computed over the whole
/// collection.
pub proof fn lemma_widths_bound(s: Seq<PkgV>)
    ensures
        forall|i: int|
            0 <= i < s.len() ==> (#[trigger] s[i]).name.len() <= name_width(s) && vtext_of(
                s[i],
            ).len() <= ver_width(s) && s[i].path.len() <= path_width(s),
    decreases s.len(),
{
    if s.len() > 0 {
        lemma_widths_bound(s.drop_last());
        assert(forall|i: int| 0 <= i < s.len() - 1 ==> s.drop_last()[i] == #[trigger] s[i]);
    }
}

/// The characters of one rendered row, before styling: the name; with `long`,
/// the padded version and relative path columns; with `all`, the padded
/// private marker on private packages.
pub open spec fn line_str(
    p: PkgV,
    namew: int,
    verw: int,
    pathw: int,
    long: bool,
    all: bool,
) -> Seq<char> {
    let vtext = vtext_of(p);
    let ptext = if p.path.len() == 0 {
        seq!['.']
    } else {
        p.path
    };
    p.name + (if long {
        spaces_seq((namew - p.name.len()) as nat) + seq![' '] + vtext + spaces_seq(
            (verw - vtext.len()) as nat,
        ) + seq![' '] + ptext
    } else {
        Seq::<char>::empty()
    }) + (if all && p.private {
        spaces_seq(
            (if long {
                pathw - p.path.len()
            } else {
                namew - p.name.len()
            }) as nat,
        ) + " (PRIVATE)"@
    } else {
        Seq::<char>::empty()
    })
}

/// One rendered row, as its plain segments: a sink writes them in order —
/// name, then (with `long`) the pad, a space, the version, the pad, a space,
/// the path, then (when marked) the pad and the ` (PRIVATE)` marker — and may
/// style the version, path and marker segments.
pub struct LineParts {
    pub name: String,
    pub long_pad: String,
    pub version_text: String,
    pub version_pad: String,
    pub path_text: String,
    pub marker_pad: String,
    pub show_long: bool,
    pub show_marker: bool,
}

/// The characters of a row's segments written in order, unstyled.
pub open spec fn parts_text(lp: LineParts) -> Seq<char> {
    lp.name@ + (if lp.show_long {
        lp.long_pad@ + seq![' '] + lp.version_text@ + lp.version_pad@ + seq![' '] + lp.path_text@
    } else {
        Seq::<char>::empty()
    }) + (if lp.show_marker {
        lp.marker_pad@ + " (PRIVATE)"@
    } else {
        Seq::<char>::empty()
    })
}

/// The version column entry for one package.
pub fn version_text(v: &Version) -> (r: String)
    ensures
        r@ == seq!['v'] + version_str(v@),
{
    let mut r = String::new();
    r.append("v");
    let rendered = render_version(v);
    r.append(rendered.as_str());
    proof {
        reveal_strlit("v");
        assert(r@ =~= seq!['v'] + version_str(v@));
    }
    r
}

/// Renders one row against the given column widths.
pub fn render_line(p: &Pkg, namew: usize, verw: usize, pathw: usize, long: bool, all: bool) -> (r:
    LineParts)
    requires
        p@.name.len() <= namew,
        long ==> vtext_of(p@).len() <= verw,
        long ==> p@.path.len() <= pathw,
    ensures
        parts_text(r) == line_str(p@, namew as int, verw as int, pathw as int, long, all),
        r.show_long == long,
        r.show_marker == (all && p@.private),
        r.name@ == p@.name,
        r.version_text@ == vtext_of(p@),
        r.path_text@ == (if p@.path.len() == 0 {
            seq!['.']
        } else {
            p@.path
        }),
{
    let name = p.name.clone();
    let name_len = p.name.unicode_len();
    let long_pad = spaces(namew - name_len);
    let version_text_s = version_text(&p.version);
    let vlen = version_text_s.unicode_len();
    let version_pad = if long {
        spaces(verw - vlen)
    } else {
        String::new()
    };
    let path_len = p.path.unicode_len();
    let path_text = if path_len == 0 {
        proof {
            reveal_strlit(".");
        }
        String::from_str(".")
    } else {
        p.path.clone()
    };
    proof {
        assert(path_len == 0 ==> path_text@ =~= seq!['.']);
    }
    let show_marker = all && p.private;
    let marker_pad = if show_marker {
        if long {
            spaces(pathw - path_len)
        } else {
            spaces(namew - name_len)
        }
    } else {
        String::new()
    };
    let r = LineParts {
        name,
        long_pad,
        version_text: version_text_s,
        version_pad,
        path_text,
        marker_pad,
        show_long: long,
        show_marker,
    };
    proof {
        assert(parts_text(r) =~= line_str(
            p@,
            namew as int,
            verw as int,
            pathw as int,
            long,
            all,
        ));
    }
    r
}

/// The column widths over a non-empty collection.
pub fn list_widths(pkgs: &Vec<Pkg>) -> (r: (usize, usize, usize))
    ensures
        r.0 == name_width(pkg_views(pkgs@)),
        r.1 == ver_width(pkg_views(pkgs@)),
        r.2 == path_width(pkg_views(pkgs@)),
{
    let mut namew: usize = 0;
    let mut verw: usize = 0;
    let mut pathw: usize = 0;
    let mut i: usize = 0;
    proof {
        assert(pkg_views(pkgs@).take(0) =~= Seq::<PkgV>::empty());
    }
    while i < pkgs.len()
        invariant
            i <= pkgs@.len(),
            namew == name_width(pkg_views(pkgs@).take(i as int)),
            verw == ver_width(pkg_views(pkgs@).take(i as int)),
            pathw == path_width(pkg_views(pkgs@).take(i as int)),
        decreases pkgs@.len() - i,
    {
        let p = &pkgs[i];
        let nlen = p.name.unicode_len();
        if nlen > namew {
            namew = nlen;
        }
        let vt = version_text(&p.version);
        let vlen = vt.unicode_len();
        if vlen > verw {
            verw = vlen;
        }
        let plen = p.path.unicode_len();
        let pcol = if plen >= 1 {
            plen
        } else {
            1
        };
        if pcol > pathw {
            pathw = pcol;
        }
        proof {
            let s = pkg_views(pkgs@);
            assert(s.take(i + 1).drop_last() =~= s.take(i as int));
            assert(s.take(i + 1).last() == s[i as int]);
            assert(s[i as int] == pkgs@[i as int]@);
        }
        i += 1;
    }
    proof {
        assert(pkg_views(pkgs@).take(pkgs@.len() as int) =~= pkg_views(pkgs@));
    }
    (namew, verw, pathw)
}

/// Renders the whole collection, one row per package, in the order given,
/// against column widths computed once over the whole collection. An empty
/// collection yields no rows.
pub fn list_lines(pkgs: &Vec<Pkg>, long: bool, all: bool) -> (r: Vec<LineParts>)
    ensures
        r@.len() == pkgs@.len(),
        forall|i: int|
            0 <= i < pkgs@.len() ==> parts_text(#[trigger] r@[i]) == line_str(
                pkgs@[i]@,
                name_width(pkg_views(pkgs@)),
                ver_width(pkg_views(pkgs@)),
                path_width(pkg_views(pkgs@)),
                long,
                all,
            ),
{
    let mut r: Vec<LineParts> = Vec::new();
    if pkgs.len() == 0 {
        return r;
    }
    let widths = list_widths(pkgs);
    proof {
        lemma_widths_bound(pkg_views(pkgs@));
    }
    let mut i: usize = 0;
    while i < pkgs.len()
        invariant
            i <= pkgs@.len(),
            r@.len() == i,
            widths.0 == name_width(pkg_views(pkgs@)),
            widths.1 == ver_width(pkg_views(pkgs@)),
            widths.2 == path_width(pkg_views(pkgs@)),
            forall|j: int|
                0 <= j < i ==> parts_text(#[trigger] r@[j]) == line_str(
                    pkgs@[j]@,
                    name_width(pkg_views(pkgs@)),
                    ver_width(pkg_views(pkgs@)),
                    path_width(pkg_views(pkgs@)),
                    long,
                    all,
                ),
            forall|j: int|
                0 <= j < pkgs@.len() ==> (#[trigger] pkg_views(pkgs@)[j]).name.len() <= name_width(
                    pkg_views(pkgs@),
                ) && vtext_of(pkg_views(pkgs@)[j]).len() <= ver_width(pkg_views(pkgs@)) && pkg_views(
                    pkgs@,
                )[j].path.len() <= path_width(pkg_views(pkgs@)),
        decreases pkgs@.len() - i,
    {
        proof {
            assert(pkg_views(pkgs@)[i as int] == pkgs@[i as int]@);
        }
        let line = render_line(&pkgs[i], widths.0, widths.1, widths.2, long, all);
        r.push(line);
        i += 1;
    }
    r
}

/// Glues a row's segments into the plain line a non-styling sink would write.
pub fn line_text(lp: &LineParts) -> (r: String)
    ensures
        r@ == parts_text(*lp),
{
    let mut r = lp.name.clone();
    if lp.show_long {
        r.append(lp.long_pad.as_str());
        r.append(" ");
        r.append(lp.version_text.as_str());
        r.append(lp.version_pad.as_str());
        r.append(" ");
        r.append(lp.path_text.as_str());
    }
    if lp.show_marker {
        r.append(lp.marker_pad.as_str());
        r.append(" (PRIVATE)");
    }
    proof {
        reveal_strlit(" ");
        assert(r@ =~= parts_text(*lp));
    }
    r
}

/// In every `long` row the version column starts right after the shared name
/// column: at character offset `namew + 1`, whatever the package's own name
/// length.
pub proof fn lemma_version_column_aligned(
    p: PkgV,
    namew: int,
    verw: int,
    pathw: int,
    all: bool,
)
    requires
        p.name.len() <= namew,
    ensures
        ({
            let line = line_str(p, namew, verw, pathw, true, all);
            let vtext = vtext_of(p);
            &&& line.len() >= namew + 1 + vtext.len()
            &&& line.subrange(namew + 1, namew + 1 + vtext.len() as int) == vtext
        }),
{
    let line = line_str(p, namew, verw, pathw, true, all);
    let vtext = vtext_of(p);
    let pre = p.name + spaces_seq((namew - p.name.len()) as nat) + seq![' '];
    assert(pre.len() == namew + 1);
    let ptext = if p.path.len() == 0 {
        seq!['.']
    } else {
        p.path
    };
    let post = spaces_seq((verw - vtext.len()) as nat) + seq![' '] + ptext + (if all && p.private {
        spaces_seq((pathw - p.path.len()) as nat) + " (PRIVATE)"@
    } else {
        Seq::<char>::empty()
    });
    assert(line =~= pre + vtext + post);
    assert((pre + vtext + post).subrange(namew + 1, namew + 1 + vtext.len() as int) =~= vtext);
}

} // verus!
