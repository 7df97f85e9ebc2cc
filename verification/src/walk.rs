//! Which files the code-graph index walks: the configured `whitelist` and `exclude`
//! patterns as gitignore-style override globs, and the exclude test the watcher applies
//! to a changed path.

use vstd::prelude::*;

use crate::proxy::trim_slashes_end;
use crate::search::{strip_prefix, strip_prefix_spec};
use crate::text::{starts_with, views, Chars};

verus! {

/// An whitelist pattern as a glob: a directory (`dir/`) covers everything under it.
pub open spec fn whitelist_glob(p: Chars) -> Chars {
    if p.len() > 0 && p.last() == '/' {
        p + "**"@
    } else {
        p
    }
}

/// The override globs, in order: with any whitelist, everything is whitelisted first (so
/// that only excludes and gitignore shrink the walk); each exclude negated; each whitelist.
pub open spec fn override_globs_spec(whitelist: Seq<Chars>, exclude: Seq<Chars>) -> Seq<Chars> {
    (if whitelist.len() > 0 {
        seq!["**"@]
    } else {
        Seq::empty()
    }) + Seq::new(exclude.len(), |i: int| "!"@ + exclude[i]) + Seq::new(
        whitelist.len(),
        |i: int| whitelist_glob(whitelist[i]),
    )
}

/// [`override_globs_spec`].
pub fn override_globs(whitelist: &[String], exclude: &[String]) -> (r: Vec<String>)
    ensures
        views(r@) == override_globs_spec(views(whitelist@), views(exclude@)),
{
    let ghost inc = views(whitelist@);
    let ghost exc = views(exclude@);
    let mut out: Vec<String> = Vec::new();
    if whitelist.len() > 0 {
        out.push("**".to_owned());
    }
    let ghost head = views(out@);
    let mut i: usize = 0;
    while i < exclude.len()
        invariant
            i <= exclude@.len(),
            exc == views(exclude@),
            views(out@) == head + Seq::new(i as nat, |m: int| "!"@ + exc[m]),
        decreases exclude@.len() - i,
    {
        let mut g = "!".to_owned();
        g.append(exclude[i].as_str());
        let ghost before = views(out@);
        out.push(g);
        assert(views(out@) =~= before.push(g@));
        assert(head + Seq::new((i + 1) as nat, |m: int| "!"@ + exc[m]) =~= before.push("!"@ + exc[i as int]));
        i += 1;
    }
    let ghost mid = views(out@);
    let mut j: usize = 0;
    while j < whitelist.len()
        invariant
            j <= whitelist@.len(),
            inc == views(whitelist@),
            views(out@) == mid + Seq::new(j as nat, |m: int| whitelist_glob(inc[m])),
        decreases whitelist@.len() - j,
    {
        let p = whitelist[j].as_str();
        let c = crate::text::chars_of(p);
        let mut g = crate::text::copy_str(p);
        if c.len() > 0 && c[c.len() - 1] == '/' {
            g.append("**");
        }
        let ghost before = views(out@);
        out.push(g);
        assert(views(out@) =~= before.push(g@));
        assert(mid + Seq::new((j + 1) as nat, |m: int| whitelist_glob(inc[m])) =~= before.push(whitelist_glob(inc[j as int])));
        j += 1;
    }
    assert(views(out@) =~= override_globs_spec(inc, exc));
    out
}

/// A path written with `/` only.
pub open spec fn forward_slashes(s: Chars) -> Chars {
    Seq::new(s.len(), |i: int| if s[i] == '\\' { '/' } else { s[i] })
}

/// An exclude pattern names the path (relative to the root, or whole when outside it): the
/// pattern without trailing slashes is the path or a directory above it.
pub open spec fn excluded_by(rel: Chars, pat: Chars) -> bool {
    let p = trim_slashes_end(pat);
    rel == p || starts_with(rel, p + "/"@)
}

/// The path the exclude patterns are matched against.
pub open spec fn rel_spec(path: Chars, root: Chars) -> Chars {
    forward_slashes(
        match strip_prefix_spec(path, root) {
            Some(r) => r,
            None => path,
        },
    )
}

/// A changed path is excluded when some exclude pattern names it.
pub open spec fn is_excluded_spec(path: Chars, root: Chars, exclude: Seq<Chars>) -> bool {
    exists|i: int| 0 <= i < exclude.len() && excluded_by(rel_spec(path, root), exclude[i])
}

/// [`is_excluded_spec`].
pub fn is_excluded(path: &str, root: &str, exclude: &[String]) -> (r: bool)
    ensures
        r == is_excluded_spec(path@, root@, views(exclude@)),
{
    let base = match strip_prefix(path, root) {
        Some(r) => r,
        None => crate::text::copy_str(path),
    };
    let c = crate::text::chars_of(base.as_str());
    let mut fwd: Vec<char> = Vec::new();
    let mut k: usize = 0;
    while k < c.len()
        invariant
            k <= c@.len(),
            fwd@ == forward_slashes(c@).take(k as int),
        decreases c@.len() - k,
    {
        fwd.push(if c[k] == '\\' { '/' } else { c[k] });
        assert(forward_slashes(c@).take(k + 1) =~= forward_slashes(c@).take(k as int).push(forward_slashes(c@)[k as int]));
        k += 1;
    }
    assert(forward_slashes(c@).take(c@.len() as int) =~= forward_slashes(c@));
    let ghost rel = rel_spec(path@, root@);
    assert(fwd@ == rel);
    let mut i: usize = 0;
    while i < exclude.len()
        invariant
            i <= exclude@.len(),
            fwd@ == rel,
            rel == rel_spec(path@, root@),
            forall|m: int| 0 <= m < i ==> !excluded_by(rel, #[trigger] views(exclude@)[m]),
        decreases exclude@.len() - i,
    {
        let pat = crate::proxy::upstream_base(exclude[i].as_str());
        let p = crate::text::chars_of(pat.as_str());
        let mut dir = crate::text::copy_str(pat.as_str());
        dir.append("/");
        let d = crate::text::chars_of(dir.as_str());
        assert(views(exclude@)[i as int] == exclude@[i as int]@);
        if crate::text::chars_eq(fwd.as_slice(), p.as_slice()) || crate::text::has_prefix(fwd.as_slice(), d.as_slice()) {
            assert(excluded_by(rel, views(exclude@)[i as int]));
            assert(is_excluded_spec(path@, root@, views(exclude@))) by {
                let ex = views(exclude@);
                assert(0 <= i < ex.len() && excluded_by(rel_spec(path@, root@), ex[i as int]));
            }
            return true;
        }
        i += 1;
    }
    false
}

} // verus!
