//! The project a directory belongs to, resolved so that a linked git worktree and its main
//! checkout share one name: the `origin` repository name from the main checkout's git
//! config, else the main checkout's directory name.
//!
//! Only files are read, and the library reads none itself: each step names the file to
//! read next, and the caller hands back what it found.

use vstd::prelude::*;

use crate::memory::{gitdir_of, gitdir_spec, origin_name, origin_name_spec};
use crate::path::{
    ancestor, comp_views, comps_file_name, comps_text, components, copy_component, join_name,
    join_path, normalize, normalize_spec, path_components, path_text, pops, Comp, Component,
};
use crate::text::{chars_of, string_from, trim, trim_chars, Chars};

verus! {

/// What a directory's `.git` is when read as a file.
pub enum DotGit {
    /// A file with this text: a linked worktree's pointer to its admin directory (or a
    /// submodule's).
    File(String),
    /// Nothing there.
    Missing,
    /// There, but not a readable file: the `.git` directory of a main checkout.
    Other,
}

/// [`DotGit`] as a value.
pub enum DotGitV {
    File(Chars),
    Missing,
    Other,
}

impl View for DotGit {
    type V = DotGitV;

    open spec fn view(&self) -> DotGitV {
        match self {
            DotGit::File(t) => DotGitV::File(t@),
            DotGit::Missing => DotGitV::Missing,
            DotGit::Other => DotGitV::Other,
        }
    }
}

/// What resolving the project does next.
pub enum ProjectStep {
    /// Read this `.git` and report what it is.
    ReadDotGit(String),
    /// Read this file and hand back its text, or nothing if it cannot be read.
    ReadFile(String),
    /// The project's name, or none.
    Done(Option<String>),
}

/// [`ProjectStep`] as a value.
pub enum ProjectStepV {
    ReadDotGit(Chars),
    ReadFile(Chars),
    Done(Option<Chars>),
}

impl View for ProjectStep {
    type V = ProjectStepV;

    open spec fn view(&self) -> ProjectStepV {
        match self {
            ProjectStep::ReadDotGit(p) => ProjectStepV::ReadDotGit(p@),
            ProjectStep::ReadFile(p) => ProjectStepV::ReadFile(p@),
            ProjectStep::Done(n) => ProjectStepV::Done(
                match n {
                    Some(x) => Some(x@),
                    None => None,
                },
            ),
        }
    }
}

/// The views of the `.git` probes.
pub open spec fn probes_view(p: Seq<DotGit>) -> Seq<DotGitV> {
    Seq::new(p.len(), |i: int| p[i]@)
}

/// The views of the file reads.
pub open spec fn reads_view(f: Seq<Option<String>>) -> Seq<Option<Chars>> {
    Seq::new(
        f.len(),
        |i: int|
            match f[i] {
                Some(t) => Some(t@),
                None => None,
            },
    )
}

/// The `.git` path in directory `d`.
pub open spec fn dot_git_of(d: Seq<Comp>) -> Chars {
    join_name(comps_text(d), ".git"@)
}

/// The climb from the `k`-th directory up: the first whose `.git` is there (`Ok` with its
/// index), or the next step (test a directory not tested yet, or give up past the root).
pub open spec fn climb(cs: Seq<Comp>, probes: Seq<DotGitV>, k: int) -> Result<int, ProjectStepV>
    decreases pops(cs) - k,
{
    if k < 0 || k >= probes.len() {
        Err(ProjectStepV::ReadDotGit(dot_git_of(ancestor(cs, k))))
    } else if probes[k] is Missing {
        if k >= pops(cs) {
            Err(ProjectStepV::Done(None))
        } else {
            climb(cs, probes, k + 1)
        }
    } else {
        Ok(k)
    }
}

/// `PathBuf::parent`: everything but the last component, if that leaves a parent.
pub open spec fn parent_of(cs: Seq<Comp>) -> Option<Seq<Comp>> {
    if cs.len() == 0 || (cs.len() == 1 && cs[0] is Root) {
        None
    } else {
        Some(cs.drop_last())
    }
}

/// With the common git directory known (`common`) and `reads` the file texts still unused,
/// the rest: the main checkout is its parent; its name is the `origin` repository name from
/// `<common>/config`, else the main checkout's directory name.
pub open spec fn name_from(common: Seq<Comp>, reads: Seq<Option<Chars>>) -> ProjectStepV {
    match parent_of(common) {
        None => ProjectStepV::Done(None),
        Some(main) => if reads.len() == 0 {
            ProjectStepV::ReadFile(join_name(comps_text(common), "config"@))
        } else {
            match reads[0] {
                Some(cfg) => match origin_name_spec(cfg) {
                    Some(n) => ProjectStepV::Done(Some(n)),
                    None => ProjectStepV::Done(comps_file_name(main)),
                },
                None => ProjectStepV::Done(comps_file_name(main)),
            }
        },
    }
}

/// The next step in resolving the project of `cwd`, given what each `.git` tested so far
/// turned out to be (`probes[k]` for the `k`-th directory up) and the texts of the files
/// read since (`reads`, in order; `None` where one could not be read).
///
/// The first directory whose `.git` is there is the checkout. A `.git` directory is the
/// common git directory. A `.git` file naming `gitdir: <admin dir>` is a linked worktree:
/// the admin directory's `commondir` names the common git directory (both paths may be
/// relative); without it, or for any other `.git` file, that `.git` is the common one.
pub open spec fn project_spec(cwd: Chars, probes: Seq<DotGitV>, reads: Seq<Option<Chars>>) -> ProjectStepV {
    let cs = components(cwd);
    match climb(cs, probes, 0) {
        Err(step) => step,
        Ok(k) => {
            let d = ancestor(cs, k);
            let dot = d.push(Comp::Normal(".git"@));
            match probes[k] {
                DotGitV::File(text) => match gitdir_spec(text) {
                    Some(g) => {
                        let admin = normalize_spec(comps_text(d), g);
                        if reads.len() == 0 {
                            ProjectStepV::ReadFile(join_name(comps_text(admin), "commondir"@))
                        } else {
                            match reads[0] {
                                Some(c) => name_from(
                                    normalize_spec(comps_text(admin), trim(c)),
                                    reads.drop_first(),
                                ),
                                None => name_from(dot, reads.drop_first()),
                            }
                        }
                    },
                    None => name_from(dot, reads),
                },
                _ => name_from(dot, reads),
            }
        },
    }
}

/// Whether a probe found nothing.
fn is_missing(p: &DotGit) -> (r: bool)
    ensures
        r == (p@ is Missing),
{
    match p {
        DotGit::Missing => true,
        _ => false,
    }
}

/// Copies of the first `n` components.
fn prefix(cs: &Vec<Component>, n: usize) -> (r: Vec<Component>)
    requires
        n <= cs@.len(),
    ensures
        comp_views(r@) == comp_views(cs@).take(n as int),
{
    let ghost cv = comp_views(cs@);
    let mut r: Vec<Component> = Vec::new();
    let mut i: usize = 0;
    while i < n
        invariant
            n <= cs@.len(),
            i <= n,
            cv == comp_views(cs@),
            comp_views(r@) == cv.take(i as int),
        decreases n - i,
    {
        let c = copy_component(&cs[i]);
        let ghost before = r@;
        r.push(c);
        assert(comp_views(r@) =~= comp_views(before).push(c@));
        assert(cv.take(i + 1) =~= cv.take(i as int).push(cv[i as int]));
        i += 1;
    }
    r
}

/// Whether a path has a parent ([`parent_of`] is not none).
fn has_parent(cs: &Vec<Component>) -> (r: bool)
    ensures
        r == parent_of(comp_views(cs@)) is Some,
{
    if cs.len() == 0 {
        false
    } else if cs.len() == 1 {
        match &cs[0] {
            Component::RootDir => false,
            _ => true,
        }
    } else {
        true
    }
}

/// [`name_from`].
fn finish(common: &Vec<Component>, reads: &Vec<Option<String>>, from: usize) -> (r: ProjectStep)
    requires
        from <= reads@.len(),
    ensures
        r@ == name_from(comp_views(common@), reads_view(reads@).skip(from as int)),
{
    let ghost cv = comp_views(common@);
    let ghost rest = reads_view(reads@).skip(from as int);
    if !has_parent(common) {
        return ProjectStep::Done(None);
    }
    let main = prefix(common, common.len() - 1);
    assert(comp_views(main@) == cv.drop_last());
    if reads.len() == from {
        let dir = path_text(common);
        return ProjectStep::ReadFile(join_path(dir.as_str(), "config"));
    }
    assert(rest[0] == reads_view(reads@)[from as int]);
    let from_dir = match &reads[from] {
        Some(cfg) => match origin_name(cfg.as_str()) {
            Some(n) => return ProjectStep::Done(Some(n)),
            None => true,
        },
        None => true,
    };
    let n = main.len();
    if from_dir && n > 0 {
        match &main[n - 1] {
            Component::Normal(v) => {
                return ProjectStep::Done(Some(string_from(v.as_slice())));
            },
            _ => {},
        }
    }
    ProjectStep::Done(None)
}

/// [`project_spec`]: the next step in resolving the project of `cwd`.
pub fn project_name(cwd: &str, probes: &Vec<DotGit>, reads: &Vec<Option<String>>) -> (r: ProjectStep)
    ensures
        r@ == project_spec(cwd@, probes_view(probes@), reads_view(reads@)),
{
    let cs = path_components(cwd);
    let ghost cv = comp_views(cs@);
    let ghost pv = probes_view(probes@);
    let rooted = cs.len() > 0 && match &cs[0] {
        Component::RootDir => true,
        _ => false,
    };
    let top: usize = if rooted {
        cs.len() - 1
    } else {
        cs.len()
    };
    assert(top == pops(cv));
    let mut k: usize = 0;
    while k < probes.len() && k < top && is_missing(&probes[k])
        invariant
            k <= top,
            top == pops(cv),
            cv == comp_views(cs@),
            cv == components(cwd@),
            pv == probes_view(probes@),
            climb(cv, pv, 0) == climb(cv, pv, k as int),
        decreases top - k,
    {
        k += 1;
    }
    let d = prefix(&cs, cs.len() - k);
    assert(comp_views(d@) == ancestor(cv, k as int));
    if k >= probes.len() {
        let dir = path_text(&d);
        return ProjectStep::ReadDotGit(join_path(dir.as_str(), ".git"));
    }
    assert(pv[k as int] == probes@[k as int]@);
    if let DotGit::Missing = &probes[k] {
        return ProjectStep::Done(None);
    }
    assert(climb(cv, pv, 0) == Ok::<int, ProjectStepV>(k as int));
    let mut dot = prefix(&cs, cs.len() - k);
    let ghost dv = comp_views(dot@);
    dot.push(Component::Normal(chars_of(".git")));
    assert(comp_views(dot@) =~= dv.push(Comp::Normal(".git"@)));
    let ghost rv = reads_view(reads@);
    assert(rv.skip(0) =~= rv);
    match &probes[k] {
        DotGit::File(text) => match gitdir_of(text.as_str()) {
            Some(g) => {
                let dir = path_text(&d);
                let admin = normalize(dir.as_str(), g.as_str());
                if reads.len() == 0 {
                    let a = path_text(&admin);
                    return ProjectStep::ReadFile(join_path(a.as_str(), "commondir"));
                }
                assert(rv[0] == reads_view(reads@)[0]);
                assert(rv.skip(1) =~= rv.drop_first());
                match &reads[0] {
                    Some(c) => {
                        let a = path_text(&admin);
                        let cc = chars_of(c.as_str());
                        let ct = trim_chars(cc.as_slice());
                        let cts = string_from(ct.as_slice());
                        let common = normalize(a.as_str(), cts.as_str());
                        finish(&common, reads, 1)
                    },
                    None => finish(&dot, reads, 1),
                }
            },
            None => finish(&dot, reads, 0),
        },
        _ => finish(&dot, reads, 0),
    }
}

} // verus!
