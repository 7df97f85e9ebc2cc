//! Unix paths taken apart the way `std::path::Path::components` does: a leading root, a
//! leading `.` only at the very start of a relative path, `..` kept, and empty or `.`
//! segments elsewhere dropped. Suffix tests, file names and extensions are read off the
//! component list.

use vstd::prelude::*;

use crate::text::{chars_of, chars_eq, join, split_char, split_vec, string_from, take_chars, views, Chars};

verus! {

/// One path component, as a value.
pub enum Comp {
    Root,
    Cur,
    Parent,
    Normal(Chars),
}

/// One path component.
pub enum Component {
    RootDir,
    CurDir,
    ParentDir,
    Normal(Vec<char>),
}

impl View for Component {
    type V = Comp;

    open spec fn view(&self) -> Comp {
        match self {
            Component::RootDir => Comp::Root,
            Component::CurDir => Comp::Cur,
            Component::ParentDir => Comp::Parent,
            Component::Normal(v) => Comp::Normal(v@),
        }
    }
}

/// The views of a list of components.
pub open spec fn comp_views(v: Seq<Component>) -> Seq<Comp> {
    Seq::new(v.len(), |i: int| v[i]@)
}

/// The component a non-empty, non-`.` segment stands for.
pub open spec fn seg_comp(seg: Chars) -> Comp {
    if seg == ".."@ {
        Comp::Parent
    } else {
        Comp::Normal(seg)
    }
}

/// The components of `/`-separated segments, empty and `.` ones dropped.
pub open spec fn segs_comps(segs: Seq<Chars>) -> Seq<Comp>
    decreases segs.len(),
{
    if segs.len() == 0 {
        Seq::empty()
    } else {
        let rest = segs_comps(segs.drop_last());
        let last = segs.last();
        if last.len() == 0 || last == "."@ {
            rest
        } else {
            rest.push(seg_comp(last))
        }
    }
}

/// What stands before the segments: the root of an absolute path, or the `.` a relative
/// path starts with.
pub open spec fn lead(p: Chars) -> Seq<Comp> {
    if p.len() > 0 && p[0] == '/' {
        seq![Comp::Root]
    } else if p == "."@ || (p.len() >= 2 && p[0] == '.' && p[1] == '/') {
        seq![Comp::Cur]
    } else {
        Seq::empty()
    }
}

/// `Path::components`.
pub open spec fn components(p: Chars) -> Seq<Comp> {
    lead(p) + segs_comps(split_char(p, '/'))
}

/// `b` is a suffix of `a`.
pub open spec fn comps_end_with(a: Seq<Comp>, b: Seq<Comp>) -> bool {
    b.len() <= a.len() && a.skip(a.len() - b.len()) == b
}

/// `Path::ends_with`: the components of `child` end those of `p`.
pub open spec fn path_ends_with(p: Chars, child: Chars) -> bool {
    comps_end_with(components(p), components(child))
}

/// `Path::file_name`: the last component when it is a normal one.
pub open spec fn file_name(p: Chars) -> Option<Chars> {
    let c = components(p);
    if c.len() > 0 && c.last() is Normal {
        Some(c.last()->Normal_0)
    } else {
        None
    }
}

/// The index of the last `.` in `s`, if any.
pub open spec fn last_dot(s: Chars) -> Option<int>
    decreases s.len(),
{
    if s.len() == 0 {
        None
    } else if s.last() == '.' {
        Some(s.len() - 1)
    } else {
        last_dot(s.drop_last())
    }
}

/// `Path::extension`: what follows the last `.` of the file name, unless that dot starts
/// the name.
pub open spec fn extension(p: Chars) -> Option<Chars> {
    match file_name(p) {
        None => None,
        Some(n) => match last_dot(n) {
            Some(i) => if i > 0 {
                Some(n.skip(i + 1))
            } else {
                None
            },
            None => None,
        },
    }
}

/// One segment's component.
fn seg_component(seg: &[char]) -> (c: Component)
    requires
        seg@.len() > 0,
        seg@ != "."@,
    ensures
        c@ == seg_comp(seg@),
{
    if crate::text::eq_lit(seg, "..") {
        Component::ParentDir
    } else {
        let mut v: Vec<char> = Vec::new();
        let mut i: usize = 0;
        while i < seg.len()
            invariant
                i <= seg@.len(),
                v@ == seg@.take(i as int),
            decreases seg@.len() - i,
        {
            v.push(seg[i]);
            assert(seg@.take(i + 1) == seg@.take(i as int).push(seg@[i as int]));
            i += 1;
        }
        assert(seg@.take(seg@.len() as int) == seg@);
        Component::Normal(v)
    }
}

/// [`components`].
pub fn path_components(p: &str) -> (r: Vec<Component>)
    ensures
        comp_views(r@) == components(p@),
{
    let c = chars_of(p);
    let mut out: Vec<Component> = Vec::new();
    proof {
        reveal_strlit(".");
    }
    if c.len() > 0 && c[0] == '/' {
        out.push(Component::RootDir);
    } else if crate::text::eq_lit(c.as_slice(), ".") || (c.len() >= 2 && c[0] == '.' && c[1]
        == '/') {
        out.push(Component::CurDir);
    }
    assert(comp_views(out@) =~= lead(p@));
    let segs = split_vec(p, '/');
    let ghost sv = views(segs@);
    let ghost head = lead(p@);
    let mut i: usize = 0;
    while i < segs.len()
        invariant
            sv == views(segs@),
            sv == split_char(p@, '/'),
            i <= segs@.len(),
            comp_views(out@) == head + segs_comps(sv.take(i as int)),
        decreases segs@.len() - i,
    {
        let seg = chars_of(segs[i].as_str());
        assert(sv[i as int] == seg@);
        assert(sv.take(i + 1).drop_last() == sv.take(i as int));
        if seg.len() > 0 && !crate::text::eq_lit(seg.as_slice(), ".") {
            let comp = seg_component(seg.as_slice());
            let ghost before = out@;
            out.push(comp);
            assert(comp_views(out@) =~= comp_views(before).push(comp@));
        }
        i += 1;
    }
    assert(sv.take(sv.len() as int) == sv);
    out
}

/// Two components are the same.
fn comp_eq(a: &Component, b: &Component) -> (r: bool)
    ensures
        r == (a@ == b@),
{
    match (a, b) {
        (Component::RootDir, Component::RootDir) => true,
        (Component::CurDir, Component::CurDir) => true,
        (Component::ParentDir, Component::ParentDir) => true,
        (Component::Normal(x), Component::Normal(y)) => chars_eq(x.as_slice(), y.as_slice()),
        _ => false,
    }
}

/// [`comps_end_with`] on component lists.
fn comps_suffix(a: &Vec<Component>, b: &Vec<Component>) -> (r: bool)
    ensures
        r == comps_end_with(comp_views(a@), comp_views(b@)),
{
    if b.len() > a.len() {
        return false;
    }
    let off = a.len() - b.len();
    let ghost av = comp_views(a@);
    let ghost bv = comp_views(b@);
    let mut i: usize = 0;
    while i < b.len()
        invariant
            off == a@.len() - b@.len(),
            b@.len() <= a@.len(),
            a@.len() <= usize::MAX,
            av == comp_views(a@),
            bv == comp_views(b@),
            i <= b@.len(),
            forall|k: int| 0 <= k < i ==> av[off + k] == bv[k],
        decreases b@.len() - i,
    {
        if !comp_eq(&a[off + i], &b[i]) {
            assert(av.skip(off as int)[i as int] != bv[i as int]);
            return false;
        }
        i += 1;
    }
    assert(av.skip(off as int) =~= bv);
    true
}

/// `Path::new(p).ends_with(child)`.
pub fn ends_with_path(p: &str, child: &str) -> (r: bool)
    ensures
        r == path_ends_with(p@, child@),
{
    let a = path_components(p);
    let b = path_components(child);
    comps_suffix(&a, &b)
}

/// `Path::new(p).file_name()`.
pub fn file_name_of(p: &str) -> (r: Option<String>)
    ensures
        match r {
            Some(n) => file_name(p@) == Some(n@),
            None => file_name(p@) is None,
        },
{
    let c = path_components(p);
    let n = c.len();
    if n == 0 {
        return None;
    }
    assert(comp_views(c@).last() == c@[n - 1]@);
    match &c[n - 1] {
        Component::Normal(v) => Some(string_from(v.as_slice())),
        _ => None,
    }
}

/// `Path::new(p).extension()`.
pub fn extension_of(p: &str) -> (r: Option<String>)
    ensures
        match r {
            Some(e) => extension(p@) == Some(e@),
            None => extension(p@) is None,
        },
{
    let name = match file_name_of(p) {
        Some(n) => n,
        None => return None,
    };
    let v = chars_of(name.as_str());
    let mut j = v.len();
    assert(v@.take(v@.len() as int) == v@);
    while j > 0 && v[j - 1] != '.'
        invariant
            j <= v@.len(),
            last_dot(v@) == last_dot(v@.take(j as int)),
        decreases j,
    {
        assert(v@.take(j as int).drop_last() == v@.take(j - 1));
        j -= 1;
    }
    assert(v@.take(v@.len() as int) == v@);
    if j == 0 {
        assert(last_dot(v@.take(0)) is None);
        return None;
    }
    assert(v@.take(j as int).last() == '.');
    let i = j - 1;
    if i == 0 {
        return None;
    }
    let mut e: Vec<char> = Vec::new();
    let mut k = j;
    while k < v.len()
        invariant
            j <= k <= v@.len(),
            e@ == v@.subrange(j as int, k as int),
        decreases v@.len() - k,
    {
        e.push(v[k]);
        k += 1;
    }
    Some(string_from(e.as_slice()))
}


/// One step of lexical resolution onto `out`, as `PathBuf::push` and `PathBuf::pop` do it:
/// a root starts over, `.` is nothing, `..` drops the last component unless only the root
/// is left, a name is appended.
pub open spec fn norm_step(out: Seq<Comp>, c: Comp) -> Seq<Comp> {
    match c {
        Comp::Root => seq![Comp::Root],
        Comp::Cur => out,
        Comp::Parent => if out.len() > 0 && out.last() != Comp::Root {
            out.drop_last()
        } else {
            out
        },
        Comp::Normal(_) => out.push(c),
    }
}

/// [`norm_step`] over every component of `cs`, in order.
pub open spec fn norm_fold(out: Seq<Comp>, cs: Seq<Comp>) -> Seq<Comp>
    decreases cs.len(),
{
    if cs.len() == 0 {
        out
    } else {
        norm_step(norm_fold(out, cs.drop_last()), cs.last())
    }
}

/// `path` resolved lexically against `root`: an absolute `path` starts from nothing, a
/// relative one from `root`; no file system is consulted.
pub open spec fn normalize_spec(root: Chars, path: Chars) -> Seq<Comp> {
    let start = if path.len() > 0 && path[0] == '/' {
        Seq::empty()
    } else {
        components(root)
    };
    norm_fold(start, components(path))
}

/// A component with its own copy of the name.
pub(crate) fn copy_component(c: &Component) -> (r: Component)
    ensures
        r@ == c@,
{
    match c {
        Component::RootDir => Component::RootDir,
        Component::CurDir => Component::CurDir,
        Component::ParentDir => Component::ParentDir,
        Component::Normal(v) => {
            let w = take_chars(v.as_slice(), v.len());
            assert(v@.take(v@.len() as int) == v@);
            Component::Normal(w)
        },
    }
}

/// [`normalize_spec`]: `path` resolved lexically against `root`.
pub fn normalize(root: &str, path: &str) -> (r: Vec<Component>)
    ensures
        comp_views(r@) == normalize_spec(root@, path@),
{
    let pc = path_components(path);
    let p = chars_of(path);
    let absolute = p.len() > 0 && p[0] == '/';
    let mut out: Vec<Component> = if absolute {
        Vec::new()
    } else {
        path_components(root)
    };
    let ghost start = comp_views(out@);
    let ghost cs = comp_views(pc@);
    assert(start == if path@.len() > 0 && path@[0] == '/' {
        Seq::<Comp>::empty()
    } else {
        components(root@)
    }) by {
        if absolute {
            assert(comp_views(out@) =~= Seq::<Comp>::empty());
        }
    }
    let mut i: usize = 0;
    while i < pc.len()
        invariant
            cs == comp_views(pc@),
            cs == components(path@),
            i <= pc@.len(),
            comp_views(out@) == norm_fold(start, cs.take(i as int)),
        decreases pc@.len() - i,
    {
        assert(cs.take(i + 1).drop_last() == cs.take(i as int));
        assert(cs.take(i + 1).last() == pc@[i as int]@);
        let ghost before = comp_views(out@);
        match &pc[i] {
            Component::RootDir => {
                out = Vec::new();
                out.push(Component::RootDir);
                assert(comp_views(out@) =~= seq![Comp::Root]);
            },
            Component::CurDir => {},
            Component::ParentDir => {
                let n = out.len();
                if n > 0 {
                    let last_root = match &out[n - 1] {
                        Component::RootDir => true,
                        _ => false,
                    };
                    if !last_root {
                        out.pop();
                        assert(comp_views(out@) =~= before.drop_last());
                    }
                }
            },
            Component::Normal(_) => {
                let c = copy_component(&pc[i]);
                out.push(c);
                assert(comp_views(out@) =~= before.push(pc@[i as int]@));
            },
        }
        i += 1;
    }
    assert(cs.take(cs.len() as int) == cs);
    out
}


/// How one non-root component is written.
pub open spec fn comp_text(c: Comp) -> Chars {
    match c {
        Comp::Root => Seq::empty(),
        Comp::Cur => "."@,
        Comp::Parent => ".."@,
        Comp::Normal(s) => s,
    }
}

/// Components written back as a path: a leading root as `/`, the rest joined by `/`.
pub open spec fn comps_text(cs: Seq<Comp>) -> Chars {
    if cs.len() > 0 && cs[0] is Root {
        "/"@ + join(Seq::new((cs.len() - 1) as nat, |i: int| comp_text(cs[i + 1])), "/"@)
    } else {
        join(Seq::new(cs.len(), |i: int| comp_text(cs[i])), "/"@)
    }
}

/// `PathBuf::join` of a relative name onto a directory's text.
pub open spec fn join_name(dir: Chars, name: Chars) -> Chars {
    if dir.len() == 0 {
        name
    } else if dir.last() == '/' {
        dir + name
    } else {
        dir + "/"@ + name
    }
}

/// How many times `PathBuf::pop` succeeds on a path with these components: every
/// component but a leading root goes.
pub open spec fn pops(cs: Seq<Comp>) -> nat {
    if cs.len() > 0 && cs[0] is Root {
        (cs.len() - 1) as nat
    } else {
        cs.len()
    }
}

/// The `k`-th directory up (after `k` pops).
pub open spec fn ancestor(cs: Seq<Comp>, k: int) -> Seq<Comp> {
    cs.take(cs.len() - k)
}

/// `Path::file_name` of components: the last one when it is a name.
pub open spec fn comps_file_name(cs: Seq<Comp>) -> Option<Chars> {
    if cs.len() > 0 && cs.last() is Normal {
        Some(cs.last()->Normal_0)
    } else {
        None
    }
}

/// One component's text.
fn comp_string(c: &Component) -> (s: String)
    ensures
        s@ == comp_text(c@),
{
    match c {
        Component::RootDir => String::new(),
        Component::CurDir => ".".to_owned(),
        Component::ParentDir => "..".to_owned(),
        Component::Normal(v) => string_from(v.as_slice()),
    }
}

/// [`comps_text`]: components written back as a path.
pub fn path_text(cs: &Vec<Component>) -> (s: String)
    ensures
        s@ == comps_text(comp_views(cs@)),
{
    let ghost cv = comp_views(cs@);
    let rooted = cs.len() > 0 && match &cs[0] {
        Component::RootDir => true,
        _ => false,
    };
    let start: usize = if rooted {
        1
    } else {
        0
    };
    let ghost want = Seq::new((cv.len() - start) as nat, |i: int| comp_text(cv[i + start]));
    let mut names: Vec<String> = Vec::new();
    let mut i = start;
    while i < cs.len()
        invariant
            start <= i <= cs@.len(),
            start <= cs@.len(),
            cv == comp_views(cs@),
            want == Seq::new((cv.len() - start) as nat, |m: int| comp_text(cv[m + start])),
            views(names@) == want.take(i - start),
        decreases cs@.len() - i,
    {
        let n = comp_string(&cs[i]);
        let ghost before = names@;
        names.push(n);
        assert(views(names@) =~= views(before).push(n@));
        assert(want.take(i + 1 - start) =~= want.take(i - start).push(want[i - start]));
        i += 1;
    }
    assert(want.take(cv.len() - start) =~= want);
    let joined = crate::text::join_strings(names.as_slice(), "/");
    if rooted {
        let mut s = "/".to_owned();
        s.append(joined.as_str());
        assert(want =~= Seq::new((cv.len() - 1) as nat, |m: int| comp_text(cv[m + 1])));
        s
    } else {
        assert(want =~= Seq::new(cv.len(), |m: int| comp_text(cv[m])));
        joined
    }
}

/// [`join_name`].
pub fn join_path(dir: &str, name: &str) -> (s: String)
    ensures
        s@ == join_name(dir@, name@),
{
    let d = chars_of(dir);
    let mut s = crate::text::copy_str(dir);
    if d.len() > 0 && d[d.len() - 1] != '/' {
        s.append("/");
    }
    s.append(name);
    s
}


/// A character in ASCII lower case.
pub open spec fn lower_ascii(c: char) -> char {
    if 'A' <= c && c <= 'Z' {
        ((c as u8) + 32) as char
    } else {
        c
    }
}

/// Two texts equal but for ASCII case (`eq_ignore_ascii_case`).
pub open spec fn eq_ignore_case(a: Chars, b: Chars) -> bool {
    a.len() == b.len() && forall|i: int| 0 <= i < a.len() ==> lower_ascii(a[i]) == lower_ascii(b[i])
}

/// Two components equal, names compared without ASCII case.
pub open spec fn comp_eq_ignore_case(a: Comp, b: Comp) -> bool {
    match (a, b) {
        (Comp::Normal(x), Comp::Normal(y)) => eq_ignore_case(x, y),
        _ => a == b,
    }
}

/// `root`'s components begin `path`'s, names compared without ASCII case; an empty root
/// is under nothing.
pub open spec fn under_ci_spec(path: Chars, root: Chars) -> bool {
    let p = components(path);
    let r = components(root);
    r.len() > 0 && r.len() <= p.len() && forall|i: int| 0 <= i < r.len() ==> comp_eq_ignore_case(
        #[trigger] p[i],
        r[i],
    )
}

/// `Path::starts_with`: `root`'s components begin `path`'s.
pub open spec fn starts_with_path(path: Chars, root: Chars) -> bool {
    let p = components(path);
    let r = components(root);
    r.len() <= p.len() && p.take(r.len() as int) == r
}

/// Whether `path` lies under the allowed `root`: an empty root grants nothing; otherwise
/// `root`'s components begin `path`'s, and where file names ignore case (`ignore_case`,
/// the Windows rule) they may differ in ASCII case.
pub open spec fn under_spec(path: Chars, root: Chars, ignore_case: bool) -> bool {
    root.len() > 0 && (starts_with_path(path, root) || (ignore_case && under_ci_spec(path, root)))
}

/// [`lower_ascii`].
fn lower(c: char) -> (r: char)
    ensures
        r == lower_ascii(c),
{
    if 'A' <= c && c <= 'Z' {
        ((c as u8) + 32) as char
    } else {
        c
    }
}

/// [`comp_eq_ignore_case`].
#[verifier::loop_isolation(false)]
fn comp_eq_ci(a: &Component, b: &Component) -> (r: bool)
    ensures
        r == comp_eq_ignore_case(a@, b@),
{
    match (a, b) {
        (Component::Normal(x), Component::Normal(y)) => {
            if x.len() != y.len() {
                return false;
            }
            let mut i: usize = 0;
            while i < x.len()
                invariant
                    i <= x@.len(),
                    x@.len() == y@.len(),
                    forall|m: int| 0 <= m < i ==> lower_ascii(x@[m]) == lower_ascii(y@[m]),
                decreases x@.len() - i,
            {
                if lower(x[i]) != lower(y[i]) {
                    return false;
                }
                i += 1;
            }
            true
        },
        _ => comp_eq(a, b),
    }
}

/// [`under_ci_spec`].
#[verifier::loop_isolation(false)]
pub fn under_ascii_case_insensitive(path: &str, root: &str) -> (r: bool)
    ensures
        r == under_ci_spec(path@, root@),
{
    let p = path_components(path);
    let rc = path_components(root);
    let ghost pv = comp_views(p@);
    let ghost rv = comp_views(rc@);
    if rc.len() == 0 || rc.len() > p.len() {
        return false;
    }
    let mut i: usize = 0;
    while i < rc.len()
        invariant
            i <= rc@.len(),
            rc@.len() <= p@.len(),
            pv == comp_views(p@),
            rv == comp_views(rc@),
            forall|m: int| 0 <= m < i ==> comp_eq_ignore_case(#[trigger] pv[m], rv[m]),
        decreases rc@.len() - i,
    {
        if !comp_eq_ci(&p[i], &rc[i]) {
            assert(!comp_eq_ignore_case(pv[i as int], rv[i as int]));
            return false;
        }
        i += 1;
    }
    true
}

/// Whether the components `r` begin the components `p`.
#[verifier::loop_isolation(false)]
pub(crate) fn comps_prefix(p: &Vec<Component>, r: &Vec<Component>) -> (b: bool)
    ensures
        b == (r@.len() <= p@.len() && comp_views(p@).take(r@.len() as int) == comp_views(r@)),
{
    let ghost pv = comp_views(p@);
    let ghost rv = comp_views(r@);
    if r.len() > p.len() {
        return false;
    }
    let mut i: usize = 0;
    while i < r.len()
        invariant
            i <= r@.len(),
            forall|m: int| 0 <= m < i ==> pv[m] == rv[m],
        decreases r@.len() - i,
    {
        if !comp_eq(&p[i], &r[i]) {
            assert(pv.take(rv.len() as int)[i as int] != rv[i as int]);
            return false;
        }
        i += 1;
    }
    assert(pv.take(rv.len() as int) =~= rv);
    true
}

/// [`under_spec`].
pub fn under(path: &str, root: &str, ignore_case: bool) -> (r: bool)
    ensures
        r == under_spec(path@, root@, ignore_case),
{
    let c = chars_of(root);
    if c.len() == 0 {
        return false;
    }
    let p = path_components(path);
    let rc = path_components(root);
    if comps_prefix(&p, &rc) {
        return true;
    }
    ignore_case && under_ascii_case_insensitive(path, root)
}

} // verus!
