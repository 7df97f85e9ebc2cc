//! Importing notes from a JSON-lines export: which lines become notes. A body already held
//! (by its SHA-256) is skipped, and so is a line whose project, kind and title already name
//! a note, whatever its body: an older export never replaces a newer local note.

use vstd::prelude::*;

use crate::digest::{hex_lower, hex_sha256, sha256_digest};
use crate::memory::Report;
use crate::text::{str_eq, views, Chars};

verus! {

/// One line of an export, read.
pub enum ImportLine {
    /// An empty (or blank) line.
    Blank,
    /// A line that is not a note object.
    Malformed,
    /// A note: its project, kind, title and body.
    Row { project: Option<String>, kind: String, title: String, body: String },
}

/// A note's topic key: project, kind, title.
pub type KeyV = (Option<Chars>, Chars, Chars);

/// An [`ImportLine`] as a value.
pub enum LineV {
    Blank,
    Malformed,
    Row(KeyV, Chars),
}

impl View for ImportLine {
    type V = LineV;

    open spec fn view(&self) -> LineV {
        match self {
            ImportLine::Blank => LineV::Blank,
            ImportLine::Malformed => LineV::Malformed,
            ImportLine::Row { project, kind, title, body } => LineV::Row(
                (
                    match project {
                        Some(p) => Some(p@),
                        None => None,
                    },
                    kind@,
                    title@,
                ),
                body@,
            ),
        }
    }
}

/// The content key of a note body: lower-case hex SHA-256 of its UTF-8 bytes.
pub open spec fn body_key(body: Chars) -> Chars {
    hex_lower(sha256_digest(vstd::utf8::encode_utf8(body)))
}

/// The walk through an export: the body keys and topic keys held so far, what the lines
/// came to (inserted, skipped, malformed), and the indices of the lines to insert.
pub open spec fn plan(lines: Seq<LineV>, seen: Seq<Chars>, keys: Seq<KeyV>) -> (Seq<Chars>, Seq<KeyV>, (nat, nat, nat), Seq<int>)
    decreases lines.len(),
{
    if lines.len() == 0 {
        (seen, keys, (0, 0, 0), Seq::empty())
    } else {
        let (s, k, (ins, skip, bad), rows) = plan(lines.drop_last(), seen, keys);
        let i = lines.len() - 1;
        match lines.last() {
            LineV::Blank => (s, k, (ins, skip, bad), rows),
            LineV::Malformed => (s, k, (ins, skip, bad + 1), rows),
            LineV::Row(key, body) => if s.contains(body_key(body)) {
                (s, k, (ins, skip + 1, bad), rows)
            } else if k.contains(key) {
                (s.push(body_key(body)), k, (ins, skip + 1, bad), rows)
            } else {
                (s.push(body_key(body)), k.push(key), (ins + 1, skip, bad), rows.push(i))
            },
        }
    }
}

/// The views of the lines.
pub open spec fn lines_view(v: Seq<ImportLine>) -> Seq<LineV> {
    Seq::new(v.len(), |i: int| v[i]@)
}

/// A topic key as a value.
pub open spec fn key_view(k: (Option<String>, String, String)) -> KeyV {
    (
        match k.0 {
            Some(p) => Some(p@),
            None => None,
        },
        k.1@,
        k.2@,
    )
}

/// The views of topic keys.
pub open spec fn keys_view(v: Seq<(Option<String>, String, String)>) -> Seq<KeyV> {
    Seq::new(v.len(), |i: int| key_view(v[i]))
}

/// The body keys of held bodies.
pub open spec fn bodies_view(v: Seq<String>) -> Seq<Chars> {
    Seq::new(v.len(), |i: int| body_key(v[i]@))
}

/// What an import would do: the counts a dry run reports, and the lines to insert, in
/// order.
pub struct ImportPlan {
    pub report: Report,
    pub rows: Vec<usize>,
}

/// A topic key, copied.
fn copy_key(k: &(Option<String>, String, String)) -> (r: (Option<String>, String, String))
    ensures
        key_view(r) == key_view(*k),
{
    let p = match &k.0 {
        Some(x) => Some(crate::text::copy_str(x.as_str())),
        None => None,
    };
    (p, crate::text::copy_str(k.1.as_str()), crate::text::copy_str(k.2.as_str()))
}

/// Whether two topic keys are the same.
fn key_eq(a: &(Option<String>, String, String), b: &(Option<String>, String, String)) -> (r: bool)
    ensures
        r == (key_view(*a) == key_view(*b)),
{
    let same_project = match (&a.0, &b.0) {
        (Some(x), Some(y)) => str_eq(x.as_str(), y.as_str()),
        (None, None) => true,
        _ => false,
    };
    same_project && str_eq(a.1.as_str(), b.1.as_str()) && str_eq(a.2.as_str(), b.2.as_str())
}

/// Whether `h` is among `v`.
fn has(v: &Vec<String>, h: &str) -> (r: bool)
    ensures
        r == views(v@).contains(h@),
{
    let mut i: usize = 0;
    while i < v.len()
        invariant
            i <= v@.len(),
            forall|m: int| 0 <= m < i ==> (#[trigger] v@[m])@ != h@,
        decreases v@.len() - i,
    {
        if str_eq(v[i].as_str(), h) {
            assert(views(v@)[i as int] == h@);
            return true;
        }
        i += 1;
    }
    assert(!views(v@).contains(h@)) by {
        if views(v@).contains(h@) {
            let m = choose|m: int| 0 <= m < views(v@).len() && views(v@)[m] == h@;
            assert(v@[m]@ == h@);
        }
    }
    false
}

/// Whether `k` is among `v`.
fn has_key(v: &Vec<(Option<String>, String, String)>, k: &(Option<String>, String, String)) -> (r: bool)
    ensures
        r == keys_view(v@).contains(key_view(*k)),
{
    let mut i: usize = 0;
    while i < v.len()
        invariant
            i <= v@.len(),
            forall|m: int| 0 <= m < i ==> key_view(#[trigger] v@[m]) != key_view(*k),
        decreases v@.len() - i,
    {
        if key_eq(&v[i], k) {
            assert(keys_view(v@)[i as int] == key_view(*k));
            return true;
        }
        i += 1;
    }
    assert(!keys_view(v@).contains(key_view(*k))) by {
        if keys_view(v@).contains(key_view(*k)) {
            let m = choose|m: int| 0 <= m < keys_view(v@).len() && keys_view(v@)[m] == key_view(*k);
            assert(key_view(v@[m]) == key_view(*k));
        }
    }
    false
}

/// [`plan`]: which lines of an export to insert, and the counts, given the store's note
/// bodies and topic keys.
pub fn import_plan(
    lines: &Vec<ImportLine>,
    held_bodies: &Vec<String>,
    held_keys: &Vec<(Option<String>, String, String)>,
) -> (r: ImportPlan)
    requires
        lines@.len() <= u32::MAX,
    ensures
        ({
            let (s, k, (ins, skip, bad), rows) = plan(
                lines_view(lines@),
                bodies_view(held_bodies@),
                keys_view(held_keys@),
            );
            &&& r.report.inserted == ins
            &&& r.report.skipped == skip
            &&& r.report.malformed == bad
            &&& Seq::new(r.rows@.len(), |i: int| r.rows@[i] as int) == rows
        }),
{
    let ghost lv = lines_view(lines@);
    let mut seen: Vec<String> = Vec::new();
    let mut i: usize = 0;
    while i < held_bodies.len()
        invariant
            i <= held_bodies@.len(),
            views(seen@) == bodies_view(held_bodies@).take(i as int),
        decreases held_bodies@.len() - i,
    {
        let h = hex_sha256(held_bodies[i].as_str().as_bytes());
        let ghost before = seen@;
        seen.push(h);
        assert(views(seen@) =~= views(before).push(h@));
        assert(bodies_view(held_bodies@).take(i + 1) =~= bodies_view(held_bodies@).take(i as int).push(h@));
        i += 1;
    }
    assert(bodies_view(held_bodies@).take(held_bodies@.len() as int) =~= bodies_view(held_bodies@));
    let mut keys: Vec<(Option<String>, String, String)> = Vec::new();
    let mut j: usize = 0;
    while j < held_keys.len()
        invariant
            j <= held_keys@.len(),
            keys_view(keys@) == keys_view(held_keys@).take(j as int),
        decreases held_keys@.len() - j,
    {
        let c = copy_key(&held_keys[j]);
        let ghost before = keys@;
        keys.push(c);
        assert(keys_view(keys@) =~= keys_view(before).push(key_view(c)));
        assert(keys_view(held_keys@).take(j + 1) =~= keys_view(held_keys@).take(j as int).push(key_view(c)));
        j += 1;
    }
    assert(keys_view(held_keys@).take(held_keys@.len() as int) =~= keys_view(held_keys@));
    let mut report = Report { inserted: 0, skipped: 0, malformed: 0 };
    let mut rows: Vec<usize> = Vec::new();
    let mut n: usize = 0;
    while n < lines.len()
        invariant
            n <= lines@.len(),
            lines@.len() <= u32::MAX,
            lv == lines_view(lines@),
            ({
                let (s, k, (ins, skip, bad), rs) = plan(
                    lv.take(n as int),
                    bodies_view(held_bodies@),
                    keys_view(held_keys@),
                );
                &&& s == views(seen@)
                &&& k == keys_view(keys@)
                &&& report.inserted == ins
                &&& report.skipped == skip
                &&& report.malformed == bad
                &&& ins + skip + bad <= n
                &&& Seq::new(rows@.len(), |q: int| rows@[q] as int) == rs
            }),
        decreases lines@.len() - n,
    {
        assert(lv.take(n + 1).drop_last() =~= lv.take(n as int));
        assert(lv.take(n + 1).last() == lines@[n as int]@);
        let ghost r0 = rows@;
        match &lines[n] {
            ImportLine::Blank => {},
            ImportLine::Malformed => {
                report.malformed = report.malformed + 1;
            },
            ImportLine::Row { project, kind, title, body } => {
                let h = hex_sha256(body.as_str().as_bytes());
                if has(&seen, h.as_str()) {
                    report.skipped = report.skipped + 1;
                } else {
                    let p = match project {
                        Some(x) => Some(crate::text::copy_str(x.as_str())),
                        None => None,
                    };
                    let key = (p, crate::text::copy_str(kind.as_str()), crate::text::copy_str(title.as_str()));
                    let dup = has_key(&keys, &key);
                    let ghost sb = seen@;
                    seen.push(h);
                    assert(views(seen@) =~= views(sb).push(h@));
                    if dup {
                        report.skipped = report.skipped + 1;
                    } else {
                        let ghost kb = keys@;
                        keys.push(key);
                        assert(keys_view(keys@) =~= keys_view(kb).push(key_view(key)));
                        report.inserted = report.inserted + 1;
                        rows.push(n);
                        assert(Seq::new(rows@.len(), |q: int| rows@[q] as int) =~= Seq::new(
                            r0.len(),
                            |q: int| r0[q] as int,
                        ).push(n as int));
                    }
                }
            },
        }
        n += 1;
    }
    assert(lv.take(lv.len() as int) =~= lv);
    ImportPlan { report, rows }
}


/// A row line's topic key.
pub open spec fn line_key(l: LineV) -> KeyV {
    match l {
        LineV::Row(k, b) => k,
        _ => (None, Seq::empty(), Seq::empty()),
    }
}

/// A row line's body key.
pub open spec fn line_body_key(l: LineV) -> Chars {
    match l {
        LineV::Row(k, b) => body_key(b),
        _ => Seq::empty(),
    }
}

/// An import never overwrites: every line it inserts is a note whose body is not already
/// held and whose project, kind and title name no held note; and the lines it inserts
/// come in order, with bodies and topic keys all different from one another.
pub proof fn law_import_never_overwrites(lines: Seq<LineV>, seen: Seq<Chars>, keys: Seq<KeyV>)
    ensures
        ({
            let (s, k, counts, rows) = plan(lines, seen, keys);
            &&& forall|x: Chars| seen.contains(x) ==> s.contains(x)
            &&& forall|x: KeyV| keys.contains(x) ==> k.contains(x)
            &&& forall|m: int|
                0 <= m < rows.len() ==> {
                    &&& 0 <= #[trigger] rows[m] < lines.len()
                    &&& lines[rows[m]] is Row
                    &&& s.contains(line_body_key(lines[rows[m]]))
                    &&& k.contains(line_key(lines[rows[m]]))
                    &&& !seen.contains(line_body_key(lines[rows[m]]))
                    &&& !keys.contains(line_key(lines[rows[m]]))
                }
            &&& forall|a: int, b: int|
                0 <= a < b < rows.len() ==> {
                    &&& #[trigger] rows[a] < #[trigger] rows[b]
                    &&& line_body_key(lines[rows[a]]) != line_body_key(lines[rows[b]])
                    &&& line_key(lines[rows[a]]) != line_key(lines[rows[b]])
                }
        }),
    decreases lines.len(),
{
    if lines.len() > 0 {
        let p = lines.drop_last();
        law_import_never_overwrites(p, seen, keys);
        let (s, k, counts, rows) = plan(p, seen, keys);
        let i = lines.len() - 1;
        assert forall|m: int| 0 <= m < rows.len() implies lines[#[trigger] rows[m]] == p[rows[m]] by {}
        match lines.last() {
            LineV::Blank => {},
            LineV::Malformed => {},
            LineV::Row(key, body) => {
                if s.contains(body_key(body)) {
                } else if k.contains(key) {
                    let s2 = s.push(body_key(body));
                    assert forall|x: Chars| s.contains(x) implies s2.contains(x) by {
                        let j = choose|j: int| 0 <= j < s.len() && s[j] == x;
                        assert(s2[j] == x);
                    }
                } else {
                    let s2 = s.push(body_key(body));
                    let k2 = k.push(key);
                    let r2 = rows.push(i);
                    assert(s2[s.len() as int] == body_key(body));
                    assert(k2[k.len() as int] == key);
                    assert forall|x: Chars| s.contains(x) implies s2.contains(x) by {
                        let j = choose|j: int| 0 <= j < s.len() && s[j] == x;
                        assert(s2[j] == x);
                    }
                    assert forall|x: KeyV| k.contains(x) implies k2.contains(x) by {
                        let j = choose|j: int| 0 <= j < k.len() && k[j] == x;
                        assert(k2[j] == x);
                    }
                    assert(lines[i] == lines.last());
                    assert forall|m: int| 0 <= m < r2.len() implies {
                        &&& 0 <= #[trigger] r2[m] < lines.len()
                        &&& lines[r2[m]] is Row
                        &&& s2.contains(line_body_key(lines[r2[m]]))
                        &&& k2.contains(line_key(lines[r2[m]]))
                        &&& !seen.contains(line_body_key(lines[r2[m]]))
                        &&& !keys.contains(line_key(lines[r2[m]]))
                    } by {
                        if m < rows.len() {
                            assert(r2[m] == rows[m]);
                            assert(lines[rows[m]] == p[rows[m]]);
                        } else {
                            assert(r2[m] == i);
                            if seen.contains(body_key(body)) {
                                assert(s.contains(body_key(body)));
                            }
                            if keys.contains(key) {
                                assert(k.contains(key));
                            }
                        }
                    }
                    assert forall|a: int, b: int| 0 <= a < b < r2.len() implies {
                        &&& #[trigger] r2[a] < #[trigger] r2[b]
                        &&& line_body_key(lines[r2[a]]) != line_body_key(lines[r2[b]])
                        &&& line_key(lines[r2[a]]) != line_key(lines[r2[b]])
                    } by {
                        assert(r2[a] == rows[a]);
                        assert(lines[rows[a]] == p[rows[a]]);
                        if b < rows.len() {
                            assert(r2[b] == rows[b]);
                            assert(lines[rows[b]] == p[rows[b]]);
                        } else {
                            assert(r2[b] == i);
                            assert(s.contains(line_body_key(p[rows[a]])));
                            assert(k.contains(line_key(p[rows[a]])));
                        }
                    }
                }
            },
        }
    }
}

} // verus!
