//! The `read` plugin: its catalogue entry, the re-read cache key, and the path match the
//! native-Read advice uses to spot a file the agent just edited.

use vstd::prelude::*;

use crate::path::path_ends_with;
use crate::plugin::{declares, DashboardPage, Manifest, Surface};
use crate::text::{chars_of, push_all, str_eq, string_from, trim, trim_chars, Chars};

verus! {

/// Catalogue plugin `read`: outline, map and search instead of whole files.
pub struct Read;

impl Read {
    pub fn manifest(&self) -> (m: Manifest)
        ensures
            declares(m, "read"@, seq![Surface::Mcp, Surface::Hook], true),
    {
        Manifest { id: "read", surfaces: vec![Surface::Mcp, Surface::Hook], default_on: true }
    }

    pub fn dashboard_page(&self) -> (p: DashboardPage)
        ensures
            p.title@ == "Read"@,
            p.summary@ == "Outline, map, and search instead of dumping full files into context."@,
            p.saves_tokens,
    {
        DashboardPage {
            title: "Read",
            summary: "Outline, map, and search instead of dumping full files into context.",
            saves_tokens: true,
        }
    }
}

/// The re-read cache key: path, mode and range (empty without one), tab-separated.
pub open spec fn key_spec(path: Chars, mode: Chars, range: Option<Chars>) -> Chars {
    path + "\t"@ + mode + "\t"@ + match range {
        Some(r) => r,
        None => Seq::empty(),
    }
}

/// [`key_spec`].
pub fn key(path: &str, mode: &str, range: Option<&str>) -> (k: String)
    ensures
        k@ == key_spec(path@, mode@, crate::memory_sync::opt_view(range)),
{
    let mut k = String::new();
    k.append(path);
    k.append("\t");
    k.append(mode);
    k.append("\t");
    match range {
        Some(r) => k.append(r),
        None => {},
    }
    k
}

/// Two path strings name the same file: equal after trimming, or one's components end the
/// other's (`src/main.rs` against `/repo/src/main.rs`); never when either is blank.
pub open spec fn same_path_spec(a: Chars, b: Chars) -> bool {
    let (a, b) = (trim(a), trim(b));
    &&& a.len() > 0
    &&& b.len() > 0
    &&& (a == b || path_ends_with(a, b) || path_ends_with(b, a))
}

/// [`same_path_spec`].
pub fn same_path(a: &str, b: &str) -> (r: bool)
    ensures
        r == same_path_spec(a@, b@),
{
    let ac = chars_of(a);
    let bc = chars_of(b);
    let av = trim_chars(ac.as_slice());
    let bv = trim_chars(bc.as_slice());
    if av.len() == 0 || bv.len() == 0 {
        return false;
    }
    let at = string_from(av.as_slice());
    let bt = string_from(bv.as_slice());
    if str_eq(at.as_str(), bt.as_str()) {
        return true;
    }
    crate::path::ends_with_path(at.as_str(), bt.as_str()) || crate::path::ends_with_path(
        bt.as_str(),
        at.as_str(),
    )
}

/// A range as the key holds it: empty without one.
pub open spec fn range_part(range: Option<Chars>) -> Chars {
    match range {
        Some(r) => r,
        None => Seq::empty(),
    }
}

proof fn lemma_tab_split(a: Chars, x: Chars, b: Chars, y: Chars)
    requires
        !a.contains('\t'),
        !b.contains('\t'),
        a + "\t"@ + x == b + "\t"@ + y,
    ensures
        a == b,
        x == y,
{
    reveal_strlit("\t");
    assert("\t"@ =~= seq!['\t']);
    let l = a + "\t"@ + x;
    let r = b + "\t"@ + y;
    if a.len() < b.len() {
        assert(l[a.len() as int] == '\t');
        assert(r[a.len() as int] == b[a.len() as int]);
        assert(b.contains(b[a.len() as int]));
    } else if b.len() < a.len() {
        assert(r[b.len() as int] == '\t');
        assert(l[b.len() as int] == a[b.len() as int]);
        assert(a.contains(a[b.len() as int]));
    }
    assert(a =~= l.take(a.len() as int));
    assert(b =~= r.take(b.len() as int));
    assert(x =~= l.skip(a.len() as int + 1));
    assert(y =~= r.skip(b.len() as int + 1));
}

/// Keys of tab-free paths and modes are equal exactly when path, mode and range (an
/// absent range as an empty one) are: two different reads never share a cache entry.
pub proof fn law_key_injective(
    p1: Chars,
    m1: Chars,
    r1: Option<Chars>,
    p2: Chars,
    m2: Chars,
    r2: Option<Chars>,
)
    requires
        !p1.contains('\t'),
        !m1.contains('\t'),
        !p2.contains('\t'),
        !m2.contains('\t'),
    ensures
        key_spec(p1, m1, r1) == key_spec(p2, m2, r2) <==> (p1 == p2 && m1 == m2 && range_part(r1)
            == range_part(r2)),
{
    let x1 = m1 + "\t"@ + range_part(r1);
    let x2 = m2 + "\t"@ + range_part(r2);
    assert(key_spec(p1, m1, r1) =~= p1 + "\t"@ + x1);
    assert(key_spec(p2, m2, r2) =~= p2 + "\t"@ + x2);
    if key_spec(p1, m1, r1) == key_spec(p2, m2, r2) {
        lemma_tab_split(p1, x1, p2, x2);
        lemma_tab_split(m1, range_part(r1), m2, range_part(r2));
    }
}

/// A blank path never matches anything.
pub proof fn law_same_path_never_blank(a: Chars, b: Chars)
    requires
        trim(a).len() == 0 || trim(b).len() == 0,
    ensures
        !same_path_spec(a, b),
{
}

/// A path matches itself whenever it is not blank.
pub proof fn law_same_path_reflexive(a: Chars)
    requires
        trim(a).len() > 0,
    ensures
        same_path_spec(a, a),
{
}

/// The match is symmetric.
pub proof fn law_same_path_symmetric(a: Chars, b: Chars)
    ensures
        same_path_spec(a, b) == same_path_spec(b, a),
{
}


// ---------------------------------------------------------------------------------------
// Edits since a read, and re-reads
// ---------------------------------------------------------------------------------------

/// One recent post-tool hook input, as the edit check reads it.
pub enum HookInput {
    /// A row with no body.
    Empty,
    /// A body that is not JSON.
    Unreadable,
    /// A tool call: its tool name, and the file it names (`file_path`, else `path`).
    Call { tool: String, path: Option<String> },
}

/// A [`HookInput`] as a value.
pub enum HookInputV {
    Empty,
    Unreadable,
    Call { tool: Chars, path: Option<Chars> },
}

impl View for HookInput {
    type V = HookInputV;

    open spec fn view(&self) -> HookInputV {
        match self {
            HookInput::Empty => HookInputV::Empty,
            HookInput::Unreadable => HookInputV::Unreadable,
            HookInput::Call { tool, path } => HookInputV::Call {
                tool: tool@,
                path: match path {
                    Some(p) => Some(p@),
                    None => None,
                },
            },
        }
    }
}

/// Whether a call edits `target`: an `Edit` or a `Write` of the same file.
pub open spec fn edits_path_spec(tool: Chars, path: Option<Chars>, target: Chars) -> bool {
    (tool == "Edit"@ || tool == "Write"@) && same_path_spec(
        match path {
            Some(p) => p,
            None => Seq::empty(),
        },
        target,
    )
}

/// Whether `target` may have changed since it was read, by the recent hook inputs: an
/// empty row could be anything, so it counts; an unreadable one does not; a call counts
/// when it edits `target`.
pub open spec fn recently_edited_spec(inputs: Seq<HookInputV>, target: Chars) -> bool {
    exists|i: int|
        0 <= i < inputs.len() && match #[trigger] inputs[i] {
            HookInputV::Empty => true,
            HookInputV::Unreadable => false,
            HookInputV::Call { tool, path } => edits_path_spec(tool, path, target),
        }
}

/// [`edits_path_spec`].
pub fn edits_path(tool: &str, path: Option<&str>, target: &str) -> (r: bool)
    ensures
        r == edits_path_spec(
            tool@,
            match path {
                Some(p) => Some(p@),
                None => None,
            },
            target@,
        ),
{
    if !(str_eq(tool, "Edit") || str_eq(tool, "Write")) {
        return false;
    }
    match path {
        Some(p) => same_path(p, target),
        None => {
            assert(""@ =~= Seq::<char>::empty()) by {
                reveal_strlit("");
            }
            same_path("", target)
        },
    }
}

/// [`recently_edited_spec`].
pub fn recently_edited(inputs: &Vec<HookInput>, target: &str) -> (r: bool)
    ensures
        r == recently_edited_spec(Seq::new(inputs@.len(), |i: int| inputs@[i]@), target@),
{
    let ghost iv = Seq::new(inputs@.len(), |i: int| inputs@[i]@);
    let mut i: usize = 0;
    while i < inputs.len()
        invariant
            i <= inputs@.len(),
            iv == Seq::new(inputs@.len(), |m: int| inputs@[m]@),
            forall|m: int|
                0 <= m < i ==> !match #[trigger] iv[m] {
                    HookInputV::Empty => true,
                    HookInputV::Unreadable => false,
                    HookInputV::Call { tool, path } => edits_path_spec(tool, path, target@),
                },
        decreases inputs@.len() - i,
    {
        let hit = match &inputs[i] {
            HookInput::Empty => true,
            HookInput::Unreadable => false,
            HookInput::Call { tool, path } => {
                let p = match path {
                    Some(x) => Some(x.as_str()),
                    None => None,
                };
                edits_path(tool.as_str(), p, target)
            },
        };
        if hit {
            assert(iv[i as int] == inputs@[i as int]@);
            return true;
        }
        i += 1;
    }
    false
}

/// The line an unchanged re-read gets: the archive id it repeats and the line count; an
/// id too long for an 80-byte line is cut to its first eight characters.
pub open spec fn dedup_spec(id: Chars, lines: nat) -> Chars {
    let full = "unchanged since "@ + id + " ("@ + crate::text::dec_nat(lines) + " lines)"@;
    if crate::graph::byte_len(full) < 80 {
        full
    } else {
        "unchanged since "@ + id.take(if id.len() < 8 {
            id.len() as int
        } else {
            8
        }) + " ("@ + crate::text::dec_nat(lines) + " lines)"@
    }
}

/// [`dedup_spec`].
pub fn dedup_line(id: &str, lines: u64) -> (r: String)
    ensures
        r@ == dedup_spec(id@, lines as nat),
{
    let mut full = "unchanged since ".to_owned();
    full.append(id);
    full.append(" (");
    crate::text::push_u64(&mut full, lines);
    full.append(" lines)");
    if full.as_str().len() < 80 {
        return full;
    }
    let c = chars_of(id);
    let n = if c.len() < 8 {
        c.len()
    } else {
        8
    };
    let mut s = "unchanged since ".to_owned();
    crate::text::push_range(&mut s, c.as_slice(), 0, n);
    assert(c@.subrange(0, n as int) =~= id@.take(n as int));
    s.append(" (");
    crate::text::push_u64(&mut s, lines);
    s.append(" lines)");
    s
}

/// A file the agent just wrote or edited is read afresh: a recent `Write` or `Edit` call
/// naming the same file as the target (by [`same_path_spec`]) means the target may have
/// changed.
pub proof fn law_write_or_edit_means_changed(inputs: Seq<HookInputV>, target: Chars, i: int, tool: Chars, p: Chars)
    requires
        0 <= i < inputs.len(),
        inputs[i] == (HookInputV::Call { tool, path: Some(p) }),
        tool == "Write"@ || tool == "Edit"@,
        same_path_spec(p, target),
    ensures
        recently_edited_spec(inputs, target),
{
    assert(match inputs[i] {
        HookInputV::Empty => true,
        HookInputV::Unreadable => false,
        HookInputV::Call { tool, path } => edits_path_spec(tool, path, target),
    });
}

} // verus!
