//! The code graph's rows for one file: every tags hit, and for each reference the
//! innermost definition around it, so that a call reads as made from that definition.

use vstd::prelude::*;

use crate::outline::TagHit;
use crate::text::Chars;

verus! {

/// One row of the graph index: name, kind, line, whether it defines, last line, and the
/// definition a reference is made from (empty for a definition, or at file level).
pub struct IndexRow {
    pub name: String,
    pub kind: String,
    pub line: i32,
    pub is_def: bool,
    pub end_line: i32,
    pub scope: String,
}

/// [`IndexRow`] as a value.
pub struct IndexRowV {
    pub name: Chars,
    pub kind: Chars,
    pub line: i32,
    pub is_def: bool,
    pub end_line: i32,
    pub scope: Chars,
}

impl View for IndexRow {
    type V = IndexRowV;

    open spec fn view(&self) -> IndexRowV {
        IndexRowV {
            name: self.name@,
            kind: self.kind@,
            line: self.line,
            is_def: self.is_def,
            end_line: self.end_line,
            scope: self.scope@,
        }
    }
}

/// Where a definition ends: its last line, never before its first.
pub open spec fn def_end(h: TagHit) -> int {
    if h.end_line >= h.line {
        h.end_line as int
    } else {
        h.line as int
    }
}

/// The definition among the first `k` hits that spans `line` with the fewest lines (the
/// first such on a tie), as its span and name.
pub open spec fn innermost(hits: Seq<TagHit>, line: int, k: int) -> Option<(int, Chars)>
    decreases k,
{
    if k <= 0 {
        None
    } else {
        let best = innermost(hits, line, k - 1);
        let h = hits[k - 1];
        if h.is_def && h.line <= line && line <= def_end(h) {
            let span = def_end(h) - h.line;
            match best {
                Some(b) => if b.0 <= span {
                    best
                } else {
                    Some((span, h.name@))
                },
                None => Some((span, h.name@)),
            }
        } else {
            best
        }
    }
}

/// The scope of a hit: empty for a definition; for a reference, the innermost definition
/// around its line, or empty at file level.
pub open spec fn scope_spec(hits: Seq<TagHit>, h: TagHit) -> Chars {
    if h.is_def {
        Seq::empty()
    } else {
        match innermost(hits, h.line as int, hits.len() as int) {
            Some(b) => b.1,
            None => Seq::empty(),
        }
    }
}

/// The row of hit `h` among `hits`.
pub open spec fn row_spec(hits: Seq<TagHit>, h: TagHit) -> IndexRowV {
    IndexRowV {
        name: h.name@,
        kind: h.kind@,
        line: h.line as i32,
        is_def: h.is_def,
        end_line: h.end_line as i32,
        scope: scope_spec(hits, h),
    }
}

/// The scope of the reference at `line` ([`innermost`] over all hits).
fn scope_of(hits: &[TagHit], line: usize) -> (r: String)
    ensures
        r@ == match innermost(hits@, line as int, hits@.len() as int) {
            Some(b) => b.1,
            None => Seq::empty(),
        },
{
    let mut best_span: usize = 0;
    let mut best: Option<&String> = None;
    let mut k: usize = 0;
    while k < hits.len()
        invariant
            k <= hits@.len(),
            match innermost(hits@, line as int, k as int) {
                Some(b) => best matches Some(n) && n@ == b.1 && b.0 == best_span,
                None => best is None,
            },
        decreases hits@.len() - k,
    {
        let h = &hits[k];
        let end = if h.end_line >= h.line {
            h.end_line
        } else {
            h.line
        };
        if h.is_def && h.line <= line && line <= end {
            let span = end - h.line;
            let replace = match best {
                Some(_) => span < best_span,
                None => true,
            };
            if replace {
                best = Some(&h.name);
                best_span = span;
            }
        }
        k += 1;
    }
    match best {
        Some(n) => crate::text::copy_str(n.as_str()),
        None => String::new(),
    }
}

/// The rows of one file's hits, in order, each reference tagged with its scope.
pub fn scoped(hits: &[TagHit]) -> (r: Vec<IndexRow>)
    ensures
        r@.len() == hits@.len(),
        forall|i: int| 0 <= i < hits@.len() ==> (#[trigger] r@[i])@ == row_spec(hits@, hits@[i]),
{
    let mut out: Vec<IndexRow> = Vec::new();
    let mut i: usize = 0;
    while i < hits.len()
        invariant
            i <= hits@.len(),
            out@.len() == i,
            forall|m: int| 0 <= m < i ==> (#[trigger] out@[m])@ == row_spec(hits@, hits@[m]),
        decreases hits@.len() - i,
    {
        let h = &hits[i];
        let scope = if h.is_def {
            String::new()
        } else {
            scope_of(hits, h.line)
        };
        out.push(IndexRow {
            name: crate::text::copy_str(h.name.as_str()),
            kind: crate::text::copy_str(h.kind.as_str()),
            line: h.line as i32,
            is_def: h.is_def,
            end_line: h.end_line as i32,
            scope,
        });
        i += 1;
    }
    out
}

/// What one indexing run did: files indexed, rows written, files skipped (unchanged),
/// and files whose bytes were read.
pub struct Report {
    pub indexed: u32,
    pub inserted: usize,
    pub skipped: u32,
    pub read: u32,
}

impl Report {
    /// A run that has done nothing yet.
    pub fn new() -> (r: Report)
        ensures
            r.indexed == 0 && r.inserted == 0 && r.skipped == 0 && r.read == 0,
    {
        Report { indexed: 0, inserted: 0, skipped: 0, read: 0 }
    }
}

/// What reading and parsing one file that the stat gate let through gave: it could not
/// be read; it was read but the grammar failed; its bytes match the stored hash; or it
/// gave this many rows.
pub enum ParsedKind {
    Unreadable,
    Unparsed,
    Same,
    Rows(usize),
}

/// The store write a parsed file asks for: none; move its freshness key (its bytes did
/// not change); or replace its rows.
pub enum IndexAction {
    Nothing,
    Touch,
    Replace,
}

/// The stat gate: a file is skipped unopened when the store knows it with the same
/// modification time and size (git's rule for "unchanged"), unless that stat is `(0, 0)`,
/// which is what an unreadable stat reads as.
pub fn stat_skip(known: Option<(i64, i64)>, stat: (i64, i64)) -> (r: bool)
    ensures
        r == (known == Some(stat) && !(stat.0 == 0 && stat.1 == 0)),
{
    match known {
        Some(k) => k.0 == stat.0 && k.1 == stat.1 && !(stat.0 == 0 && stat.1 == 0),
        None => false,
    }
}

/// Whether the rows of a root were made by another extractor than the current one: the
/// stored fingerprint is missing or differs. A stale root is indexed cold.
pub fn fingerprint_stale(stored: Option<&str>, current: &str) -> (r: bool)
    ensures
        r == !(stored matches Some(s) && s@ == current@),
{
    match stored {
        Some(s) => !crate::text::str_eq(s, current),
        None => true,
    }
}

/// The report after one more file was skipped by the stat gate.
pub fn skip_step(report: Report) -> (r: Report)
    requires
        report.skipped < u32::MAX,
    ensures
        r == (Report { skipped: (report.skipped + 1) as u32, ..report }),
{
    Report { skipped: report.skipped + 1, ..report }
}

/// The report after one parsed file, and the store write it asks for. A file that could
/// not be read changes nothing. Any other was read. One whose bytes match the stored hash
/// counts as skipped and has its freshness key moved (outside a dry run). One that gave
/// rows counts as indexed: a dry run counts its rows as inserted and writes nothing, a
/// real run replaces its rows (the count the store reports is added by [`add_inserted`]).
pub fn index_step(report: Report, outcome: ParsedKind, dry_run: bool) -> (r: (Report, IndexAction))
    requires
        report.read < u32::MAX,
        report.skipped < u32::MAX,
        report.indexed < u32::MAX,
        outcome matches ParsedKind::Rows(n) ==> report.inserted + n <= usize::MAX,
    ensures
        r == match outcome {
            ParsedKind::Unreadable => (report, IndexAction::Nothing),
            ParsedKind::Unparsed => (Report { read: (report.read + 1) as u32, ..report }, IndexAction::Nothing),
            ParsedKind::Same => (
                Report {
                    read: (report.read + 1) as u32,
                    skipped: (report.skipped + 1) as u32,
                    ..report
                },
                if dry_run {
                    IndexAction::Nothing
                } else {
                    IndexAction::Touch
                },
            ),
            ParsedKind::Rows(n) => (
                Report {
                    read: (report.read + 1) as u32,
                    indexed: (report.indexed + 1) as u32,
                    inserted: if dry_run {
                        (report.inserted + n) as usize
                    } else {
                        report.inserted
                    },
                    ..report
                },
                if dry_run {
                    IndexAction::Nothing
                } else {
                    IndexAction::Replace
                },
            ),
        },
{
    match outcome {
        ParsedKind::Unreadable => (report, IndexAction::Nothing),
        ParsedKind::Unparsed => (Report { read: report.read + 1, ..report }, IndexAction::Nothing),
        ParsedKind::Same => {
            let action = if dry_run {
                IndexAction::Nothing
            } else {
                IndexAction::Touch
            };
            (Report { read: report.read + 1, skipped: report.skipped + 1, ..report }, action)
        },
        ParsedKind::Rows(n) => {
            let inserted = if dry_run {
                report.inserted + n
            } else {
                report.inserted
            };
            let action = if dry_run {
                IndexAction::Nothing
            } else {
                IndexAction::Replace
            };
            (
                Report {
                    read: report.read + 1,
                    indexed: report.indexed + 1,
                    inserted,
                    ..report
                },
                action,
            )
        },
    }
}

/// The report after the store wrote `n` rows for a replaced file.
pub fn add_inserted(report: Report, n: usize) -> (r: Report)
    requires
        report.inserted + n <= usize::MAX,
    ensures
        r == (Report { inserted: (report.inserted + n) as usize, ..report }),
{
    Report { inserted: report.inserted + n, ..report }
}

} // verus!
