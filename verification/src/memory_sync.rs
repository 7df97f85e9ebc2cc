//! `rtok memory sync`: a managed block in a project's agent instructions file.
//!
//! The block is the text between the two markers, both included. Replacing or removing
//! it leaves every character outside the markers as it was; a block whose hash no longer
//! matches the one recorded at the last sync was edited by hand and is only overwritten
//! with `force`.

use vstd::prelude::*;

use crate::digest::{hex_lower, hex_sha256, sha256_digest};
use crate::text::{
    chars_eq, chars_of, contains, ends_with, is_first_occurrence, occurs_at, starts_with, dec_int, find, find_spec, join, join_strings, push_char, push_i64, push_range,
    string_from, string_of, views, Chars,
};
use vstd::utf8::encode_utf8;

verus! {

/// Opening marker of the managed block.
pub const START: &'static str = "<!-- rtok:memory -->";

/// Closing marker of the managed block.
pub const END: &'static str = "<!-- /rtok:memory -->";

/// Why a file's managed block cannot be replaced.
#[derive(Debug, Clone, Copy, PartialEq, Eq, Structural)]
pub enum SyncError {
    /// More than one opening marker.
    MultipleBlocks,
    /// An opening marker with no closing marker after it.
    UnclosedBlock,
    /// The block's hash differs from the stored one and `force` was not given.
    HandEdited,
}

impl SyncError {
    /// The message the CLI prints for this error.
    pub fn message(&self) -> (m: &'static str)
        ensures
            m@ == sync_error_message(*self),
    {
        match self {
            SyncError::MultipleBlocks => "multiple rtok memory blocks",
            SyncError::UnclosedBlock => "unclosed rtok memory block",
            SyncError::HandEdited => "memory block was hand-edited; pass --force to overwrite",
        }
    }
}

/// The CLI message of each error.
pub open spec fn sync_error_message(e: SyncError) -> Chars {
    match e {
        SyncError::MultipleBlocks => "multiple rtok memory blocks"@,
        SyncError::UnclosedBlock => "unclosed rtok memory block"@,
        SyncError::HandEdited => "memory block was hand-edited; pass --force to overwrite"@,
    }
}

/// The opening marker's characters.
pub open spec fn start_marker() -> Chars {
    START@
}

/// The closing marker's characters.
pub open spec fn end_marker() -> Chars {
    END@
}

/// Where the managed block of `t` lies: `Ok(None)` without an opening marker,
/// `Ok(Some((a, b)))` for `t[a..b]` from the opening marker through the first closing
/// marker after it, or the error that makes the block ambiguous.
pub open spec fn block_span(t: Chars) -> Result<Option<(int, int)>, SyncError> {
    let s = start_marker();
    let e = end_marker();
    match find_spec(t, s) {
        None => Ok(None),
        Some(a) => {
            let rest = t.skip(a + s.len());
            if contains(rest, s) {
                Err(SyncError::MultipleBlocks)
            } else {
                match find_spec(rest, e) {
                    None => Err(SyncError::UnclosedBlock),
                    Some(r) => Ok(Some((a, a + s.len() + r + e.len()))),
                }
            }
        },
    }
}

/// `file` with `block` appended on a line of its own, ending in a newline.
pub open spec fn append_block(file: Chars, block: Chars) -> Chars {
    let head = if file.len() > 0 && file.last() != '\n' {
        file.push('\n')
    } else {
        file
    };
    let out = head + block;
    if out.len() == 0 || out.last() != '\n' {
        out.push('\n')
    } else {
        out
    }
}

/// What [`splice`] returns: the block replaced by `block`, removed when `block` is
/// `None`, appended when the file has none.
pub open spec fn splice_spec(file: Chars, block: Option<Chars>) -> Result<Chars, SyncError> {
    match block_span(file) {
        Err(e) => Err(e),
        Ok(None) => Ok(
            match block {
                None => file,
                Some(b) => append_block(file, b),
            },
        ),
        Ok(Some((a, b))) => Ok(
            match block {
                None => file.take(a) + file.skip(b),
                Some(bl) => file.take(a) + bl + file.skip(b),
            },
        ),
    }
}

/// The hash recorded for a block: hex SHA-256 of its UTF-8 bytes.
pub open spec fn block_sha(block: Chars) -> Chars {
    hex_lower(sha256_digest(encode_utf8(block)))
}

/// What [`guarded_splice`] returns.
pub open spec fn guarded_spec(
    file: Chars,
    block: Option<Chars>,
    stored_sha: Option<Chars>,
    force: bool,
) -> Result<Chars, SyncError> {
    match block_span(file) {
        Err(e) => Err(e),
        Ok(Some((a, b))) => {
            if !force && stored_sha != Some(block_sha(file.subrange(a, b))) {
                Err(SyncError::HandEdited)
            } else {
                splice_spec(file, block)
            }
        },
        Ok(None) => splice_spec(file, block),
    }
}

/// The views of an optional string.
pub open spec fn opt_view(o: Option<&str>) -> Option<Chars> {
    match o {
        Some(s) => Some(s@),
        None => None,
    }
}

/// One note as a block line: `{id} {title}`.
pub open spec fn note_line(n: (i32, String)) -> Chars {
    dec_int(n.0 as int) + seq![' '] + n.1@
}

/// The lines of a block holding `notes`: markers around one line per note.
pub open spec fn block_lines(notes: Seq<(i32, String)>) -> Seq<Chars> {
    seq![start_marker()] + notes.map_values(|n: (i32, String)| note_line(n)) + seq![end_marker()]
}

/// The block holding `notes`, lines joined by `\n`.
pub open spec fn block_text(notes: Seq<(i32, String)>) -> Chars {
    join(block_lines(notes), seq!['\n'])
}

/// Some call of `estimate` on text `t` returned more than `budget`.
pub open spec fn over_budget<F: Fn(&str) -> u32>(estimate: F, t: Chars, budget: u32) -> bool {
    exists|s: &str, e: u32| #![trigger estimate.ensures((s,), e)]
        s@ == t && estimate.ensures((s,), e) && e > budget
}

/// Some call of `estimate` on text `t` returned at most `budget`.
pub open spec fn within_budget<F: Fn(&str) -> u32>(estimate: F, t: Chars, budget: u32) -> bool {
    exists|s: &str, e: u32| #![trigger estimate.ensures((s,), e)]
        s@ == t && estimate.ensures((s,), e) && e <= budget
}

/// The line that warns when a synced block and hook recall would both carry the titles.
pub fn overlap_line() -> (s: &'static str)
    ensures
        s@ == "duplicate: a memory sync block and hook recall both carry titles — rtok side: [plugins.memory] enabled = false"@,
{
    "duplicate: a memory sync block and hook recall both carry titles — rtok side: [plugins.memory] enabled = false"
}

/// Where the managed block of `t` lies (see [`block_span`]), in character indices.
fn block_range(t: &[char]) -> (r: Result<Option<(usize, usize)>, SyncError>)
    ensures
        match (r, block_span(t@)) {
            (Ok(None), Ok(None)) => true,
            (Ok(Some((a, b))), Ok(Some((x, y)))) => a == x && b == y,
            (Err(e1), Err(e2)) => e1 == e2,
            _ => false,
        },
        r matches Ok(Some((a, b))) ==> a <= b <= t@.len(),
{
    let s = chars_of(START);
    let e = chars_of(END);
    let a = match find(t, s.as_slice()) {
        None => return Ok(None),
        Some(a) => a,
    };
    let n = t.len();
    assert(occurs_at(t@, s@, a as int));
    let rest_at = a + s.len();
    let rest = slice_from(t, rest_at);
    if find(rest.as_slice(), s.as_slice()).is_some() {
        return Err(SyncError::MultipleBlocks);
    }
    match find(rest.as_slice(), e.as_slice()) {
        None => Err(SyncError::UnclosedBlock),
        Some(rel) => {
            assert(occurs_at(rest@, e@, rel as int));
            assert(rest@.len() == n - rest_at);
            Ok(Some((a, rest_at + rel + e.len())))
        },
    }
}

/// `t[from..]` as its own vector.
fn slice_from(t: &[char], from: usize) -> (r: Vec<char>)
    requires
        from <= t@.len(),
    ensures
        r@ == t@.skip(from as int),
{
    let mut r: Vec<char> = Vec::new();
    let mut i = from;
    while i < t.len()
        invariant
            from <= i <= t@.len(),
            r@ == t@.subrange(from as int, i as int),
        decreases t@.len() - i,
    {
        r.push(t[i]);
        i += 1;
    }
    r
}

/// Whether `text` holds exactly one well-formed managed block.
pub fn has_block(text: &str) -> (b: bool)
    ensures
        b == (block_span(text@) matches Ok(Some(_))),
{
    let t = chars_of(text);
    matches!(block_range(t.as_slice()), Ok(Some(_)))
}

/// Replace or remove the managed block. Characters outside the markers are unchanged.
pub fn splice(file: &str, block: Option<&str>) -> (r: Result<String, SyncError>)
    ensures
        match (r, splice_spec(file@, opt_view(block))) {
            (Ok(s), Ok(t)) => s@ == t,
            (Err(e1), Err(e2)) => e1 == e2,
            _ => false,
        },
{
    let f = chars_of(file);
    splice_chars(f.as_slice(), block)
}

fn splice_chars(f: &[char], block: Option<&str>) -> (r: Result<String, SyncError>)
    ensures
        match (r, splice_spec(f@, opt_view(block))) {
            (Ok(s), Ok(t)) => s@ == t,
            (Err(e1), Err(e2)) => e1 == e2,
            _ => false,
        },
{
    match block_range(f) {
        Err(e) => Err(e),
        Ok(None) => match block {
            None => Ok(string_from(f)),
            Some(b) => {
                let mut out = string_from(f);
                if f.len() > 0 && f[f.len() - 1] != '\n' {
                    push_char(&mut out, '\n');
                }
                out.append(b);
                let oc = chars_of(out.as_str());
                if oc.len() == 0 || oc[oc.len() - 1] != '\n' {
                    push_char(&mut out, '\n');
                }
                Ok(out)
            },
        },
        Ok(Some((a, b))) => {
            let mut out = string_of(f, 0, a);
            match block {
                None => {},
                Some(bl) => out.append(bl),
            }
            push_range(&mut out, f, b, f.len());
            proof {
                assert(f@.subrange(0, a as int) == f@.take(a as int));
                assert(f@.subrange(b as int, f@.len() as int) == f@.skip(b as int));
            }
            Ok(out)
        },
    }
}

/// [`splice`], but a block whose hash is not `stored_sha` is refused unless `force`:
/// someone edited it by hand since the last sync.
pub fn guarded_splice(file: &str, block: Option<&str>, stored_sha: Option<&str>, force: bool) -> (r:
    Result<String, SyncError>)
    ensures
        match (r, guarded_spec(file@, opt_view(block), opt_view(stored_sha), force)) {
            (Ok(s), Ok(t)) => s@ == t,
            (Err(e1), Err(e2)) => e1 == e2,
            _ => false,
        },
{
    let f = chars_of(file);
    match block_range(f.as_slice()) {
        Err(e) => return Err(e),
        Ok(None) => {},
        Ok(Some((a, b))) => {
            let current = string_of(f.as_slice(), a, b);
            let sha = hex_sha256(current.as_str().as_bytes());
            let same = match stored_sha {
                Some(s) => {
                    let sc = chars_of(s);
                    let hc = chars_of(sha.as_str());
                    chars_eq(sc.as_slice(), hc.as_slice())
                },
                None => false,
            };
            if !force && !same {
                return Err(SyncError::HandEdited);
            }
        },
    }
    splice_chars(f.as_slice(), block)
}

/// The block for `notes[..k]`.
fn block_for(notes: &[(i32, String)], k: usize) -> (r: String)
    requires
        k <= notes@.len(),
    ensures
        r@ == block_text(notes@.take(k as int)),
{
    let mut lines: Vec<String> = Vec::new();
    lines.push(START.to_owned());
    let mut i: usize = 0;
    while i < k
        invariant
            k <= notes@.len(),
            i <= k,
            views(lines@) == seq![start_marker()] + notes@.take(i as int).map_values(
                |n: (i32, String)| note_line(n),
            ),
        decreases k - i,
    {
        let mut line = String::new();
        push_i64(&mut line, notes[i].0 as i64);
        push_char(&mut line, ' ');
        line.append(notes[i].1.as_str());
        proof {
            assert(line@ == note_line(notes@[i as int]));
        }
        let ghost before = lines@;
        lines.push(line);
        proof {
            assert(notes@.take(i + 1) == notes@.take(i as int).push(notes@[i as int]));
            assert(views(lines@) == views(before).push(line@));
            assert(notes@.take(i + 1).map_values(|n: (i32, String)| note_line(n))
                == notes@.take(i as int).map_values(|n: (i32, String)| note_line(n)).push(
                note_line(notes@[i as int]),
            ));
        }
        i += 1;
    }
    let ghost before = lines@;
    lines.push(END.to_owned());
    assert(views(lines@) == views(before).push(end_marker()));
    assert(views(lines@) == block_lines(notes@.take(k as int)));
    let r = join_strings(lines.as_slice(), "\n");
    proof {
        reveal_strlit("\n");
        assert("\n"@ =~= seq!['\n']);
    }
    r
}

/// The managed block: one `{id} {title}` line per note between the markers, notes
/// trimmed from the end until `estimate` puts the block at or under `budget` tokens
/// (a block with no notes is returned whatever it costs).
pub fn render<F: Fn(&str) -> u32>(notes: &[(i32, String)], budget: u32, estimate: F) -> (r: String)
    requires
        forall|s: &str| estimate.requires((s,)),
    ensures
        exists|k: int|
            0 <= k <= notes@.len() && r@ == block_text(notes@.take(k)) && (k == 0
                || within_budget(estimate, r@, budget)) && forall|j: int|
                k < j <= notes@.len() ==> over_budget(estimate, block_text(notes@.take(j)), budget),
{
    let mut k = notes.len();
    loop
        invariant
            k <= notes@.len(),
            forall|s: &str| estimate.requires((s,)),
            forall|j: int|
                k < j <= notes@.len() ==> over_budget(estimate, block_text(notes@.take(j)), budget),
        decreases k,
    {
        let text = block_for(notes, k);
        let cost = estimate(text.as_str());
        if cost <= budget || k == 0 {
            proof {
                if cost <= budget {
                    assert(within_budget(estimate, text@, budget));
                }
            }
            return text;
        }
        proof {
            assert(over_budget(estimate, text@, budget));
        }
        k = k - 1;
    }
}

} // verus!

verus! {

// ---------------------------------------------------------------------------------------
// Laws
// ---------------------------------------------------------------------------------------

/// A managed block as `render` writes it: the opening marker first, the closing marker
/// last, and between them neither a second opening marker nor an earlier closing one.
pub open spec fn well_formed_block(b: Chars) -> bool {
    let s = start_marker();
    let e = end_marker();
    &&& b.len() >= s.len() + e.len()
    &&& starts_with(b, s)
    &&& ends_with(b, e)
    &&& !contains(b.skip(s.len() as int), s)
    &&& is_first_occurrence(b.skip(s.len() as int), e, b.len() - s.len() - e.len())
}

/// `file` as `append_block` leaves it before the block: a newline added when the file is
/// non-empty and does not end in one.
pub open spec fn head_of(file: Chars) -> Chars {
    if file.len() > 0 && file.last() != '\n' {
        file.push('\n')
    } else {
        file
    }
}

proof fn lemma_markers()
    ensures
        start_marker().len() == 20,
        end_marker().len() == 21,
        forall|i: int| 0 <= i < start_marker().len() ==> start_marker()[i] != '\n',
        end_marker().last() != '\n',
        start_marker()[5] != end_marker()[5],
        start_marker()[0] == '<',
        end_marker()[0] == '<',
{
    reveal_strlit("<!-- rtok:memory -->");
    reveal_strlit("<!-- /rtok:memory -->");
}

/// A window of `g` that starts before index `k` and reaches past it contains `g[k]`.
proof fn lemma_window_has_newline(g: Chars, p: Chars, j: int, k: int)
    requires
        0 <= j <= k < j + p.len(),
        j + p.len() <= g.len(),
        g[k] == '\n',
        forall|i: int| 0 <= i < p.len() ==> p[i] != '\n',
    ensures
        !occurs_at(g, p, j),
{
    if occurs_at(g, p, j) {
        assert(g.subrange(j, j + p.len())[k - j] == g[k]);
    }
}

/// Where `append_block` puts a well-formed block in a file with no opening marker: right
/// after the head, spanning exactly the block.
proof fn lemma_append_span(file: Chars, b: Chars)
    requires
        !contains(file, start_marker()),
        well_formed_block(b),
    ensures
        append_block(file, b) == head_of(file) + b + seq!['\n'],
        block_span(append_block(file, b)) == Ok::<Option<(int, int)>, SyncError>(
            Some((head_of(file).len() as int, (head_of(file).len() + b.len()) as int)),
        ),
{
    lemma_markers();
    let s = start_marker();
    let e = end_marker();
    let head = head_of(file);
    let h = head.len() as int;
    let g = head + b + seq!['\n'];
    assert(b.last() == e.last()) by {
        assert(b.skip(b.len() - e.len())[e.len() - 1] == b[b.len() - 1]);
    }
    assert((head + b).last() == b.last());
    assert(append_block(file, b) == g);
    // The opening marker first occurs at the head's end.
    assert(occurs_at(g, s, h)) by {
        assert(g.subrange(h, h + s.len()) =~= b.take(s.len() as int));
    }
    assert forall|j: int| 0 <= j < h implies !occurs_at(g, s, j) by {
        if j + s.len() <= file.len() {
            if occurs_at(g, s, j) {
                assert(file.subrange(j, j + s.len()) =~= g.subrange(j, j + s.len()));
                assert(occurs_at(file, s, j));
            }
        } else {
            assert(g[h - 1] == '\n');
            lemma_window_has_newline(g, s, j, h - 1);
        }
    }
    text_lemma_first(g, s, h);
    // After it: the block's tail, then the final newline.
    let bs = b.skip(s.len() as int);
    let rest = g.skip(h + s.len());
    assert(rest =~= bs + seq!['\n']);
    assert(!contains(rest, s)) by {
        assert forall|j: int| 0 <= j implies !occurs_at(rest, s, j) by {
            if j + s.len() <= bs.len() {
                if occurs_at(rest, s, j) {
                    assert(bs.subrange(j, j + s.len()) =~= rest.subrange(j, j + s.len()));
                    assert(occurs_at(bs, s, j));
                }
            } else if j + s.len() <= rest.len() {
                lemma_window_has_newline(rest, s, j, rest.len() - 1);
            }
        }
    }
    let pos = b.len() - s.len() - e.len();
    assert(occurs_at(rest, e, pos)) by {
        assert(rest.subrange(pos, pos + e.len()) =~= bs.subrange(pos, pos + e.len()));
    }
    assert forall|j: int| 0 <= j < pos implies !occurs_at(rest, e, j) by {
        if occurs_at(rest, e, j) {
            assert(bs.subrange(j, j + e.len()) =~= rest.subrange(j, j + e.len()));
            assert(occurs_at(bs, e, j));
        }
    }
    text_lemma_first(rest, e, pos);
}

proof fn text_lemma_first(s: Chars, p: Chars, i: int)
    requires
        occurs_at(s, p, i),
        forall|j: int| 0 <= j < i ==> !occurs_at(s, p, j),
    ensures
        find_spec(s, p) == Some(i),
{
    crate::text::lemma_find_spec(s, p, i);
}

/// Characters outside the markers survive a splice: the text before the block and the
/// text after it are the same in the result.
pub proof fn law_splice_keeps_outside(file: Chars, block: Option<Chars>)
    requires
        block_span(file) matches Ok(Some(_)),
    ensures
        ({
            let (a, b) = block_span(file)->Ok_0->Some_0;
            &&& splice_spec(file, block) matches Ok(g)
            &&& g.take(a) == file.take(a)
            &&& ends_with(g, file.skip(b))
        }),
{
    let (a, b) = block_span(file)->Ok_0->Some_0;
    lemma_span_bounds(file);
    let g = splice_spec(file, block)->Ok_0;
    match block {
        None => {
            assert(g.take(a) =~= file.take(a));
            assert(g.skip(g.len() - file.skip(b).len()) =~= file.skip(b));
        },
        Some(bl) => {
            assert(g.take(a) =~= file.take(a));
            assert(g.skip(g.len() - file.skip(b).len()) =~= file.skip(b));
        },
    }
}

/// A block span lies inside the text, opening marker first.
pub proof fn lemma_span_bounds(t: Chars)
    ensures
        block_span(t) matches Ok(Some((a, b))) ==> 0 <= a <= b <= t.len(),
{
    if let Ok(Some((a, b))) = block_span(t) {
        let s = start_marker();
        let e = end_marker();
        let x = find_spec(t, s)->Some_0;
        let rest = t.skip(x + s.len());
        crate::text::lemma_find_spec_first(t, s);
        let r = find_spec(rest, e)->Some_0;
        crate::text::lemma_find_spec_first(rest, e);
    }
}

/// A block appended to a file without one is found again, exactly where it was put.
pub proof fn law_appended_block_is_found(file: Chars, b: Chars)
    requires
        !contains(file, start_marker()),
        well_formed_block(b),
    ensures
        block_span(append_block(file, b)) matches Ok(Some((x, y))) && append_block(
            file,
            b,
        ).subrange(x, y) == b,
{
    lemma_append_span(file, b);
    let g = append_block(file, b);
    let h = head_of(file).len() as int;
    assert(g.subrange(h, h + b.len()) =~= b);
}

/// Re-syncing replaces the block in place rather than stacking a second one: splicing
/// a new block into a synced file gives what appending the new block to the original
/// file would have given.
pub proof fn law_resync_replaces(file: Chars, b1: Chars, b2: Chars)
    requires
        !contains(file, start_marker()),
        well_formed_block(b1),
        well_formed_block(b2),
    ensures
        splice_spec(append_block(file, b1), Some(b2)) == Ok::<Chars, SyncError>(
            append_block(file, b2),
        ),
{
    lemma_append_span(file, b1);
    lemma_append_span(file, b2);
    let g = append_block(file, b1);
    let h = head_of(file).len() as int;
    assert(g.take(h) =~= head_of(file));
    assert(g.skip(h + b1.len()) =~= seq!['\n']);
}

/// Only the first character of either marker is `<`.
proof fn lemma_marker_opens()
    ensures
        start_marker().len() == 20,
        end_marker().len() == 21,
        start_marker()[0] == '<',
        end_marker()[0] == '<',
        forall|d: int| 0 < d < 20 ==> #[trigger] start_marker()[d] != '<',
        forall|d: int| 0 < d < 21 ==> #[trigger] end_marker()[d] != '<',
{
    reveal_strlit("<!-- rtok:memory -->");
    reveal_strlit("<!-- /rtok:memory -->");
    assert(start_marker() =~= seq![
        '<', '!', '-', '-', ' ', 'r', 't', 'o', 'k', ':', 'm', 'e', 'm', 'o', 'r', 'y', ' ', '-', '-', '>',
    ]);
    assert(end_marker() =~= seq![
        '<', '!', '-', '-', ' ', '/', 'r', 't', 'o', 'k', ':', 'm', 'e', 'm', 'o', 'r', 'y', ' ', '-', '-', '>',
    ]);
}

/// Re-syncing the block a sync just wrote changes nothing: splicing the same well-formed
/// block into the synced file gives the synced file back, byte for byte, whether the file
/// had a block before or not.
pub proof fn law_resync_is_stable(file: Chars, blk: Chars)
    requires
        well_formed_block(blk),
        splice_spec(file, Some(blk)) is Ok,
    ensures
        splice_spec(file, Some(blk)) matches Ok(once) && splice_spec(once, Some(blk)) == Ok::<
            Chars,
            SyncError,
        >(once),
{
    let s = start_marker();
    let e = end_marker();
    lemma_marker_opens();
    crate::text::lemma_find_spec_first(file, s);
    match block_span(file) {
        Err(_) => {},
        Ok(None) => {
            law_resync_replaces(file, blk, blk);
        },
        Ok(Some((a, b))) => {
            lemma_span_bounds(file);
            let rest_f = file.skip(a + s.len());
            let r = find_spec(rest_f, e)->Some_0;
            crate::text::lemma_find_spec_first(rest_f, e);
            assert(b == a + s.len() + r + e.len());
            let once = file.take(a) + blk + file.skip(b);
            assert(splice_spec(file, Some(blk)) == Ok::<Chars, SyncError>(once));
            // The opening marker first occurs where the block now starts.
            assert(blk.take(s.len() as int) == s);
            assert(occurs_at(once, s, a)) by {
                assert(once.subrange(a, a + s.len()) =~= blk.take(s.len() as int));
            }
            assert forall|j: int| 0 <= j < a implies !occurs_at(once, s, j) by {
                if occurs_at(once, s, j) {
                    if j + s.len() <= a {
                        assert(once.subrange(j, j + s.len()) =~= file.subrange(j, j + s.len()));
                        assert(occurs_at(file, s, j));
                    } else {
                        let d = a - j;
                        assert(once.subrange(j, j + s.len())[d] == once[a]);
                        assert(once[a] == blk[0]);
                        assert(blk[0] == blk.take(s.len() as int)[0]);
                    }
                }
            }
            text_lemma_first(once, s, a);
            // After it: the block's tail, then what followed the old block.
            let bs = blk.skip(s.len() as int);
            let tail = file.skip(b);
            let rest = once.skip(a + s.len());
            assert(rest =~= bs + tail);
            assert(tail =~= rest_f.skip(r + e.len()));
            assert(blk.skip(blk.len() - e.len()) == e);
            assert(!contains(rest, s)) by {
                if contains(rest, s) {
                    let j = choose|j: int| occurs_at(rest, s, j);
                    if j + s.len() <= bs.len() {
                        assert(rest.subrange(j, j + s.len()) =~= bs.subrange(j, j + s.len()));
                        assert(occurs_at(bs, s, j));
                    } else if j >= bs.len() {
                        let q = j - bs.len() + r + e.len();
                        assert(rest.subrange(j, j + s.len()) =~= rest_f.subrange(q, q + s.len()));
                        assert(occurs_at(rest_f, s, q));
                    } else {
                        assert(rest.subrange(j, j + s.len())[0] == rest[j]);
                        assert(rest[j] == bs[j]);
                        assert(bs[j] == blk[j + s.len()]);
                        let t = j + s.len() - (blk.len() - e.len());
                        assert(blk[j + s.len()] == blk.skip(blk.len() - e.len())[t]);
                        assert(0 < t < e.len());
                    }
                }
            }
            let pos = blk.len() - s.len() - e.len();
            assert(is_first_occurrence(bs, e, pos));
            assert(occurs_at(rest, e, pos)) by {
                assert(rest.subrange(pos, pos + e.len()) =~= bs.subrange(pos, pos + e.len()));
            }
            assert forall|j: int| 0 <= j < pos implies !occurs_at(rest, e, j) by {
                if occurs_at(rest, e, j) {
                    assert(rest.subrange(j, j + e.len()) =~= bs.subrange(j, j + e.len()));
                    assert(occurs_at(bs, e, j));
                }
            }
            text_lemma_first(rest, e, pos);
            assert(block_span(once) == Ok::<Option<(int, int)>, SyncError>(
                Some((a, a + blk.len())),
            ));
            assert(once.take(a) =~= file.take(a));
            assert(once.skip(a + blk.len()) =~= file.skip(b));
            assert(once.take(a) + blk + once.skip(a + blk.len()) =~= once);
        },
    }
}

/// The digits of a number are never `<`.
proof fn lemma_dec_nat_no_angle(n: nat)
    ensures
        forall|i: int| 0 <= i < crate::text::dec_nat(n).len() ==> #[trigger] crate::text::dec_nat(n)[i] != '<',
    decreases n,
{
    if n >= 10 {
        lemma_dec_nat_no_angle(n / 10);
        let d = crate::text::dec_nat(n / 10);
        assert forall|i: int| 0 <= i < crate::text::dec_nat(n).len() implies #[trigger] crate::text::dec_nat(n)[i] != '<' by {
            if i < d.len() {
                assert(crate::text::dec_nat(n)[i] == d[i]);
            }
        }
    }
}

/// Every line after the first, each opened by a newline.
pub open spec fn after_lines(ls: Seq<Chars>) -> Chars
    decreases ls.len(),
{
    if ls.len() == 0 {
        Seq::empty()
    } else {
        after_lines(ls.drop_last()) + seq!['\n'] + ls.last()
    }
}

proof fn lemma_join_first(first: Chars, ls: Seq<Chars>)
    ensures
        join(seq![first] + ls, seq!['\n']) == first + after_lines(ls),
    decreases ls.len(),
{
    if ls.len() == 0 {
        assert(seq![first] + ls =~= seq![first]);
        assert(first + Seq::<char>::empty() =~= first);
    } else {
        lemma_join_first(first, ls.drop_last());
        assert((seq![first] + ls).drop_last() =~= seq![first] + ls.drop_last());
        assert(first + after_lines(ls.drop_last()) + seq!['\n'] + ls.last() =~= first + after_lines(ls));
    }
}

/// A marker-like pattern (opening with `<`, its only `<`, and holding no newline) occurs
/// in no run of note lines whose titles do not hold it.
proof fn lemma_lines_clean(notes: Seq<(i32, String)>, p: Chars)
    requires
        p.len() > 0,
        p[0] == '<',
        forall|i: int| 0 <= i < p.len() ==> p[i] != '\n',
        forall|k: int| 0 <= k < notes.len() ==> !contains(#[trigger] notes[k].1@, p),
    ensures
        !contains(after_lines(notes.map_values(|n: (i32, String)| note_line(n))), p),
    decreases notes.len(),
{
    let ls = notes.map_values(|n: (i32, String)| note_line(n));
    if notes.len() > 0 {
        let t = notes.drop_last();
        assert(ls.drop_last() =~= t.map_values(|n: (i32, String)| note_line(n)));
        assert forall|k: int| 0 <= k < t.len() implies !contains(#[trigger] t[k].1@, p) by {
            assert(t[k] == notes[k]);
        }
        lemma_lines_clean(t, p);
        let g = after_lines(ls.drop_last());
        let last = notes.last();
        let line = ls.last();
        assert(line == note_line(last));
        let id = crate::text::dec_int(last.0 as int);
        assert(forall|i: int| 0 <= i < id.len() ==> #[trigger] id[i] != '<') by {
            if last.0 < 0 {
                lemma_dec_nat_no_angle((-(last.0 as int)) as nat);
                assert forall|i: int| 0 <= i < id.len() implies #[trigger] id[i] != '<' by {
                    if i > 0 {
                        assert(id[i] == crate::text::dec_nat((-(last.0 as int)) as nat)[i - 1]);
                    }
                }
            } else {
                lemma_dec_nat_no_angle(last.0 as nat);
            }
        }
        let all = g + seq!['\n'] + line;
        assert(all == after_lines(ls));
        assert forall|j: int| !occurs_at(all, p, j) by {
            if occurs_at(all, p, j) {
                if j + p.len() <= g.len() {
                    assert(all.subrange(j, j + p.len()) =~= g.subrange(j, j + p.len()));
                    assert(occurs_at(g, p, j));
                } else if j <= g.len() {
                    assert(all[g.len() as int] == '\n');
                    assert(all.subrange(j, j + p.len())[g.len() - j] == all[g.len() as int]);
                } else {
                    let o = j - g.len() - 1;
                    let title = last.1@;
                    let pre = id.len() + 1;
                    assert(all.subrange(j, j + p.len())[0] == all[j]);
                    assert(all[j] == line[o]);
                    if o < id.len() {
                        assert(line[o] == id[o]);
                    } else if o == id.len() {
                        assert(line[o] == ' ');
                    } else {
                        assert(all.subrange(j, j + p.len()) =~= title.subrange(o - pre, o - pre + p.len()));
                        assert(occurs_at(title, p, o - pre));
                        assert(!contains(notes[notes.len() - 1].1@, p));
                    }
                }
            }
        }
    }
}

/// The block `render` writes is one the sync recognises: with no note title holding
/// either marker, the text opens with the opening marker, ends with the closing one, and
/// holds neither a second opening marker nor an earlier closing one.
pub proof fn law_rendered_block_is_well_formed(notes: Seq<(i32, String)>)
    requires
        forall|k: int|
            0 <= k < notes.len() ==> !contains(#[trigger] notes[k].1@, start_marker()) && !contains(
                notes[k].1@,
                end_marker(),
            ),
    ensures
        well_formed_block(block_text(notes)),
{
    let s = start_marker();
    let e = end_marker();
    lemma_marker_opens();
    lemma_markers();
    reveal_strlit("<!-- rtok:memory -->");
    reveal_strlit("<!-- /rtok:memory -->");
    assert(forall|i: int| 0 <= i < s.len() ==> s[i] != '\n');
    assert(forall|i: int| 0 <= i < e.len() ==> e[i] != '\n') by {
        assert(e =~= seq![
            '<', '!', '-', '-', ' ', '/', 'r', 't', 'o', 'k', ':', 'm', 'e', 'm', 'o', 'r', 'y', ' ', '-', '-', '>',
        ]);
    }
    let ls = notes.map_values(|n: (i32, String)| note_line(n));
    let lines = block_lines(notes);
    assert(lines == seq![s] + ls + seq![e]);
    assert(lines.drop_last() =~= seq![s] + ls);
    lemma_join_first(s, ls);
    let body = after_lines(ls);
    let b = s + body + seq!['\n'] + e;
    assert(block_text(notes) == b);
    assert forall|k: int| 0 <= k < notes.len() implies !contains(#[trigger] notes[k].1@, s) by {}
    assert forall|k: int| 0 <= k < notes.len() implies !contains(#[trigger] notes[k].1@, e) by {}
    lemma_lines_clean(notes, s);
    lemma_lines_clean(notes, e);
    let tail = b.skip(s.len() as int);
    assert(tail =~= body + seq!['\n'] + e);
    assert(b.take(s.len() as int) =~= s);
    assert(b.skip(b.len() - e.len()) =~= e);
    let nl = body.len() as int;
    assert(tail[nl] == '\n');
    assert forall|j: int| !occurs_at(tail, s, j) by {
        if occurs_at(tail, s, j) {
            if j + s.len() <= nl {
                assert(tail.subrange(j, j + s.len()) =~= body.subrange(j, j + s.len()));
                assert(occurs_at(body, s, j));
            } else if j <= nl {
                assert(tail.subrange(j, j + s.len())[nl - j] == tail[nl]);
            } else {
                let o = j - nl - 1;
                assert(tail.subrange(j, j + s.len())[0] == e[o]);
                if o == 0 {
                    assert(tail.subrange(j, j + s.len())[5] == e[5]);
                }
            }
        }
    }
    let pos = nl + 1;
    assert(occurs_at(tail, e, pos)) by {
        assert(tail.subrange(pos, pos + e.len()) =~= e);
    }
    assert forall|j: int| 0 <= j < pos implies !occurs_at(tail, e, j) by {
        if occurs_at(tail, e, j) {
            if j + e.len() <= nl {
                assert(tail.subrange(j, j + e.len()) =~= body.subrange(j, j + e.len()));
                assert(occurs_at(body, e, j));
            } else {
                assert(tail.subrange(j, j + e.len())[nl - j] == tail[nl]);
            }
        }
    }
    assert(pos == b.len() - s.len() - e.len());
}

/// Removing a synced block gives back the file as it was before the sync (its newline
/// normalised), followed by the newline that closed the block's line.
pub proof fn law_remove_after_sync(file: Chars, b: Chars)
    requires
        !contains(file, start_marker()),
        well_formed_block(b),
    ensures
        splice_spec(append_block(file, b), None) == Ok::<Chars, SyncError>(
            head_of(file) + seq!['\n'],
        ),
{
    lemma_append_span(file, b);
    let g = append_block(file, b);
    let h = head_of(file).len() as int;
    assert(g.take(h) =~= head_of(file));
    assert(g.skip(h + b.len()) =~= seq!['\n']);
}

/// The hash recorded when a block was written lets the next sync through: a guarded
/// splice of a synced file, given that hash and no `force`, is the plain splice.
pub proof fn law_recorded_hash_allows_resync(file: Chars, b: Chars, next: Option<Chars>)
    requires
        !contains(file, start_marker()),
        well_formed_block(b),
    ensures
        guarded_spec(append_block(file, b), next, Some(block_sha(b)), false) == splice_spec(
            append_block(file, b),
            next,
        ),
{
    law_appended_block_is_found(file, b);
}

/// A block that no longer hashes to the recorded value is refused without `force`, and
/// spliced with it.
pub proof fn law_hand_edit_needs_force(file: Chars, next: Option<Chars>, stored: Chars)
    requires
        block_span(file) matches Ok(Some((a, b))) && stored != block_sha(file.subrange(a, b)),
    ensures
        guarded_spec(file, next, Some(stored), false) == Err::<Chars, SyncError>(
            SyncError::HandEdited,
        ),
        guarded_spec(file, next, Some(stored), true) == splice_spec(file, next),
{
}

} // verus!
