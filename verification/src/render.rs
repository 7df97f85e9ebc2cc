//! Console rendering for the commands that change files: anything rtok would write is
//! shown as a unified diff, coloured only when a person is looking at it.

use vstd::prelude::*;

use crate::text::{
    chars_eq, chars_of, has_prefix, join, join_strings, lines, lines_vec, starts_with, views,
    Chars,
};

verus! {

/// Red (removals).
pub const RED: &'static str = "\x1b[31m";

/// Green (additions).
pub const GREEN: &'static str = "\x1b[32m";

/// Cyan (hunk headers).
pub const CYAN: &'static str = "\x1b[36m";

/// Bold (file headers).
pub const BOLD: &'static str = "\x1b[1m";

/// Colour off.
pub const OFF: &'static str = "\x1b[0m";

/// One diff line as coloured text: bold file headers, cyan hunk headers, green
/// additions, red removals; any other line as it is.
pub open spec fn paint_line(line: Chars) -> Chars {
    if starts_with(line, "+++"@) || starts_with(line, "---"@) {
        BOLD@ + line + OFF@
    } else if starts_with(line, "@"@) {
        CYAN@ + line + OFF@
    } else if starts_with(line, "+"@) {
        GREEN@ + line + OFF@
    } else if starts_with(line, "-"@) {
        RED@ + line + OFF@
    } else {
        line
    }
}

/// What [`paint`] returns: the text as it is without colour, else its lines painted and
/// joined by `\n`.
pub open spec fn paint_spec(text: Chars, colour: bool) -> Chars {
    if !colour {
        text
    } else {
        join(lines(text).map_values(|l: Chars| paint_line(l)), seq!['\n'])
    }
}

/// The unified diff `similar` prints for two texts, three lines of context, with the two
/// given file headers.
pub uninterp spec fn unified_diff_text(before: Chars, after: Chars, a: Chars, b: Chars) -> Chars;

/// `similar::TextDiff::from_lines(before, after).unified_diff().context_radius(3)
/// .header(a, b).to_string()`: the diff text is named, not restated.
#[verifier::external_body]
fn unified_diff(before: &str, after: &str, a: &str, b: &str) -> (r: String)
    ensures
        r@ == unified_diff_text(before@, after@, a@, b@),
{
    similar::TextDiff::from_lines(before, after).unified_diff().context_radius(3).header(
        a,
        b,
    ).to_string()
}

fn prefixed(line: &[char], p: &str) -> (r: bool)
    ensures
        r == starts_with(line@, p@),
{
    let pc = chars_of(p);
    has_prefix(line, pc.as_slice())
}

fn wrap(code: &str, line: &str) -> (r: String)
    ensures
        r@ == code@ + line@ + OFF@,
{
    let mut s = code.to_owned();
    s.append(line);
    s.append(OFF);
    s
}

/// One line painted.
fn paint_one(line: &str) -> (r: String)
    ensures
        r@ == paint_line(line@),
{
    let c = chars_of(line);
    if prefixed(c.as_slice(), "+++") || prefixed(c.as_slice(), "---") {
        wrap(BOLD, line)
    } else if prefixed(c.as_slice(), "@") {
        wrap(CYAN, line)
    } else if prefixed(c.as_slice(), "+") {
        wrap(GREEN, line)
    } else if prefixed(c.as_slice(), "-") {
        wrap(RED, line)
    } else {
        line.to_owned()
    }
}

/// Colour diff-shaped text when `colour` is on (a terminal with `NO_COLOR` unset):
/// green additions, red removals, cyan hunk headers, bold file headers. Lines with no
/// marker pass through; without colour the text is returned as it is.
pub fn paint(text: &str, colour: bool) -> (r: String)
    ensures
        r@ == paint_spec(text@, colour),
{
    if !colour {
        return text.to_owned();
    }
    let ls = lines_vec(text);
    let mut out: Vec<String> = Vec::new();
    let mut i: usize = 0;
    while i < ls.len()
        invariant
            i <= ls@.len(),
            views(ls@) == lines(text@),
            views(out@) == views(ls@).take(i as int).map_values(|l: Chars| paint_line(l)),
        decreases ls@.len() - i,
    {
        let p = paint_one(ls[i].as_str());
        let ghost before = out@;
        out.push(p);
        proof {
            assert(views(out@) == views(before).push(p@));
            assert(views(ls@).take(i + 1) == views(ls@).take(i as int).push(ls@[i as int]@));
            assert(views(ls@).take(i + 1).map_values(|l: Chars| paint_line(l)) =~= views(
                ls@,
            ).take(i as int).map_values(|l: Chars| paint_line(l)).push(paint_line(ls@[i as int]@)));
        }
        i += 1;
    }
    assert(views(ls@).take(ls@.len() as int) == views(ls@));
    let r = join_strings(out.as_slice(), "\n");
    proof {
        reveal_strlit("\n");
        assert("\n"@ =~= seq!['\n']);
    }
    r
}

/// What [`file_diff`] returns: nothing when the texts are equal, else the painted diff
/// with `a/<path>` and `b/<path>` headers.
pub open spec fn file_diff_spec(path: Chars, before: Chars, after: Chars, colour: bool) -> Chars {
    if before == after {
        Seq::empty()
    } else {
        paint_spec(
            unified_diff_text(before, after, "a/"@ + path, "b/"@ + path),
            colour,
        )
    }
}

/// A `git diff` of one file, three lines of context, coloured when `colour`. Empty when
/// nothing differs.
pub fn file_diff(path: &str, before: &str, after: &str, colour: bool) -> (r: String)
    ensures
        r@ == file_diff_spec(path@, before@, after@, colour),
{
    let bc = chars_of(before);
    let ac = chars_of(after);
    if chars_eq(bc.as_slice(), ac.as_slice()) {
        return String::new();
    }
    let mut ha = "a/".to_owned();
    ha.append(path);
    let mut hb = "b/".to_owned();
    hb.append(path);
    let text = unified_diff(before, after, ha.as_str(), hb.as_str());
    paint(text.as_str(), colour)
}

/// Without colour, painting changes nothing: pipes, CI logs and tests read the plain
/// text.
pub proof fn law_plain_passes_through(text: Chars)
    ensures
        paint_spec(text, false) == text,
{
}

/// Equal texts have no diff at all.
pub proof fn law_equal_is_no_diff(path: Chars, text: Chars, colour: bool)
    ensures
        file_diff_spec(path, text, text, colour) == Seq::<char>::empty(),
{
}

} // verus!
