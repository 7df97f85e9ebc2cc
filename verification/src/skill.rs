//! Oversized skill bodies: before the host loads a skill, a body over the byte cap is
//! archived and the model gets its markdown map and an `expand` pointer instead. A skill
//! whose frontmatter names a key the host applies at invocation always loads whole.

use vstd::prelude::*;

use crate::graph::{byte_len, concat};
use crate::text::{
    chars_of, dec_nat, find, find_spec, lines, lines_vec, push_all, push_u64, starts_with,
    trim, trim_chars, trim_start, trim_start_chars, views, Chars,
};

verus! {

// ---------------------------------------------------------------------------------------
// UTF-8 widths
// ---------------------------------------------------------------------------------------

/// The bytes of one character in UTF-8.
pub open spec fn char_width(c: char) -> nat {
    if (c as u32) < 0x80 {
        1
    } else if (c as u32) < 0x800 {
        2
    } else if (c as u32) < 0x10000 {
        3
    } else {
        4
    }
}

/// Encoding works character by character.
proof fn lemma_encode_concat(a: Chars, b: Chars)
    ensures
        vstd::utf8::encode_utf8(a + b) == vstd::utf8::encode_utf8(a) + vstd::utf8::encode_utf8(b),
    decreases a.len(),
{
    if a.len() > 0 {
        assert((a + b).drop_first() =~= a.drop_first() + b);
        assert((a + b)[0] == a[0]);
        lemma_encode_concat(a.drop_first(), b);
    } else {
        assert(a + b =~= b);
    }
}

/// The UTF-8 bytes of a text.
pub open spec fn utf8_len(s: Chars) -> nat {
    vstd::utf8::encode_utf8(s).len()
}

/// One character encodes to [`char_width`] bytes.
proof fn lemma_char_width(c: char)
    ensures
        vstd::utf8::encode_utf8(seq![c]).len() == char_width(c),
{
    vstd::utf8::char_is_scalar(c);
    let u = c as u32;
    assert(seq![c].drop_first() =~= Seq::<char>::empty());
    assert(seq![c][0] == c);
    assert(vstd::utf8::encode_utf8(Seq::<char>::empty()) =~= Seq::<u8>::empty());
    assert(vstd::utf8::encode_utf8(seq![c]) == vstd::utf8::encode_scalar(u) + vstd::utf8::encode_utf8(
        Seq::<char>::empty(),
    ));
    assert(vstd::utf8::is_scalar(u));
}

/// The bytes of a prefix one character longer.
proof fn lemma_byte_len_step(s: Chars, i: int)
    requires
        0 <= i < s.len(),
    ensures
        utf8_len(s.take(i + 1)) == utf8_len(s.take(i)) + char_width(s[i]),
{
    assert(s.take(i + 1) =~= s.take(i) + seq![s[i]]);
    lemma_encode_concat(s.take(i), seq![s[i]]);
    lemma_char_width(s[i]);
}

/// A prefix has no more bytes than the whole text.
proof fn lemma_prefix_bytes(s: Chars, i: int)
    requires
        0 <= i <= s.len(),
    ensures
        utf8_len(s.take(i)) <= utf8_len(s),
{
    assert(s =~= s.take(i) + s.skip(i));
    lemma_encode_concat(s.take(i), s.skip(i));
}

/// An encoded text is no more than four bytes per character.
proof fn lemma_encode_len_bound(s: Chars)
    ensures
        vstd::utf8::encode_utf8(s).len() <= 4 * s.len(),
    decreases s.len(),
{
    if s.len() > 0 {
        assert(s =~= seq![s[0]] + s.drop_first());
        lemma_encode_concat(seq![s[0]], s.drop_first());
        lemma_char_width(s[0]);
        lemma_encode_len_bound(s.drop_first());
    }
}

/// [`char_width`].
fn width(c: char) -> (w: usize)
    ensures
        w == char_width(c),
{
    let u = c as u32;
    if u < 0x80 {
        1
    } else if u < 0x800 {
        2
    } else if u < 0x10000 {
        3
    } else {
        4
    }
}

// ---------------------------------------------------------------------------------------
// The map of a skill
// ---------------------------------------------------------------------------------------

/// Frontmatter keys the host applies when a skill is invoked.
pub open spec fn host_key(k: Chars) -> bool {
    k == "allowed-tools"@ || k == "model"@ || k == "context"@ || k == "agent"@
}

/// A frontmatter line that sets key `k`: the key, optional blanks, then `:`.
pub open spec fn sets_key(l: Chars, k: Chars) -> bool {
    starts_with(l, k) && starts_with(trim_start(l.skip(k.len() as int)), ":"@)
}

/// A frontmatter line that sets one of the host keys.
pub open spec fn sets_host_key(l: Chars) -> bool {
    sets_key(l, "allowed-tools"@) || sets_key(l, "model"@) || sets_key(l, "context"@) || sets_key(
        l,
        "agent"@,
    )
}

/// The frontmatter of a body that starts with `---`: what follows, up to the next line
/// that starts with `---`.
pub open spec fn frontmatter(body: Chars) -> Chars {
    let rest = body.skip(3);
    let end = match find_spec(rest, "\n---"@) {
        Some(e) => e,
        None => rest.len() as int,
    };
    rest.take(end)
}

/// Whether a body's YAML frontmatter names a key the host applies at invocation.
pub open spec fn host_keys_spec(body: Chars) -> bool {
    starts_with(body, "---"@) && exists|i: int|
        0 <= i < lines(frontmatter(body)).len() && sets_host_key(#[trigger] lines(frontmatter(body))[i])
}

/// Whether `l` sets key `k` ([`sets_key`]).
fn sets_key_exec(l: &[char], k: &str) -> (r: bool)
    ensures
        r == sets_key(l@, k@),
{
    let kc = chars_of(k);
    if !crate::text::has_prefix(l, kc.as_slice()) {
        return false;
    }
    let rest = crate::text::skip_chars(l, kc.len());
    let t = trim_start_chars(rest.as_slice());
    crate::text::prefix_lit(t.as_slice(), ":")
}

/// [`host_keys_spec`].
pub fn host_keys(body: &str) -> (r: bool)
    ensures
        r == host_keys_spec(body@),
{
    let b = chars_of(body);
    if !crate::text::prefix_lit(b.as_slice(), "---") {
        return false;
    }
    proof {
        reveal_strlit("---");
    }
    let rest = crate::text::skip_chars(b.as_slice(), 3);
    let pat = chars_of("\n---");
    let end = match find(rest.as_slice(), pat.as_slice()) {
        Some(e) => e,
        None => rest.len(),
    };
    proof {
        if find_spec(rest@, "\n---"@) is Some {
            crate::text::lemma_find_spec_first(rest@, "\n---"@);
        }
    }
    let head = crate::text::string_of(rest.as_slice(), 0, end);
    assert(head@ =~= rest@.take(end as int));
    let ls = lines_vec(head.as_str());
    let ghost lv = views(ls@);
    assert(lv == lines(frontmatter(body@)));
    assert(host_keys_spec(body@) == (exists|m: int| 0 <= m < lv.len() && sets_host_key(#[trigger] lv[m])));
    let mut i: usize = 0;
    while i < ls.len()
        invariant
            i <= ls@.len(),
            lv == views(ls@),
            lv == lines(head@),
            host_keys_spec(body@) == (exists|m: int| 0 <= m < lv.len() && sets_host_key(#[trigger] lv[m])),
            forall|m: int| 0 <= m < i ==> !sets_host_key(#[trigger] lv[m]),
        decreases ls@.len() - i,
    {
        let l = chars_of(ls[i].as_str());
        assert(lv[i as int] == l@);
        if sets_key_exec(l.as_slice(), "allowed-tools") || sets_key_exec(l.as_slice(), "model")
            || sets_key_exec(l.as_slice(), "context") || sets_key_exec(l.as_slice(), "agent") {
            assert(sets_host_key(lv[i as int]));
            return true;
        }
        i += 1;
    }
    false
}

/// The outline walk so far: the map written, whether inside a fenced block, and whether a
/// heading waits for its first line.
pub open spec fn skill_outline_acc(ls: Seq<Chars>) -> (Chars, bool, bool)
    decreases ls.len(),
{
    if ls.len() == 0 {
        (Seq::empty(), false, false)
    } else {
        let (out, fenced, want) = skill_outline_acc(ls.drop_last());
        let t = trim(ls.last());
        if starts_with(t, "```"@) {
            (out, !fenced, want)
        } else if fenced {
            (out, fenced, want)
        } else if starts_with(t, "#"@) {
            (out + t + "\n"@, fenced, true)
        } else if want && t.len() > 0 {
            (out + "  "@ + t + "\n"@, fenced, false)
        } else {
            (out, fenced, want)
        }
    }
}

/// The map of a markdown body: every heading, each with the first non-empty line under it
/// indented; fenced blocks skipped.
pub open spec fn skill_outline_spec(body: Chars) -> Chars {
    skill_outline_acc(lines(body)).0
}

/// [`skill_outline_spec`].
pub fn skill_outline(body: &str) -> (r: String)
    ensures
        r@ == skill_outline_spec(body@),
{
    let ls = lines_vec(body);
    let ghost lv = views(ls@);
    let mut out = String::new();
    let mut fenced = false;
    let mut want = false;
    let mut i: usize = 0;
    while i < ls.len()
        invariant
            i <= ls@.len(),
            lv == views(ls@),
            lv == lines(body@),
            skill_outline_acc(lv.take(i as int)) == (out@, fenced, want),
        decreases ls@.len() - i,
    {
        assert(lv.take(i + 1).drop_last() =~= lv.take(i as int));
        assert(lv.take(i + 1).last() == ls@[i as int]@);
        let l = chars_of(ls[i].as_str());
        let t = trim_chars(l.as_slice());
        if crate::text::prefix_lit(t.as_slice(), "```") {
            fenced = !fenced;
        } else if fenced {
        } else if crate::text::prefix_lit(t.as_slice(), "#") {
            push_all(&mut out, t.as_slice());
            out.append("\n");
            want = true;
        } else if want && t.len() > 0 {
            out.append("  ");
            push_all(&mut out, t.as_slice());
            out.append("\n");
            want = false;
        }
        i += 1;
    }
    assert(lv.take(lv.len() as int) =~= lv);
    out
}

proof fn lemma_outline_scans_agree(ls: Seq<Chars>)
    ensures
        ({
            let (o, f, w) = skill_outline_acc(ls);
            let (hs, f2, slot) = crate::outline::md_scan(ls);
            &&& o == crate::outline::digest_of(hs)
            &&& f == f2
            &&& (w <==> slot is Some)
            &&& (slot matches Some(j) ==> 0 <= j && j == hs.len() - 1 && hs[j].body is None)
        }),
    decreases ls.len(),
{
    if ls.len() > 0 {
        lemma_outline_scans_agree(ls.drop_last());
        reveal_strlit("#");
        assert("#"@ =~= seq!['#']);
        let (o, f, w) = skill_outline_acc(ls.drop_last());
        let (hs, f2, slot) = crate::outline::md_scan(ls.drop_last());
        let t = trim(ls.last());
        assert(starts_with(t, "#"@) == (t.len() > 0 && t[0] == '#')) by {
            if t.len() > 0 {
                assert(t.take(1) =~= seq![t[0]]);
                if t.take(1) == "#"@ {
                    assert(t.take(1)[0] == '#');
                }
                if t[0] == '#' {
                    assert(t.take(1) =~= "#"@);
                }
            }
        }
        if starts_with(t, "```"@) {
        } else if f {
        } else if t.len() > 0 && t[0] == '#' {
            let h = crate::outline::HeadingV {
                line: ls.len() as int,
                level: crate::outline::level_of(t),
                text: t,
                body: None,
            };
            assert(hs.push(h).drop_last() == hs);
            assert(o + t + "\n"@ =~= crate::outline::digest_of(hs) + crate::outline::digest_entry(h));
        } else if w && t.len() > 0 {
            let j = slot->Some_0;
            let h2 = crate::outline::HeadingV { body: Some(t), ..hs[j] };
            let hs2 = hs.update(j, h2);
            assert(hs2.drop_last() =~= hs.drop_last());
            assert(hs2.last() == h2);
            assert(o + "  "@ + t + "\n"@ =~= crate::outline::digest_of(hs.drop_last())
                + crate::outline::digest_entry(h2));
        }
    }
}

/// A skill body's outline and the markdown digest of the same text are one text: every
/// heading, each with its first non-empty line indented, fenced blocks skipped.
pub proof fn law_outlines_agree(src: Chars)
    ensures
        skill_outline_spec(src) == crate::outline::digest_of(crate::outline::md_headings(src)),
{
    lemma_outline_scans_agree(lines(src));
}

// ---------------------------------------------------------------------------------------
// Truncation at a byte cap
// ---------------------------------------------------------------------------------------

/// The characters of the longest prefix of `s`, from `k` on, whose UTF-8 bytes fit `cap`.
pub open spec fn fit_chars(s: Chars, cap: nat, k: int) -> int
    decreases s.len() - k,
{
    if k < 0 || k >= s.len() {
        k
    } else if utf8_len(s.take(k + 1)) <= cap {
        fit_chars(s, cap, k + 1)
    } else {
        k
    }
}

/// A text cut to `cap` bytes at a character boundary, with an ellipsis line end, when it
/// is longer.
pub open spec fn truncate_spec(s: Chars, cap: nat) -> Chars {
    if utf8_len(s) > cap {
        s.take(fit_chars(s, cap, 0)) + "…\n"@
    } else {
        s
    }
}

/// [`truncate_spec`].
pub fn truncate(s: &str, cap: usize) -> (r: String)
    ensures
        r@ == truncate_spec(s@, cap as nat),
{
    let k = fit_count(s, cap);
    let c = chars_of(s);
    if k == c.len() {
        assert(s@.take(k as int) =~= s@);
        return crate::text::copy_str(s);
    }
    let mut out = crate::text::string_of(c.as_slice(), 0, k);
    assert(out@ =~= s@.take(k as int));
    out.append("…\n");
    out
}

/// How many characters of `s` fit in `cap` bytes ([`fit_chars`]), and whether all do.
fn fit_count(s: &str, cap: usize) -> (k: usize)
    ensures
        k <= s@.len(),
        k == fit_chars(s@, cap as nat, 0),
        k == s@.len() ==> utf8_len(s@) <= cap,
        k < s@.len() ==> utf8_len(s@) > cap,
{
    let c = chars_of(s);
    let mut used: usize = 0;
    let mut k: usize = 0;
    assert(s@.take(0) =~= Seq::<char>::empty());
    assert(vstd::utf8::encode_utf8(Seq::<char>::empty()) =~= Seq::<u8>::empty());
    while k < c.len()
        invariant
            k <= c@.len(),
            c@ == s@,
            used == utf8_len(s@.take(k as int)),
            used <= cap,
            fit_chars(s@, cap as nat, 0) == fit_chars(s@, cap as nat, k as int),
        ensures
            k <= c@.len(),
            used == utf8_len(s@.take(k as int)),
            used <= cap,
            fit_chars(s@, cap as nat, k as int) == k,
            k < c@.len() ==> utf8_len(s@.take(k + 1)) > cap,
        decreases c@.len() - k,
    {
        let w = width(c[k]);
        proof {
            lemma_byte_len_step(s@, k as int);
        }
        if w > cap - used {
            break;
        }
        used = used + w;
        k += 1;
    }
    if k == c.len() {
        assert(s@.take(k as int) =~= s@);
    } else {
        proof {
            lemma_prefix_bytes(s@, k + 1);
        }
    }
    k
}

/// `s` cut to its longest prefix of whole characters that fits in `cap` bytes, when it is
/// longer.
pub open spec fn cut_spec(s: Chars, cap: nat) -> Chars {
    if utf8_len(s) > cap {
        s.take(fit_chars(s, cap, 0))
    } else {
        s
    }
}

/// [`cut_spec`].
fn cut_to(s: &str, cap: usize) -> (r: String)
    ensures
        r@ == cut_spec(s@, cap as nat),
{
    let k = fit_count(s, cap);
    let c = chars_of(s);
    if k == c.len() {
        return crate::text::copy_str(s);
    }
    let out = crate::text::string_of(c.as_slice(), 0, k);
    assert(out@ =~= s@.take(k as int));
    out
}

// ---------------------------------------------------------------------------------------
// The decision
// ---------------------------------------------------------------------------------------

/// A skill body is replaced by its map when it is over `cap` bytes and names no host key.
pub open spec fn digests_spec(body: Chars, cap: u64) -> bool {
    byte_len(body) > cap && !host_keys_spec(body)
}

/// [`digests_spec`].
pub fn digests(body: &str, cap: u64) -> (r: bool)
    ensures
        r == digests_spec(body@, cap),
{
    let bytes = body.len() as u64;
    bytes > cap && !host_keys(body)
}

/// The cap left for the map: the cap less room for the intro and the trailer.
pub open spec fn map_cap(cap: u64) -> nat {
    if cap >= 512 {
        (cap - 512) as nat
    } else {
        0
    }
}

/// How the denial opens: the skill's name and the body's size.
pub open spec fn reason_intro(name: Chars, body: Chars) -> Chars {
    "rtok kept the map of skill "@ + name + " ("@ + dec_nat(byte_len(body) / 1024)
        + " KB); the full body is archived, not loaded:\n"@
}

/// How the denial closes: the archive pointer with the line count, and how to pull one
/// section.
pub open spec fn reason_trailer(id: Chars, body: Chars) -> Chars {
    "[rtok "@ + id + " · "@ + dec_nat(lines(body).len()) + " lines · expand: rtok expand "@ + id
        + "]\n"@ + "Pull one section with `rtok expand "@ + id
        + " --grep <heading>`; set [plugins.guard] skills = false to load skills whole."@
}

/// The denial before its final cut: the body's size, its map (cut to leave room for the
/// rest), the archive pointer with the line count, and how to pull one section.
pub open spec fn reason_text(name: Chars, body: Chars, cap: u64, id: Chars) -> Chars {
    reason_intro(name, body) + truncate_spec(skill_outline_spec(body), map_cap(cap))
        + reason_trailer(id, body)
}

/// What the model reads in place of a digested skill: [`reason_text`], cut to `cap` bytes
/// at a character boundary when it is longer, so that the whole reason stays within the
/// cap it enforces.
pub open spec fn skill_reason_spec(name: Chars, body: Chars, cap: u64, id: Chars) -> Chars {
    cut_spec(reason_text(name, body, cap, id), cap as nat)
}

/// [`skill_reason_spec`]: the denial text for skill `name`, archived under `id`.
pub fn skill_reason(name: &str, body: &str, cap: u64, id: &str) -> (r: String)
    requires
        cap <= usize::MAX,
    ensures
        r@ == skill_reason_spec(name@, body@, cap, id@),
{
    let bytes = body.len() as u64;
    let ls = lines_vec(body);
    let outline = skill_outline(body);
    let c = cap as usize;
    let mcap: usize = if c >= 512 {
        c - 512
    } else {
        0
    };
    let map = truncate(outline.as_str(), mcap);
    let mut s = "rtok kept the map of skill ".to_owned();
    s.append(name);
    s.append(" (");
    push_u64(&mut s, bytes / 1024);
    s.append(" KB); the full body is archived, not loaded:\n");
    s.append(map.as_str());
    s.append("[rtok ");
    s.append(id);
    s.append(" · ");
    push_u64(&mut s, ls.len() as u64);
    s.append(" lines · expand: rtok expand ");
    s.append(id);
    s.append("]\n");
    s.append("Pull one section with `rtok expand ");
    s.append(id);
    s.append(" --grep <heading>`; set [plugins.guard] skills = false to load skills whole.");
    assert(views(ls@).len() == ls@.len());
    assert(s@ =~= reason_text(name@, body@, cap, id@));
    cut_to(s.as_str(), c)
}

/// The longest fitting prefix fits.
proof fn lemma_fit_chars(s: Chars, cap: nat, k: int)
    requires
        0 <= k <= s.len(),
        utf8_len(s.take(k)) <= cap,
    ensures
        0 <= fit_chars(s, cap, k) <= s.len(),
        utf8_len(s.take(fit_chars(s, cap, k))) <= cap,
    decreases s.len() - k,
{
    if k < s.len() && utf8_len(s.take(k + 1)) <= cap {
        lemma_fit_chars(s, cap, k + 1);
    }
}

/// A cut text has at most four bytes more than the cap: the ellipsis and the line end.
proof fn lemma_truncate_len(s: Chars, cap: nat)
    ensures
        utf8_len(truncate_spec(s, cap)) <= cap + 4,
{
    if utf8_len(s) > cap {
        assert(s.take(0) =~= Seq::<char>::empty());
        assert(vstd::utf8::encode_utf8(Seq::<char>::empty()) =~= Seq::<u8>::empty());
        lemma_fit_chars(s, cap, 0);
        let k = fit_chars(s, cap, 0);
        lemma_encode_concat(s.take(k), "…\n"@);
        reveal_strlit("…\n");
        assert("…\n"@ =~= seq!['…'] + seq!['\n']);
        lemma_encode_concat(seq!['…'], seq!['\n']);
        lemma_char_width('…');
        lemma_char_width('\n');
    }
}

/// The whole denial stays within the cap it enforces: map, intro and trailer together.
pub proof fn law_reason_within_cap(name: Chars, body: Chars, cap: u64, id: Chars)
    ensures
        utf8_len(skill_reason_spec(name, body, cap, id)) <= cap,
{
    let t = reason_text(name, body, cap, id);
    if utf8_len(t) > cap {
        assert(t.take(0) =~= Seq::<char>::empty());
        assert(vstd::utf8::encode_utf8(Seq::<char>::empty()) =~= Seq::<u8>::empty());
        lemma_fit_chars(t, cap as nat, 0);
    }
}

/// Where the cap leaves the intro and trailer their 512 bytes, nothing of them is cut:
/// the denial is the intro, the map cut to the rest of the cap, and the trailer.
pub proof fn law_reason_keeps_pointer(name: Chars, body: Chars, cap: u64, id: Chars)
    requires
        cap >= 512,
        utf8_len(reason_intro(name, body)) + utf8_len(reason_trailer(id, body)) + 4 <= 512,
    ensures
        skill_reason_spec(name, body, cap, id) == reason_text(name, body, cap, id),
{
    let intro = reason_intro(name, body);
    let map = truncate_spec(skill_outline_spec(body), map_cap(cap));
    let trailer = reason_trailer(id, body);
    lemma_truncate_len(skill_outline_spec(body), map_cap(cap));
    lemma_encode_concat(intro, map);
    lemma_encode_concat(intro + map, trailer);
}

/// A skill whose frontmatter sets a host key (`allowed-tools`, `model`, `context` or
/// `agent`) on one of its lines is loaded whole: it names host keys, and no cap digests it.
pub proof fn law_host_keys_load_whole(body: Chars, m: int, k: Chars, cap: u64)
    requires
        starts_with(body, "---"@),
        0 <= m < lines(frontmatter(body)).len(),
        k == "allowed-tools"@ || k == "model"@ || k == "context"@ || k == "agent"@,
        sets_key(lines(frontmatter(body))[m], k),
    ensures
        host_keys_spec(body),
        !digests_spec(body, cap),
{
    assert(sets_host_key(lines(frontmatter(body))[m]));
}

} // verus!
