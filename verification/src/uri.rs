//! `file://` URIs for the LSP backend: percent-encoding of a path's bytes (RFC 8089 / RFC
//! 3986 path), the decoding that undoes it, and the LSP symbol-kind names.

use vstd::prelude::*;

use crate::text::{chars_of, push_char, starts_with, Chars};
use vstd::utf8::{decode_utf8, encode_utf8, valid_utf8};

verus! {

/// RFC 3986 unreserved bytes: kept as they are.
pub open spec fn unreserved(b: u8) -> bool {
    (0x41 <= b <= 0x5A) || (0x61 <= b <= 0x7A) || (0x30 <= b <= 0x39) || b == 0x2D || b == 0x2E
        || b == 0x5F || b == 0x7E
}

/// Upper-case hex digit for `d < 16`.
pub open spec fn hex_upper(d: u8) -> u8 {
    if d < 10 {
        (0x30 + d) as u8
    } else {
        (0x41 + d - 10) as u8
    }
}

/// `char::to_digit(16)` on a byte: `0-9`, `a-f`, `A-F`.
pub open spec fn hex_value(b: u8) -> Option<u8> {
    if 0x30 <= b <= 0x39 {
        Some((b - 0x30) as u8)
    } else if 0x61 <= b <= 0x66 {
        Some((b - 0x61 + 10) as u8)
    } else if 0x41 <= b <= 0x46 {
        Some((b - 0x41 + 10) as u8)
    } else {
        None
    }
}

/// One byte as it appears in an encoded path: itself, or `%XX`.
pub open spec fn byte_enc(b: u8) -> Seq<u8> {
    if unreserved(b) {
        seq![b]
    } else {
        seq![0x25u8, hex_upper(b / 16), hex_upper(b % 16)]
    }
}

/// Every byte of a segment encoded.
pub open spec fn enc_bytes(seg: Seq<u8>) -> Seq<u8>
    decreases seg.len(),
{
    if seg.len() == 0 {
        Seq::empty()
    } else {
        byte_enc(seg[0]) + enc_bytes(seg.drop_first())
    }
}

/// Length of the first `/`-separated segment of `bs`.
pub open spec fn seg_end(bs: Seq<u8>) -> int
    decreases bs.len(),
{
    if bs.len() == 0 || bs[0] == 0x2Fu8 {
        0
    } else {
        1 + seg_end(bs.drop_first())
    }
}

/// A Windows drive segment (`C:`) is kept whole so language servers accept the URI.
pub open spec fn is_drive(seg: Seq<u8>) -> bool {
    seg.len() == 2 && seg[1] == 0x3Au8
}

/// The encoded form of a path's bytes: segment by segment, `/` kept.
pub open spec fn pct_encode(bs: Seq<u8>) -> Seq<u8>
    decreases bs.len(),
{
    if bs.len() == 0 {
        Seq::empty()
    } else {
        let k = seg_end(bs);
        proof {
            lemma_seg_end_bounds(bs);
        }
        let seg = bs.take(k);
        let e = if is_drive(seg) {
            seg
        } else {
            enc_bytes(seg)
        };
        if k < bs.len() {
            e + seq![0x2Fu8] + pct_encode(bs.skip(k + 1))
        } else {
            e
        }
    }
}

/// Percent-decoding: `%XX` with two hex digits becomes the byte `XX`; anything else is
/// kept as it is.
pub open spec fn pct_decode(bs: Seq<u8>) -> Seq<u8>
    decreases bs.len(),
{
    if bs.len() == 0 {
        Seq::empty()
    } else if bs[0] == 0x25u8 && 2 < bs.len() && hex_value(bs[1]) is Some && hex_value(
        bs[2],
    ) is Some {
        seq![(hex_value(bs[1])->Some_0 * 16 + hex_value(bs[2])->Some_0) as u8] + pct_decode(
            bs.skip(3),
        )
    } else {
        seq![bs[0]] + pct_decode(bs.drop_first())
    }
}

/// ASCII bytes read as characters.
pub open spec fn ascii_chars(bs: Seq<u8>) -> Chars {
    bs.map_values(|b: u8| b as char)
}

/// The text `String::from_utf8_lossy` reads bytes as: their UTF-8 text, with each
/// invalid sequence replaced by U+FFFD.
pub uninterp spec fn lossy_text(bytes: Seq<u8>) -> Chars;

/// `String::from_utf8_lossy(bytes).into_owned()`, named [`lossy_text`]; for valid UTF-8
/// it is the decoded text, as the documentation says.
#[verifier::external_body]
fn utf8_lossy(bytes: &[u8]) -> (r: String)
    ensures
        r@ == lossy_text(bytes@),
        valid_utf8(bytes@) ==> r@ == decode_utf8(bytes@),
{
    String::from_utf8_lossy(bytes).into_owned()
}

fn hex_upper_exec(d: u8) -> (r: u8)
    requires
        d < 16,
    ensures
        r == hex_upper(d),
{
    if d < 10 {
        0x30 + d
    } else {
        0x41 + d - 10
    }
}

fn hex_value_exec(b: u8) -> (r: Option<u8>)
    ensures
        r == hex_value(b),
{
    if 0x30 <= b && b <= 0x39 {
        Some(b - 0x30)
    } else if 0x61 <= b && b <= 0x66 {
        Some(b - 0x61 + 10)
    } else if 0x41 <= b && b <= 0x46 {
        Some(b - 0x41 + 10)
    } else {
        None
    }
}

fn is_unreserved(b: u8) -> (r: bool)
    ensures
        r == unreserved(b),
{
    (0x41 <= b && b <= 0x5A) || (0x61 <= b && b <= 0x7A) || (0x30 <= b && b <= 0x39) || b == 0x2D
        || b == 0x2E || b == 0x5F || b == 0x7E
}

/// Where the first segment ends.
pub proof fn lemma_seg_end_bounds(bs: Seq<u8>)
    ensures
        0 <= seg_end(bs) <= bs.len(),
        seg_end(bs) < bs.len() ==> bs[seg_end(bs)] == 0x2Fu8,
        forall|i: int| 0 <= i < seg_end(bs) ==> bs[i] != 0x2Fu8,
    decreases bs.len(),
{
    if bs.len() > 0 && bs[0] != 0x2Fu8 {
        lemma_seg_end_bounds(bs.drop_first());
        assert forall|i: int| 0 <= i < seg_end(bs) implies bs[i] != 0x2Fu8 by {
            if i > 0 {
                assert(bs[i] == bs.drop_first()[i - 1]);
            }
        }
    }
}

/// `seg_end` counted from `i` inside `bs`.
proof fn lemma_seg_end_from(bs: Seq<u8>, i: int, j: int)
    requires
        0 <= i <= j <= bs.len(),
        forall|t: int| i <= t < j ==> bs[t] != 0x2Fu8,
        j == bs.len() || bs[j] == 0x2Fu8,
    ensures
        seg_end(bs.skip(i)) == j - i,
    decreases j - i,
{
    if i < j {
        assert(bs.skip(i).drop_first() == bs.skip(i + 1));
        lemma_seg_end_from(bs, i + 1, j);
    }
}

proof fn lemma_enc_bytes_push(seg: Seq<u8>, b: u8)
    ensures
        enc_bytes(seg.push(b)) == enc_bytes(seg) + byte_enc(b),
    decreases seg.len(),
{
    if seg.len() == 0 {
        assert(seg.push(b).drop_first() =~= Seq::<u8>::empty());
        assert(enc_bytes(seg.push(b)) == byte_enc(b) + enc_bytes(Seq::<u8>::empty()));
    } else {
        assert(seg.push(b).drop_first() =~= seg.drop_first().push(b));
        lemma_enc_bytes_push(seg.drop_first(), b);
        assert(enc_bytes(seg.push(b)) == byte_enc(seg[0]) + enc_bytes(seg.drop_first().push(b)));
    }
}

/// Appends the encoding of `bs[lo..hi]`, byte by byte.
fn push_encoded(out: &mut Vec<u8>, bs: &[u8], lo: usize, hi: usize)
    requires
        lo <= hi <= bs@.len(),
    ensures
        final(out)@ == old(out)@ + enc_bytes(bs@.subrange(lo as int, hi as int)),
{
    let mut i = lo;
    while i < hi
        invariant
            lo <= i <= hi <= bs@.len(),
            out@ == old(out)@ + enc_bytes(bs@.subrange(lo as int, i as int)),
        decreases hi - i,
    {
        let b = bs[i];
        proof {
            assert(bs@.subrange(lo as int, i + 1) == bs@.subrange(lo as int, i as int).push(b));
            lemma_enc_bytes_push(bs@.subrange(lo as int, i as int), b);
        }
        if is_unreserved(b) {
            out.push(b);
        } else {
            out.push(0x25);
            out.push(hex_upper_exec(b / 16));
            out.push(hex_upper_exec(b % 16));
        }
        i += 1;
    }
}

/// The encoded bytes of `bs`.
fn encode_bytes(bs: &[u8]) -> (out: Vec<u8>)
    ensures
        out@ == pct_encode(bs@),
{
    let mut out: Vec<u8> = Vec::new();
    let n = bs.len();
    let mut i: usize = 0;
    assert(bs@.skip(0) == bs@);
    // `i` is the start of the next segment.
    while i < n
        invariant
            n == bs@.len(),
            i <= n,
            pct_encode(bs@) == out@ + pct_encode(bs@.skip(i as int)),
        decreases n - i,
    {
        let ghost rest = bs@.skip(i as int);
        let ghost before = out@;
        // Find the end of this segment.
        let mut j = i;
        while j < n && bs[j] != 0x2F
            invariant
                i <= j <= n,
                n == bs@.len(),
                forall|t: int| i <= t < j ==> bs@[t] != 0x2Fu8,
            decreases n - j,
        {
            j += 1;
        }
        proof {
            lemma_seg_end_from(bs@, i as int, j as int);
            assert(rest.take(j - i) =~= bs@.subrange(i as int, j as int));
        }
        if j - i == 2 && bs[i + 1] == 0x3A {
            out.push(bs[i]);
            out.push(bs[i + 1]);
            assert(bs@.subrange(i as int, j as int) =~= seq![bs@[i as int], bs@[i + 1]]);
        } else {
            push_encoded(&mut out, bs, i, j);
        }
        if j == n {
            return out;
        }
        out.push(0x2F);
        assert(rest.skip(j - i + 1) =~= bs@.skip(j + 1));
        i = j + 1;
    }
    assert(bs@.skip(i as int) =~= Seq::<u8>::empty());
    out
}

/// Percent-encode a path for a `file://` URI: bytes outside the RFC 3986 unreserved set
/// become `%XX`; `/` and a Windows drive segment (`C:`) stay as they are.
pub fn percent_encode_path(s: &str) -> (r: String)
    ensures
        r@ == ascii_chars(pct_encode(encode_utf8(s@))),
{
    let out = encode_bytes(s.as_bytes());
    let mut r = String::new();
    let mut i: usize = 0;
    while i < out.len()
        invariant
            i <= out@.len(),
            r@ == ascii_chars(out@.take(i as int)),
        decreases out@.len() - i,
    {
        push_char(&mut r, out[i] as char);
        assert(ascii_chars(out@.take(i + 1)) =~= ascii_chars(out@.take(i as int)).push(
            out@[i as int] as char,
        ));
        i += 1;
    }
    assert(out@.take(out@.len() as int) == out@);
    r
}

/// The decoded bytes of `bs`.
fn decode_bytes(bs: &[u8]) -> (out: Vec<u8>)
    ensures
        out@ == pct_decode(bs@),
{
    let mut out: Vec<u8> = Vec::new();
    let n = bs.len();
    let mut i: usize = 0;
    assert(bs@.skip(0) == bs@);
    while i < n
        invariant
            n == bs@.len(),
            i <= n,
            pct_decode(bs@) == out@ + pct_decode(bs@.skip(i as int)),
        decreases n - i,
    {
        let rest = Ghost(bs@.skip(i as int));
        if bs[i] == 0x25 && n - i > 2 {
            let h = hex_value_exec(bs[i + 1]);
            let l = hex_value_exec(bs[i + 2]);
            match (h, l) {
                (Some(h), Some(l)) => {
                    assert(rest@[1] == bs@[i + 1] && rest@[2] == bs@[i + 2]);
                    assert(rest@.skip(3) =~= bs@.skip(i + 3));
                    out.push(h * 16 + l);
                    i += 3;
                    continue;
                },
                _ => {},
            }
        }
        assert(rest@.drop_first() =~= bs@.skip(i + 1));
        out.push(bs[i]);
        i += 1;
    }
    assert(bs@.skip(n as int) =~= Seq::<u8>::empty());
    out
}

/// Undo [`percent_encode_path`]: `%XX` with two hex digits becomes the byte `XX`, then the
/// bytes are read as UTF-8 (lossily when they are not).
pub fn percent_decode_path(s: &str) -> (r: String)
    ensures
        r@ == lossy_text(pct_decode(encode_utf8(s@))),
        valid_utf8(pct_decode(encode_utf8(s@))) ==> r@ == decode_utf8(
            pct_decode(encode_utf8(s@)),
        ),
{
    let out = decode_bytes(s.as_bytes());
    utf8_lossy(out.as_slice())
}

/// The path a `file://` URI names. On Windows (`windows`), `file:///C:/…` names the drive
/// path `C:/…`; elsewhere the root slash is kept.
pub fn path_from_file_uri(uri: &str, windows: bool) -> (r: String)
    ensures
        ({
            let rest = if starts_with(uri@, "file://"@) {
                uri@.skip(7)
            } else {
                uri@
            };
            let p = lossy_text(pct_decode(encode_utf8(rest)));
            let t = trim_slashes(p);
            &&& r@ == if windows && t.len() >= 2 && t[1] == ':' {
                t
            } else {
                p
            }
            &&& valid_utf8(pct_decode(encode_utf8(rest))) ==> p == decode_utf8(
                pct_decode(encode_utf8(rest)),
            )
        }),
{
    let u = chars_of(uri);
    let scheme = chars_of("file://");
    proof {
        reveal_strlit("file://");
    }
    let rest_chars = if crate::text::has_prefix(u.as_slice(), scheme.as_slice()) {
        tail(u.as_slice(), 7)
    } else {
        u
    };
    let rest = crate::text::string_from(rest_chars.as_slice());
    let decoded = percent_decode_path(rest.as_str());
    if windows {
        let d = chars_of(decoded.as_str());
        let k = leading_slashes(d.as_slice());
        if d.len() - k >= 2 && d[k + 1] == ':' {
            let t = crate::text::string_of(d.as_slice(), k, d.len());
            assert(d@.subrange(k as int, d@.len() as int) == d@.skip(k as int));
            return t;
        }
    }
    decoded
}

/// `s` without its leading `/`s (`str::trim_start_matches('/')`).
pub open spec fn trim_slashes(s: Chars) -> Chars
    decreases s.len(),
{
    if s.len() > 0 && s[0] == '/' {
        trim_slashes(s.drop_first())
    } else {
        s
    }
}

fn leading_slashes(d: &[char]) -> (k: usize)
    ensures
        k <= d@.len(),
        trim_slashes(d@) == d@.skip(k as int),
{
    let mut k: usize = 0;
    assert(d@.skip(0) == d@);
    while k < d.len() && d[k] == '/'
        invariant
            k <= d@.len(),
            trim_slashes(d@) == trim_slashes(d@.skip(k as int)),
        decreases d@.len() - k,
    {
        assert(d@.skip(k as int).drop_first() =~= d@.skip(k + 1));
        k += 1;
    }
    k
}

fn tail(v: &[char], from: usize) -> (r: Vec<char>)
    requires
        from <= v@.len(),
    ensures
        r@ == v@.skip(from as int),
{
    let mut r: Vec<char> = Vec::new();
    let mut i = from;
    while i < v.len()
        invariant
            from <= i <= v@.len(),
            r@ == v@.subrange(from as int, i as int),
        decreases v@.len() - i,
    {
        r.push(v[i]);
        i += 1;
    }
    r
}

/// The LSP `SymbolKind` names the outline prints.
pub fn kind_name(k: u64) -> (s: &'static str)
    ensures
        s@ == kind_name_spec(k),
{
    match k {
        5 => "class",
        6 => "method",
        11 => "enum",
        12 => "function",
        13 => "variable",
        23 => "struct",
        _ => "symbol",
    }
}

/// `SymbolKind` number to name.
pub open spec fn kind_name_spec(k: u64) -> Chars {
    if k == 5 {
        "class"@
    } else if k == 6 {
        "method"@
    } else if k == 11 {
        "enum"@
    } else if k == 12 {
        "function"@
    } else if k == 13 {
        "variable"@
    } else if k == 23 {
        "struct"@
    } else {
        "symbol"@
    }
}

// ---------------------------------------------------------------------------------------
// Laws
// ---------------------------------------------------------------------------------------

proof fn lemma_hex_roundtrip(b: u8)
    ensures
        hex_value(hex_upper(b / 16)) == Some((b / 16) as u8),
        hex_value(hex_upper(b % 16)) == Some((b % 16) as u8),
        (b / 16) * 16 + b % 16 == b,
{
}

/// Decoding an encoded segment followed by anything gives the segment back, then the
/// decoding of what follows.
proof fn lemma_decode_enc_bytes(seg: Seq<u8>, rest: Seq<u8>)
    ensures
        pct_decode(enc_bytes(seg) + rest) == seg + pct_decode(rest),
    decreases seg.len(),
{
    if seg.len() == 0 {
        assert(enc_bytes(seg) + rest =~= rest);
        assert(seg + pct_decode(rest) =~= pct_decode(rest));
    } else {
        let b = seg[0];
        let tail_enc = enc_bytes(seg.drop_first()) + rest;
        lemma_decode_enc_bytes(seg.drop_first(), rest);
        assert(enc_bytes(seg) + rest =~= byte_enc(b) + tail_enc);
        let w = byte_enc(b) + tail_enc;
        if unreserved(b) {
            assert(w[0] == b);
            assert(w.drop_first() =~= tail_enc);
        } else {
            lemma_hex_roundtrip(b);
            assert(w[0] == 0x25u8 && w[1] == hex_upper(b / 16) && w[2] == hex_upper(b % 16));
            assert(w.skip(3) =~= tail_enc);
        }
        assert(seg =~= seq![b] + seg.drop_first());
    }
}

/// A drive segment decodes to itself: its `:` is not a hex digit.
proof fn lemma_decode_drive(seg: Seq<u8>, rest: Seq<u8>)
    requires
        is_drive(seg),
    ensures
        pct_decode(seg + rest) == seg + pct_decode(rest),
{
    let w = seg + rest;
    assert(w[1] == 0x3Au8);
    assert(w.drop_first() =~= seq![0x3Au8] + rest);
    let w2 = seq![0x3Au8] + rest;
    assert(w2.drop_first() =~= rest);
    assert(pct_decode(w2) == seq![0x3Au8] + pct_decode(rest));
    assert(seg =~= seq![seg[0], 0x3Au8]);
}

/// Decoding undoes encoding: a path's bytes survive the round trip through a
/// `file://` URI unchanged.
pub proof fn law_decode_encode(bs: Seq<u8>)
    ensures
        pct_decode(pct_encode(bs)) == bs,
    decreases bs.len(),
{
    if bs.len() > 0 {
        lemma_seg_end_bounds(bs);
        let k = seg_end(bs);
        let seg = bs.take(k);
        let tl = if k < bs.len() {
            seq![0x2Fu8] + pct_encode(bs.skip(k + 1))
        } else {
            Seq::empty()
        };
        if k < bs.len() {
            law_decode_encode(bs.skip(k + 1));
            let t = seq![0x2Fu8] + pct_encode(bs.skip(k + 1));
            assert(t.drop_first() =~= pct_encode(bs.skip(k + 1)));
            assert(pct_decode(t) == seq![0x2Fu8] + bs.skip(k + 1));
        } else {
            assert(pct_decode(tl) == Seq::<u8>::empty());
        }
        if is_drive(seg) {
            lemma_decode_drive(seg, tl);
            assert(pct_encode(bs) == seg + tl);
        } else {
            lemma_decode_enc_bytes(seg, tl);
            assert(pct_encode(bs) == enc_bytes(seg) + tl);
        }
        if k < bs.len() {
            assert(bs =~= seg + (seq![0x2Fu8] + bs.skip(k + 1)));
        } else {
            assert(bs =~= seg);
        }
    }
}

/// The text form of the round trip: decoding an encoded path gives the path back.
pub proof fn law_decode_encode_text(s: Chars)
    ensures
        pct_decode(pct_encode(encode_utf8(s))) == encode_utf8(s),
        decode_utf8(pct_decode(pct_encode(encode_utf8(s)))) == s,
{
    law_decode_encode(encode_utf8(s));
    vstd::utf8::encode_utf8_decode_utf8(s);
}

/// Every byte is ASCII.
pub open spec fn all_ascii(bs: Seq<u8>) -> bool {
    forall|i: int| 0 <= i < bs.len() ==> #[trigger] bs[i] < 0x80u8
}

proof fn lemma_enc_bytes_ascii(seg: Seq<u8>)
    ensures
        all_ascii(enc_bytes(seg)),
    decreases seg.len(),
{
    if seg.len() > 0 {
        lemma_enc_bytes_ascii(seg.drop_first());
        let b = seg[0];
        let e = byte_enc(b);
        assert(all_ascii(e)) by {
            if !unreserved(b) {
                assert(b / 16 < 16 && b % 16 < 16);
            }
        }
        let r = enc_bytes(seg.drop_first());
        assert forall|i: int| 0 <= i < (e + r).len() implies #[trigger] (e + r)[i] < 0x80u8 by {
            if i < e.len() {
                assert((e + r)[i] == e[i]);
            } else {
                assert((e + r)[i] == r[i - e.len()]);
            }
        }
    }
}

/// In valid UTF-8, a byte followed by `:` is ASCII when it opens the text.
proof fn lemma_drive_letter_ascii(s: Seq<u8>)
    requires
        valid_utf8(s),
        s.len() >= 2,
        s[1] == 0x3Au8,
    ensures
        s[0] < 0x80u8,
{
    assert(vstd::utf8::valid_first_scalar(s));
}

/// In valid UTF-8, what follows a `/` is valid UTF-8 again.
proof fn lemma_after_slash_valid(bs: Seq<u8>, o: int)
    requires
        valid_utf8(bs),
        0 < o <= bs.len(),
        bs[o - 1] == 0x2Fu8,
    ensures
        valid_utf8(bs.skip(o)),
{
    vstd::utf8::is_char_boundary_iff_not_is_continuation_byte(bs, o - 1);
    vstd::utf8::valid_utf8_split(bs, o - 1);
    let t = bs.subrange(o - 1, bs.len() as int);
    assert(t[0] == 0x2Fu8);
    assert(vstd::utf8::valid_first_scalar(t));
    assert(vstd::utf8::pop_first_scalar(t) =~= bs.skip(o));
}

/// The encoded form of valid UTF-8 is ASCII: every byte outside the unreserved set
/// became `%XX`, and a kept drive segment is a letter and a colon.
pub proof fn law_encoded_is_ascii(bs: Seq<u8>)
    requires
        valid_utf8(bs),
    ensures
        all_ascii(pct_encode(bs)),
    decreases bs.len(),
{
    if bs.len() > 0 {
        lemma_seg_end_bounds(bs);
        let k = seg_end(bs);
        let seg = bs.take(k);
        let e = if is_drive(seg) {
            seg
        } else {
            enc_bytes(seg)
        };
        if is_drive(seg) {
            lemma_drive_letter_ascii(bs);
            assert(seg[1] == bs[1]);
        } else {
            lemma_enc_bytes_ascii(seg);
        }
        assert(all_ascii(e));
        if k < bs.len() {
            lemma_after_slash_valid(bs, k + 1);
            law_encoded_is_ascii(bs.skip(k + 1));
            let r = pct_encode(bs.skip(k + 1));
            let whole = e + seq![0x2Fu8] + r;
            assert forall|i: int| 0 <= i < whole.len() implies #[trigger] whole[i] < 0x80u8 by {
                if i < e.len() {
                    assert(whole[i] == e[i]);
                } else if i == e.len() {
                } else {
                    assert(whole[i] == r[i - e.len() - 1]);
                }
            }
        }
    }
}

/// ASCII bytes read as characters encode back to the same bytes.
proof fn lemma_ascii_chars_encode(bs: Seq<u8>)
    requires
        all_ascii(bs),
    ensures
        encode_utf8(ascii_chars(bs)) == bs,
{
    let cs = ascii_chars(bs);
    assert(vstd::utf8::is_ascii_chars(cs)) by {
        assert forall|i: int| 0 <= i < cs.len() implies '\0' <= #[trigger] cs[i] <= '\u{7f}' by {
            assert(bs[i] < 0x80u8);
            assert(cs[i] == bs[i] as char);
        }
    }
    vstd::utf8::is_ascii_chars_encode_utf8(cs);
    assert forall|i: int| 0 <= i < bs.len() implies encode_utf8(cs)[i] == bs[i] by {
        assert(cs[i] == bs[i] as char);
        assert((bs[i] as char) as u8 == bs[i]);
    }
    assert(encode_utf8(cs) =~= bs);
}

/// Decoding the encoded text gives the text back, as strings: the encoded string is
/// ASCII, so its bytes are the encoded bytes, and those decode to the original bytes.
pub proof fn law_decode_encode_path(s: Chars, encoded: Chars)
    requires
        encoded == ascii_chars(pct_encode(encode_utf8(s))),
    ensures
        valid_utf8(pct_decode(encode_utf8(encoded))),
        decode_utf8(pct_decode(encode_utf8(encoded))) == s,
{
    vstd::utf8::encode_utf8_valid_utf8(s);
    law_encoded_is_ascii(encode_utf8(s));
    lemma_ascii_chars_encode(pct_encode(encode_utf8(s)));
    law_decode_encode_text(s);
    vstd::utf8::encode_utf8_valid_utf8(s);
}

} // verus!
