//! Comments taken out of source text, newlines kept, so that every line of the result
//! stands where it stood in the source. The syntax tree is read as a plain value: each
//! node's kind, its byte span and its children.

use vstd::prelude::*;
use vstd::utf8::{decode_utf8, encode_utf8, valid_utf8};

use crate::text::contains;

verus! {

/// One node of a parsed file: its grammar kind, the field name it holds in its parent
/// (if any), the bytes it spans, the rows (from 0) it starts and ends on, and its
/// children.
pub struct SyntaxNode {
    pub kind: String,
    pub field: Option<String>,
    pub start: usize,
    pub end: usize,
    pub start_row: usize,
    pub end_row: usize,
    pub children: Vec<SyntaxNode>,
}

/// A comment node: its kind names a comment (`line_comment`, `block_comment`, `comment`).
pub open spec fn is_comment(n: SyntaxNode) -> bool {
    contains(n.kind@, "comment"@)
}

/// `a.min(b)`.
pub open spec fn min(a: int, b: int) -> int {
    if a <= b {
        a
    } else {
        b
    }
}

/// Byte `i` of a text of `len` bytes lies in a comment under `n`: a comment node covers its
/// span, clipped to the text; any other node covers what its children cover. A comment's
/// children are not looked at.
pub open spec fn covers(n: SyntaxNode, len: int, i: int) -> bool
    decreases n, 0int,
{
    if is_comment(n) {
        min(n.start as int, len) <= i < min(n.end as int, len)
    } else {
        covers_any(n.children@, len, i)
    }
}

/// One of the nodes `cs` covers byte `i`.
pub open spec fn covers_any(cs: Seq<SyntaxNode>, len: int, i: int) -> bool
    decreases cs, 1int,
{
    if cs.len() == 0 {
        false
    } else {
        covers_any(cs.drop_last(), len, i) || covers(cs.last(), len, i)
    }
}

/// Every comment under `n` spans forwards once clipped to a text of `len` bytes (as a
/// parser's nodes do).
pub open spec fn spans_ok(n: SyntaxNode, len: int) -> bool
    decreases n, 0int,
{
    if is_comment(n) {
        min(n.start as int, len) <= min(n.end as int, len)
    } else {
        spans_ok_all(n.children@, len)
    }
}

/// [`spans_ok`] of every node of `cs`.
pub open spec fn spans_ok_all(cs: Seq<SyntaxNode>, len: int) -> bool
    decreases cs, 1int,
{
    if cs.len() == 0 {
        true
    } else {
        spans_ok_all(cs.drop_last(), len) && spans_ok(cs.last(), len)
    }
}

/// The first `k` bytes of `bytes`, with each byte a comment covers left out unless it is a
/// newline.
pub open spec fn kept_upto(bytes: Seq<u8>, root: SyntaxNode, k: int) -> Seq<u8>
    decreases k,
{
    if k <= 0 {
        Seq::empty()
    } else {
        let prev = kept_upto(bytes, root, k - 1);
        if !covers(root, bytes.len() as int, k - 1) || bytes[k - 1] == 10u8 {
            prev.push(bytes[k - 1])
        } else {
            prev
        }
    }
}

/// The bytes of `bytes` that stay once the comments under `root` are dropped.
pub open spec fn kept(bytes: Seq<u8>, root: SyntaxNode) -> Seq<u8> {
    kept_upto(bytes, root, bytes.len() as int)
}

/// The text with its comments dropped: the kept bytes read as UTF-8, or the source itself
/// when they are not valid UTF-8.
pub open spec fn strip_spec(src: Seq<char>, root: SyntaxNode) -> Seq<char> {
    let k = kept(encode_utf8(src), root);
    if valid_utf8(k) {
        decode_utf8(k)
    } else {
        src
    }
}

/// How many newline bytes `s` holds.
pub open spec fn newlines(s: Seq<u8>) -> nat
    decreases s.len(),
{
    if s.len() == 0 {
        0
    } else {
        newlines(s.drop_last()) + if s.last() == 10u8 {
            1nat
        } else {
            0nat
        }
    }
}

/// `String::from_utf8`: the text whose UTF-8 bytes are `bytes`, when they are valid UTF-8.
#[verifier::external_body]
pub(crate) fn utf8_text(bytes: Vec<u8>) -> (r: Option<String>)
    ensures
        r is Some <==> valid_utf8(bytes@),
        r matches Some(s) ==> encode_utf8(s@) == bytes@,
{
    String::from_utf8(bytes).ok()
}

/// Marks in `drop` every byte a comment under `node` covers.
pub fn mark_comments(node: &SyntaxNode, drop: &mut Vec<bool>)
    requires
        spans_ok(*node, old(drop)@.len() as int),
    ensures
        final(drop)@.len() == old(drop)@.len(),
        forall|i: int|
            0 <= i < old(drop)@.len() ==> final(drop)@[i] == (old(drop)@[i] || covers(
                *node,
                old(drop)@.len() as int,
                i,
            )),
    decreases node, 0int,
{
    let len = drop.len();
    let ghost before = drop@;
    if crate::text::contains_lit(crate::text::chars_of(node.kind.as_str()).as_slice(), "comment") {
        let start = if node.start < len {
            node.start
        } else {
            len
        };
        let end = if node.end < len {
            node.end
        } else {
            len
        };
        let mut j = start;
        while j < end
            invariant
                start <= j <= end <= len,
                len == drop@.len(),
                before.len() == len,
                forall|i: int|
                    0 <= i < len ==> drop@[i] == (before[i] || (start <= i < j)),
            decreases end - j,
        {
            drop.set(j, true);
            j += 1;
        }
        assert(forall|i: int| 0 <= i < len ==> covers(*node, len as int, i) == (start <= i < end));
    } else {
        let mut k: usize = 0;
        while k < node.children.len()
            invariant
                k <= node.children@.len(),
                len == drop@.len(),
                before.len() == len,
                !is_comment(*node),
                spans_ok_all(node.children@, len as int),
                forall|i: int|
                    0 <= i < len ==> drop@[i] == (before[i] || covers_any(
                        node.children@.take(k as int),
                        len as int,
                        i,
                    )),
            decreases node.children@.len() - k,
        {
            let ghost mid = drop@;
            assert(forall|i: int|
                0 <= i < len ==> #[trigger] mid[i] == (before[i] || covers_any(
                    node.children@.take(k as int),
                    len as int,
                    i,
                )));
            assert(node.children@.take(k + 1).drop_last() == node.children@.take(k as int));
            assert(node.children@.take(k + 1).last() == node.children@[k as int]);
            proof {
                lemma_spans_ok_at(node.children@, len as int, k as int);
            }
            let child = &node.children[k];
            assert(*child == node.children@[k as int]);
            mark_comments(child, drop);
            assert forall|i: int| 0 <= i < len implies drop@[i] == (before[i] || covers_any(
                node.children@.take(k + 1),
                len as int,
                i,
            )) by {
                assert(drop@[i] == (mid[i] || covers(*child, len as int, i)));
                assert(mid[i] == (before[i] || covers_any(node.children@.take(k as int), len as int, i)));
                assert(covers_any(node.children@.take(k + 1), len as int, i) == (covers_any(
                    node.children@.take(k as int),
                    len as int,
                    i,
                ) || covers(node.children@[k as int], len as int, i)));
            }
            k += 1;
        }
        assert(node.children@.take(node.children@.len() as int) == node.children@);
        assert(forall|i: int| 0 <= i < len ==> covers(*node, len as int, i) == covers_any(node.children@, len as int, i));
    }
}

/// Each node of a list whose spans are in order has its spans in order.
proof fn lemma_spans_ok_at(cs: Seq<SyntaxNode>, len: int, k: int)
    requires
        spans_ok_all(cs, len),
        0 <= k < cs.len(),
    ensures
        spans_ok(cs[k], len),
    decreases cs.len(),
{
    if k < cs.len() - 1 {
        lemma_spans_ok_at(cs.drop_last(), len, k);
    }
}

/// `src` with the comments under `root` taken out and every newline kept, so that line
/// numbers still match the source; the source itself when what is left is not UTF-8.
pub fn drop_comments(src: &str, root: &SyntaxNode) -> (r: String)
    requires
        spans_ok(*root, encode_utf8(src@).len() as int),
    ensures
        r@ == strip_spec(src@, *root),
{
    let bytes = src.as_bytes();
    let n = bytes.len();
    let mut drop: Vec<bool> = Vec::new();
    while drop.len() < n
        invariant
            drop@.len() <= n,
            forall|i: int| 0 <= i < drop@.len() ==> !drop@[i],
        decreases n - drop@.len(),
    {
        drop.push(false);
    }
    mark_comments(root, &mut drop);
    let mut out: Vec<u8> = Vec::new();
    let mut i: usize = 0;
    while i < n
        invariant
            n == bytes@.len(),
            bytes@ == encode_utf8(src@),
            drop@.len() == n,
            i <= n,
            forall|m: int| 0 <= m < n ==> drop@[m] == covers(*root, n as int, m),
            out@ == kept_upto(bytes@, *root, i as int),
        decreases n - i,
    {
        if !drop[i] || bytes[i] == 10u8 {
            out.push(bytes[i]);
        }
        i += 1;
    }
    match utf8_text(out) {
        Some(s) => {
            proof {
                vstd::utf8::encode_utf8_decode_utf8(s@);
            }
            s
        },
        None => crate::text::copy_str(src),
    }
}

/// The kept prefix holds as many newlines as the source prefix it comes from.
proof fn lemma_kept_newlines(bytes: Seq<u8>, root: SyntaxNode, k: int)
    requires
        0 <= k <= bytes.len(),
    ensures
        newlines(kept_upto(bytes, root, k)) == newlines(bytes.take(k)),
    decreases k,
{
    if k > 0 {
        lemma_kept_newlines(bytes, root, k - 1);
        assert(bytes.take(k).drop_last() == bytes.take(k - 1));
        let prev = kept_upto(bytes, root, k - 1);
        assert(prev.push(bytes[k - 1]).drop_last() == prev);
    }
}

/// Dropping comments keeps every line: the text returned holds exactly as many newlines
/// as the source.
pub proof fn law_lines_kept(src: Seq<char>, root: SyntaxNode)
    ensures
        newlines(encode_utf8(strip_spec(src, root))) == newlines(encode_utf8(src)),
{
    let b = encode_utf8(src);
    let k = kept(b, root);
    lemma_kept_newlines(b, root, b.len() as int);
    assert(b.take(b.len() as int) == b);
    if valid_utf8(k) {
        vstd::utf8::decode_utf8_encode_utf8(k);
    }
}

} // verus!
