//! The proxy's opt-in response cache: which requests may be answered from it, the text a
//! request contributes to its key, and the two tiers it keeps. The direct tier answers the
//! very same prompt; the semantic tier keeps, per prompt, the rows that similar prompts are
//! compared with. Both forget what is older than the configured lifetime, and a failed
//! reply is never kept.

use vstd::prelude::*;
use vstd::utf8::encode_utf8;

use crate::digest::{hex_lower, hex_sha256, sha256_digest};
use crate::text::{join, Chars};

verus! {

/// What [`eligible`] reads of a request body.
pub struct RequestShape {
    /// `stream` is `true`.
    pub stream: bool,
    /// The role of each message, where it is a text; `None` when `messages` is not a list.
    pub roles: Option<Vec<Option<String>>>,
    /// The length of `tools`, when it is a list.
    pub tools: Option<usize>,
}

/// How many of `roles` are `user`.
pub open spec fn user_count(roles: Seq<Option<String>>) -> nat
    decreases roles.len(),
{
    if roles.len() == 0 {
        0
    } else {
        user_count(roles.drop_last()) + if roles.last() matches Some(r) && r@ == "user"@ {
            1nat
        } else {
            0nat
        }
    }
}

/// A request may be answered from the cache: it does not stream, it holds between one and
/// `max_messages` user turns, and, where the cache asks for it, it declares no tools.
pub open spec fn eligible_spec(req: RequestShape, max_messages: u32, require_empty_tools: bool) -> bool {
    let users = match req.roles {
        Some(r) => user_count(r@),
        None => 0,
    };
    &&& !req.stream
    &&& 0 < users <= max_messages
    &&& !(require_empty_tools && (req.tools matches Some(n) && n > 0))
}

/// [`eligible_spec`].
pub fn eligible(req: &RequestShape, max_messages: u32, require_empty_tools: bool) -> (r: bool)
    ensures
        r == eligible_spec(*req, max_messages, require_empty_tools),
{
    if req.stream {
        return false;
    }
    let mut users: usize = 0;
    match &req.roles {
        Some(roles) => {
            let mut i: usize = 0;
            while i < roles.len()
                invariant
                    i <= roles@.len(),
                    users == user_count(roles@.take(i as int)),
                    users <= i,
                decreases roles@.len() - i,
            {
                assert(roles@.take(i + 1).drop_last() == roles@.take(i as int));
                let is_user = match &roles[i] {
                    Some(r) => crate::text::str_eq(r.as_str(), "user"),
                    None => false,
                };
                if is_user {
                    users += 1;
                }
                i += 1;
            }
            assert(roles@.take(roles@.len() as int) == roles@);
        },
        None => {},
    }
    if users == 0 || users > max_messages as usize {
        return false;
    }
    if require_empty_tools {
        if let Some(n) = req.tools {
            if n > 0 {
                return false;
            }
        }
    }
    true
}

/// The `content` of a message, or of a tool result.
pub enum Content {
    /// A plain text.
    Text(String),
    /// A list of blocks.
    Blocks(Vec<Block>),
    /// Anything else, or nothing.
    Other,
}

/// One content block.
pub enum Block {
    /// A block with a `text`, or a bare text.
    Text(String),
    /// A `tool_result`: the call it answers and what it holds.
    ToolResult { id: String, content: Box<Content> },
    /// A `tool_use`: its id and the tool's name.
    ToolUse { id: String, name: String },
    /// An `image`, `document` or `image_url` block: its type, the `source.data` and the
    /// `image_url.url` it carries.
    Binary { kind: String, source_data: String, url: String },
    /// Any other block.
    Other,
}

/// What a block contributes to the cache key: a text as it is; a tool result's id and its
/// content; a tool call's id and name; a binary block's type and the SHA-256 of its payload
/// (the URL of an `image_url`, the source data otherwise), so that payloads never shown as
/// text still tell two requests apart.
pub open spec fn block_text(b: Block) -> Chars
    decreases b,
{
    match b {
        Block::Text(s) => s@,
        Block::ToolResult { id, content } => "tool_result "@ + id@ + ": "@ + content_text(*content),
        Block::ToolUse { id, name } => "tool_use "@ + id@ + " "@ + name@,
        Block::Binary { kind, source_data, url } => kind@ + " "@ + hex_lower(
            sha256_digest(
                encode_utf8(
                    if kind@ == "image_url"@ {
                        url@
                    } else {
                        source_data@
                    },
                ),
            ),
        ),
        Block::Other => Seq::empty(),
    }
}

/// The texts of `bs`, in order.
pub open spec fn block_texts(bs: Seq<Block>) -> Seq<Chars>
    decreases bs,
{
    if bs.len() == 0 {
        Seq::empty()
    } else {
        block_texts(bs.drop_last()).push(block_text(bs.last()))
    }
}

/// What a content contributes to the cache key: a text as it is, the texts of its blocks
/// one per line, nothing otherwise.
pub open spec fn content_text(c: Content) -> Chars
    decreases c,
{
    match c {
        Content::Text(s) => s@,
        Content::Blocks(bs) => join(block_texts(bs@), "\n"@),
        Content::Other => Seq::empty(),
    }
}

/// How many blocks and contents make up a block, itself included.
pub open spec fn block_size(b: Block) -> nat
    decreases b,
{
    match b {
        Block::ToolResult { content, .. } => 1 + content_size(*content),
        _ => 1,
    }
}

/// The sizes of `bs`, added up.
pub open spec fn blocks_size(bs: Seq<Block>) -> nat
    decreases bs,
{
    if bs.len() == 0 {
        0
    } else {
        blocks_size(bs.drop_last()) + block_size(bs.last())
    }
}

/// How many blocks and contents make up a content, itself included.
pub open spec fn content_size(c: Content) -> nat
    decreases c,
{
    match c {
        Content::Blocks(bs) => 1 + blocks_size(bs@),
        _ => 1,
    }
}

/// Each block is no larger than the list it stands in.
proof fn lemma_block_size_within(bs: Seq<Block>, i: int)
    requires
        0 <= i < bs.len(),
    ensures
        block_size(bs[i]) <= blocks_size(bs),
    decreases bs.len(),
{
    if i < bs.len() - 1 {
        lemma_block_size_within(bs.drop_last(), i);
    }
}

/// [`block_text`].
pub fn block_string(b: &Block) -> (r: String)
    ensures
        r@ == block_text(*b),
    decreases block_size(*b),
{
    match b {
        Block::Text(s) => crate::text::copy_str(s.as_str()),
        Block::ToolResult { id, content } => {
            let mut r = "tool_result ".to_owned();
            r.append(id.as_str());
            r.append(": ");
            let inner = content_string(&**content);
            r.append(inner.as_str());
            r
        },
        Block::ToolUse { id, name } => {
            let mut r = "tool_use ".to_owned();
            r.append(id.as_str());
            r.append(" ");
            r.append(name.as_str());
            r
        },
        Block::Binary { kind, source_data, url } => {
            let payload = if crate::text::str_eq(kind.as_str(), "image_url") {
                url.as_str()
            } else {
                source_data.as_str()
            };
            let digest = hex_sha256(payload.as_bytes());
            let mut r = crate::text::copy_str(kind.as_str());
            r.append(" ");
            r.append(digest.as_str());
            r
        },
        Block::Other => String::new(),
    }
}

/// [`content_text`].
pub fn content_string(c: &Content) -> (r: String)
    ensures
        r@ == content_text(*c),
    decreases content_size(*c),
{
    match c {
        Content::Text(s) => crate::text::copy_str(s.as_str()),
        Content::Blocks(bs) => {
            let mut parts: Vec<String> = Vec::new();
            let mut i: usize = 0;
            while i < bs.len()
                invariant
                    *c == Content::Blocks(*bs),
                    i <= bs@.len(),
                    crate::text::views(parts@) == block_texts(bs@.take(i as int)),
                decreases bs@.len() - i,
            {
                assert(bs@.take(i + 1).drop_last() == bs@.take(i as int));
                proof {
                    lemma_block_size_within(bs@, i as int);
                }
                let t = block_string(&bs[i]);
                let ghost before = parts@;
                parts.push(t);
                assert(crate::text::views(parts@) =~= crate::text::views(before).push(t@));
                i += 1;
            }
            assert(bs@.take(bs@.len() as int) == bs@);
            crate::text::join_strings(parts.as_slice(), "\n")
        },
        Content::Other => String::new(),
    }
}

/// What the key reads of one message: its role, where it is a text, and its content,
/// where there is one.
pub struct MessageShape {
    pub role: Option<String>,
    pub content: Option<Content>,
}

/// One message of the key: its role and its text.
pub struct KeyMessage {
    pub role: String,
    pub text: String,
}

/// [`KeyMessage`] as a pair of values.
pub open spec fn key_view(m: KeyMessage) -> (Chars, Chars) {
    (m.role@, m.text@)
}

/// The key's messages: every message with a role and a content, as its role and the text
/// of its content, in order.
pub open spec fn messages_spec(ms: Seq<MessageShape>) -> Seq<(Chars, Chars)>
    decreases ms.len(),
{
    if ms.len() == 0 {
        Seq::empty()
    } else {
        let rest = messages_spec(ms.drop_last());
        match (ms.last().role, ms.last().content) {
            (Some(r), Some(c)) => rest.push((r@, content_text(c))),
            _ => rest,
        }
    }
}

/// The views of a list of key messages.
pub open spec fn key_views(v: Seq<KeyMessage>) -> Seq<(Chars, Chars)> {
    Seq::new(v.len(), |i: int| key_view(v[i]))
}

/// [`messages_spec`]; no messages when the body holds no list of them.
pub fn messages_text(messages: Option<&Vec<MessageShape>>) -> (r: Vec<KeyMessage>)
    ensures
        key_views(r@) == match messages {
            Some(ms) => messages_spec(ms@),
            None => Seq::empty(),
        },
{
    let mut out: Vec<KeyMessage> = Vec::new();
    match messages {
        None => {
            assert(key_views(out@) =~= Seq::<(Chars, Chars)>::empty());
            out
        },
        Some(ms) => {
            let mut i: usize = 0;
            while i < ms.len()
                invariant
                    i <= ms@.len(),
                    key_views(out@) == messages_spec(ms@.take(i as int)),
                decreases ms@.len() - i,
            {
                assert(ms@.take(i + 1).drop_last() == ms@.take(i as int));
                let m = &ms[i];
                match (&m.role, &m.content) {
                    (Some(r), Some(c)) => {
                        let text = content_string(c);
                        let ghost before = out@;
                        out.push(KeyMessage { role: crate::text::copy_str(r.as_str()), text });
                        assert(key_views(out@) =~= key_views(before).push((r@, content_text(*c))));
                    },
                    _ => {},
                }
                i += 1;
            }
            assert(ms@.take(ms@.len() as int) == ms@);
            out
        },
    }
}

/// The key's system text: the text of the `system` content, when there is one.
pub fn system_text(system: Option<&Content>) -> (r: Option<String>)
    ensures
        match system {
            Some(c) => r matches Some(s) && s@ == content_text(*c),
            None => r is None,
        },
{
    match system {
        Some(c) => Some(content_string(c)),
        None => None,
    }
}

/// The position of the last message whose role is `user`.
pub open spec fn last_user(ms: Seq<(Chars, Chars)>) -> Option<int>
    decreases ms.len(),
{
    if ms.len() == 0 {
        None
    } else if ms.last().0 == "user"@ {
        Some(ms.len() - 1)
    } else {
        last_user(ms.drop_last())
    }
}

/// The messages with the text of the last user message emptied: what the semantic tier's
/// scope covers, since the vector stands for that last message alone.
pub open spec fn scope_spec(ms: Seq<(Chars, Chars)>) -> Seq<(Chars, Chars)> {
    match last_user(ms) {
        Some(i) => ms.update(i, (ms[i].0, Seq::empty())),
        None => ms,
    }
}

/// [`last_user`] lies within the messages.
proof fn lemma_last_user(ms: Seq<(Chars, Chars)>)
    ensures
        last_user(ms) matches Some(i) ==> 0 <= i < ms.len() && ms[i].0 == "user"@,
        last_user(ms) is None ==> forall|k: int| 0 <= k < ms.len() ==> ms[k].0 != "user"@,
    decreases ms.len(),
{
    if ms.len() > 0 && ms.last().0 != "user"@ {
        lemma_last_user(ms.drop_last());
        assert forall|k: int| 0 <= k < ms.len() - 1 implies ms.drop_last()[k] == ms[k] by {}
    }
}

/// Empties the text of the last user message ([`scope_spec`]).
pub fn clear_last_user(messages: &mut Vec<KeyMessage>)
    ensures
        key_views(final(messages)@) == scope_spec(key_views(old(messages)@)),
{
    let ghost kv = key_views(messages@);
    let mut j = messages.len();
    assert(kv.take(kv.len() as int) =~= kv);
    while j > 0
        invariant
            j <= messages@.len(),
            kv == key_views(messages@),
            last_user(kv) == last_user(kv.take(j as int)),
        ensures
            j <= messages@.len(),
            last_user(kv) == last_user(kv.take(j as int)),
            j > 0 ==> kv[j - 1].0 == "user"@,
        decreases j,
    {
        let is_user = crate::text::str_eq(messages[j - 1].role.as_str(), "user");
        assert(kv.take(j as int).last() == kv[j - 1]);
        assert(kv[j - 1].0 == messages@[j - 1].role@);
        if is_user {
            break;
        }
        assert(kv.take(j as int).drop_last() == kv.take(j - 1));
        j -= 1;
    }
    proof {
        lemma_last_user(kv);
    }
    if j == 0 {
        assert(last_user(kv.take(0)) is None);
        return;
    }
    assert(kv.take(j as int).last() == kv[j - 1]);
    assert(last_user(kv) == Some(j - 1));
    let role = crate::text::copy_str(messages[j - 1].role.as_str());
    messages.set(j - 1, KeyMessage { role, text: String::new() });
    assert(key_views(messages@) =~= kv.update(j - 1, (kv[j - 1].0, Seq::empty())));
}

/// The first four bytes of a key in lower-case hex, as a hit names its row.
pub open spec fn hex8_spec(hash: Seq<u8>) -> Chars {
    hex_lower(hash.take(if hash.len() < 4 {
        hash.len() as int
    } else {
        4
    }))
}

/// [`hex8_spec`].
pub fn hex8(hash: &[u8]) -> (r: String)
    ensures
        r@ == hex8_spec(hash@),
{
    let n = if hash.len() < 4 {
        hash.len()
    } else {
        4
    };
    let mut head: Vec<u8> = Vec::new();
    let mut i: usize = 0;
    while i < n
        invariant
            n <= hash@.len(),
            i <= n,
            head@ == hash@.take(i as int),
        decreases n - i,
    {
        head.push(hash[i]);
        assert(hash@.take(i + 1) == hash@.take(i as int).push(hash@[i as int]));
        i += 1;
    }
    crate::digest::to_hex(head.as_slice())
}

/// A prompt's cache key: the SHA-256 of its serialized form.
pub fn canonical_hash(serialized: &[u8]) -> (r: Vec<u8>)
    ensures
        r@ == sha256_digest(serialized@),
        r@.len() == 32,
{
    crate::digest::sha256(serialized)
}

/// The fields of a prompt's key that the cache settings gate: the provider unless the
/// cache is shared across providers, the model unless it is shared across models (empty
/// in either case).
pub fn gated(value: &str, keep: bool) -> (r: String)
    ensures
        r@ == if keep {
            value@
        } else {
            Seq::empty()
        },
{
    if keep {
        crate::text::copy_str(value)
    } else {
        String::new()
    }
}

/// One cached reply: the key of the prompt it answers, its body, content type and status,
/// and when it was stored (milliseconds on the proxy's monotonic clock).
pub struct CacheEntry {
    pub hash: Vec<u8>,
    pub response: Vec<u8>,
    pub content_type: Option<String>,
    pub status: u16,
    pub at: u64,
}

/// [`CacheEntry`] as a value.
pub struct EntryV {
    pub hash: Seq<u8>,
    pub response: Seq<u8>,
    pub content_type: Option<Chars>,
    pub status: u16,
    pub at: u64,
}

impl View for CacheEntry {
    type V = EntryV;

    open spec fn view(&self) -> EntryV {
        EntryV {
            hash: self.hash@,
            response: self.response@,
            content_type: match self.content_type {
                Some(t) => Some(t@),
                None => None,
            },
            status: self.status,
            at: self.at,
        }
    }
}

/// One row of the semantic tier: the vector of the prompt's last user message, the key of
/// everything else in it, and the reply.
pub struct SemanticRow<E> {
    pub embedding: E,
    pub scope: Vec<u8>,
    pub entry: CacheEntry,
}

/// The two tiers. `E` is the vector type the semantic tier compares.
pub struct Cache<E> {
    direct: Vec<CacheEntry>,
    semantic: Vec<SemanticRow<E>>,
}

/// A row of the semantic tier as a value.
pub type RowV<E> = (E, Seq<u8>, EntryV);

/// How long an entry lives, in milliseconds: the configured seconds, at least one.
pub open spec fn limit(ttl_s: u64) -> int {
    let secs: int = if ttl_s == 0 {
        1
    } else {
        ttl_s as int
    };
    if secs * 1000 > u64::MAX {
        u64::MAX as int
    } else {
        secs * 1000
    }
}

/// An entry stored at `at` is still alive at `now`.
pub open spec fn alive(at: u64, now: u64, lim: int) -> bool {
    (if now >= at {
        now - at
    } else {
        0
    }) < lim
}

/// The direct entries that survive storing a reply for `h` at `now`: the live ones, but
/// the one for `h`, which the new reply replaces.
pub open spec fn retain_direct(d: Seq<EntryV>, h: Seq<u8>, now: u64, lim: int) -> Seq<EntryV>
    decreases d.len(),
{
    if d.len() == 0 {
        Seq::empty()
    } else {
        let r = retain_direct(d.drop_last(), h, now, lim);
        if alive(d.last().at, now, lim) && d.last().hash != h {
            r.push(d.last())
        } else {
            r
        }
    }
}

/// The semantic rows that survive storing a reply for `h` at `now`: the live ones, but
/// the one for `h`, which the new reply replaces.
pub open spec fn retain_semantic<E>(s: Seq<RowV<E>>, h: Seq<u8>, now: u64, lim: int) -> Seq<RowV<E>>
    decreases s.len(),
{
    if s.len() == 0 {
        Seq::empty()
    } else {
        let r = retain_semantic(s.drop_last(), h, now, lim);
        if alive(s.last().2.at, now, lim) && s.last().2.hash != h {
            r.push(s.last())
        } else {
            r
        }
    }
}

/// No two entries share a key.
pub open spec fn distinct_direct(d: Seq<EntryV>) -> bool {
    forall|i: int, j: int| 0 <= i < j < d.len() ==> d[i].hash != d[j].hash
}

/// No two semantic rows answer the same prompt.
pub open spec fn distinct_semantic<E>(s: Seq<RowV<E>>) -> bool {
    forall|i: int, j: int| 0 <= i < j < s.len() ==> s[i].2.hash != s[j].2.hash
}

/// The position of the entry for `h`.
pub open spec fn find_hash(d: Seq<EntryV>, h: Seq<u8>) -> Option<int>
    decreases d.len(),
{
    if d.len() == 0 {
        None
    } else if d.last().hash == h {
        Some(d.len() - 1)
    } else {
        find_hash(d.drop_last(), h)
    }
}

/// The direct tier's answer for `h` at `now`: its entry, while it is alive.
pub open spec fn direct_spec(d: Seq<EntryV>, h: Seq<u8>, now: u64, lim: int) -> Option<EntryV> {
    match find_hash(d, h) {
        Some(i) => if alive(d[i].at, now, lim) {
            Some(d[i])
        } else {
            None
        },
        None => None,
    }
}

/// The positions of the live semantic rows whose scope is `scope`, among the first `k`.
pub open spec fn candidates_upto<E>(s: Seq<RowV<E>>, scope: Seq<u8>, now: u64, lim: int, k: int) -> Seq<usize>
    decreases k,
{
    if k <= 0 {
        Seq::empty()
    } else {
        let r = candidates_upto(s, scope, now, lim, k - 1);
        if alive(s[k - 1].2.at, now, lim) && s[k - 1].1 == scope {
            r.push((k - 1) as usize)
        } else {
            r
        }
    }
}

/// A reply worth keeping: a 2xx status. A 429, 500 or 529 replayed for the whole lifetime
/// would prolong the outage it reports.
pub open spec fn storable(status: u16) -> bool {
    200 <= status < 300
}

/// `a == b` on bytes.
fn bytes_eq(a: &[u8], b: &[u8]) -> (r: bool)
    ensures
        r == (a@ == b@),
{
    if a.len() != b.len() {
        return false;
    }
    let mut i: usize = 0;
    while i < a.len()
        invariant
            a@.len() == b@.len(),
            i <= a@.len(),
            forall|k: int| 0 <= k < i ==> a@[k] == b@[k],
        decreases a@.len() - i,
    {
        if a[i] != b[i] {
            return false;
        }
        i += 1;
    }
    assert(a@ =~= b@);
    true
}

/// A copy of `b`.
fn copy_bytes(b: &[u8]) -> (r: Vec<u8>)
    ensures
        r@ == b@,
{
    let mut r: Vec<u8> = Vec::new();
    let mut i: usize = 0;
    while i < b.len()
        invariant
            i <= b@.len(),
            r@ == b@.take(i as int),
        decreases b@.len() - i,
    {
        r.push(b[i]);
        assert(b@.take(i + 1) == b@.take(i as int).push(b@[i as int]));
        i += 1;
    }
    assert(b@.take(b@.len() as int) == b@);
    r
}

/// A copy of an entry.
fn copy_entry(e: &CacheEntry) -> (r: CacheEntry)
    ensures
        r@ == e@,
{
    CacheEntry {
        hash: copy_bytes(e.hash.as_slice()),
        response: copy_bytes(e.response.as_slice()),
        content_type: match &e.content_type {
            Some(t) => Some(crate::text::copy_str(t.as_str())),
            None => None,
        },
        status: e.status,
        at: e.at,
    }
}

/// [`limit`].
fn limit_ms(ttl_s: u64) -> (r: u64)
    ensures
        r == limit(ttl_s),
{
    let secs: u64 = if ttl_s == 0 {
        1
    } else {
        ttl_s
    };
    if secs > u64::MAX / 1000 {
        u64::MAX
    } else {
        secs * 1000
    }
}

/// [`alive`].
fn is_alive(at: u64, now: u64, lim: u64) -> (r: bool)
    ensures
        r == alive(at, now, lim as int),
{
    let age: u64 = if now >= at {
        now - at
    } else {
        0
    };
    age < lim
}

/// What survives of a retained list lies in it, and none of it is for `h`.
proof fn lemma_retain_direct(d: Seq<EntryV>, h: Seq<u8>, now: u64, lim: int)
    ensures
        forall|i: int|
            0 <= i < retain_direct(d, h, now, lim).len() ==> (#[trigger] retain_direct(
                d,
                h,
                now,
                lim,
            )[i]).hash != h && alive(retain_direct(d, h, now, lim)[i].at, now, lim)
                && exists|k: int| 0 <= k < d.len() && d[k] == retain_direct(d, h, now, lim)[i],
        distinct_direct(d) ==> distinct_direct(retain_direct(d, h, now, lim)),
    decreases d.len(),
{
    if d.len() > 0 {
        let d0 = d.drop_last();
        lemma_retain_direct(d0, h, now, lim);
        let r0 = retain_direct(d0, h, now, lim);
        let r = retain_direct(d, h, now, lim);
        assert forall|i: int| 0 <= i < r.len() implies (#[trigger] r[i]).hash != h && alive(
            r[i].at,
            now,
            lim,
        ) && exists|k: int| 0 <= k < d.len() && d[k] == r[i] by {
            if i < r0.len() {
                let k = choose|k: int| 0 <= k < d0.len() && d0[k] == r0[i];
                assert(d[k] == r[i]);
            } else {
                assert(d[d.len() - 1] == r[i]);
            }
        }
        if distinct_direct(d) {
            assert(distinct_direct(d0));
            assert forall|i: int, j: int| 0 <= i < j < r.len() implies r[i].hash != r[j].hash by {
                if j == r0.len() {
                    let k = choose|k: int| 0 <= k < d0.len() && d0[k] == r0[i];
                    assert(d[k] == r[i]);
                    assert(r[j] == d[d.len() - 1]);
                }
            }
        }
    }
}

/// What survives of a retained list lies in it, and none of it is for `h`.
proof fn lemma_retain_semantic<E>(s: Seq<RowV<E>>, h: Seq<u8>, now: u64, lim: int)
    ensures
        forall|i: int|
            0 <= i < retain_semantic(s, h, now, lim).len() ==> (#[trigger] retain_semantic(
                s,
                h,
                now,
                lim,
            )[i]).2.hash != h && alive(retain_semantic(s, h, now, lim)[i].2.at, now, lim),
        distinct_semantic(s) ==> distinct_semantic(retain_semantic(s, h, now, lim)),
    decreases s.len(),
{
    if s.len() > 0 {
        let s0 = s.drop_last();
        lemma_retain_semantic(s0, h, now, lim);
        lemma_retain_semantic_from(s, h, now, lim);
    }
}

/// Every row that survives was a row of the list.
proof fn lemma_retain_semantic_from<E>(s: Seq<RowV<E>>, h: Seq<u8>, now: u64, lim: int)
    ensures
        forall|i: int|
            0 <= i < retain_semantic(s, h, now, lim).len() ==> exists|k: int|
                0 <= k < s.len() && s[k] == #[trigger] retain_semantic(s, h, now, lim)[i],
        distinct_semantic(s) ==> distinct_semantic(retain_semantic(s, h, now, lim)),
    decreases s.len(),
{
    if s.len() > 0 {
        let s0 = s.drop_last();
        lemma_retain_semantic_from(s0, h, now, lim);
        let r0 = retain_semantic(s0, h, now, lim);
        let r = retain_semantic(s, h, now, lim);
        assert forall|i: int| 0 <= i < r.len() implies exists|k: int|
            0 <= k < s.len() && s[k] == #[trigger] r[i] by {
            if i < r0.len() {
                let k = choose|k: int| 0 <= k < s0.len() && s0[k] == r0[i];
                assert(s[k] == r[i]);
            } else {
                assert(s[s.len() - 1] == r[i]);
            }
        }
        if distinct_semantic(s) {
            assert(distinct_semantic(s0));
            assert forall|i: int, j: int| 0 <= i < j < r.len() implies r[i].2.hash != r[j].2.hash by {
                if j == r0.len() {
                    let k = choose|k: int| 0 <= k < s0.len() && s0[k] == r0[i];
                    assert(s[k] == r[i]);
                    assert(r[j] == s[s.len() - 1]);
                }
            }
        }
    }
}

/// The semantic rows as values.
pub open spec fn rows_view<E>(s: Seq<SemanticRow<E>>) -> Seq<RowV<E>> {
    Seq::new(s.len(), |i: int| (s[i].embedding, s[i].scope@, s[i].entry@))
}

/// The direct entries as values.
pub open spec fn entries_view(d: Seq<CacheEntry>) -> Seq<EntryV> {
    Seq::new(d.len(), |i: int| d[i]@)
}

/// The entries a store leaves in the direct tier.
pub open spec fn store_direct_spec(d: Seq<EntryV>, e: EntryV, now: u64, lim: int) -> Seq<EntryV> {
    retain_direct(d, e.hash, now, lim).push(e)
}

/// The rows a store leaves in the semantic tier: a new row when the prompt came with a
/// vector and a scope.
pub open spec fn store_semantic_spec<E>(
    s: Seq<RowV<E>>,
    row: Option<(E, Seq<u8>)>,
    e: EntryV,
    now: u64,
    lim: int,
) -> Seq<RowV<E>> {
    let r = retain_semantic(s, e.hash, now, lim);
    match row {
        Some(v) => r.push((v.0, v.1, e)),
        None => r,
    }
}

impl<E> Cache<E> {
    /// The direct tier, oldest first.
    pub closed spec fn direct_view(&self) -> Seq<EntryV> {
        entries_view(self.direct@)
    }

    /// The semantic tier, oldest first.
    pub closed spec fn semantic_view(&self) -> Seq<RowV<E>> {
        rows_view(self.semantic@)
    }

    /// No key has two entries in either tier.
    pub open spec fn wf(&self) -> bool {
        distinct_direct(self.direct_view()) && distinct_semantic(self.semantic_view())
    }

    /// An empty cache.
    pub fn new() -> (c: Self)
        ensures
            c.wf(),
            c.direct_view() == Seq::<EntryV>::empty(),
            c.semantic_view() == Seq::<RowV<E>>::empty(),
    {
        let c = Cache { direct: Vec::new(), semantic: Vec::new() };
        assert(c.direct_view() =~= Seq::<EntryV>::empty());
        assert(c.semantic_view() =~= Seq::<RowV<E>>::empty());
        c
    }

    /// How many entries the direct tier holds.
    pub fn direct_len(&self) -> (n: usize)
        ensures
            n == self.direct_view().len(),
    {
        self.direct.len()
    }

    /// How many rows the semantic tier holds.
    pub fn semantic_len(&self) -> (n: usize)
        ensures
            n == self.semantic_view().len(),
    {
        self.semantic.len()
    }

    /// The `i`-th row of the semantic tier.
    pub fn row(&self, i: usize) -> (r: &SemanticRow<E>)
        requires
            i < self.semantic_view().len(),
        ensures
            (r.embedding, r.scope@, r.entry@) == self.semantic_view()[i as int],
    {
        &self.semantic[i]
    }

    /// The direct tier's answer for the prompt keyed `hash`: its reply while it is younger
    /// than the lifetime of `ttl_s` seconds at `now`.
    pub fn direct_hit(&self, hash: &[u8], now: u64, ttl_s: u64) -> (r: Option<&CacheEntry>)
        ensures
            match r {
                Some(e) => direct_spec(self.direct_view(), hash@, now, limit(ttl_s)) == Some(e@),
                None => direct_spec(self.direct_view(), hash@, now, limit(ttl_s)) is None,
            },
    {
        let lim = limit_ms(ttl_s);
        let ghost d = self.direct_view();
        let mut j = self.direct.len();
        assert(d.take(d.len() as int) =~= d);
        while j > 0
            invariant
                j <= self.direct@.len(),
                d == self.direct_view(),
                find_hash(d, hash@) == find_hash(d.take(j as int), hash@),
            ensures
                find_hash(d, hash@) == if j > 0 {
                    Some(j - 1)
                } else {
                    None::<int>
                },
            decreases j,
        {
            assert(d.take(j as int).last() == d[j - 1]);
            if bytes_eq(self.direct[j - 1].hash.as_slice(), hash) {
                break;
            }
            assert(d.take(j as int).drop_last() == d.take(j - 1));
            j -= 1;
        }
        if j == 0 {
            return None;
        }
        let e = &self.direct[j - 1];
        if is_alive(e.at, now, lim) {
            Some(e)
        } else {
            None
        }
    }

    /// The positions of the semantic rows a prompt with this `scope` may be compared with:
    /// the live ones of the same scope, oldest first.
    pub fn semantic_candidates(&self, scope: &[u8], now: u64, ttl_s: u64) -> (r: Vec<usize>)
        ensures
            r@ == candidates_upto(
                self.semantic_view(),
                scope@,
                now,
                limit(ttl_s),
                self.semantic_view().len() as int,
            ),
    {
        let lim = limit_ms(ttl_s);
        let ghost s = self.semantic_view();
        let mut out: Vec<usize> = Vec::new();
        let mut i: usize = 0;
        while i < self.semantic.len()
            invariant
                i <= self.semantic@.len(),
                s == self.semantic_view(),
                out@ == candidates_upto(s, scope@, now, lim as int, i as int),
            decreases self.semantic@.len() - i,
        {
            let row = &self.semantic[i];
            if is_alive(row.entry.at, now, lim) && bytes_eq(row.scope.as_slice(), scope) {
                out.push(i);
            }
            i += 1;
        }
        out
    }

    /// Stores the reply `response` to the prompt keyed `hash`, at `now`. A reply whose
    /// status is not 2xx is not kept. Otherwise every entry older than the lifetime goes,
    /// the new reply replaces the prompt's earlier one in each tier, and the semantic tier
    /// gets a row when `semantic` brings the prompt's vector and scope.
    pub fn store(
        &mut self,
        hash: &[u8],
        semantic: Option<(E, Vec<u8>)>,
        response: &[u8],
        content_type: Option<&str>,
        status: u16,
        now: u64,
        ttl_s: u64,
    )
        requires
            old(self).wf(),
        ensures
            final(self).wf(),
            !storable(status) ==> final(self).direct_view() == old(self).direct_view()
                && final(self).semantic_view() == old(self).semantic_view(),
            storable(status) ==> {
                let e = EntryV {
                    hash: hash@,
                    response: response@,
                    content_type: match content_type {
                        Some(t) => Some(t@),
                        None => None,
                    },
                    status,
                    at: now,
                };
                &&& final(self).direct_view() == store_direct_spec(
                    old(self).direct_view(),
                    e,
                    now,
                    limit(ttl_s),
                )
                &&& final(self).semantic_view() == store_semantic_spec(
                    old(self).semantic_view(),
                    match semantic {
                        Some(v) => Some((v.0, v.1@)),
                        None => None,
                    },
                    e,
                    now,
                    limit(ttl_s),
                )
            },
    {
        if !(200 <= status && status < 300) {
            return;
        }
        let lim = limit_ms(ttl_s);
        let entry = CacheEntry {
            hash: copy_bytes(hash),
            response: copy_bytes(response),
            content_type: match content_type {
                Some(t) => Some(crate::text::copy_str(t)),
                None => None,
            },
            status,
            at: now,
        };
        let ghost d0 = self.direct_view();
        let ghost s0 = self.semantic_view();
        proof {
            lemma_retain_direct(d0, hash@, now, lim as int);
            lemma_retain_semantic(s0, hash@, now, lim as int);
        }
        let mut old_direct: Vec<CacheEntry> = Vec::new();
        std::mem::swap(&mut old_direct, &mut self.direct);
        let mut old_semantic: Vec<SemanticRow<E>> = Vec::new();
        std::mem::swap(&mut old_semantic, &mut self.semantic);
        let ghost od = old_direct@;
        let ghost os = old_semantic@;
        assert(entries_view(od) =~= d0);
        assert(rows_view(os) =~= s0);
        let _n = old_direct.len();
        let _m = old_semantic.len();
        let mut k: usize = 0;
        while old_direct.len() > 0
            invariant
                od.len() <= usize::MAX,
                old_semantic@ == os,
                self.semantic@ == Seq::<SemanticRow<E>>::empty(),
                k + old_direct@.len() == od.len(),
                old_direct@ == od.skip(k as int),
                entries_view(self.direct@) == retain_direct(entries_view(od).take(k as int), hash@, now, lim as int),
            decreases old_direct@.len(),
        {
            let e = old_direct.remove(0);
            assert(od[k as int] == e);
            assert(od.skip(k as int).remove(0) =~= od.skip(k + 1));
            assert(entries_view(od).take(k + 1).drop_last() =~= entries_view(od).take(k as int));
            let ghost before = self.direct@;
            if is_alive(e.at, now, lim) && !bytes_eq(e.hash.as_slice(), hash) {
                self.direct.push(e);
                assert(entries_view(self.direct@) =~= entries_view(before).push(e@));
            }
            k += 1;
        }
        assert(entries_view(od).take(od.len() as int) =~= entries_view(od));
        let ghost dk = self.direct@;
        assert(rows_view(self.semantic@) =~= retain_semantic(rows_view(os).take(0), hash@, now, lim as int));
        let mut m: usize = 0;
        while old_semantic.len() > 0
            invariant
                os.len() <= usize::MAX,
                self.direct@ == dk,
                m + old_semantic@.len() == os.len(),
                old_semantic@ == os.skip(m as int),
                rows_view(self.semantic@) == retain_semantic(rows_view(os).take(m as int), hash@, now, lim as int),
            decreases old_semantic@.len(),
        {
            let r = old_semantic.remove(0);
            assert(os[m as int] == r);
            assert(os.skip(m as int).remove(0) =~= os.skip(m + 1));
            assert(rows_view(os).take(m + 1).drop_last() =~= rows_view(os).take(m as int));
            let ghost before = self.semantic@;
            if is_alive(r.entry.at, now, lim) && !bytes_eq(r.entry.hash.as_slice(), hash) {
                self.semantic.push(r);
                assert(rows_view(self.semantic@) =~= rows_view(before).push((r.embedding, r.scope@, r.entry@)));
            }
            m += 1;
        }
        assert(rows_view(os).take(os.len() as int) =~= rows_view(os));
        let ghost sr = self.semantic_view();
        match semantic {
            Some(v) => {
                let (embedding, scope) = v;
                let copy = copy_entry(&entry);
                self.semantic.push(SemanticRow { embedding, scope, entry: copy });
                assert(self.semantic_view() =~= sr.push((embedding, scope@, entry@)));
            },
            None => {},
        }
        let ghost dr = self.direct_view();
        let ghost ev = entry@;
        self.direct.push(entry);
        assert(self.direct_view() =~= dr.push(ev));
        proof {
            let dv = self.direct_view();
            assert forall|i: int, j: int| 0 <= i < j < dv.len() implies dv[i].hash != dv[j].hash by {
                if j == dv.len() - 1 {
                    assert(dr[i].hash != hash@);
                }
            }
            let sv = self.semantic_view();
            assert forall|i: int, j: int| 0 <= i < j < sv.len() implies sv[i].2.hash != sv[j].2.hash by {
                if j == sr.len() {
                    assert(sr[i].2.hash != hash@);
                }
            }
        }
    }
}

/// What a store writes, a read gives back: right after a reply for a prompt is stored, the
/// direct tier answers that prompt with that reply for as long as it lives.
pub proof fn law_hit_after_store(d: Seq<EntryV>, e: EntryV, later: u64, ttl_s: u64)
    requires
        e.at <= later,
        alive(e.at, later, limit(ttl_s)),
    ensures
        direct_spec(store_direct_spec(d, e, e.at, limit(ttl_s)), e.hash, later, limit(ttl_s))
            == Some(e),
{
}

/// A store forgets every entry older than the lifetime: all that the direct tier holds
/// afterwards is alive at the time of the store.
pub proof fn law_store_forgets_expired(d: Seq<EntryV>, e: EntryV, ttl_s: u64)
    ensures
        forall|i: int|
            0 <= i < store_direct_spec(d, e, e.at, limit(ttl_s)).len() ==> alive(
                #[trigger] store_direct_spec(d, e, e.at, limit(ttl_s))[i].at,
                e.at,
                limit(ttl_s),
            ),
{
    lemma_retain_direct(d, e.hash, e.at, limit(ttl_s));
}

/// Storing the same prompt again replaces its row instead of stacking a second one: a
/// semantic tier with one row per prompt keeps one row per prompt.
pub proof fn law_one_row_per_prompt<E>(
    s: Seq<RowV<E>>,
    row: Option<(E, Seq<u8>)>,
    e: EntryV,
    now: u64,
    ttl_s: u64,
)
    requires
        distinct_semantic(s),
    ensures
        distinct_semantic(store_semantic_spec(s, row, e, now, limit(ttl_s))),
{
    let lim = limit(ttl_s);
    lemma_retain_semantic(s, e.hash, now, lim);
    let r = retain_semantic(s, e.hash, now, lim);
    let out = store_semantic_spec(s, row, e, now, lim);
    assert forall|i: int, j: int| 0 <= i < j < out.len() implies out[i].2.hash != out[j].2.hash by {
        if j == r.len() {
            assert(r[i].2.hash != e.hash);
        }
    }
}

} // verus!
