//! The provider wires the proxy understands: which request paths each owns, its provider
//! and `usage.api` slugs, and how its usage counters add up to the billable total.

use vstd::prelude::*;

use crate::text::{chars_eq, chars_of, ends_with, find, find_spec, has_suffix, string_of, Chars};

verus! {

/// Provider slug for the Anthropic Messages wire.
pub const ANTHROPIC_PROVIDER: &'static str = "anthropic";

/// Provider slug shared by both OpenAI wires.
pub const OPENAI_PROVIDER: &'static str = "openai";

/// Provider slug for the Gemini wire.
pub const GEMINI_PROVIDER: &'static str = "gemini";

/// `usage.api` value for Anthropic Messages.
pub const API_ANTHROPIC: &'static str = "anthropic";

/// `usage.api` value for Chat Completions.
pub const API_OPENAI_CHAT: &'static str = "openai_chat";

/// `usage.api` value for the Responses API.
pub const API_OPENAI_RESPONSES: &'static str = "openai_responses";

/// `usage.api` value for Gemini `generateContent` / `streamGenerateContent`.
pub const API_GEMINI: &'static str = "gemini";

/// Provider usage counters, with absent provider fields represented as zero.
#[derive(Debug, Clone, Copy, PartialEq, Eq, Structural)]
pub struct Usage {
    pub input: i64,
    pub cache_create: i64,
    pub cache_read: i64,
    pub output: i64,
}

impl Default for Usage {
    fn default() -> (u: Usage)
        ensures
            u == (Usage { input: 0, cache_create: 0, cache_read: 0, output: 0 }),
    {
        Usage { input: 0, cache_create: 0, cache_read: 0, output: 0 }
    }
}

/// `next`'s counter where it carries one, else the one already held.
pub open spec fn latest(held: i64, next: i64) -> i64 {
    if next != 0 {
        next
    } else {
        held
    }
}

/// [`Usage::merge`] as a value.
pub open spec fn merge_spec(a: Usage, b: Usage) -> Usage {
    Usage {
        input: latest(a.input, b.input),
        cache_create: latest(a.cache_create, b.cache_create),
        cache_read: latest(a.cache_read, b.cache_read),
        output: latest(a.output, b.output),
    }
}

impl Usage {
    /// Keep the latest value of every counter carried by a stream event.
    pub fn merge(&mut self, next: Self)
        ensures
            *final(self) == merge_spec(*old(self), next),
    {
        if next.input != 0 {
            self.input = next.input;
        }
        if next.cache_create != 0 {
            self.cache_create = next.cache_create;
        }
        if next.cache_read != 0 {
            self.cache_read = next.cache_read;
        }
        if next.output != 0 {
            self.output = next.output;
        }
    }
}

/// `a + b` clamped to the `i64` range (`i64::saturating_add`).
pub open spec fn sat_add(a: i64, b: i64) -> i64 {
    if a + b > i64::MAX {
        i64::MAX
    } else if a + b < i64::MIN {
        i64::MIN
    } else {
        (a + b) as i64
    }
}

/// `i64::saturating_add`.
pub fn saturating_add(a: i64, b: i64) -> (r: i64)
    ensures
        r == sat_add(a, b),
{
    let s = (a as i128) + (b as i128);
    if s > i64::MAX as i128 {
        i64::MAX
    } else if s < i64::MIN as i128 {
        i64::MIN
    } else {
        s as i64
    }
}

/// The four wires, by the request shape they speak.
#[derive(Debug, Clone, Copy, PartialEq, Eq, Structural)]
pub enum WireId {
    Anthropic,
    OpenAiChat,
    OpenAiResponses,
    Gemini,
}

/// Whether `path` belongs to `w`.
pub open spec fn matches_spec(w: WireId, path: Chars) -> bool {
    match w {
        WireId::Anthropic => path == "/v1/messages"@,
        WireId::OpenAiChat => path == "/v1/chat/completions"@,
        WireId::OpenAiResponses => path == "/v1/responses"@,
        WireId::Gemini => ends_with(path, ":generateContent"@) || ends_with(
            path,
            ":streamGenerateContent"@,
        ),
    }
}

/// Provider slug of each wire.
pub open spec fn provider_spec(w: WireId) -> Chars {
    match w {
        WireId::Anthropic => "anthropic"@,
        WireId::OpenAiChat => "openai"@,
        WireId::OpenAiResponses => "openai"@,
        WireId::Gemini => "gemini"@,
    }
}

/// `usage.api` discriminator of each wire.
pub open spec fn api_spec(w: WireId) -> Chars {
    match w {
        WireId::Anthropic => "anthropic"@,
        WireId::OpenAiChat => "openai_chat"@,
        WireId::OpenAiResponses => "openai_responses"@,
        WireId::Gemini => "gemini"@,
    }
}

/// The billable total the `tokens` ledger records: Anthropic's four counters are
/// disjoint and add up; OpenAI's and Gemini's prompt count already contains the cached
/// slice, so only input and output add.
pub open spec fn provider_total_spec(w: WireId, u: Usage) -> i64 {
    match w {
        WireId::Anthropic => sat_add(sat_add(sat_add(u.input, u.cache_create), u.cache_read), u.output),
        _ => sat_add(u.input, u.output),
    }
}

/// The first wire, in dispatch order, that owns `path`.
pub open spec fn for_path_spec(path: Chars) -> Option<WireId> {
    if matches_spec(WireId::Anthropic, path) {
        Some(WireId::Anthropic)
    } else if matches_spec(WireId::OpenAiChat, path) {
        Some(WireId::OpenAiChat)
    } else if matches_spec(WireId::OpenAiResponses, path) {
        Some(WireId::OpenAiResponses)
    } else if matches_spec(WireId::Gemini, path) {
        Some(WireId::Gemini)
    } else {
        None
    }
}

/// The last `/`-separated segment of `path` (what `rsplit('/').next()` yields).
pub open spec fn last_segment(path: Chars) -> Chars {
    crate::text::split_char(path, '/').last()
}

/// The model a Gemini path names: the last segment before its first `:`.
pub open spec fn gemini_model_spec(path: Chars) -> Option<Chars> {
    let last = last_segment(path);
    match find_spec(last, seq![':']) {
        Some(c) => if c > 0 {
            Some(last.take(c))
        } else {
            None
        },
        None => None,
    }
}

fn str_is(s: &str, lit: &str) -> (r: bool)
    ensures
        r == (s@ == lit@),
{
    let a = chars_of(s);
    let b = chars_of(lit);
    chars_eq(a.as_slice(), b.as_slice())
}

fn str_ends(s: &str, suffix: &str) -> (r: bool)
    ensures
        r == ends_with(s@, suffix@),
{
    let a = chars_of(s);
    let b = chars_of(suffix);
    has_suffix(a.as_slice(), b.as_slice())
}

impl WireId {
    /// Whether this wire owns the request path.
    pub fn matches(&self, path: &str) -> (r: bool)
        ensures
            r == matches_spec(*self, path@),
    {
        match self {
            WireId::Anthropic => str_is(path, "/v1/messages"),
            WireId::OpenAiChat => str_is(path, "/v1/chat/completions"),
            WireId::OpenAiResponses => str_is(path, "/v1/responses"),
            WireId::Gemini => str_ends(path, ":generateContent") || str_ends(
                path,
                ":streamGenerateContent",
            ),
        }
    }

    /// Provider slug used for the request's dimension row.
    pub fn provider(&self) -> (s: &'static str)
        ensures
            s@ == provider_spec(*self),
    {
        match self {
            WireId::Anthropic => ANTHROPIC_PROVIDER,
            WireId::OpenAiChat => OPENAI_PROVIDER,
            WireId::OpenAiResponses => OPENAI_PROVIDER,
            WireId::Gemini => GEMINI_PROVIDER,
        }
    }

    /// The billable total the `tokens` ledger records.
    pub fn provider_total(&self, usage: Usage) -> (t: i64)
        ensures
            t == provider_total_spec(*self, usage),
    {
        match self {
            WireId::Anthropic => saturating_add(
                saturating_add(saturating_add(usage.input, usage.cache_create), usage.cache_read),
                usage.output,
            ),
            _ => saturating_add(usage.input, usage.output),
        }
    }
}

/// The wire matching `path`, if this build understands it.
pub fn for_path(path: &str) -> (w: Option<WireId>)
    ensures
        w == for_path_spec(path@),
{
    if WireId::Anthropic.matches(path) {
        Some(WireId::Anthropic)
    } else if WireId::OpenAiChat.matches(path) {
        Some(WireId::OpenAiChat)
    } else if WireId::OpenAiResponses.matches(path) {
        Some(WireId::OpenAiResponses)
    } else if WireId::Gemini.matches(path) {
        Some(WireId::Gemini)
    } else {
        None
    }
}

/// `usage.api` discriminator for `wire`.
pub fn api_of(wire: WireId) -> (s: &'static str)
    ensures
        s@ == api_spec(wire),
{
    match wire {
        WireId::Anthropic => API_ANTHROPIC,
        WireId::OpenAiChat => API_OPENAI_CHAT,
        WireId::OpenAiResponses => API_OPENAI_RESPONSES,
        WireId::Gemini => API_GEMINI,
    }
}

/// The Anthropic Messages wire (`POST /v1/messages`).
pub struct Anthropic;

/// The Chat Completions wire (`POST /v1/chat/completions`).
pub struct OpenAiChat;

/// The Responses API wire (`POST /v1/responses`).
pub struct OpenAiResponses;

/// The Gemini wire (`…/models/{model}:generateContent` and `:streamGenerateContent`).
pub struct Gemini;

/// The Anthropic wire.
pub const ANTHROPIC: Anthropic = Anthropic;

/// The Chat Completions wire.
pub const OPENAI_CHAT: OpenAiChat = OpenAiChat;

/// The Responses API wire.
pub const OPENAI_RESPONSES: OpenAiResponses = OpenAiResponses;

/// The Gemini wire.
pub const GEMINI: Gemini = Gemini;

impl Anthropic {
    /// Whether this wire owns the request path.
    pub fn matches(&self, path: &str) -> (r: bool)
        ensures
            r == matches_spec(WireId::Anthropic, path@),
    {
        WireId::Anthropic.matches(path)
    }

    /// Provider slug: `anthropic`.
    pub fn provider(&self) -> (s: &'static str)
        ensures
            s@ == provider_spec(WireId::Anthropic),
    {
        WireId::Anthropic.provider()
    }

    /// All four counters add up.
    pub fn provider_total(&self, usage: Usage) -> (t: i64)
        ensures
            t == provider_total_spec(WireId::Anthropic, usage),
    {
        WireId::Anthropic.provider_total(usage)
    }
}

impl OpenAiChat {
    /// Whether this wire owns the request path.
    pub fn matches(&self, path: &str) -> (r: bool)
        ensures
            r == matches_spec(WireId::OpenAiChat, path@),
    {
        WireId::OpenAiChat.matches(path)
    }

    /// Provider slug: `openai`.
    pub fn provider(&self) -> (s: &'static str)
        ensures
            s@ == provider_spec(WireId::OpenAiChat),
    {
        WireId::OpenAiChat.provider()
    }

    /// Input plus output: the prompt count already holds the cached slice.
    pub fn provider_total(&self, usage: Usage) -> (t: i64)
        ensures
            t == provider_total_spec(WireId::OpenAiChat, usage),
    {
        WireId::OpenAiChat.provider_total(usage)
    }
}

impl OpenAiResponses {
    /// Whether this wire owns the request path.
    pub fn matches(&self, path: &str) -> (r: bool)
        ensures
            r == matches_spec(WireId::OpenAiResponses, path@),
    {
        WireId::OpenAiResponses.matches(path)
    }

    /// Provider slug: `openai`.
    pub fn provider(&self) -> (s: &'static str)
        ensures
            s@ == provider_spec(WireId::OpenAiResponses),
    {
        WireId::OpenAiResponses.provider()
    }

    /// Input plus output: the prompt count already holds the cached slice.
    pub fn provider_total(&self, usage: Usage) -> (t: i64)
        ensures
            t == provider_total_spec(WireId::OpenAiResponses, usage),
    {
        WireId::OpenAiResponses.provider_total(usage)
    }
}

impl Gemini {
    /// Whether this wire owns the request path.
    pub fn matches(&self, path: &str) -> (r: bool)
        ensures
            r == matches_spec(WireId::Gemini, path@),
    {
        WireId::Gemini.matches(path)
    }

    /// Provider slug: `gemini`.
    pub fn provider(&self) -> (s: &'static str)
        ensures
            s@ == provider_spec(WireId::Gemini),
    {
        WireId::Gemini.provider()
    }

    /// Input plus output: `promptTokenCount` already holds the cached slice.
    pub fn provider_total(&self, usage: Usage) -> (t: i64)
        ensures
            t == provider_total_spec(WireId::Gemini, usage),
    {
        WireId::Gemini.provider_total(usage)
    }

    /// The model travels in the path (`/v1beta/models/{model}:generateContent`): the
    /// last segment up to its first `:`, when that is not empty.
    pub fn model(&self, path: &str) -> (m: Option<String>)
        ensures
            match (m, gemini_model_spec(path@)) {
                (Some(a), Some(b)) => a@ == b,
                (None, None) => true,
                _ => false,
            },
    {
        let p = chars_of(path);
        let start = last_slash_end(p.as_slice());
        let last = string_of(p.as_slice(), start, p.len());
        let lc = chars_of(last.as_str());
        let colon = [':'];
        let ghost c = colon@;
        assert(c == seq![':']);
        match find(lc.as_slice(), colon.as_slice()) {
            Some(i) => {
                if i > 0 {
                    Some(string_of(lc.as_slice(), 0, i))
                } else {
                    None
                }
            },
            None => None,
        }
    }
}

/// Index just past the last `/` of `p`, or 0, with the last split piece being the rest.
fn last_slash_end(p: &[char]) -> (k: usize)
    ensures
        k <= p@.len(),
        crate::text::split_char(p@, '/').last() == p@.skip(k as int),
{
    let mut k: usize = 0;
    let mut i: usize = 0;
    while i < p.len()
        invariant
            k <= i <= p@.len(),
            crate::text::split_char(p@.take(i as int), '/').last() == p@.subrange(
                k as int,
                i as int,
            ),
            crate::text::split_char(p@.take(i as int), '/').len() > 0,
        decreases p@.len() - i,
    {
        let ghost pre = p@.take(i as int);
        assert(p@.take(i + 1).drop_last() == pre);
        if p[i] == '/' {
            k = i + 1;
        }
        i += 1;
    }
    assert(p@.take(p@.len() as int) == p@);
    k
}

// ---------------------------------------------------------------------------------------
// Laws
// ---------------------------------------------------------------------------------------

/// Merging the same event twice changes nothing the first merge did not.
pub proof fn law_merge_idempotent(a: Usage, b: Usage)
    ensures
        merge_spec(merge_spec(a, b), b) == merge_spec(a, b),
{
}

/// An event carrying no counters leaves the usage as it was.
pub proof fn law_merge_zero_is_identity(a: Usage)
    ensures
        merge_spec(a, Usage { input: 0, cache_create: 0, cache_read: 0, output: 0 }) == a,
{
}

/// Folding stream events is associative: merging `b` then `c` into `a` equals merging
/// into `a` what `b` and `c` merge to.
pub proof fn law_merge_associative(a: Usage, b: Usage, c: Usage)
    ensures
        merge_spec(merge_spec(a, b), c) == merge_spec(a, merge_spec(b, c)),
{
}

/// Every counter an event carries wins over what was held.
pub proof fn law_merge_keeps_latest(a: Usage, b: Usage)
    ensures
        b.input != 0 ==> merge_spec(a, b).input == b.input,
        b.cache_create != 0 ==> merge_spec(a, b).cache_create == b.cache_create,
        b.cache_read != 0 ==> merge_spec(a, b).cache_read == b.cache_read,
        b.output != 0 ==> merge_spec(a, b).output == b.output,
{
}

/// A Gemini path has a `:` where its action starts.
proof fn lemma_gemini_colon(path: Chars)
    requires
        matches_spec(WireId::Gemini, path),
    ensures
        exists|i: int| 0 <= i < path.len() && path[i] == ':',
{
    reveal_strlit(":generateContent");
    reveal_strlit(":streamGenerateContent");
    if ends_with(path, ":generateContent"@) {
        let i = path.len() - 16;
        assert(path.skip(i)[0] == ':');
    } else {
        let i = path.len() - 22;
        assert(path.skip(i)[0] == ':');
    }
}

/// The fixed paths hold no `:`.
proof fn lemma_fixed_no_colon(path: Chars, w: WireId)
    requires
        w != WireId::Gemini,
        matches_spec(w, path),
    ensures
        forall|i: int| 0 <= i < path.len() ==> path[i] != ':',
{
    reveal_strlit("/v1/messages");
    reveal_strlit("/v1/chat/completions");
    reveal_strlit("/v1/responses");
}

/// No request path belongs to two wires: dispatch order never decides.
pub proof fn law_paths_belong_to_one_wire(path: Chars, w1: WireId, w2: WireId)
    requires
        matches_spec(w1, path),
        matches_spec(w2, path),
    ensures
        w1 == w2,
{
    reveal_strlit("/v1/messages");
    reveal_strlit("/v1/chat/completions");
    reveal_strlit("/v1/responses");
    if w1 != w2 {
        if w1 == WireId::Gemini {
            lemma_gemini_colon(path);
            lemma_fixed_no_colon(path, w2);
        } else if w2 == WireId::Gemini {
            lemma_gemini_colon(path);
            lemma_fixed_no_colon(path, w1);
        } else {
            assert("/v1/messages"@.len() == 12);
            assert("/v1/responses"@.len() == 13);
            assert("/v1/chat/completions"@.len() == 20);
        }
    }
}

/// The wire `for_path` picks owns the path, and a path no wire owns gets none.
pub proof fn law_for_path_owns(path: Chars)
    ensures
        for_path_spec(path) matches Some(w) ==> matches_spec(w, path),
        for_path_spec(path) is None ==> forall|w: WireId| !matches_spec(w, path),
{
}

/// A wire's billable total never counts the cached slice twice: OpenAI and Gemini bill
/// input plus output only.
pub proof fn law_openai_total_ignores_cache(u: Usage, cache_read: i64, cache_create: i64)
    ensures
        provider_total_spec(WireId::OpenAiChat, u) == provider_total_spec(
            WireId::OpenAiChat,
            Usage { cache_read, cache_create, ..u },
        ),
        provider_total_spec(WireId::Gemini, u) == provider_total_spec(
            WireId::Gemini,
            Usage { cache_read, cache_create, ..u },
        ),
{
}


// ---------------------------------------------------------------------------------------
// Skill bodies in a conversation
// ---------------------------------------------------------------------------------------

/// How a skill body starts: the text the host puts before a launched skill's files.
pub const SKILL_BODY: &'static str = "Base directory for this skill:";

/// One content block of a user message, as the skill scan reads it.
pub enum Block {
    /// A `tool_result` block: its `tool_use_id` and its result text (the content string,
    /// or the text of a content array's only part), where present.
    ToolResult { id: Option<String>, text: Option<String> },
    /// Any other block, with its `text` string where it has one.
    Text(Option<String>),
}

/// One message, as the skill scan reads it.
pub enum Message {
    /// A `tool`-role message: its `tool_call_id` and its result text, where present.
    Tool { id: Option<String>, text: Option<String> },
    /// A user message whose content is a string.
    UserText(String),
    /// A user message whose content is an array of blocks.
    UserBlocks(Vec<Block>),
    /// A user message with any other content.
    UserOther,
    /// A message of any other role.
    Other,
}

/// A [`Block`] as a value.
pub enum BlockV {
    ToolResult { id: Option<Chars>, text: Option<Chars> },
    Text(Option<Chars>),
}

/// A [`Message`] as a value.
pub enum MessageV {
    Tool { id: Option<Chars>, text: Option<Chars> },
    UserText(Chars),
    UserBlocks(Seq<BlockV>),
    UserOther,
    Other,
}

/// An optional text as a value.
pub open spec fn opt_chars(o: Option<String>) -> Option<Chars> {
    match o {
        Some(s) => Some(s@),
        None => None,
    }
}

impl View for Block {
    type V = BlockV;

    open spec fn view(&self) -> BlockV {
        match self {
            Block::ToolResult { id, text } => BlockV::ToolResult { id: opt_chars(*id), text: opt_chars(*text) },
            Block::Text(t) => BlockV::Text(opt_chars(*t)),
        }
    }
}

impl View for Message {
    type V = MessageV;

    open spec fn view(&self) -> MessageV {
        match self {
            Message::Tool { id, text } => MessageV::Tool { id: opt_chars(*id), text: opt_chars(*text) },
            Message::UserText(t) => MessageV::UserText(t@),
            Message::UserBlocks(b) => MessageV::UserBlocks(Seq::new(b@.len(), |i: int| b@[i]@)),
            Message::UserOther => MessageV::UserOther,
            Message::Other => MessageV::Other,
        }
    }
}

/// A skill body found: where it is (the message, and the block within it for block
/// content), the tool call that launched it, the skill's name, and the turn (user
/// messages after it).
pub struct SkillHit {
    pub message: usize,
    pub block: Option<usize>,
    pub id: String,
    pub name: String,
    pub turn: usize,
}

/// A [`SkillHit`] as a value.
pub type HitV = (int, Option<int>, Chars, Chars, int);

/// The launch a tool result announces: `Launching skill: <name>` (trimmed, the name
/// trimmed and not empty) under a call id.
pub open spec fn launching_spec(id: Option<Chars>, text: Option<Chars>) -> Option<(Chars, Chars)> {
    match (id, text) {
        (Some(i), Some(t)) => {
            let tt = crate::text::trim(t);
            if crate::text::starts_with(tt, "Launching skill: "@) {
                let name = crate::text::trim(tt.skip(17));
                if name.len() > 0 {
                    Some((i, name))
                } else {
                    None
                }
            } else {
                None
            }
        },
        _ => None,
    }
}

/// Whether a text is a skill body.
pub open spec fn is_skill_body(t: Chars) -> bool {
    crate::text::starts_with(t, SKILL_BODY@)
}

/// The scan through the blocks of message `m` (turn `turn`), from the launch waiting
/// (`pending`) and the hits so far: a tool result sets the launch waiting; a block whose
/// text is a skill body takes a waiting launch.
pub open spec fn scan_blocks(
    bs: Seq<BlockV>,
    pending: Option<(Chars, Chars)>,
    out: Seq<HitV>,
    m: int,
    turn: int,
) -> (Option<(Chars, Chars)>, Seq<HitV>)
    decreases bs.len(),
{
    if bs.len() == 0 {
        (pending, out)
    } else {
        let (p, o) = scan_blocks(bs.drop_last(), pending, out, m, turn);
        let j = bs.len() - 1;
        match bs.last() {
            BlockV::ToolResult { id, text } => (launching_spec(id, text), o),
            BlockV::Text(t) => match (t, p) {
                (Some(x), Some((id, name))) => if is_skill_body(x) {
                    (None, o.push((m, Some(j), id, name, turn)))
                } else {
                    (p, o)
                },
                _ => (p, o),
            },
        }
    }
}

/// The scan through the messages: the user messages seen, the launch waiting, and the
/// hits. A tool message sets the launch waiting. A user message counts; string content
/// takes the waiting launch, a hit when the string is a skill body; block content is
/// scanned block by block; any other content drops the waiting launch.
pub open spec fn scan_messages(msgs: Seq<MessageV>, total: int) -> (int, Option<(Chars, Chars)>, Seq<HitV>)
    decreases msgs.len(),
{
    if msgs.len() == 0 {
        (0, None, Seq::empty())
    } else {
        let (seen, pending, out) = scan_messages(msgs.drop_last(), total);
        let m = msgs.len() - 1;
        let turn = total - (seen + 1);
        match msgs.last() {
            MessageV::Tool { id, text } => (seen, launching_spec(id, text), out),
            MessageV::Other => (seen, pending, out),
            MessageV::UserOther => (seen + 1, None, out),
            MessageV::UserText(t) => match pending {
                Some((id, name)) => if is_skill_body(t) {
                    (seen + 1, None, out.push((m, None, id, name, turn)))
                } else {
                    (seen + 1, None, out)
                },
                None => (seen + 1, None, out),
            },
            MessageV::UserBlocks(bs) => {
                let (p, o) = scan_blocks(bs, pending, out, m, turn);
                (seen + 1, p, o)
            },
        }
    }
}

/// The user messages among `msgs`.
pub open spec fn user_count(msgs: Seq<MessageV>) -> int
    decreases msgs.len(),
{
    if msgs.len() == 0 {
        0
    } else {
        user_count(msgs.drop_last()) + match msgs.last() {
            MessageV::Tool { .. } => 0int,
            MessageV::Other => 0int,
            _ => 1int,
        }
    }
}

/// The views of the messages.
pub open spec fn messages_view(v: Seq<Message>) -> Seq<MessageV> {
    Seq::new(v.len(), |i: int| v[i]@)
}

/// The views of the hits.
pub open spec fn hits_view(v: Seq<SkillHit>) -> Seq<HitV> {
    Seq::new(
        v.len(),
        |i: int|
            (
                v[i].message as int,
                match v[i].block {
                    Some(b) => Some(b as int),
                    None => None,
                },
                v[i].id@,
                v[i].name@,
                v[i].turn as int,
            ),
    )
}

/// A waiting launch as a value.
pub open spec fn pend_view(p: Option<(String, String)>) -> Option<(Chars, Chars)> {
    match p {
        Some((a, b)) => Some((a@, b@)),
        None => None,
    }
}

/// [`launching_spec`].
fn launching(id: &Option<String>, text: &Option<String>) -> (r: Option<(String, String)>)
    ensures
        match r {
            Some((i, n)) => launching_spec(opt_chars(*id), opt_chars(*text)) == Some((i@, n@)),
            None => launching_spec(opt_chars(*id), opt_chars(*text)) is None,
        },
{
    match (id, text) {
        (Some(i), Some(t)) => {
            let tc = chars_of(t.as_str());
            let tt = crate::text::trim_chars(tc.as_slice());
            proof {
                reveal_strlit("Launching skill: ");
            }
            match crate::text::strip_prefix_chars(tt.as_slice(), "Launching skill: ") {
                Some(rest) => {
                    let name = crate::text::trim_chars(rest.as_slice());
                    if name.len() > 0 {
                        Some((crate::text::copy_str(i.as_str()), crate::text::string_from(name.as_slice())))
                    } else {
                        None
                    }
                },
                None => None,
            }
        },
        _ => None,
    }
}

/// Whether a text is a skill body ([`is_skill_body`]).
fn skill_body(t: &str) -> (r: bool)
    ensures
        r == is_skill_body(t@),
{
    let c = chars_of(t);
    crate::text::prefix_lit(c.as_slice(), SKILL_BODY)
}

/// The skill bodies in a conversation of `total` user messages ([`scan_messages`]): each
/// user text, or text block, that starts with [`SKILL_BODY`] right after a tool result
/// announcing `Launching skill: <name>`, with the launching call's id and the skill's name.
pub fn collect_skill_refs(messages: &Vec<Message>, total: usize) -> (r: Vec<SkillHit>)
    requires
        user_count(messages_view(messages@)) <= total,
    ensures
        hits_view(r@) == scan_messages(messages_view(messages@), total as int).2,
{
    let ghost mv = messages_view(messages@);
    let mut seen: usize = 0;
    let mut pending: Option<(String, String)> = None;
    let mut out: Vec<SkillHit> = Vec::new();
    let mut i: usize = 0;
    while i < messages.len()
        invariant
            i <= messages@.len(),
            mv == messages_view(messages@),
            user_count(mv) <= total,
            user_count(mv.take(i as int)) == seen,
            ({
                let (s, p, o) = scan_messages(mv.take(i as int), total as int);
                &&& s == seen
                &&& p == pend_view(pending)
                &&& o == hits_view(out@)
            }),
        decreases messages@.len() - i,
    {
        proof {
            assert(mv.take(i + 1).drop_last() =~= mv.take(i as int));
            assert(mv.take(i + 1).last() == messages@[i as int]@);
            lemma_user_count_prefix(mv, i as int);
        }
        match &messages[i] {
            Message::Tool { id, text } => {
                pending = launching(id, text);
            },
            Message::Other => {},
            Message::UserOther => {
                seen += 1;
                pending = None;
            },
            Message::UserText(t) => {
                seen += 1;
                let turn = total - seen;
                let taken = pending;
                pending = None;
                match taken {
                    Some((id, name)) => {
                        if skill_body(t.as_str()) {
                            let ghost before = out@;
                            let hit = SkillHit { message: i, block: None, id, name, turn };
                            out.push(hit);
                            assert(hits_view(out@) =~= hits_view(before).push(
                                (i as int, None, hit.id@, hit.name@, turn as int),
                            ));
                        }
                    },
                    None => {},
                }
            },
            Message::UserBlocks(bs) => {
                seen += 1;
                let turn = total - seen;
                let ghost bv = Seq::new(bs@.len(), |k: int| bs@[k]@);
                let ghost p0 = pend_view(pending);
                let ghost o0 = out@;
                let mut j: usize = 0;
                while j < bs.len()
                    invariant
                        j <= bs@.len(),
                        bv == Seq::new(bs@.len(), |k: int| bs@[k]@),
                        ({
                            let (p, o) = scan_blocks(bv.take(j as int), p0, hits_view(o0), i as int, turn as int);
                            &&& p == pend_view(pending)
                            &&& o == hits_view(out@)
                        }),
                    decreases bs@.len() - j,
                {
                    assert(bv.take(j + 1).drop_last() =~= bv.take(j as int));
                    assert(bv.take(j + 1).last() == bs@[j as int]@);
                    match &bs[j] {
                        Block::ToolResult { id, text } => {
                            pending = launching(id, text);
                        },
                        Block::Text(t) => {
                            match t {
                                Some(x) => {
                                    if skill_body(x.as_str()) {
                                        let taken = pending;
                                        pending = None;
                                        match taken {
                                            Some((id, name)) => {
                                                let ghost before = out@;
                                                let hit = SkillHit { message: i, block: Some(j), id, name, turn };
                                                out.push(hit);
                                                assert(hits_view(out@) =~= hits_view(before).push(
                                                    (i as int, Some(j as int), hit.id@, hit.name@, turn as int),
                                                ));
                                            },
                                            None => {},
                                        }
                                    }
                                },
                                None => {},
                            }
                        },
                    }
                    j += 1;
                }
                assert(bv.take(bs@.len() as int) =~= bv);
            },
        }
        i += 1;
    }
    assert(mv.take(mv.len() as int) =~= mv);
    out
}

/// The user count of a prefix grows by one at most, up to the whole count.
proof fn lemma_user_count_prefix(mv: Seq<MessageV>, i: int)
    requires
        0 <= i < mv.len(),
    ensures
        user_count(mv.take(i + 1)) <= user_count(mv),
        user_count(mv.take(i + 1)) == user_count(mv.take(i)) + match mv[i] {
            MessageV::Tool { .. } => 0int,
            MessageV::Other => 0int,
            _ => 1int,
        },
    decreases mv.len() - i,
{
    assert(mv.take(i + 1).drop_last() =~= mv.take(i));
    if i + 1 < mv.len() {
        lemma_user_count_prefix(mv, i + 1);
    } else {
        assert(mv.take(i + 1) =~= mv);
    }
}

/// A response streamed as server-sent events: its content type names `text/event-stream`.
pub fn is_event_stream(content_type: Option<&str>) -> (r: bool)
    ensures
        r == (content_type matches Some(c) && crate::text::contains(c@, "text/event-stream"@)),
{
    match content_type {
        Some(c) => crate::text::contains_lit(chars_of(c).as_slice(), "text/event-stream"),
        None => false,
    }
}

/// The payloads of the `data:` lines among the first `k` lines of a stream, trimmed, but
/// for empty ones and the closing `[DONE]`.
pub open spec fn sse_data_upto(ls: Seq<Chars>, k: int) -> Seq<Chars>
    decreases k,
{
    if k <= 0 {
        Seq::empty()
    } else {
        let prev = sse_data_upto(ls, k - 1);
        let l = ls[k - 1];
        if crate::text::starts_with(l, "data:"@) {
            let d = crate::text::trim(l.skip(5));
            if d.len() == 0 || d == "[DONE]"@ {
                prev
            } else {
                prev.push(d)
            }
        } else {
            prev
        }
    }
}

/// The event payloads of a streamed response body ([`sse_data_upto`] over its lines).
pub fn sse_data(text: &str) -> (r: Vec<String>)
    ensures
        crate::text::views(r@) == sse_data_upto(crate::text::lines(text@), crate::text::lines(text@).len() as int),
{
    let ls = crate::text::lines_vec(text);
    let ghost lv = crate::text::views(ls@);
    let mut out: Vec<String> = Vec::new();
    let mut i: usize = 0;
    while i < ls.len()
        invariant
            i <= ls@.len(),
            lv == crate::text::views(ls@),
            crate::text::views(out@) == sse_data_upto(lv, i as int),
        decreases ls@.len() - i,
    {
        let l = chars_of(ls[i].as_str());
        assert(lv[i as int] == l@);
        if let Some(rest) = crate::text::strip_prefix_chars(l.as_slice(), "data:") {
            proof {
                reveal_strlit("data:");
            }
            let d = crate::text::trim_chars(rest.as_slice());
            if d.len() > 0 && !crate::text::eq_lit(d.as_slice(), "[DONE]") {
                let ghost before = out@;
                out.push(string_of(d.as_slice(), 0, d.len()));
                assert(d@.subrange(0, d@.len() as int) =~= d@);
                assert(crate::text::views(out@) =~= crate::text::views(before).push(d@));
            }
        }
        i += 1;
    }
    out
}

/// The usage a stream reports: every event's counters merged in order, when any event
/// carried usage.
pub open spec fn stream_usage_upto(events: Seq<Option<Usage>>, k: int) -> Option<Usage>
    decreases k,
{
    if k <= 0 {
        None
    } else {
        let prev = stream_usage_upto(events, k - 1);
        match events[k - 1] {
            Some(u) => Some(merge_spec(
                match prev {
                    Some(p) => p,
                    None => Usage { input: 0, cache_create: 0, cache_read: 0, output: 0 },
                },
                u,
            )),
            None => prev,
        }
    }
}

/// [`stream_usage_upto`] over all events.
pub fn stream_usage(events: &[Option<Usage>]) -> (r: Option<Usage>)
    ensures
        r == stream_usage_upto(events@, events@.len() as int),
{
    let mut usage = Usage { input: 0, cache_create: 0, cache_read: 0, output: 0 };
    let mut found = false;
    let mut i: usize = 0;
    while i < events.len()
        invariant
            i <= events@.len(),
            stream_usage_upto(events@, i as int) == if found {
                Some(usage)
            } else {
                None::<Usage>
            },
            !found ==> usage == (Usage { input: 0, cache_create: 0, cache_read: 0, output: 0 }),
        decreases events@.len() - i,
    {
        if let Some(next) = events[i] {
            usage.merge(next);
            found = true;
        }
        i += 1;
    }
    if found {
        Some(usage)
    } else {
        None
    }
}

/// What a request body's `stream_options` member is, as the usage opt-in reads it.
pub enum StreamOptions {
    /// The body has no `stream_options`.
    Absent,
    /// `stream_options` is there but is not an object.
    NotObject,
    /// `stream_options` is an object, with or without an `include_usage` key.
    Object { has_include_usage: bool },
}

/// Whether a Chat Completions request gets `stream_options.include_usage = true` before it
/// is forwarded: only with the opt-in on, for a streaming request (`"stream": true`), and
/// only where the caller has not chosen (no `include_usage` key) and has not put something
/// other than an object under `stream_options`.
pub fn adds_usage_opt_in(include_usage: bool, stream_true: bool, options: &StreamOptions) -> (r: bool)
    ensures
        r == (include_usage && stream_true && (*options is Absent || *options matches StreamOptions::Object {
            has_include_usage: false,
        })),
{
    if !include_usage || !stream_true {
        return false;
    }
    match options {
        StreamOptions::Absent => true,
        StreamOptions::NotObject => false,
        StreamOptions::Object { has_include_usage } => !*has_include_usage,
    }
}

/// OpenAI's prompt count already holds the cached slice: on both OpenAI wires (Chat and
/// Responses) the billable total is input plus output, saturating at the `i64` bounds,
/// whatever the cache counters say.
pub proof fn law_openai_total_is_input_plus_output(w: WireId, u: Usage, cache_read: i64, cache_create: i64)
    requires
        provider_spec(w) == "openai"@,
    ensures
        provider_total_spec(w, u) == provider_total_spec(w, Usage { cache_read, cache_create, ..u }),
        i64::MIN <= u.input + u.output <= i64::MAX ==> provider_total_spec(w, u) == u.input + u.output,
        u.input + u.output > i64::MAX ==> provider_total_spec(w, u) == i64::MAX,
        u.input + u.output < i64::MIN ==> provider_total_spec(w, u) == i64::MIN,
{
    reveal_strlit("openai");
    reveal_strlit("anthropic");
    assert(w != WireId::Anthropic) by {
        if w == WireId::Anthropic {
            assert("anthropic"@[0] != "openai"@[0]);
        }
    }
}

} // verus!
