//! The proxy's request plumbing decisions: which session a request belongs to, the
//! upstream URL it is forwarded to, and which headers stay behind.

use vstd::prelude::*;

use crate::digest::{hex_lower, hex_sha256, sha256_digest};
use crate::text::{chars_of, Chars};

verus! {

/// The session a request belongs to: the wire's own session id, else the Anthropic-style
/// `metadata.user_id`, else the `x-rtok-session` header, else `x-session-id` (each counted
/// only when not empty), else the SHA-256 of the raw body in lowercase hex.
pub open spec fn session_spec(
    wire_session: Option<Chars>,
    metadata_user: Option<Chars>,
    rtok_header: Option<Chars>,
    session_header: Option<Chars>,
    raw: Seq<u8>,
) -> Chars {
    if wire_session matches Some(s) && s.len() > 0 {
        wire_session->Some_0
    } else if metadata_user matches Some(s) && s.len() > 0 {
        metadata_user->Some_0
    } else if rtok_header matches Some(s) && s.len() > 0 {
        rtok_header->Some_0
    } else if session_header matches Some(s) && s.len() > 0 {
        session_header->Some_0
    } else {
        hex_lower(sha256_digest(raw))
    }
}

/// An optional text as a value.
pub open spec fn opt_view(o: Option<&str>) -> Option<Chars> {
    match o {
        Some(s) => Some(s@),
        None => None,
    }
}

/// A non-empty text, copied.
fn nonempty(o: Option<&str>) -> (r: Option<String>)
    ensures
        match r {
            Some(s) => o matches Some(x) && x@.len() > 0 && s@ == x@,
            None => !(o matches Some(x) && x@.len() > 0),
        },
{
    match o {
        Some(x) => {
            let c = chars_of(x);
            if c.len() > 0 {
                Some(crate::text::copy_str(x))
            } else {
                None
            }
        },
        None => None,
    }
}

/// [`session_spec`].
pub fn session_for(
    wire_session: Option<&str>,
    metadata_user: Option<&str>,
    rtok_header: Option<&str>,
    session_header: Option<&str>,
    raw: &[u8],
) -> (r: String)
    ensures
        r@ == session_spec(
            opt_view(wire_session),
            opt_view(metadata_user),
            opt_view(rtok_header),
            opt_view(session_header),
            raw@,
        ),
{
    if let Some(s) = nonempty(wire_session) {
        return s;
    }
    if let Some(s) = nonempty(metadata_user) {
        return s;
    }
    if let Some(s) = nonempty(rtok_header) {
        return s;
    }
    if let Some(s) = nonempty(session_header) {
        return s;
    }
    hex_sha256(raw)
}

/// Why a request cannot be forwarded.
pub enum UpstreamError {
    /// No upstream is configured.
    Empty,
}

impl UpstreamError {
    /// The error's message.
    pub fn message(&self) -> (s: String)
        ensures
            s@ == "proxy.upstream is empty"@,
    {
        "proxy.upstream is empty".to_owned()
    }
}

/// The upstream URL: the base, the request path, and `?query` when the request had one.
pub open spec fn upstream_spec(base: Chars, path: Chars, query: Option<Chars>) -> Chars {
    base + path + match query {
        Some(q) => "?"@ + q,
        None => Seq::empty(),
    }
}

/// [`upstream_spec`]; an empty base is an error.
pub fn upstream_url(base: &str, path: &str, query: Option<&str>) -> (r: Result<String, UpstreamError>)
    ensures
        match r {
            Ok(u) => base@.len() > 0 && u@ == upstream_spec(base@, path@, opt_view(query)),
            Err(e) => base@.len() == 0,
        },
{
    let b = chars_of(base);
    if b.len() == 0 {
        return Err(UpstreamError::Empty);
    }
    let mut url = crate::text::copy_str(base);
    url.append(path);
    if let Some(q) = query {
        url.append("?");
        url.append(q);
    }
    Ok(url)
}

/// A header name in ASCII lower case.
pub open spec fn ascii_lower(s: Chars) -> Chars {
    Seq::new(
        s.len(),
        |i: int|
            if 'A' <= s[i] && s[i] <= 'Z' {
                ((s[i] as u8) + 32) as char
            } else {
                s[i]
            },
    )
}

/// Headers that are not forwarded: HTTP/1.1 hop-by-hop headers, framing (`content-length`,
/// since the proxy re-chunks the body) and `host`, in any ASCII case.
pub open spec fn hop_by_hop_spec(name: Chars) -> bool {
    let n = ascii_lower(name);
    ||| n == "connection"@
    ||| n == "keep-alive"@
    ||| n == "proxy-authenticate"@
    ||| n == "proxy-authorization"@
    ||| n == "te"@
    ||| n == "trailer"@
    ||| n == "transfer-encoding"@
    ||| n == "upgrade"@
    ||| n == "content-length"@
    ||| n == "host"@
}

/// [`hop_by_hop_spec`].
pub fn hop_by_hop(name: &str) -> (r: bool)
    ensures
        r == hop_by_hop_spec(name@),
{
    let c = chars_of(name);
    let mut low: Vec<char> = Vec::new();
    let mut i: usize = 0;
    while i < c.len()
        invariant
            i <= c@.len(),
            c@ == name@,
            low@ == ascii_lower(name@).take(i as int),
        decreases c@.len() - i,
    {
        let ch = c[i];
        let l = if 'A' <= ch && ch <= 'Z' {
            ((ch as u8) + 32) as char
        } else {
            ch
        };
        low.push(l);
        assert(ascii_lower(name@).take(i + 1) =~= ascii_lower(name@).take(i as int).push(l));
        i += 1;
    }
    assert(ascii_lower(name@).take(c@.len() as int) =~= ascii_lower(name@));
    let n = low.as_slice();
    crate::text::eq_lit(n, "connection") || crate::text::eq_lit(n, "keep-alive")
        || crate::text::eq_lit(n, "proxy-authenticate") || crate::text::eq_lit(
        n,
        "proxy-authorization",
    ) || crate::text::eq_lit(n, "te") || crate::text::eq_lit(n, "trailer") || crate::text::eq_lit(
        n,
        "transfer-encoding",
    ) || crate::text::eq_lit(n, "upgrade") || crate::text::eq_lit(n, "content-length")
        || crate::text::eq_lit(n, "host")
}

/// A configured upstream without its trailing slashes (`trim_end_matches('/')`).
pub open spec fn trim_slashes_end(s: Chars) -> Chars
    decreases s.len(),
{
    if s.len() > 0 && s.last() == '/' {
        trim_slashes_end(s.drop_last())
    } else {
        s
    }
}

/// [`trim_slashes_end`].
pub fn upstream_base(url: &str) -> (r: String)
    ensures
        r@ == trim_slashes_end(url@),
{
    let c = chars_of(url);
    let mut n = c.len();
    assert(c@.take(n as int) =~= c@);
    while n > 0 && c[n - 1] == '/'
        invariant
            n <= c@.len(),
            c@ == url@,
            trim_slashes_end(url@) == trim_slashes_end(c@.take(n as int)),
        decreases n,
    {
        assert(c@.take(n as int).drop_last() =~= c@.take(n - 1));
        n -= 1;
    }
    crate::text::string_of(c.as_slice(), 0, n)
}

/// The upstream a request goes to: the OpenAI one for a wire whose provider is `openai`,
/// the default (Anthropic) one for every other wire and for paths no wire owns.
pub fn upstream_for<'a>(provider: Option<&str>, upstream: &'a str, openai_upstream: &'a str) -> (r: &'a str)
    ensures
        r@ == if provider matches Some(p) && p@ == "openai"@ {
            openai_upstream@
        } else {
            upstream@
        },
{
    match provider {
        Some(p) => if crate::text::str_eq(p, "openai") {
            openai_upstream
        } else {
            upstream
        },
        None => upstream,
    }
}

/// The provider a request is booked under: its wire's, else `openai` for the two OpenAI
/// paths this build has no wire for, else none.
pub fn call_provider(wire_provider: Option<&str>, path: &str) -> (r: Option<String>)
    ensures
        match r {
            Some(p) => match wire_provider {
                Some(w) => p@ == w@,
                None => p@ == "openai"@ && (path@ == "/v1/chat/completions"@ || path@ == "/v1/responses"@),
            },
            None => wire_provider is None && !(path@ == "/v1/chat/completions"@ || path@ == "/v1/responses"@),
        },
{
    match wire_provider {
        Some(w) => Some(crate::text::copy_str(w)),
        None => if crate::text::str_eq(path, "/v1/chat/completions") || crate::text::str_eq(path, "/v1/responses") {
            Some("openai".to_owned())
        } else {
            None
        },
    }
}

#[verifier::external_type_specification]
#[verifier::external_body]
pub struct ExUrl(url::Url);

/// What the join reads of a parsed URL: whether it cannot be a base, and its path.
pub struct UrlParts {
    pub cannot_be_a_base: bool,
    pub path: String,
}

/// [`UrlParts`] as a value.
pub open spec fn url_parts_view(p: UrlParts) -> (bool, Chars) {
    (p.cannot_be_a_base, p.path@)
}

/// What `url::Url::parse` makes of a text: whether the URL cannot be a base and its
/// path, or the parse error's text.
pub uninterp spec fn url_parts(s: Chars) -> Result<(bool, Chars), Chars>;

/// `url::Url::parse`, the parsed URL read as [`UrlParts`] (`cannot_be_a_base`, `path`);
/// the error as its text. Named [`url_parts`]: parsing depends on the text alone.
#[verifier::external_body]
fn parse_url(s: &str) -> (r: Result<UrlParts, String>)
    ensures
        match r {
            Ok(p) => url_parts(s@) == Ok::<(bool, Chars), Chars>(url_parts_view(p)),
            Err(e) => url_parts(s@) == Err::<(bool, Chars), Chars>(e@),
        },
{
    match url::Url::parse(s) {
        Ok(u) => Ok(UrlParts { cannot_be_a_base: u.cannot_be_a_base(), path: u.path().to_string() }),
        Err(e) => Err(e.to_string()),
    }
}

/// The serialization of the URL `base` parses to, with its path set to `path` and, when
/// `query` is given, its query set to it.
pub uninterp spec fn url_rebuilt(base: Chars, path: Chars, query: Option<Chars>) -> Chars;

/// `url::Url::parse(base)`, then `set_path(path)` and, with a query, `set_query`, then the
/// URL as a `String`. Named [`url_rebuilt`]: it depends on its arguments alone.
#[verifier::external_body]
fn rebuild_url(base: &str, path: &str, query: Option<&str>) -> (r: String)
    requires
        url_parts(base@) is Ok,
    ensures
        r@ == url_rebuilt(base@, path@, opt_view(query)),
{
    let mut u = url::Url::parse(base).expect("parsed before");
    u.set_path(path);
    if let Some(q) = query {
        u.set_query(Some(q));
    }
    u.into()
}

/// `s` without the `/`s it ends with.
pub open spec fn trim_end_slashes(s: Chars) -> Chars
    decreases s.len(),
{
    if s.len() > 0 && s.last() == '/' {
        trim_end_slashes(s.drop_last())
    } else {
        s
    }
}

/// Each non-empty piece of `pieces`, in order, after a `/`.
pub open spec fn slash_segments(pieces: Seq<Chars>) -> Chars
    decreases pieces.len(),
{
    if pieces.len() == 0 {
        Seq::empty()
    } else {
        slash_segments(pieces.drop_last()) + if pieces.last().len() > 0 {
            seq!['/'] + pieces.last()
        } else {
            Seq::empty()
        }
    }
}

/// The upstream's path with the request path joined on: the base path without trailing
/// `/`s, then every non-empty segment of the request path after one `/`. The segments
/// are taken as they are, so `%XX` escapes are not encoded again.
pub open spec fn joined_path(base_path: Chars, path: Chars) -> Chars {
    trim_end_slashes(base_path) + slash_segments(crate::text::split_char(path, '/'))
}

/// Why the upstream URL cannot be joined.
pub enum JoinError {
    /// No upstream is configured.
    Empty,
    /// The upstream does not parse as a URL; the parser's message.
    Parse(String),
    /// The upstream URL cannot be a base (such as `mailto:`).
    CannotBeABase,
}

/// [`joined_path`].
fn join_path(base_path: &str, path: &str) -> (r: String)
    ensures
        r@ == joined_path(base_path@, path@),
{
    let b = chars_of(base_path);
    let mut end = b.len();
    assert(b@.take(end as int) == b@);
    while end > 0 && b[end - 1] == '/'
        invariant
            end <= b@.len(),
            trim_end_slashes(b@) == trim_end_slashes(b@.take(end as int)),
        decreases end,
    {
        assert(b@.take(end as int).drop_last() == b@.take(end - 1));
        end -= 1;
    }
    let mut out = crate::text::string_of(b.as_slice(), 0, end);
    assert(b@.subrange(0, end as int) == b@.take(end as int));
    let p = chars_of(path);
    let ghost base = out@;
    proof {
        reveal_strlit("/");
        assert("/"@ =~= seq!['/']);
    }
    let mut cur: Vec<char> = Vec::new();
    let mut i: usize = 0;
    assert(p@.take(0) =~= Seq::<char>::empty());
    while i < p.len()
        invariant
            i <= p@.len(),
            p@ == path@,
            "/"@ == seq!['/'],
            base == trim_end_slashes(b@),
            b@ == base_path@,
            out@ == base + slash_segments(crate::text::split_char(p@.take(i as int), '/').drop_last()),
            cur@ == crate::text::split_char(p@.take(i as int), '/').last(),
            crate::text::split_char(p@.take(i as int), '/').len() >= 1,
        decreases p@.len() - i,
    {
        let ghost pre = crate::text::split_char(p@.take(i as int), '/');
        assert(p@.take(i + 1).drop_last() == p@.take(i as int));
        assert(p@.take(i + 1).last() == p@[i as int]);
        let c = p[i];
        if c == '/' {
            let ghost q = pre.push(Seq::empty());
            assert(q.drop_last() == pre);
            if cur.len() > 0 {
                out.append("/");
                crate::text::push_all(&mut out, cur.as_slice());
                assert(out@ =~= base + slash_segments(pre.drop_last()) + (seq!['/'] + pre.last()));
            } else {
                assert(out@ =~= base + slash_segments(pre.drop_last()) + Seq::<char>::empty());
            }
            cur = Vec::new();
        } else {
            cur.push(c);
            let ghost q = pre.update(pre.len() - 1, pre.last().push(c));
            assert(q.drop_last() =~= pre.drop_last());
        }
        i += 1;
    }
    assert(p@.take(p@.len() as int) == p@);
    let ghost ps = crate::text::split_char(p@, '/');
    if cur.len() > 0 {
        out.append("/");
        crate::text::push_all(&mut out, cur.as_slice());
        assert(out@ =~= base + slash_segments(ps.drop_last()) + (seq!['/'] + ps.last()));
    } else {
        assert(out@ =~= base + slash_segments(ps.drop_last()) + Seq::<char>::empty());
    }
    assert(ps.drop_last().push(ps.last()) =~= ps);
    out
}

/// What [`join_upstream`] returns: an empty upstream is refused; one that does not parse,
/// with the parser's message; one that cannot be a base is refused; otherwise the
/// upstream with its path joined to the request path ([`joined_path`]) and the request's
/// query, when there is one.
pub open spec fn join_upstream_spec(base: Chars, path: Chars, query: Option<Chars>) -> Result<Chars, JoinErrorV> {
    if base.len() == 0 {
        Err(JoinErrorV::Empty)
    } else {
        match url_parts(base) {
            Err(e) => Err(JoinErrorV::Parse(e)),
            Ok((cannot, base_path)) => if cannot {
                Err(JoinErrorV::CannotBeABase)
            } else {
                Ok(url_rebuilt(base, joined_path(base_path, path), query))
            },
        }
    }
}

/// [`JoinError`] as a value.
pub enum JoinErrorV {
    Empty,
    Parse(Chars),
    CannotBeABase,
}

/// The view of a join error.
pub open spec fn join_error_view(e: JoinError) -> JoinErrorV {
    match e {
        JoinError::Empty => JoinErrorV::Empty,
        JoinError::Parse(m) => JoinErrorV::Parse(m@),
        JoinError::CannotBeABase => JoinErrorV::CannotBeABase,
    }
}

/// The upstream URL for a request: `base` (`proxy.upstream`) with the request's
/// already percent-encoded path joined on and its query set ([`join_upstream_spec`]).
pub fn join_upstream(base: &str, path: &str, query: Option<&str>) -> (r: Result<String, JoinError>)
    ensures
        match r {
            Ok(u) => join_upstream_spec(base@, path@, opt_view(query)) == Ok::<Chars, JoinErrorV>(u@),
            Err(e) => join_upstream_spec(base@, path@, opt_view(query)) == Err::<Chars, JoinErrorV>(
                join_error_view(e),
            ),
        },
{
    if chars_of(base).len() == 0 {
        return Err(JoinError::Empty);
    }
    let parts = match parse_url(base) {
        Ok(p) => p,
        Err(e) => return Err(JoinError::Parse(e)),
    };
    if parts.cannot_be_a_base {
        return Err(JoinError::CannotBeABase);
    }
    let joined = join_path(parts.path.as_str(), path);
    Ok(rebuild_url(base, joined.as_str(), query))
}

impl JoinError {
    /// The error's message.
    pub fn message(&self) -> (s: String)
        ensures
            s@ == match join_error_view(*self) {
                JoinErrorV::Empty => "proxy.upstream is empty"@,
                JoinErrorV::Parse(m) => "proxy upstream URL: "@ + m,
                JoinErrorV::CannotBeABase => "proxy upstream URL cannot be a base"@,
            },
    {
        match self {
            JoinError::Empty => crate::text::copy_str("proxy.upstream is empty"),
            JoinError::Parse(m) => {
                let mut s = crate::text::copy_str("proxy upstream URL: ");
                s.append(m.as_str());
                s
            },
            JoinError::CannotBeABase => crate::text::copy_str("proxy upstream URL cannot be a base"),
        }
    }
}

} // verus!
