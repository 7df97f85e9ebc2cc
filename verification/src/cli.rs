//! Lifecycle decisions of `rtok proxy` and `rtok wrap`: the exit code a wrapped child
//! leaves, whether a `/health` reply comes from an rtok proxy, and the edits that point
//! the agent's settings at the proxy and take them back.

use vstd::prelude::*;

use crate::text::{chars_of, contains, starts_with, Chars};

verus! {

/// What an edit of the settings file answers when it leaves the file as it was.
pub const NO_CHANGES: &'static str = "no changes";

/// The settings key the proxy owns.
pub const BASE_URL_KEY: &'static str = "env.ANTHROPIC_BASE_URL";

/// The code `wrap` exits with: the child's own code, else 128 plus the number of the
/// signal that killed it (0 when none is known), the shell's convention.
pub open spec fn exit_code_spec(code: Option<i32>, signal: Option<i32>) -> int {
    match code {
        Some(c) => c as int,
        None => 128 + match signal {
            Some(s) => s as int,
            None => 0,
        },
    }
}

/// [`exit_code_spec`].
pub fn exit_code(code: Option<i32>, signal: Option<i32>) -> (r: i32)
    requires
        signal matches Some(s) ==> s <= i32::MAX - 128,
    ensures
        r == exit_code_spec(code, signal),
{
    match code {
        Some(c) => c,
        None => match signal {
            Some(s) => 128 + s,
            None => 128,
        },
    }
}

/// A `GET /health` reply from an rtok proxy: status 200 and a body that reports
/// `"recording"`; another service owning the port answers otherwise.
pub open spec fn health_ok_spec(reply: Chars) -> bool {
    starts_with(reply, "HTTP/1.1 200"@) && contains(reply, "\"recording\""@)
}

/// [`health_ok_spec`].
pub fn health_reply_ok(reply: &str) -> (r: bool)
    ensures
        r == health_ok_spec(reply@),
{
    let c = chars_of(reply);
    crate::text::prefix_lit(c.as_slice(), "HTTP/1.1 200") && crate::text::contains_lit(
        c.as_slice(),
        "\"recording\"",
    )
}

/// What `env.ANTHROPIC_BASE_URL` holds in the settings file.
pub enum BaseUrl {
    /// The key is not set.
    Absent,
    /// The key holds this text.
    Text(String),
    /// The key holds something that is not a text.
    Other,
}

/// [`BaseUrl`] as a value.
pub enum BaseUrlV {
    Absent,
    Text(Chars),
    Other,
}

impl View for BaseUrl {
    type V = BaseUrlV;

    open spec fn view(&self) -> BaseUrlV {
        match self {
            BaseUrl::Absent => BaseUrlV::Absent,
            BaseUrl::Text(s) => BaseUrlV::Text(s@),
            BaseUrl::Other => BaseUrlV::Other,
        }
    }
}

/// The key after an edit, and what the edit reports.
pub struct Edit {
    pub base_url: BaseUrl,
    pub report: String,
}

/// What pointing the settings at `url` reports: nothing to do when the key already holds
/// `url`; otherwise the new value and how to take it back (restore the old text, or remove
/// the key when it held no text).
pub open spec fn register_report(prev: BaseUrlV, url: Chars) -> Chars {
    if prev == BaseUrlV::Text(url) {
        NO_CHANGES@
    } else {
        BASE_URL_KEY@ + ": "@ + url + "\n"@ + match prev {
            BaseUrlV::Text(old) => "revert: set "@ + BASE_URL_KEY@ + " to "@ + old,
            _ => "revert: remove "@ + BASE_URL_KEY@,
        }
    }
}

/// Points `env.ANTHROPIC_BASE_URL` at the proxy's `url`: the key ends up holding `url`, and
/// the report says whether anything changed and how to revert it.
pub fn register_edit(prev: &BaseUrl, url: &str) -> (r: Edit)
    ensures
        r.base_url@ == BaseUrlV::Text(url@),
        r.report@ == register_report(prev@, url@),
{
    let same = match prev {
        BaseUrl::Text(s) => crate::text::str_eq(s.as_str(), url),
        _ => false,
    };
    if same {
        return Edit { base_url: BaseUrl::Text(crate::text::copy_str(url)), report: NO_CHANGES.to_owned() };
    }
    let mut report = BASE_URL_KEY.to_owned();
    report.append(": ");
    report.append(url);
    report.append("\n");
    match prev {
        BaseUrl::Text(old) => {
            report.append("revert: set ");
            report.append(BASE_URL_KEY);
            report.append(" to ");
            report.append(old.as_str());
        },
        _ => {
            report.append("revert: remove ");
            report.append(BASE_URL_KEY);
        },
    }
    Edit { base_url: BaseUrl::Text(crate::text::copy_str(url)), report }
}

/// The `env` object of the settings file, as far as taking the proxy back reads it.
pub struct EnvObject {
    /// The proxy's key.
    pub base_url: BaseUrl,
    /// How many other keys the object holds.
    pub others: usize,
}

/// What taking the proxy back does to the settings.
pub enum Unregister {
    /// Nothing: there is no `env` object, or the key does not hold the proxy's URL.
    NoChange,
    /// The key goes; so does the `env` object when nothing else is left in it.
    Remove { drop_env: bool },
}

/// Removes `env.ANTHROPIC_BASE_URL` only while it still points at this proxy's `url`: a URL
/// set by hand is not the proxy's to delete. An `env` left empty goes too.
pub fn unregister_edit(env: &Option<EnvObject>, url: &str) -> (r: Unregister)
    ensures
        match r {
            Unregister::NoChange => !(env matches Some(e) && e.base_url@ == BaseUrlV::Text(url@)),
            Unregister::Remove { drop_env } => env matches Some(e) && e.base_url@ == BaseUrlV::Text(
                url@,
            ) && drop_env == (e.others == 0),
        },
{
    match env {
        None => Unregister::NoChange,
        Some(e) => {
            let ours = match &e.base_url {
                BaseUrl::Text(s) => crate::text::str_eq(s.as_str(), url),
                _ => false,
            };
            if ours {
                Unregister::Remove { drop_env: e.others == 0 }
            } else {
                Unregister::NoChange
            }
        },
    }
}

/// The report of a removal.
pub fn unregister_report() -> (s: String)
    ensures
        s@ == "- "@ + BASE_URL_KEY@,
{
    let mut s = "- ".to_owned();
    s.append(BASE_URL_KEY);
    s
}

/// Once the key holds the proxy's URL (as every [`register_edit`] leaves it), pointing the
/// settings at the proxy again changes nothing.
pub proof fn law_register_idempotent(url: Chars)
    ensures
        register_report(BaseUrlV::Text(url), url) == NO_CHANGES@,
{
}

} // verus!
