//! What every catalogue plugin declares about itself: its id, the surfaces it serves, whether
//! it is on by default, and the copy of its dashboard page.

use vstd::prelude::*;

use crate::text::Chars;

verus! {

/// Where a plugin is reachable.
#[derive(Clone, Copy, Debug, PartialEq, Eq, Structural)]
pub enum Surface {
    Hook,
    Mcp,
    Cli,
    Proxy,
}

/// The lower-case name a surface goes by in manifests and tables.
pub open spec fn surface_name(s: Surface) -> Chars {
    match s {
        Surface::Hook => "hook"@,
        Surface::Mcp => "mcp"@,
        Surface::Cli => "cli"@,
        Surface::Proxy => "proxy"@,
    }
}

impl Surface {
    /// [`surface_name`].
    pub fn as_str(&self) -> (r: &'static str)
        ensures
            r@ == surface_name(*self),
    {
        match self {
            Surface::Hook => "hook",
            Surface::Mcp => "mcp",
            Surface::Cli => "cli",
            Surface::Proxy => "proxy",
        }
    }
}

/// A plugin's catalogue entry.
pub struct Manifest {
    pub id: &'static str,
    pub surfaces: Vec<Surface>,
    pub default_on: bool,
}

/// The copy of a plugin's dashboard page.
pub struct DashboardPage {
    pub title: &'static str,
    pub summary: &'static str,
    pub saves_tokens: bool,
}

/// The manifest `m` has id `id`, exactly the surfaces `surfaces` and default `on`.
pub open spec fn declares(m: Manifest, id: Chars, surfaces: Seq<Surface>, on: bool) -> bool {
    m.id@ == id && m.surfaces@ == surfaces && m.default_on == on
}

/// Catalogue plugin `measure`: session-log ingest, proxy usage capture, stats.
pub struct Measure;

impl Measure {
    pub fn manifest(&self) -> (m: Manifest)
        ensures
            declares(m, "measure"@, seq![Surface::Cli, Surface::Proxy], true),
    {
        Manifest { id: "measure", surfaces: vec![Surface::Cli, Surface::Proxy], default_on: true }
    }
}

/// Catalogue plugin `proxy`: `ANTHROPIC_BASE_URL` passthrough with usage capture.
pub struct Proxy;

impl Proxy {
    pub fn manifest(&self) -> (m: Manifest)
        ensures
            declares(m, "proxy"@, seq![Surface::Proxy], true),
    {
        let mut surfaces: Vec<Surface> = Vec::new();
        surfaces.push(Surface::Proxy);
        assert(surfaces@ =~= seq![Surface::Proxy]);
        Manifest { id: "proxy", surfaces, default_on: true }
    }
}

/// Catalogue plugin `toon`: compact tabular JSON, off until it beats the corpus.
pub struct Toon;

impl Toon {
    pub fn manifest(&self) -> (m: Manifest)
        ensures
            declares(m, "toon"@, seq![Surface::Proxy, Surface::Mcp], false),
    {
        Manifest { id: "toon", surfaces: vec![Surface::Proxy, Surface::Mcp], default_on: false }
    }

    pub fn dashboard_page(&self) -> (p: DashboardPage)
        ensures
            p.title@ == "TOON"@,
            p.summary@ == "Compact tabular JSON. Off by default until it beats the corpus."@,
            p.saves_tokens,
    {
        DashboardPage {
            title: "TOON",
            summary: "Compact tabular JSON. Off by default until it beats the corpus.",
            saves_tokens: true,
        }
    }
}

/// Why a `.wasm` plugin's manifest is refused.
#[derive(Clone, Copy, Debug, PartialEq, Eq, Structural)]
pub enum WasmSurfaceError {
    /// It declares the hook surface, which a sandboxed plugin may not serve.
    Hook,
    /// None of its surfaces is one a sandboxed plugin may serve.
    NoneAllowed,
}

impl WasmSurfaceError {
    /// The error's message.
    pub fn message(&self) -> (r: &'static str)
        ensures
            r@ == match *self {
                WasmSurfaceError::Hook => "wasm plugin declares hook surface"@,
                WasmSurfaceError::NoneAllowed => "wasm plugin has no allowed surfaces"@,
            },
    {
        match self {
            WasmSurfaceError::Hook => "wasm plugin declares hook surface",
            WasmSurfaceError::NoneAllowed => "wasm plugin has no allowed surfaces",
        }
    }
}

/// The surface a sandboxed plugin may serve under a manifest name, if any.
pub open spec fn wasm_surface(name: Chars) -> Option<Surface> {
    if name == "mcp"@ {
        Some(Surface::Mcp)
    } else if name == "proxy"@ {
        Some(Surface::Proxy)
    } else if name == "cli"@ {
        Some(Surface::Cli)
    } else {
        None
    }
}

/// The allowed surfaces among `names`, in order; unknown names are dropped.
pub open spec fn wasm_surfaces_of(names: Seq<Chars>) -> Seq<Surface>
    decreases names.len(),
{
    if names.len() == 0 {
        Seq::empty()
    } else {
        let prev = wasm_surfaces_of(names.drop_last());
        match wasm_surface(names.last()) {
            Some(s) => prev.push(s),
            None => prev,
        }
    }
}

/// The surfaces a `.wasm` plugin's manifest names: refused when any is `hook`, else the
/// allowed ones in order ([`wasm_surfaces_of`]), refused when none is left.
pub fn wasm_surfaces(names: &Vec<String>) -> (r: Result<Vec<Surface>, WasmSurfaceError>)
    ensures
        match r {
            Ok(v) => !crate::text::views(names@).contains("hook"@) && v@ == wasm_surfaces_of(
                crate::text::views(names@),
            ) && v@.len() > 0,
            Err(WasmSurfaceError::Hook) => crate::text::views(names@).contains("hook"@),
            Err(WasmSurfaceError::NoneAllowed) => !crate::text::views(names@).contains("hook"@)
                && wasm_surfaces_of(crate::text::views(names@)).len() == 0,
        },
{
    let ghost nv = crate::text::views(names@);
    let mut out: Vec<Surface> = Vec::new();
    let mut i: usize = 0;
    while i < names.len()
        invariant
            nv == crate::text::views(names@),
            i <= names@.len(),
            out@ == wasm_surfaces_of(nv.take(i as int)),
            !nv.take(i as int).contains("hook"@),
        decreases names@.len() - i,
    {
        let n = names[i].as_str();
        assert(nv[i as int] == names@[i as int]@);
        assert(nv.take(i + 1).drop_last() == nv.take(i as int));
        assert(nv.take(i + 1).last() == nv[i as int]);
        if crate::text::str_eq(n, "hook") {
            assert(nv.contains(nv[i as int]));
            return Err(WasmSurfaceError::Hook);
        }
        if crate::text::str_eq(n, "mcp") {
            out.push(Surface::Mcp);
        } else if crate::text::str_eq(n, "proxy") {
            out.push(Surface::Proxy);
        } else if crate::text::str_eq(n, "cli") {
            out.push(Surface::Cli);
        }
        proof {
            assert(!nv.take(i + 1).contains("hook"@)) by {
                if nv.take(i + 1).contains("hook"@) {
                    let j = choose|j: int| 0 <= j < i + 1 && #[trigger] nv.take(i + 1)[j] == "hook"@;
                    if j < i {
                        assert(nv.take(i as int)[j] == "hook"@);
                        assert(nv.take(i as int).contains("hook"@));
                    }
                }
            }
        }
        i += 1;
    }
    assert(nv.take(names@.len() as int) == nv);
    if out.len() == 0 {
        return Err(WasmSurfaceError::NoneAllowed);
    }
    Ok(out)
}

} // verus!
