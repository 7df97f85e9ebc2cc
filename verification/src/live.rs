//! In-memory live view of plain-proxy traffic: a bounded ring, newest first, that nothing
//! persists. The process-wide instance and its lock belong to the caller; this module owns
//! what a push and a clear do to the ring, and the operator warning for plain mode.

use std::collections::VecDeque;

use vstd::prelude::*;

use crate::text::Chars;

verus! {

/// Cap matches the Calls page budget so the operator model stays cheap.
pub const LIVE_CAP: usize = 120;

/// The ring of recent calls, newest at the front, never longer than [`LIVE_CAP`].
pub struct LiveRing<T> {
    q: VecDeque<T>,
}

impl<T> View for LiveRing<T> {
    type V = Seq<T>;

    closed spec fn view(&self) -> Seq<T> {
        self.q@
    }
}

/// What the ring holds after `call` is pushed onto `old`: the call in front, then the
/// older entries, cut to the newest [`LIVE_CAP`].
pub open spec fn pushed<T>(old: Seq<T>, call: T) -> Seq<T> {
    let s = seq![call] + old;
    if s.len() <= LIVE_CAP {
        s
    } else {
        s.take(LIVE_CAP as int)
    }
}

impl<T> LiveRing<T> {
    /// An empty ring.
    pub fn new() -> (r: Self)
        ensures
            r@ == Seq::<T>::empty(),
    {
        LiveRing { q: VecDeque::with_capacity(LIVE_CAP) }
    }

    /// The entries, newest first.
    pub fn items(&self) -> (r: &VecDeque<T>)
        ensures
            r@ == self@,
    {
        &self.q
    }
}

/// Record one finished plain-proxy request (newest at the front), dropping the oldest
/// entries beyond [`LIVE_CAP`].
pub fn push<T>(ring: &mut LiveRing<T>, call: T)
    ensures
        final(ring)@ == pushed(old(ring)@, call),
        final(ring)@.len() <= LIVE_CAP,
{
    let ghost s = seq![call] + ring.q@;
    ring.q.push_front(call);
    while ring.q.len() > LIVE_CAP
        invariant
            ring.q@ == s.take(ring.q@.len() as int),
            ring.q@.len() <= s.len(),
            ring.q@.len() >= (if s.len() <= LIVE_CAP {
                s.len()
            } else {
                LIVE_CAP as nat
            }),
        decreases ring.q@.len(),
    {
        let ghost before = ring.q@;
        ring.q.pop_back();
        assert(ring.q@ =~= s.take(ring.q@.len() as int));
    }
    assert(s.take(s.len() as int) =~= s);
}

/// Empty the ring.
pub fn clear<T>(ring: &mut LiveRing<T>)
    ensures
        final(ring)@ == Seq::<T>::empty(),
{
    ring.q.clear();
}

/// Which `enabled` keys a plain-mode warning names.
pub open spec fn alert_keys(proxy_enabled: bool, core_enabled: bool) -> Chars {
    if !proxy_enabled && !core_enabled {
        "[proxy] enabled and [core] enabled"@
    } else if !proxy_enabled {
        "[proxy] enabled"@
    } else {
        "[core] enabled"@
    }
}

/// The plain-mode warning text for the keys `which`.
pub open spec fn alert_text(which: Chars) -> Chars {
    "proxy disabled — live passthrough (not recorded). Set "@ + which
        + " = true and restart to restore compress/bookkeeping."@
}

/// Persistent operator warning while config keeps the proxy in plain mode: none when both
/// `[proxy] enabled` and `[core] enabled` are on, else one line naming the keys that are off.
pub fn alerts(proxy_enabled: bool, core_enabled: bool) -> (r: Vec<String>)
    ensures
        proxy_enabled && core_enabled ==> r@.len() == 0,
        !(proxy_enabled && core_enabled) ==> r@.len() == 1 && r@[0]@ == alert_text(
            alert_keys(proxy_enabled, core_enabled),
        ),
{
    if proxy_enabled && core_enabled {
        return Vec::new();
    }
    let which = if !proxy_enabled && !core_enabled {
        "[proxy] enabled and [core] enabled"
    } else if !proxy_enabled {
        "[proxy] enabled"
    } else {
        "[core] enabled"
    };
    let mut line = "proxy disabled — live passthrough (not recorded). Set ".to_owned();
    line.append(which);
    line.append(" = true and restart to restore compress/bookkeeping.");
    let mut v: Vec<String> = Vec::new();
    v.push(line);
    v
}

/// The ring never grows past its cap, whatever was in it before the push.
pub proof fn law_push_keeps_cap<T>(old: Seq<T>, call: T)
    ensures
        pushed(old, call).len() <= LIVE_CAP,
        pushed(old, call).len() > 0,
        pushed(old, call)[0] == call,
{
}

/// A push keeps the older entries in order behind the new one (up to the cap).
pub proof fn law_push_keeps_order<T>(old: Seq<T>, call: T, i: int)
    requires
        0 <= i < old.len(),
        i + 1 < LIVE_CAP,
    ensures
        pushed(old, call)[i + 1] == old[i],
{
}

} // verus!
