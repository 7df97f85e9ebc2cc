//! The tool results of a request, oldest first, each with how many user turns have
//! come since: the age by which the proxy's filters decide what to shorten. Every wire
//! lays a conversation out as items (messages, contents or input items); some items are
//! user turns, and tool results sit either inside a user turn (Anthropic, Gemini) or in
//! items of their own (both OpenAI wires).

use vstd::prelude::*;

use crate::text::Chars;

verus! {

/// One item of a conversation: whether it is a user turn, and the tool results it holds,
/// each by its call id (`None` where the result has no id or no content to rewrite).
pub struct WireItem {
    pub is_user: bool,
    pub results: Vec<Option<String>>,
}

/// Where a tool result sits, the call it answers, and its age in user turns.
pub struct ResultRef {
    pub item: usize,
    pub part: usize,
    pub id: String,
    pub turn: usize,
}

/// A [`ResultRef`] as a value.
pub open spec fn ref_view(r: ResultRef) -> (int, int, Chars, int) {
    (r.item as int, r.part as int, r.id@, r.turn as int)
}

/// The values of a list of references.
pub open spec fn refs_view(v: Seq<ResultRef>) -> Seq<(int, int, Chars, int)> {
    Seq::new(v.len(), |i: int| ref_view(v[i]))
}

/// How many of `items` are user turns.
pub open spec fn users(items: Seq<WireItem>) -> nat
    decreases items.len(),
{
    if items.len() == 0 {
        0
    } else {
        users(items.drop_last()) + if items.last().is_user {
            1nat
        } else {
            0nat
        }
    }
}

/// The age of the results in item `i`: the user turns that come after it.
pub open spec fn age(items: Seq<WireItem>, i: int) -> int {
    users(items.skip(i + 1)) as int
}

/// The references to the results of item `i` among its first `j` results.
pub open spec fn item_refs(items: Seq<WireItem>, i: int, j: int) -> Seq<(int, int, Chars, int)>
    decreases j,
{
    if j <= 0 {
        Seq::empty()
    } else {
        let prev = item_refs(items, i, j - 1);
        match items[i].results@[j - 1] {
            Some(id) => prev.push((i, j - 1, id@, age(items, i))),
            None => prev,
        }
    }
}

/// The references to every result of the first `k` items, in order.
pub open spec fn refs_upto(items: Seq<WireItem>, k: int) -> Seq<(int, int, Chars, int)>
    decreases k,
{
    if k <= 0 {
        Seq::empty()
    } else {
        refs_upto(items, k - 1) + item_refs(items, k - 1, items[k - 1].results@.len() as int)
    }
}

/// The user turns of a list split in two add up.
proof fn lemma_users_split(items: Seq<WireItem>, k: int)
    requires
        0 <= k <= items.len(),
    ensures
        users(items) == users(items.take(k)) + users(items.skip(k)),
    decreases items.len(),
{
    if items.len() > 0 && k < items.len() {
        lemma_users_split(items.drop_last(), k);
        assert(items.drop_last().take(k) =~= items.take(k));
        assert(items.skip(k).drop_last() =~= items.drop_last().skip(k));
    } else if k == items.len() {
        assert(items.take(k) =~= items);
        assert(items.skip(k).len() == 0);
    }
}

/// The references to every tool result of `items`, oldest first, each aged by the user
/// turns that follow the item it sits in.
pub fn tool_result_turns(items: &[WireItem]) -> (r: Vec<ResultRef>)
    ensures
        refs_view(r@) == refs_upto(items@, items@.len() as int),
{
    let mut total: usize = 0;
    let mut k: usize = 0;
    while k < items.len()
        invariant
            k <= items@.len(),
            total == users(items@.take(k as int)),
            total <= k,
        decreases items@.len() - k,
    {
        assert(items@.take(k + 1).drop_last() =~= items@.take(k as int));
        if items[k].is_user {
            total += 1;
        }
        k += 1;
    }
    assert(items@.take(items@.len() as int) =~= items@);
    let mut out: Vec<ResultRef> = Vec::new();
    let mut seen: usize = 0;
    let mut i: usize = 0;
    while i < items.len()
        invariant
            i <= items@.len(),
            total == users(items@),
            seen == users(items@.take(i as int)),
            seen <= i,
            refs_view(out@) == refs_upto(items@, i as int),
        decreases items@.len() - i,
    {
        let item = &items[i];
        assert(items@.take(i + 1).drop_last() =~= items@.take(i as int));
        if item.is_user {
            seen += 1;
        }
        proof {
            lemma_users_split(items@, i + 1);
        }
        let turn = total - seen;
        assert(turn == age(items@, i as int));
        let ghost base = refs_view(out@);
        let mut j: usize = 0;
        while j < item.results.len()
            invariant
                j <= item.results@.len(),
                i < items@.len(),
                *item == items@[i as int],
                turn == age(items@, i as int),
                base == refs_upto(items@, i as int),
                refs_view(out@) == base + item_refs(items@, i as int, j as int),
            decreases item.results@.len() - j,
        {
            match &item.results[j] {
                Some(id) => {
                    let ghost before = refs_view(out@);
                    out.push(ResultRef { item: i, part: j, id: crate::text::copy_str(id.as_str()), turn });
                    assert(refs_view(out@) =~= before.push((i as int, j as int, id@, turn as int)));
                    assert(base + item_refs(items@, i as int, j + 1) =~= (base + item_refs(items@, i as int, j as int)).push((i as int, j as int, id@, turn as int)));
                },
                None => {},
            }
            j += 1;
        }
        i += 1;
    }
    out
}

/// Results never get younger further back: a result in an earlier item is at least as
/// many user turns old as one in a later item.
pub proof fn law_older_items_are_older(items: Seq<WireItem>, i: int, j: int)
    requires
        0 <= i <= j < items.len(),
    ensures
        age(items, i) >= age(items, j),
{
    let tail = items.skip(i + 1);
    lemma_users_split(tail, j - i);
    assert(tail.skip(j - i) =~= items.skip(j + 1));
}

/// The positions, among the first `k` references, of the results old enough to rewrite:
/// at least `keep` user turns old.
pub open spec fn rewritable_upto(refs: Seq<(int, int, Chars, int)>, keep: int, k: int) -> Seq<int>
    decreases k,
{
    if k <= 0 {
        Seq::empty()
    } else {
        let prev = rewritable_upto(refs, keep, k - 1);
        if refs[k - 1].3 >= keep {
            prev.push(k - 1)
        } else {
            prev
        }
    }
}

/// The results a filter may rewrite, by position: the last `keep` user turns stay intact.
pub fn rewritable(refs: &[ResultRef], keep: usize) -> (r: Vec<usize>)
    ensures
        Seq::new(r@.len(), |i: int| r@[i] as int) == rewritable_upto(refs_view(refs@), keep as int, refs@.len() as int),
        forall|i: int| 0 <= i < r@.len() ==> r@[i] < refs@.len() && refs@[r@[i] as int].turn >= keep,
{
    let ghost rv = refs_view(refs@);
    let mut out: Vec<usize> = Vec::new();
    let mut i: usize = 0;
    while i < refs.len()
        invariant
            i <= refs@.len(),
            rv == refs_view(refs@),
            Seq::new(out@.len(), |m: int| out@[m] as int) == rewritable_upto(rv, keep as int, i as int),
            forall|m: int| 0 <= m < out@.len() ==> out@[m] < i && refs@[out@[m] as int].turn >= keep,
        decreases refs@.len() - i,
    {
        let ghost before = out@;
        if refs[i].turn >= keep {
            out.push(i);
        }
        assert(Seq::new(out@.len(), |m: int| out@[m] as int) =~= rewritable_upto(rv, keep as int, i + 1)) by {
            assert(Seq::new(before.len(), |m: int| before[m] as int) == rewritable_upto(rv, keep as int, i as int));
        }
        i += 1;
    }
    out
}

/// The results the toon filter encodes, by position: none while it is off, else those
/// outside the live zone of the last `keep` user turns ([`rewritable`]).
pub fn toon_targets(enabled: bool, refs: &[ResultRef], keep: usize) -> (r: Vec<usize>)
    ensures
        !enabled ==> r@.len() == 0,
        enabled ==> Seq::new(r@.len(), |i: int| r@[i] as int) == rewritable_upto(
            refs_view(refs@),
            keep as int,
            refs@.len() as int,
        ),
{
    if !enabled {
        return Vec::new();
    }
    rewritable(refs, keep)
}

} // verus!
