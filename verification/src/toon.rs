//! TOON, the compact encoding of tabular JSON: an array of objects that share at least
//! three scalar keys becomes one header naming the row count and the keys, then one
//! indented line of comma-separated cells per row.
//!
//! JSON values reach the encoder already read into [`Cell`]s: a scalar, or `Nested` for
//! an array or object. An object is its entries; where a key repeats, the last entry
//! counts, as in a JSON map. A number cell holds the number's text.

use vstd::prelude::*;

use crate::text::{
    chars_of, contains, contains_lit, occurs_at, starts_with, dec_nat, find, find_spec, is_ws, join, join_strings, lines,
    lines_vec, push_all, push_u64, replace_all, replace_chars, split_char, split_vec, string_from,
    trim, trim_chars, trim_start, trim_start_chars, views, Chars,
};

verus! {

/// A JSON value as the encoder reads it.
#[derive(Debug, PartialEq, Eq)]
pub enum Cell {
    Null,
    Bool(bool),
    /// A number, by its JSON text.
    Number(String),
    Str(String),
    /// An array or an object.
    Nested,
}

/// A [`Cell`] as a value.
pub enum CellV {
    Null,
    Bool(bool),
    Number(Chars),
    Str(Chars),
    Nested,
}

impl View for Cell {
    type V = CellV;

    open spec fn view(&self) -> CellV {
        match self {
            Cell::Null => CellV::Null,
            Cell::Bool(b) => CellV::Bool(*b),
            Cell::Number(t) => CellV::Number(t@),
            Cell::Str(s) => CellV::Str(s@),
            Cell::Nested => CellV::Nested,
        }
    }
}

/// The entries of an object as values.
pub open spec fn entries_view(e: Seq<(String, Cell)>) -> Seq<(Chars, CellV)> {
    Seq::new(e.len(), |i: int| (e[i].0@, e[i].1@))
}

/// The value an object holds under `k`: its last entry with that key.
pub open spec fn lookup(e: Seq<(Chars, CellV)>, k: Chars) -> Option<CellV>
    decreases e.len(),
{
    if e.len() == 0 {
        None
    } else if e.last().0 == k {
        Some(e.last().1)
    } else {
        lookup(e.drop_last(), k)
    }
}

/// Every key of the object occurs once (a JSON map read into entries).
pub open spec fn distinct_keys(e: Seq<(Chars, CellV)>) -> bool {
    forall|i: int, j: int| 0 <= i < j < e.len() ==> e[i].0 != e[j].0
}

/// Null, a boolean, a number or a string.
pub open spec fn is_scalar(c: CellV) -> bool {
    !(c is Nested)
}

/// The keys of an object, in entry order.
pub open spec fn keys_of(e: Seq<(Chars, CellV)>) -> Seq<Chars> {
    Seq::new(e.len(), |i: int| e[i].0)
}

/// Item `i` is an object with exactly as many keys as `keys`, each holding a scalar.
pub open spec fn fits(item: Option<Seq<(Chars, CellV)>>, keys: Seq<Chars>) -> bool {
    &&& item is Some
    &&& item->Some_0.len() == keys.len()
    &&& forall|j: int|
        0 <= j < keys.len() ==> (#[trigger] lookup(item->Some_0, keys[j]) matches Some(c)
            && is_scalar(c))
}

/// The items as values; `None` stands for an item that is not an object.
pub open spec fn items_view(items: Seq<Option<Vec<(String, Cell)>>>) -> Seq<
    Option<Seq<(Chars, CellV)>>,
> {
    Seq::new(
        items.len(),
        |i: int|
            match items[i] {
                Some(e) => Some(entries_view(e@)),
                None => None,
            },
    )
}

/// The keys under which an array encodes, if it does: at least `min_rows` (and one) items,
/// the first an object with three or more keys, and every item an object with just those
/// keys, each holding a scalar. The keys come in the first object's order.
pub open spec fn tabular_keys_spec(items: Seq<Option<Seq<(Chars, CellV)>>>, min_rows: nat) -> Option<
    Seq<Chars>,
> {
    if items.len() < (if min_rows > 1 {
        min_rows
    } else {
        1
    }) {
        None
    } else {
        match items[0] {
            None => None,
            Some(first) => {
                let keys = keys_of(first);
                if keys.len() < 3 {
                    None
                } else if forall|i: int| 0 <= i < items.len() ==> #[trigger] fits(items[i], keys) {
                    Some(keys)
                } else {
                    None
                }
            },
        }
    }
}

/// The index of the entry [`lookup`] reads, if any.
fn find_entry(e: &Vec<(String, Cell)>, k: &str) -> (r: Option<usize>)
    ensures
        match r {
            Some(i) => i < e@.len() && lookup(entries_view(e@), k@) == Some(e@[i as int].1@),
            None => lookup(entries_view(e@), k@) is None,
        },
{
    let ghost ev = entries_view(e@);
    let mut j = e.len();
    assert(ev.take(j as int) == ev);
    while j > 0
        invariant
            j <= e@.len(),
            ev == entries_view(e@),
            lookup(ev, k@) == lookup(ev.take(j as int), k@),
        decreases j,
    {
        let ghost t = ev.take(j as int);
        assert(t.drop_last() == ev.take(j - 1));
        if crate::text::str_eq(e[j - 1].0.as_str(), k) {
            return Some(j - 1);
        }
        j -= 1;
    }
    None
}

/// Whether an item fits `keys` ([`fits`]).
#[verifier::loop_isolation(false)]
fn item_fits(item: &Option<Vec<(String, Cell)>>, keys: &Vec<String>) -> (r: bool)
    ensures
        r == fits(
            match item {
                Some(e) => Some(entries_view(e@)),
                None => None,
            },
            views(keys@),
        ),
{
    let ghost kv = views(keys@);
    match item {
        None => false,
        Some(e) => {
            if e.len() != keys.len() {
                return false;
            }
            let ghost ev = entries_view(e@);
            let mut j: usize = 0;
            while j < keys.len()
                invariant
                    j <= keys@.len(),
                    kv == views(keys@),
                    ev == entries_view(e@),
                    forall|m: int|
                        0 <= m < j ==> (#[trigger] lookup(ev, kv[m]) matches Some(c) && is_scalar(
                            c,
                        )),
                decreases keys@.len() - j,
            {
                match find_entry(e, keys[j].as_str()) {
                    None => {
                        assert(lookup(ev, kv[j as int]) is None);
                        assert(!fits(Some(ev), kv)) by {
                            assert(!(lookup(Some(ev)->Some_0, kv[j as int]) matches Some(c)
                                && is_scalar(c)));
                        }
                        return false;
                    },
                    Some(i) => {
                        if let Cell::Nested = e[i].1 {
                            assert(!is_scalar(lookup(ev, kv[j as int])->Some_0));
                            assert(!fits(Some(ev), kv)) by {
                                assert(!(lookup(Some(ev)->Some_0, kv[j as int]) matches Some(c)
                                    && is_scalar(c)));
                            }
                            return false;
                        }
                    },
                }
                j += 1;
            }
            true
        },
    }
}

/// [`tabular_keys_spec`]: the keys an array of items encodes under, if it does.
#[verifier::loop_isolation(false)]
pub fn tabular_keys(items: &Vec<Option<Vec<(String, Cell)>>>, min_rows: usize) -> (r: Option<
    Vec<String>,
>)
    ensures
        match r {
            Some(k) => tabular_keys_spec(items_view(items@), min_rows as nat) == Some(views(k@)),
            None => tabular_keys_spec(items_view(items@), min_rows as nat) is None,
        },
{
    let ghost iv = items_view(items@);
    let least = if min_rows > 1 {
        min_rows
    } else {
        1
    };
    if items.len() < least {
        return None;
    }
    let first = match &items[0] {
        None => return None,
        Some(f) => f,
    };
    let mut keys: Vec<String> = Vec::new();
    let mut i: usize = 0;
    while i < first.len()
        invariant
            i <= first@.len(),
            views(keys@) == keys_of(entries_view(first@)).take(i as int),
        decreases first@.len() - i,
    {
        let k = crate::text::copy_str(first[i].0.as_str());
        let ghost before = keys@;
        keys.push(k);
        assert(views(keys@) =~= views(before).push(k@));
        assert(keys_of(entries_view(first@)).take(i + 1) =~= keys_of(entries_view(first@)).take(
            i as int,
        ).push(k@));
        i += 1;
    }
    assert(keys_of(entries_view(first@)).take(first@.len() as int) =~= keys_of(
        entries_view(first@),
    ));
    let ghost kv = views(keys@);
    assert(iv[0] == Some(entries_view(first@)));
    if keys.len() < 3 {
        return None;
    }
    let mut n: usize = 0;
    while n < items.len()
        invariant
            n <= items@.len(),
            iv == items_view(items@),
            kv == views(keys@),
            forall|m: int| 0 <= m < n ==> #[trigger] fits(iv[m], kv),
        decreases items@.len() - n,
    {
        if !item_fits(&items[n], &keys) {
            assert(!fits(iv[n as int], kv));
            assert(kv == keys_of(entries_view(first@)));
            assert(!(forall|m: int| 0 <= m < iv.len() ==> #[trigger] fits(iv[m], kv)));
            return None;
        }
        n += 1;
    }
    Some(keys)
}


// ---------------------------------------------------------------------------------------
// Encoding
// ---------------------------------------------------------------------------------------

/// A string cell is quoted when it holds a separator or a brace, or starts or ends with a
/// space.
pub open spec fn needs_quote(s: Chars) -> bool {
    ||| contains(s, ","@)
    ||| contains(s, "{"@)
    ||| contains(s, "}"@)
    ||| contains(s, "\n"@)
    ||| (s.len() > 0 && (s[0] == ' ' || s.last() == ' '))
}

/// Backslashes doubled, then quotes escaped.
pub open spec fn escape(s: Chars) -> Chars {
    replace_all(replace_all(s, "\\"@, "\\\\"@), "\""@, "\\\""@)
}

/// One cell's text: nothing for null (or anything nested), the literal of a boolean or a
/// number, a string as it is unless it needs quoting.
pub open spec fn encode_cell_spec(c: CellV) -> Chars {
    match c {
        CellV::Null => Seq::empty(),
        CellV::Bool(b) => if b {
            "true"@
        } else {
            "false"@
        },
        CellV::Number(t) => t,
        CellV::Str(s) => if needs_quote(s) {
            "\""@ + escape(s) + "\""@
        } else {
            s
        },
        CellV::Nested => Seq::empty(),
    }
}

/// What a row holds under `k`; a missing key reads as null.
pub open spec fn cell_at(row: Seq<(Chars, CellV)>, k: Chars) -> CellV {
    match lookup(row, k) {
        Some(c) => c,
        None => CellV::Null,
    }
}

/// The cells of one row, under `keys`.
pub open spec fn row_cells(row: Seq<(Chars, CellV)>, keys: Seq<Chars>) -> Seq<Chars> {
    Seq::new(keys.len(), |j: int| encode_cell_spec(cell_at(row, keys[j])))
}

/// The row lines: each on a new line, indented two spaces, cells joined by commas.
pub open spec fn rows_text(rows: Seq<Seq<(Chars, CellV)>>, keys: Seq<Chars>) -> Chars
    decreases rows.len(),
{
    if rows.len() == 0 {
        Seq::empty()
    } else {
        rows_text(rows.drop_last(), keys) + "\n  "@ + join(row_cells(rows.last(), keys), ","@)
    }
}

/// The TOON block: `[n]{k1,k2,...}:` and the row lines.
pub open spec fn encode_spec(rows: Seq<Seq<(Chars, CellV)>>, keys: Seq<Chars>) -> Chars {
    "["@ + dec_nat(rows.len()) + "]{"@ + join(keys, ","@) + "}:"@ + rows_text(rows, keys)
}

/// The rows as values.
pub open spec fn rows_view(rows: Seq<Vec<(String, Cell)>>) -> Seq<Seq<(Chars, CellV)>> {
    Seq::new(rows.len(), |i: int| entries_view(rows[i]@))
}

/// [`encode_cell_spec`].
fn encode_cell(c: &Cell) -> (r: String)
    ensures
        r@ == encode_cell_spec(c@),
{
    match c {
        Cell::Null => String::new(),
        Cell::Bool(b) => if *b {
            "true".to_owned()
        } else {
            "false".to_owned()
        },
        Cell::Number(t) => crate::text::copy_str(t.as_str()),
        Cell::Str(s) => {
            let v = chars_of(s.as_str());
            let n = v.len();
            let quote = contains_lit(v.as_slice(), ",") || contains_lit(v.as_slice(), "{")
                || contains_lit(v.as_slice(), "}") || contains_lit(v.as_slice(), "\n") || (n > 0 && (
            v[0] == ' ' || v[n - 1] == ' '));
            if quote {
                let bs = chars_of("\\");
                let bs2 = chars_of("\\\\");
                let q = chars_of("\"");
                let bq = chars_of("\\\"");
                proof {
                    reveal_strlit("\\");
                    reveal_strlit("\"");
                }
                let e1 = replace_chars(v.as_slice(), bs.as_slice(), bs2.as_slice());
                let e2 = replace_chars(e1.as_slice(), q.as_slice(), bq.as_slice());
                let mut out = "\"".to_owned();
                push_all(&mut out, e2.as_slice());
                out.append("\"");
                out
            } else {
                crate::text::copy_str(s.as_str())
            }
        },
        Cell::Nested => String::new(),
    }
}

/// One row's line text (without the line break and indent): its cells under `keys`.
fn row_line(row: &Vec<(String, Cell)>, keys: &Vec<String>) -> (r: String)
    ensures
        r@ == join(row_cells(entries_view(row@), views(keys@)), ","@),
{
    let ghost kv = views(keys@);
    let ghost rv = entries_view(row@);
    let mut cells: Vec<String> = Vec::new();
    let mut j: usize = 0;
    while j < keys.len()
        invariant
            j <= keys@.len(),
            kv == views(keys@),
            rv == entries_view(row@),
            views(cells@) == row_cells(rv, kv).take(j as int),
        decreases keys@.len() - j,
    {
        let cell = match find_entry(row, keys[j].as_str()) {
            Some(i) => encode_cell(&row[i].1),
            None => String::new(),
        };
        let ghost before = cells@;
        cells.push(cell);
        assert(views(cells@) =~= views(before).push(cell@));
        assert(row_cells(rv, kv).take(j + 1) =~= row_cells(rv, kv).take(j as int).push(cell@));
        j += 1;
    }
    assert(row_cells(rv, kv).take(kv.len() as int) =~= row_cells(rv, kv));
    join_strings(cells.as_slice(), ",")
}

/// [`encode_spec`]: the TOON block of `rows` under `keys`, in the caller's key order.
pub fn encode(rows: &Vec<Vec<(String, Cell)>>, keys: &Vec<String>) -> (r: String)
    ensures
        r@ == encode_spec(rows_view(rows@), views(keys@)),
{
    let ghost rv = rows_view(rows@);
    let ghost kv = views(keys@);
    let mut out = "[".to_owned();
    push_u64(&mut out, rows.len() as u64);
    out.append("]{");
    let kj = join_strings(keys.as_slice(), ",");
    out.append(kj.as_str());
    out.append("}:");
    let ghost head = out@;
    assert(rv.take(0) =~= Seq::<Seq<(Chars, CellV)>>::empty());
    let mut i: usize = 0;
    while i < rows.len()
        invariant
            i <= rows@.len(),
            rv == rows_view(rows@),
            kv == views(keys@),
            out@ == head + rows_text(rv.take(i as int), kv),
        decreases rows@.len() - i,
    {
        let line = row_line(&rows[i], keys);
        out.append("\n  ");
        out.append(line.as_str());
        assert(rv.take(i + 1).drop_last() =~= rv.take(i as int));
        assert(rv.take(i + 1).last() == entries_view(rows@[i as int]@));
        i += 1;
    }
    assert(rv.take(rv.len() as int) =~= rv);
    out
}


/// A cell with its own copy of the text.
fn copy_cell(c: &Cell) -> (r: Cell)
    ensures
        r@ == c@,
{
    match c {
        Cell::Null => Cell::Null,
        Cell::Bool(b) => Cell::Bool(*b),
        Cell::Number(t) => Cell::Number(crate::text::copy_str(t.as_str())),
        Cell::Str(x) => Cell::Str(crate::text::copy_str(x.as_str())),
        Cell::Nested => Cell::Nested,
    }
}

/// An object's entries, copied.
fn copy_entries(e: &Vec<(String, Cell)>) -> (r: Vec<(String, Cell)>)
    ensures
        entries_view(r@) == entries_view(e@),
{
    let mut r: Vec<(String, Cell)> = Vec::new();
    let mut i: usize = 0;
    while i < e.len()
        invariant
            i <= e@.len(),
            entries_view(r@) == entries_view(e@).take(i as int),
        decreases e@.len() - i,
    {
        let k = crate::text::copy_str(e[i].0.as_str());
        let c = copy_cell(&e[i].1);
        let ghost before = r@;
        r.push((k, c));
        assert(entries_view(r@) =~= entries_view(before).push((k@, c@)));
        assert(entries_view(e@).take(i + 1) =~= entries_view(e@).take(i as int).push(
            entries_view(e@)[i as int],
        ));
        i += 1;
    }
    assert(entries_view(e@).take(e@.len() as int) =~= entries_view(e@));
    r
}

/// The objects of items that all are objects.
pub open spec fn objects_of(items: Seq<Option<Seq<(Chars, CellV)>>>) -> Seq<Seq<(Chars, CellV)>> {
    Seq::new(items.len(), |i: int| items[i]->Some_0)
}

/// The TOON block of an array of items, if it encodes ([`tabular_keys_spec`]): the rows
/// under the first object's keys.
pub fn encode_table(items: &Vec<Option<Vec<(String, Cell)>>>, min_rows: usize) -> (r: Option<String>)
    ensures
        match tabular_keys_spec(items_view(items@), min_rows as nat) {
            None => r is None,
            Some(keys) => r matches Some(t) && t@ == encode_spec(objects_of(items_view(items@)), keys),
        },
{
    let keys = match tabular_keys(items, min_rows) {
        None => return None,
        Some(k) => k,
    };
    let ghost iv = items_view(items@);
    let ghost kv = views(keys@);
    assert(forall|i: int| 0 <= i < iv.len() ==> #[trigger] fits(iv[i], kv));
    let mut rows: Vec<Vec<(String, Cell)>> = Vec::new();
    let mut i: usize = 0;
    while i < items.len()
        invariant
            i <= items@.len(),
            iv == items_view(items@),
            kv == views(keys@),
            forall|m: int| 0 <= m < iv.len() ==> #[trigger] fits(iv[m], kv),
            rows_view(rows@) == objects_of(iv).take(i as int),
        decreases items@.len() - i,
    {
        assert(fits(iv[i as int], kv));
        match &items[i] {
            Some(e) => {
                let row = copy_entries(e);
                let ghost before = rows@;
                rows.push(row);
                assert(rows_view(rows@) =~= rows_view(before).push(entries_view(e@)));
                assert(objects_of(iv).take(i + 1) =~= objects_of(iv).take(i as int).push(
                    entries_view(e@),
                ));
            },
            None => {
                assert(false);
            },
        }
        i += 1;
    }
    assert(objects_of(iv).take(iv.len() as int) =~= objects_of(iv));
    Some(encode(&rows, &keys))
}

/// The text a tool result is replaced with: the archive id the original was kept under,
/// then the block.
pub open spec fn replacement_spec(archive_id: Chars, block: Chars) -> Chars {
    "[toon "@ + archive_id + "]\n"@ + block
}

/// [`replacement_spec`].
pub fn replacement(archive_id: &str, block: &str) -> (r: String)
    ensures
        r@ == replacement_spec(archive_id@, block@),
{
    let mut r = "[toon ".to_owned();
    r.append(archive_id);
    r.append("]\n");
    r.append(block);
    r
}

// ---------------------------------------------------------------------------------------
// Decoding
// ---------------------------------------------------------------------------------------

/// JSON's insignificant whitespace.
pub open spec fn json_ws(c: char) -> bool {
    c == ' ' || c == '\n' || c == '\t' || c == '\r'
}

/// `s` without leading JSON whitespace.
pub open spec fn json_trim_start(s: Chars) -> Chars
    decreases s.len(),
{
    if s.len() > 0 && json_ws(s[0]) {
        json_trim_start(s.drop_first())
    } else {
        s
    }
}

/// `s` without trailing JSON whitespace.
pub open spec fn json_trim_end(s: Chars) -> Chars
    decreases s.len(),
{
    if s.len() > 0 && json_ws(s.last()) {
        json_trim_end(s.drop_last())
    } else {
        s
    }
}

/// The boolean a JSON text holds, if it is one: `true` or `false` with only JSON
/// whitespace around it.
pub open spec fn json_bool(s: Chars) -> Option<bool> {
    let t = json_trim_end(json_trim_start(s));
    if t == "true"@ {
        Some(true)
    } else if t == "false"@ {
        Some(false)
    } else {
        None
    }
}

/// The text serde_json writes for the number it reads from the JSON text `s`, if `s` is a
/// JSON number.
pub uninterp spec fn json_number(s: Chars) -> Option<Chars>;

/// A cell's text read back when it is neither empty nor quoted: a JSON boolean or number
/// is that value, anything else is the string itself.
pub open spec fn scalar_of(s: Chars) -> CellV {
    match json_bool(s) {
        Some(b) => CellV::Bool(b),
        None => match json_number(s) {
            Some(t) => CellV::Number(t),
            None => CellV::Str(s),
        },
    }
}

/// Escaped quotes unescaped, then doubled backslashes halved.
pub open spec fn unescape(s: Chars) -> Chars {
    replace_all(replace_all(s, "\\\""@, "\""@), "\\\\"@, "\\"@)
}

/// One cell read back: empty is null; a quoted cell is the unescaped string inside the
/// quotes; anything else goes through [`scalar_of`].
pub open spec fn decode_cell_spec(s: Chars) -> CellV {
    if s.len() == 0 {
        CellV::Null
    } else if s.len() >= 2 && s[0] == '"' && s.last() == '"' {
        CellV::Str(unescape(s.subrange(1, s.len() - 1)))
    } else {
        scalar_of(s)
    }
}

/// One row line read back under `keys`: leading whitespace dropped, split at every comma;
/// the cell count must match the key count.
pub open spec fn decode_line(line: Chars, keys: Seq<Chars>) -> Option<Seq<(Chars, CellV)>> {
    let cells = split_char(trim_start(line), ',');
    if cells.len() != keys.len() {
        None
    } else {
        Some(Seq::new(keys.len(), |j: int| (keys[j], decode_cell_spec(cells[j]))))
    }
}

/// Every line read back, or nothing if one does not fit.
pub open spec fn decode_lines(ls: Seq<Chars>, keys: Seq<Chars>) -> Option<Seq<Seq<(Chars, CellV)>>>
    decreases ls.len(),
{
    if ls.len() == 0 {
        Some(Seq::empty())
    } else {
        match decode_lines(ls.drop_last(), keys) {
            None => None,
            Some(p) => match decode_line(ls.last(), keys) {
                None => None,
                Some(r) => Some(p.push(r)),
            },
        }
    }
}

/// A TOON block read back: the header up to the first line break, trimmed, must read
/// `[...]{keys}:`; the keys are what the braces hold, split at commas; every following
/// line is a row.
pub open spec fn decode_spec(t: Chars) -> Option<Seq<Seq<(Chars, CellV)>>> {
    match find_spec(t, "\n"@) {
        None => None,
        Some(nl) => {
            let h = trim(t.take(nl));
            if h.len() == 0 || h.last() != ':' {
                None
            } else {
                let s = h.drop_last();
                match find_spec(s, "{"@) {
                    None => None,
                    Some(b) => if s[0] == '[' && b >= 1 && s[b - 1] == ']' && s.last() == '}' {
                        decode_lines(
                            lines(t.skip(nl + 1)),
                            split_char(s.subrange(b + 1, s.len() - 1), ','),
                        )
                    } else {
                        None
                    },
                }
            }
        },
    }
}

/// `serde_json::from_str::<serde_json::Value>` on a cell's text, read as a cell: a JSON
/// boolean, a JSON number (by the text serde_json writes for it), or else the text as a
/// string. The boolean case is stated; which texts are numbers, and the text written
/// back for one, are left to the name [`json_number`].
#[verifier::external_body]
fn parse_scalar(s: &str) -> (r: Cell)
    ensures
        r@ == match json_bool(s@) {
            Some(b) => CellV::Bool(b),
            None => match json_number(s@) {
                Some(t) => CellV::Number(t),
                None => CellV::Str(s@),
            },
        },
{
    match serde_json::from_str::<serde_json::Value>(s) {
        Ok(serde_json::Value::Bool(b)) => Cell::Bool(b),
        Ok(serde_json::Value::Number(n)) => Cell::Number(n.to_string()),
        _ => Cell::Str(s.to_string()),
    }
}

/// [`decode_cell_spec`].
fn decode_cell(s: &str) -> (r: Cell)
    ensures
        r@ == decode_cell_spec(s@),
{
    let v = chars_of(s);
    let n = v.len();
    if n == 0 {
        Cell::Null
    } else if n >= 2 && v[0] == '"' && v[n - 1] == '"' {
        let inner = crate::text::take_chars(crate::text::skip_chars(v.as_slice(), 1).as_slice(), n - 2);
        assert(inner@ =~= v@.subrange(1, n - 1));
        let bq = chars_of("\\\"");
        let q = chars_of("\"");
        let bs2 = chars_of("\\\\");
        let bs = chars_of("\\");
        proof {
            reveal_strlit("\\\"");
            reveal_strlit("\\\\");
        }
        let u1 = replace_chars(inner.as_slice(), bq.as_slice(), q.as_slice());
        let u2 = replace_chars(u1.as_slice(), bs2.as_slice(), bs.as_slice());
        Cell::Str(string_from(u2.as_slice()))
    } else {
        parse_scalar(s)
    }
}

/// [`decode_line`].
fn decode_row(line: &str, keys: &Vec<String>) -> (r: Option<Vec<(String, Cell)>>)
    ensures
        match r {
            Some(e) => decode_line(line@, views(keys@)) == Some(entries_view(e@)),
            None => decode_line(line@, views(keys@)) is None,
        },
{
    let ghost kv = views(keys@);
    let lc = chars_of(line);
    let ts = trim_start_chars(lc.as_slice());
    let tstr = string_from(ts.as_slice());
    let cells = split_vec(tstr.as_str(), ',');
    let ghost cv = views(cells@);
    if cells.len() != keys.len() {
        return None;
    }
    let ghost want = Seq::new(kv.len(), |j: int| (kv[j], decode_cell_spec(cv[j])));
    let mut row: Vec<(String, Cell)> = Vec::new();
    let mut j: usize = 0;
    while j < keys.len()
        invariant
            j <= keys@.len(),
            keys@.len() == cells@.len(),
            kv == views(keys@),
            cv == views(cells@),
            entries_view(row@) == want.take(j as int),
            want == Seq::new(kv.len(), |m: int| (kv[m], decode_cell_spec(cv[m]))),
        decreases keys@.len() - j,
    {
        let k = crate::text::copy_str(keys[j].as_str());
        let c = decode_cell(cells[j].as_str());
        let ghost before = row@;
        row.push((k, c));
        assert(entries_view(row@) =~= entries_view(before).push((k@, c@)));
        assert(want.take(j + 1) =~= want.take(j as int).push(want[j as int]));
        j += 1;
    }
    assert(want.take(kv.len() as int) =~= want);
    Some(row)
}

/// [`decode_spec`]: a TOON block read back into rows, if it is one.
pub fn decode(toon: &str) -> (r: Option<Vec<Vec<(String, Cell)>>>)
    ensures
        match r {
            Some(v) => decode_spec(toon@) == Some(rows_view(v@)),
            None => decode_spec(toon@) is None,
        },
{
    let t = chars_of(toon);
    let nlp = chars_of("\n");
    let nl = match find(t.as_slice(), nlp.as_slice()) {
        None => return None,
        Some(i) => i,
    };
    proof {
        reveal_strlit("\n");
        assert(occurs_at(toon@, "\n"@, nl as int));
        assert(nl < t@.len());
    }
    let head = crate::text::take_chars(t.as_slice(), nl);
    let h = trim_chars(head.as_slice());
    if h.len() == 0 || h[h.len() - 1] != ':' {
        return None;
    }
    let s = crate::text::take_chars(h.as_slice(), h.len() - 1);
    assert(s@ =~= h@.drop_last());
    let brace = chars_of("{");
    let b = match find(s.as_slice(), brace.as_slice()) {
        None => return None,
        Some(i) => i,
    };
    proof {
        reveal_strlit("{");
        assert(s@.subrange(b as int, b + 1) == seq!['{']);
        assert(s@.subrange(b as int, b + 1)[0] == s@[b as int]);
        assert(s@[b as int] == '{');
    }
    let sl = s.len();
    if !(s[0] == '[' && b >= 1 && s[b - 1] == ']' && s[sl - 1] == '}') {
        return None;
    }
    let inner = crate::text::string_of(s.as_slice(), b + 1, sl - 1);
    let keys = split_vec(inner.as_str(), ',');
    assert(nl < t.len());
    let body = crate::text::string_of(t.as_slice(), nl + 1, t.len());
    assert(body@ =~= toon@.skip(nl + 1));
    let ls = lines_vec(body.as_str());
    let ghost lv = views(ls@);
    let ghost kv = views(keys@);
    let mut rows: Vec<Vec<(String, Cell)>> = Vec::new();
    let mut i: usize = 0;
    assert(lv.take(0) =~= Seq::<Chars>::empty());
    assert(rows_view(rows@) =~= Seq::<Seq<(Chars, CellV)>>::empty());
    assert(decode_spec(toon@) == decode_lines(lv, kv));
    while i < ls.len()
        invariant
            decode_spec(toon@) == decode_lines(lv, kv),
            i <= ls@.len(),
            lv == views(ls@),
            kv == views(keys@),
            decode_lines(lv.take(i as int), kv) == Some(rows_view(rows@)),
        decreases ls@.len() - i,
    {
        assert(lv.take(i + 1).drop_last() =~= lv.take(i as int));
        assert(lv.take(i + 1).last() == ls@[i as int]@);
        match decode_row(ls[i].as_str(), &keys) {
            None => {
                assert(decode_lines(lv.take(i + 1), kv) is None);
                proof {
                    lemma_decode_lines_none(lv, kv, i + 1);
                }
                return None;
            },
            Some(row) => {
                let ghost before = rows@;
                rows.push(row);
                assert(rows_view(rows@) =~= rows_view(before).push(entries_view(row@)));
            },
        }
        i += 1;
    }
    assert(lv.take(lv.len() as int) =~= lv);
    Some(rows)
}

/// Once a prefix of the lines fails to read back, every longer prefix fails too.
proof fn lemma_decode_lines_none(ls: Seq<Chars>, keys: Seq<Chars>, i: int)
    requires
        0 <= i <= ls.len(),
        decode_lines(ls.take(i), keys) is None,
    ensures
        decode_lines(ls, keys) is None,
    decreases ls.len() - i,
{
    if i < ls.len() {
        assert(ls.take(i + 1).drop_last() =~= ls.take(i));
        lemma_decode_lines_none(ls, keys, i + 1);
    } else {
        assert(ls.take(i) =~= ls);
    }
}


// ---------------------------------------------------------------------------------------
// What reads back
// ---------------------------------------------------------------------------------------

/// A text that starts and ends with a quote (and is at least two long).
pub open spec fn quote_wrapped(s: Chars) -> bool {
    s.len() >= 2 && s[0] == '"' && s.last() == '"'
}

/// The cells whose text reads back as the same cell: null, booleans, a number whose text
/// is a JSON number that serde_json writes back the same way, a string that gets quoted,
/// and any other non-empty string that does not look quoted and is neither a JSON boolean
/// nor a JSON number.
pub open spec fn cell_round_trips(c: CellV) -> bool {
    match c {
        CellV::Null => true,
        CellV::Bool(_) => true,
        CellV::Number(t) => t.len() > 0 && !quote_wrapped(t) && json_bool(t) is None
            && json_number(t) == Some(t),
        CellV::Str(s) => needs_quote(s) || (s.len() > 0 && !quote_wrapped(s) && json_bool(s) is None
            && json_number(s) is None),
        CellV::Nested => false,
    }
}

/// The escaped text of one character.
pub open spec fn esc_char(c: char) -> Chars {
    if c == '\\' {
        "\\\\"@
    } else if c == '"' {
        "\\\""@
    } else {
        seq![c]
    }
}

/// A single-character pattern is replaced piecewise across a concatenation.
proof fn lemma_replace1_concat(a: Chars, b: Chars, p: Chars, r: Chars)
    requires
        p.len() == 1,
    ensures
        replace_all(a + b, p, r) == replace_all(a, p, r) + replace_all(b, p, r),
    decreases a.len(),
{
    if a.len() == 0 {
        assert(a + b =~= b);
    } else {
        let ab = a + b;
        assert(ab[0] == a[0]);
        assert(ab.take(1) =~= a.take(1));
        assert(ab.skip(1) =~= a.skip(1) + b);
        assert(ab.drop_first() =~= a.drop_first() + b);
        lemma_replace1_concat(a.drop_first(), b, p, r);
        assert(a.skip(1) =~= a.drop_first());
    }
}

/// Escaping works character by character.
proof fn lemma_escape_cons(s: Chars)
    requires
        s.len() > 0,
    ensures
        escape(s) == esc_char(s[0]) + escape(s.drop_first()),
{
    reveal_strlit("\\");
    reveal_strlit("\\\\");
    reveal_strlit("\"");
    reveal_strlit("\\\"");
    let head = seq![s[0]];
    let rest = s.drop_first();
    assert(s =~= head + rest);
    lemma_replace1_concat(head, rest, "\\"@, "\\\\"@);
    let e1h = replace_all(head, "\\"@, "\\\\"@);
    let e1r = replace_all(rest, "\\"@, "\\\\"@);
    lemma_replace1_concat(e1h, e1r, "\""@, "\\\""@);
    assert(head.skip(1) =~= Seq::<char>::empty());
    assert(head.drop_first() =~= Seq::<char>::empty());
    assert(head.take(1) =~= head);
    assert("\\"@ =~= seq!['\\']);
    assert("\""@ =~= seq!['"']);
    assert(replace_all(Seq::<char>::empty(), "\\"@, "\\\\"@) == Seq::<char>::empty());
    assert(replace_all(Seq::<char>::empty(), "\""@, "\\\""@) == Seq::<char>::empty());
    if s[0] == '\\' {
        assert(starts_with(head, "\\"@));
        assert(e1h == "\\\\"@ + replace_all(head.skip(1), "\\"@, "\\\\"@));
        assert(e1h =~= "\\\\"@);
        let x = "\\\\"@;
        assert(x.take(1) =~= seq!['\\']);
        assert(x.drop_first() =~= seq!['\\']);
        assert(x.drop_first().drop_first() =~= Seq::<char>::empty());
        assert(x.drop_first().take(1) =~= seq!['\\']);
        let y = x.drop_first();
        assert(!starts_with(y, "\""@));
        assert(replace_all(y, "\""@, "\\\""@) == seq![y[0]] + replace_all(y.drop_first(), "\""@,
            "\\\""@));
        assert(!starts_with(x, "\""@));
        assert(replace_all(x, "\""@, "\\\""@) == seq![x[0]] + replace_all(y, "\""@, "\\\""@));
        assert(replace_all(x, "\""@, "\\\""@) =~= x);
    } else if s[0] == '"' {
        assert(!starts_with(head, "\\"@));
        assert(e1h =~= head);
        assert(starts_with(head, "\""@));
        assert(replace_all(head, "\""@, "\\\""@) == "\\\""@ + replace_all(head.skip(1), "\""@,
            "\\\""@));
        assert(replace_all(head, "\""@, "\\\""@) =~= "\\\""@);
    } else {
        assert(e1h =~= head);
        assert(replace_all(head, "\""@, "\\\""@) =~= head);
    }
}

/// An escaped text never starts with a bare quote.
proof fn lemma_escape_first(s: Chars)
    ensures
        escape(s).len() > 0 ==> escape(s)[0] != '"',
{
    reveal_strlit("\\");
    reveal_strlit("\\\\");
    reveal_strlit("\"");
    reveal_strlit("\\\"");
    if s.len() > 0 {
        lemma_escape_cons(s);
        assert(esc_char(s[0]).len() > 0);
        assert(escape(s)[0] == esc_char(s[0])[0]);
    } else {
        assert(replace_all(s, "\\"@, "\\\\"@) == s);
        assert(replace_all(s, "\""@, "\\\""@) == s);
    }
}

/// The text after the first unescaping step: each escaped quote back to a quote, each
/// doubled backslash still doubled.
pub open spec fn half_unescaped(s: Chars) -> Chars
    decreases s.len(),
{
    if s.len() == 0 {
        Seq::empty()
    } else {
        (if s[0] == '\\' {
            "\\\\"@
        } else {
            seq![s[0]]
        }) + half_unescaped(s.drop_first())
    }
}

/// The first unescaping step on an escaped text.
proof fn lemma_unescape_quotes(s: Chars)
    ensures
        replace_all(escape(s), "\\\""@, "\""@) == half_unescaped(s),
    decreases s.len(),
{
    reveal_strlit("\\");
    reveal_strlit("\\\\");
    reveal_strlit("\"");
    reveal_strlit("\\\"");
    let p = "\\\""@;
    let r = "\""@;
    if s.len() == 0 {
        assert(replace_all(s, "\\"@, "\\\\"@) == s);
        assert(replace_all(s, "\""@, "\\\""@) == s);
    } else {
        lemma_escape_cons(s);
        let rest = s.drop_first();
        let x = escape(rest);
        lemma_unescape_quotes(rest);
        lemma_escape_first(rest);
        if s[0] == '\\' {
            let e = "\\\\"@ + x;
            assert(escape(s) == e);
            assert(!starts_with(e, p)) by {
                assert(e[1] == '\\');
                if starts_with(e, p) {
                    assert(e.take(2)[1] == p[1]);
                }
            }
            assert(e.drop_first() =~= seq!['\\'] + x);
            let f = seq!['\\'] + x;
            assert(!starts_with(f, p)) by {
                if starts_with(f, p) {
                    assert(f.take(2)[1] == p[1]);
                    assert(f[1] == x[0]);
                }
            }
            assert(f.drop_first() =~= x);
            assert(replace_all(f, p, r) == seq![f[0]] + replace_all(x, p, r));
            assert(replace_all(e, p, r) == seq![e[0]] + replace_all(f, p, r));
            assert(replace_all(e, p, r) =~= "\\\\"@ + replace_all(x, p, r));
            assert(half_unescaped(s) =~= "\\\\"@ + half_unescaped(rest));
        } else if s[0] == '"' {
            let e = "\\\""@ + x;
            assert(escape(s) == e);
            assert(e.take(2) =~= p);
            assert(e.skip(2) =~= x);
            assert(half_unescaped(s) =~= seq!['"'] + half_unescaped(rest));
        } else {
            let e = seq![s[0]] + x;
            assert(escape(s) == e);
            assert(!starts_with(e, p)) by {
                if starts_with(e, p) {
                    assert(e.take(2)[0] == p[0]);
                }
            }
            assert(e.drop_first() =~= x);
            assert(half_unescaped(s) =~= seq![s[0]] + half_unescaped(rest));
        }
    }
}

/// The second unescaping step undoes the doubling.
proof fn lemma_unescape_backslashes(s: Chars)
    ensures
        replace_all(half_unescaped(s), "\\\\"@, "\\"@) == s,
    decreases s.len(),
{
    reveal_strlit("\\");
    reveal_strlit("\\\\");
    let p = "\\\\"@;
    let r = "\\"@;
    if s.len() > 0 {
        let rest = s.drop_first();
        let h = half_unescaped(rest);
        lemma_unescape_backslashes(rest);
        if s[0] == '\\' {
            let e = p + h;
            assert(half_unescaped(s) == e);
            assert(e.take(2) =~= p);
            assert(e.skip(2) =~= h);
            assert(s =~= r + rest);
        } else {
            let e = seq![s[0]] + h;
            assert(half_unescaped(s) == e);
            assert(!starts_with(e, p)) by {
                if starts_with(e, p) {
                    assert(e.take(2)[0] == p[0]);
                }
            }
            assert(e.drop_first() =~= h);
            assert(s =~= seq![s[0]] + rest);
        }
    }
}

/// Unescaping undoes escaping.
pub proof fn law_unescape_escape(s: Chars)
    ensures
        unescape(escape(s)) == s,
{
    lemma_unescape_quotes(s);
    lemma_unescape_backslashes(s);
}

/// A cell's text reads back as the same cell exactly when the cell is one of
/// [`cell_round_trips`].
pub proof fn law_cell_round_trip(c: CellV)
    ensures
        decode_cell_spec(encode_cell_spec(c)) == c <==> cell_round_trips(c),
{
    reveal_strlit("true");
    reveal_strlit("false");
    reveal_strlit("\"");
    match c {
        CellV::Null => {},
        CellV::Bool(b) => {
            let t: Chars = if b {
                "true"@
            } else {
                "false"@
            };
            assert(!json_ws(t[0]) && !json_ws(t.last()));
            assert(json_trim_start(t) == t);
            assert(json_trim_end(t) == t);
            assert(!quote_wrapped(t));
        },
        CellV::Number(t) => {},
        CellV::Str(s) => {
            if needs_quote(s) {
                let e = "\""@ + escape(s) + "\""@;
                assert(e.subrange(1, e.len() - 1) =~= escape(s));
                law_unescape_escape(s);
            } else if quote_wrapped(s) {
                reveal_strlit("\\\"");
                reveal_strlit("\\\\");
                reveal_strlit("\\");
                crate::text::lemma_replace_shorter(s.subrange(1, s.len() - 1), "\\\""@, "\""@);
                crate::text::lemma_replace_shorter(
                    replace_all(s.subrange(1, s.len() - 1), "\\\""@, "\""@),
                    "\\\\"@,
                    "\\"@,
                );
            }
        },
        CellV::Nested => {},
    }
}


// ---------------------------------------------------------------------------------------
// A table reads back
// ---------------------------------------------------------------------------------------

/// `s` holds no `c`.
pub open spec fn free_of(s: Chars, c: char) -> bool {
    forall|i: int| 0 <= i < s.len() ==> s[i] != c
}

/// Parts and separator free of `c` join to a text free of `c`.
proof fn lemma_join_free(parts: Seq<Chars>, sep: Chars, c: char)
    requires
        forall|i: int| 0 <= i < parts.len() ==> free_of(#[trigger] parts[i], c),
        free_of(sep, c),
    ensures
        free_of(join(parts, sep), c),
    decreases parts.len(),
{
    if parts.len() > 1 {
        lemma_join_free(parts.drop_last(), sep, c);
        let a = join(parts.drop_last(), sep);
        let j = a + sep + parts.last();
        assert forall|i: int| 0 <= i < j.len() implies j[i] != c by {
            if i < a.len() {
                assert(j[i] == a[i]);
            } else if i < a.len() + sep.len() {
                assert(j[i] == sep[i - a.len()]);
            } else {
                assert(j[i] == parts.last()[i - a.len() - sep.len()]);
            }
        }
    }
}

/// A text free of the separator splits into itself.
proof fn lemma_split_free(b: Chars, sep: char)
    requires
        free_of(b, sep),
    ensures
        split_char(b, sep) == seq![b],
    decreases b.len(),
{
    if b.len() > 0 {
        lemma_split_free(b.drop_last(), sep);
        assert(b[b.len() - 1] != sep);
        let p = split_char(b.drop_last(), sep);
        assert(p == seq![b.drop_last()]);
        assert(split_char(b, sep) == p.update(p.len() - 1, p.last().push(b.last())));
        assert(b.drop_last().push(b.last()) =~= b);
        assert(seq![b.drop_last()].update(0, b) =~= seq![b]);
    } else {
        assert(b =~= Seq::<char>::empty());
    }
}

/// Splitting at a separator splits each side.
proof fn lemma_split_at_sep(a: Chars, b: Chars, sep: char)
    ensures
        split_char(a + seq![sep] + b, sep) == split_char(a, sep) + split_char(b, sep),
    decreases b.len(),
{
    if b.len() == 0 {
        assert(a + seq![sep] + b =~= a.push(sep));
        assert((a + seq![sep] + b).drop_last() =~= a);
        assert(split_char(a, sep) + seq![Seq::<char>::empty()] =~= split_char(a, sep).push(
            Seq::empty(),
        ));
    } else {
        lemma_split_at_sep(a, b.drop_last(), sep);
        let whole = a + seq![sep] + b;
        assert(whole.drop_last() =~= a + seq![sep] + b.drop_last());
        assert(whole.last() == b.last());
        crate::text::lemma_split_nonempty(b.drop_last(), sep);
        let sa = split_char(a, sep);
        let sb = split_char(b.drop_last(), sep);
        if b.last() == sep {
            assert((sa + sb).push(Seq::empty()) =~= sa + sb.push(Seq::empty()));
        } else {
            assert((sa + sb).update((sa + sb).len() - 1, (sa + sb).last().push(b.last())) =~= sa
                + sb.update(sb.len() - 1, sb.last().push(b.last())));
        }
    }
}

/// Joining at a separator and splitting there gives the parts back.
proof fn lemma_split_join(parts: Seq<Chars>, sep: char)
    requires
        parts.len() >= 1,
        forall|i: int| 0 <= i < parts.len() ==> free_of(#[trigger] parts[i], sep),
    ensures
        split_char(join(parts, seq![sep]), sep) == parts,
    decreases parts.len(),
{
    if parts.len() == 1 {
        lemma_split_free(parts[0], sep);
        assert(seq![parts[0]] =~= parts);
    } else {
        lemma_split_join(parts.drop_last(), sep);
        lemma_split_at_sep(join(parts.drop_last(), seq![sep]), parts.last(), sep);
        lemma_split_free(parts.last(), sep);
        assert(parts.drop_last() + seq![parts.last()] =~= parts);
    }
}

/// Leading whitespace does not survive `trim_start`.
proof fn lemma_trim_start_ws(c: char, y: Chars)
    requires
        is_ws(c),
    ensures
        trim_start(seq![c] + y) == trim_start(y),
    decreases y.len(),
{
    let w = seq![c] + y;
    if y.len() == 0 {
        assert(w =~= seq![c]);
        assert(w.drop_last() =~= Seq::<char>::empty());
        assert(trim_start(w.drop_last()) == Seq::<char>::empty());
        assert(trim_start(w) == trim_start(w.drop_last()));
    } else {
        lemma_trim_start_ws(c, y.drop_last());
        assert(w.drop_last() =~= seq![c] + y.drop_last());
        assert(w.last() == y.last());
        let p = trim_start(w.drop_last());
        assert(p == trim_start(y.drop_last()));
        assert(trim_start(w) == if p.len() == 0 && is_ws(w.last()) {
            p
        } else {
            p.push(w.last())
        });
    }
}

/// A text that starts with something other than whitespace is its own `trim_start`.
proof fn lemma_trim_start_keeps(y: Chars)
    requires
        y.len() == 0 || !is_ws(y[0]),
    ensures
        trim_start(y) == y,
    decreases y.len(),
{
    if y.len() > 1 {
        lemma_trim_start_keeps(y.drop_last());
        let p = trim_start(y.drop_last());
        assert(p == y.drop_last());
        assert(p.len() > 0);
        assert(trim_start(y) == p.push(y.last()));
        assert(y.drop_last().push(y.last()) =~= y);
    } else if y.len() == 1 {
        assert(y.drop_last() =~= Seq::<char>::empty());
        let p = trim_start(y.drop_last());
        assert(p == Seq::<char>::empty());
        assert(y.last() == y[0]);
        assert(trim_start(y) == p.push(y.last()));
        assert(Seq::<char>::empty().push(y.last()) =~= y);
    }
}

/// `lines_acc` across a line break.
proof fn lemma_lines_acc_break(a: Chars, b: Chars)
    requires
        free_of(b, '\n'),
    ensures
        crate::text::lines_acc(a + seq!['\n'] + b) == (crate::text::lines_acc(a).0.push(
            crate::text::strip_cr(crate::text::lines_acc(a).1),
        ), b),
    decreases b.len(),
{
    if b.len() == 0 {
        assert(a + seq!['\n'] + b =~= a.push('\n'));
        assert(a.push('\n').drop_last() =~= a);
    } else {
        lemma_lines_acc_break(a, b.drop_last());
        let w = a + seq!['\n'] + b;
        assert(w.drop_last() =~= a + seq!['\n'] + b.drop_last());
        assert(w.last() == b.last());
        assert(b.drop_last().push(b.last()) =~= b);
    }
}

/// `lines_acc` of a text without line breaks.
proof fn lemma_lines_acc_free(b: Chars)
    requires
        free_of(b, '\n'),
    ensures
        crate::text::lines_acc(b) == (Seq::<Chars>::empty(), b),
    decreases b.len(),
{
    if b.len() > 0 {
        lemma_lines_acc_free(b.drop_last());
        assert(b.drop_last().push(b.last()) =~= b);
    }
}

/// `lines_acc` of lines joined by line breaks: every line but the last is done.
proof fn lemma_lines_acc_join(ls: Seq<Chars>)
    requires
        ls.len() >= 1,
        forall|i: int| 0 <= i < ls.len() ==> free_of(#[trigger] ls[i], '\n'),
        forall|i: int| 0 <= i < ls.len() - 1 ==> crate::text::strip_cr(#[trigger] ls[i]) == ls[i],
    ensures
        crate::text::lines_acc(join(ls, "\n"@)) == (ls.drop_last(), ls.last()),
    decreases ls.len(),
{
    reveal_strlit("\n");
    if ls.len() == 1 {
        lemma_lines_acc_free(ls[0]);
        assert(ls.drop_last() =~= Seq::<Chars>::empty());
    } else {
        let p = ls.drop_last();
        assert forall|i: int| 0 <= i < p.len() - 1 implies crate::text::strip_cr(#[trigger] p[i])
            == p[i] by {
            assert(p[i] == ls[i]);
        }
        lemma_lines_acc_join(p);
        assert("\n"@ =~= seq!['\n']);
        lemma_lines_acc_break(join(p, "\n"@), ls.last());
        assert(ls[ls.len() - 2] == p.last());
        assert(p.drop_last().push(p.last()) =~= p);
    }
}

/// `str::lines` of lines joined by line breaks gives the lines back, when no line but the
/// last ends in a carriage return and the last is not empty.
proof fn lemma_lines_join(ls: Seq<Chars>)
    requires
        ls.len() >= 1,
        forall|i: int| 0 <= i < ls.len() ==> free_of(#[trigger] ls[i], '\n'),
        forall|i: int| 0 <= i < ls.len() - 1 ==> crate::text::strip_cr(#[trigger] ls[i]) == ls[i],
        ls.last().len() > 0,
    ensures
        lines(join(ls, "\n"@)) == ls,
{
    lemma_lines_acc_join(ls);
    assert(ls.drop_last().push(ls.last()) =~= ls);
}


/// A lookup finds an entry with that key, and only then.
proof fn lemma_lookup_entry(z: Seq<(Chars, CellV)>, k: Chars)
    ensures
        lookup(z, k) is None ==> forall|j: int| 0 <= j < z.len() ==> (#[trigger] z[j]).0 != k,
        lookup(z, k) matches Some(v) ==> exists|j: int| 0 <= j < z.len() && (#[trigger] z[j]).0 == k
            && z[j].1 == v,
    decreases z.len(),
{
    if z.len() > 0 {
        let p = z.drop_last();
        lemma_lookup_entry(p, k);
        if z.last().0 != k {
            assert forall|j: int| 0 <= j < p.len() implies #[trigger] p[j] == z[j] by {}
            if lookup(z, k) is None {
                assert forall|j: int| 0 <= j < z.len() implies (#[trigger] z[j]).0 != k by {
                    if j < p.len() {
                        assert(p[j] == z[j]);
                    }
                }
            } else {
                let v = lookup(z, k)->Some_0;
                let j = choose|j: int| 0 <= j < p.len() && (#[trigger] p[j]).0 == k && p[j].1 == v;
                assert(z[j] == p[j]);
            }
        } else {
            assert(z[z.len() - 1] == z.last());
        }
    }
}

/// The digits of a number are digits.
proof fn lemma_dec_nat_digits(n: nat)
    ensures
        forall|i: int|
            0 <= i < dec_nat(n).len() ==> 48 <= (#[trigger] dec_nat(n)[i]) as u32 <= 57,
    decreases n,
{
    if n >= 10 {
        lemma_dec_nat_digits(n / 10);
        let p = dec_nat(n / 10);
        let d = crate::text::digit_char(n % 10);
        assert forall|i: int| 0 <= i < dec_nat(n).len() implies 48 <= (#[trigger] dec_nat(n)[i]) as u32
            <= 57 by {
            if i < p.len() {
                assert(dec_nat(n)[i] == p[i]);
            } else {
                assert(dec_nat(n)[i] == d);
            }
        }
    }
}

/// A joined text starts with its first part, followed by the separator if more come.
proof fn lemma_join_front(parts: Seq<Chars>, sep: Chars)
    requires
        parts.len() >= 1,
    ensures
        join(parts, sep).len() >= parts[0].len(),
        join(parts, sep).take(parts[0].len() as int) == parts[0],
        parts.len() >= 2 ==> join(parts, sep).len() >= parts[0].len() + sep.len() && join(
            parts,
            sep,
        ).subrange(parts[0].len() as int, (parts[0].len() + sep.len()) as int) == sep,
    decreases parts.len(),
{
    if parts.len() == 2 {
        let j = join(parts, sep);
        assert(parts.drop_last() =~= seq![parts[0]]);
        assert(j == parts[0] + sep + parts[1]);
        assert(j.take(parts[0].len() as int) =~= parts[0]);
        assert(j.subrange(parts[0].len() as int, (parts[0].len() + sep.len()) as int) =~= sep);
    } else if parts.len() > 2 {
        let p = parts.drop_last();
        lemma_join_front(p, sep);
        let a = join(p, sep);
        let j = a + sep + parts.last();
        assert(p[0] == parts[0]);
        assert(j.take(parts[0].len() as int) =~= a.take(parts[0].len() as int));
        assert(j.subrange(parts[0].len() as int, (parts[0].len() + sep.len()) as int) =~= a.subrange(
            parts[0].len() as int,
            (parts[0].len() + sep.len()) as int,
        ));
    }
}

/// The text of one row under `keys`.
pub open spec fn row_line_text(row: Seq<(Chars, CellV)>, keys: Seq<Chars>) -> Chars {
    join(row_cells(row, keys), ","@)
}

/// The row lines as `str::lines` reads them back: indented two spaces.
pub open spec fn indented(rows: Seq<Seq<(Chars, CellV)>>, keys: Seq<Chars>) -> Seq<Chars> {
    Seq::new(rows.len(), |i: int| "  "@ + row_line_text(rows[i], keys))
}

/// The row lines are a line break followed by the indented rows joined by line breaks.
proof fn lemma_rows_text(rows: Seq<Seq<(Chars, CellV)>>, keys: Seq<Chars>)
    requires
        rows.len() >= 1,
    ensures
        rows_text(rows, keys) == "\n"@ + join(indented(rows, keys), "\n"@),
    decreases rows.len(),
{
    reveal_strlit("\n  ");
    reveal_strlit("\n");
    reveal_strlit("  ");
    let ind = indented(rows, keys);
    assert("\n  "@ =~= "\n"@ + "  "@);
    if rows.len() == 1 {
        assert(rows.drop_last() =~= Seq::<Seq<(Chars, CellV)>>::empty());
        assert(rows_text(rows.drop_last(), keys) == Seq::<char>::empty());
        assert(rows.last() == rows[0]);
        assert(rows_text(rows, keys) =~= "\n"@ + ind[0]);
    } else {
        let p = rows.drop_last();
        lemma_rows_text(p, keys);
        assert(ind.drop_last() =~= indented(p, keys));
        assert(ind.last() == "  "@ + row_line_text(rows.last(), keys));
        assert(rows_text(rows, keys) =~= "\n"@ + (join(ind.drop_last(), "\n"@) + "\n"@ + ind.last()));
    }
}

/// What it takes for a cell of row `i`, column `j`, to read back in place: the row has the
/// key; the cell's text reads back as the cell; the text holds no comma or line break; in
/// the first column it does not start with whitespace, and in the last column of any row
/// but the last it does not end with a carriage return.
pub open spec fn cell_reads_back(
    row: Seq<(Chars, CellV)>,
    keys: Seq<Chars>,
    i: int,
    j: int,
    n_rows: int,
) -> bool {
    let c = cell_at(row, keys[j]);
    let e = encode_cell_spec(c);
    &&& lookup(row, keys[j]) is Some
    &&& decode_cell_spec(e) == c
    &&& free_of(e, ',')
    &&& free_of(e, '\n')
    &&& (j == 0 && e.len() > 0 ==> !is_ws(e[0]))
    &&& (j == keys.len() - 1 && i < n_rows - 1 && e.len() > 0 ==> e.last() != '\r')
}

/// What it takes for a table to read back: at least one row and one key; no key holds a
/// comma or a line break; each row has no key besides `keys`; and every cell reads back in
/// place ([`cell_reads_back`]).
pub open spec fn table_reads_back(rows: Seq<Seq<(Chars, CellV)>>, keys: Seq<Chars>) -> bool {
    &&& rows.len() >= 1
    &&& keys.len() >= 1
    &&& forall|j: int| 0 <= j < keys.len() ==> free_of(#[trigger] keys[j], ',') && free_of(keys[j], '\n')
    &&& forall|i: int, m: int|
        0 <= i < rows.len() && 0 <= m < rows[i].len() ==> keys.contains(#[trigger] rows[i][m].0)
    &&& forall|i: int, j: int|
        0 <= i < rows.len() && 0 <= j < keys.len() ==> #[trigger] cell_reads_back(
            rows[i],
            keys,
            i,
            j,
            rows.len() as int,
        )
}

/// The row each line reads back as.
pub open spec fn decoded_row(row: Seq<(Chars, CellV)>, keys: Seq<Chars>) -> Seq<(Chars, CellV)> {
    Seq::new(keys.len(), |j: int| (keys[j], decode_cell_spec(row_cells(row, keys)[j])))
}

/// One indented row line reads back.
proof fn lemma_line_reads_back(rows: Seq<Seq<(Chars, CellV)>>, keys: Seq<Chars>, i: int)
    requires
        table_reads_back(rows, keys),
        0 <= i < rows.len(),
    ensures
        decode_line(indented(rows, keys)[i], keys) == Some(decoded_row(rows[i], keys)),
        free_of(indented(rows, keys)[i], '\n'),
        i < rows.len() - 1 ==> crate::text::strip_cr(indented(rows, keys)[i]) == indented(rows, keys)[i],
        indented(rows, keys)[i].len() > 0,
{
    reveal_strlit("  ");
    reveal_strlit(",");
    let row = rows[i];
    let cells = row_cells(row, keys);
    let l = row_line_text(row, keys);
    let line = "  "@ + l;
    assert(indented(rows, keys)[i] == line);
    assert forall|j: int| 0 <= j < cells.len() implies free_of(#[trigger] cells[j], ',') && free_of(
        cells[j],
        '\n',
    ) by {
        assert(cell_reads_back(row, keys, i, j, rows.len() as int));
    }
    assert(","@ =~= seq![',']);
    lemma_split_join(cells, ',');
    lemma_join_free(cells, ","@, '\n');
    assert(free_of(line, '\n')) by {
        assert forall|m: int| 0 <= m < line.len() implies line[m] != '\n' by {
            if m >= 2 {
                assert(line[m] == l[m - 2]);
            }
        }
    }
    assert(cell_reads_back(row, keys, i, 0, rows.len() as int));
    lemma_join_front(cells, ","@);
    assert(l.len() == 0 || !is_ws(l[0])) by {
        if cells[0].len() > 0 {
            assert(l.take(cells[0].len() as int)[0] == l[0]);
        } else if cells.len() >= 2 {
            assert(l.subrange(0, 1)[0] == l[0]);
        } else {
            assert(cells =~= seq![cells[0]]);
        }
    }
    lemma_trim_start_keeps(l);
    assert("  "@ =~= seq![' '] + seq![' ']);
    assert(line =~= seq![' '] + (seq![' '] + l));
    lemma_trim_start_ws(' ', seq![' '] + l);
    lemma_trim_start_ws(' ', l);
    assert(trim_start(line) == l);
    assert(decode_line(line, keys) == Some(decoded_row(row, keys)));
    if i < rows.len() - 1 {
        let last = keys.len() - 1;
        assert(cell_reads_back(row, keys, i, last, rows.len() as int));
        assert(line.last() != '\r') by {
            if cells[last].len() > 0 {
                if cells.len() == 1 {
                    assert(cells =~= seq![cells[0]]);
                    assert(l == cells[0]);
                } else {
                    assert(l == join(cells.drop_last(), ","@) + ","@ + cells.last());
                }
                assert(line.last() == l.last());
            } else if cells.len() == 1 {
                assert(cells =~= seq![cells[0]]);
                assert(l.len() == 0);
                assert(line.last() == ' ');
            } else {
                assert(l == join(cells.drop_last(), ","@) + ","@ + cells.last());
                assert(l.last() == ',');
                assert(line.last() == l.last());
            }
        }
    }
}

/// Every indented row line reads back, in order.
proof fn lemma_lines_read_back(rows: Seq<Seq<(Chars, CellV)>>, keys: Seq<Chars>, m: int)
    requires
        table_reads_back(rows, keys),
        0 <= m <= rows.len(),
    ensures
        decode_lines(indented(rows, keys).take(m), keys) == Some(
            Seq::new(m as nat, |i: int| decoded_row(rows[i], keys)),
        ),
    decreases m,
{
    let ind = indented(rows, keys);
    if m == 0 {
        assert(ind.take(0) =~= Seq::<Chars>::empty());
        assert(Seq::new(0, |i: int| decoded_row(rows[i], keys)) =~= Seq::<Seq<(Chars, CellV)>>::empty());
    } else {
        lemma_lines_read_back(rows, keys, m - 1);
        lemma_line_reads_back(rows, keys, m - 1);
        assert(ind.take(m).drop_last() =~= ind.take(m - 1));
        assert(ind.take(m).last() == ind[m - 1]);
        assert(Seq::new((m - 1) as nat, |i: int| decoded_row(rows[i], keys)).push(
            decoded_row(rows[m - 1], keys),
        ) =~= Seq::new(m as nat, |i: int| decoded_row(rows[i], keys)));
    }
}

/// A table whose every cell reads back in place ([`table_reads_back`]) reads back from its
/// TOON block: as many rows, each holding the same value under every key.
pub proof fn law_table_round_trip(rows: Seq<Seq<(Chars, CellV)>>, keys: Seq<Chars>)
    requires
        table_reads_back(rows, keys),
    ensures
        decode_spec(encode_spec(rows, keys)) matches Some(d) && d.len() == rows.len() && forall|
            i: int,
            k: Chars,
        | 0 <= i < rows.len() ==> #[trigger] lookup(d[i], k) == lookup(rows[i], k),
{
    reveal_strlit("[");
    reveal_strlit("]{");
    reveal_strlit("}:");
    reveal_strlit(",");
    reveal_strlit("\n");
    reveal_strlit("{");
    let n = rows.len();
    let dn = dec_nat(n);
    let kj = join(keys, ","@);
    let head = "["@ + dn + "]{"@ + kj + "}:"@;
    let body = join(indented(rows, keys), "\n"@);
    lemma_rows_text(rows, keys);
    let t = encode_spec(rows, keys);
    assert(t =~= head + ("\n"@ + body));
    // The header holds no line break, so the first one ends it.
    lemma_dec_nat_digits(n);
    lemma_join_free(keys, ","@, '\n');
    assert(free_of(head, '\n')) by {
        assert forall|m: int| 0 <= m < head.len() implies head[m] != '\n' by {
            if 1 <= m < 1 + dn.len() {
                assert(head[m] == dn[m - 1]);
                assert(48 <= dn[m - 1] as u32 <= 57);
            } else if 3 + dn.len() <= m < 3 + dn.len() + kj.len() {
                assert(head[m] == kj[m - 3 - dn.len()]);
            }
        }
    }
    let hl = head.len() as int;
    assert(occurs_at(t, "\n"@, hl)) by {
        assert(t.subrange(hl, hl + 1) =~= "\n"@);
    }
    assert forall|j: int| 0 <= j < hl implies !occurs_at(t, "\n"@, j) by {
        assert(t[j] == head[j]);
        if occurs_at(t, "\n"@, j) {
            assert(t.subrange(j, j + 1)[0] == t[j]);
        }
    }
    crate::text::lemma_find_spec(t, "\n"@, hl);
    assert(t.take(hl) =~= head);
    // The header reads `[n]{keys}:` back.
    lemma_trim_start_keeps(head);
    assert(trim(head) == head);
    let s = head.drop_last();
    let b = 2 + dn.len() as int;
    assert(s =~= "["@ + dn + "]{"@ + kj + "}"@) by {
        reveal_strlit("}");
    }
    assert(s[b] == '{');
    assert forall|j: int| 0 <= j < b implies !occurs_at(s, "{"@, j) by {
        if occurs_at(s, "{"@, j) {
            assert(s.subrange(j, j + 1)[0] == s[j]);
            if 1 <= j < 1 + dn.len() {
                assert(s[j] == dn[j - 1]);
                assert(48 <= dn[j - 1] as u32 <= 57);
            }
        }
    }
    assert(occurs_at(s, "{"@, b)) by {
        assert(s.subrange(b, b + 1) =~= "{"@);
    }
    crate::text::lemma_find_spec(s, "{"@, b);
    assert(s[0] == '[' && s[b - 1] == ']' && s.last() == '}');
    assert(s.subrange(b + 1, s.len() - 1) =~= kj);
    assert forall|j: int| 0 <= j < keys.len() implies free_of(#[trigger] keys[j], ',') by {}
    assert(","@ =~= seq![',']);
    lemma_split_join(keys, ',');
    // The row lines read back.
    assert(t.skip(hl + 1) =~= body);
    let ind = indented(rows, keys);
    assert forall|i: int| 0 <= i < ind.len() implies free_of(#[trigger] ind[i], '\n') by {
        lemma_line_reads_back(rows, keys, i);
    }
    assert forall|i: int| 0 <= i < ind.len() - 1 implies crate::text::strip_cr(#[trigger] ind[i])
        == ind[i] by {
        lemma_line_reads_back(rows, keys, i);
    }
    lemma_line_reads_back(rows, keys, n - 1);
    lemma_lines_join(ind);
    lemma_lines_read_back(rows, keys, n as int);
    assert(ind.take(n as int) =~= ind);
    let d = Seq::new(n, |i: int| decoded_row(rows[i], keys));
    assert(decode_spec(t) == Some(d));
    // Each row holds what it held.
    assert forall|i: int, k: Chars| 0 <= i < rows.len() implies #[trigger] lookup(d[i], k) == lookup(
        rows[i],
        k,
    ) by {
        let row = rows[i];
        let z = d[i];
        lemma_lookup_entry(z, k);
        lemma_lookup_entry(row, k);
        if lookup(z, k) is Some {
            let v = lookup(z, k)->Some_0;
            let j = choose|j: int| 0 <= j < z.len() && (#[trigger] z[j]).0 == k && z[j].1 == v;
            assert(cell_reads_back(row, keys, i, j, n as int));
            assert(z[j].1 == decode_cell_spec(row_cells(row, keys)[j]));
            assert(keys[j] == k);
        } else {
            if lookup(row, k) is Some {
                let m = choose|m: int| 0 <= m < row.len() && (#[trigger] row[m]).0 == k && row[m].1
                    == lookup(row, k)->Some_0;
                assert(keys.contains(rows[i][m].0));
                let j = choose|j: int| 0 <= j < keys.len() && keys[j] == k;
                assert(z[j].0 == k);
            }
        }
    }
}

/// A table loses no field: when an array encodes under `keys`, every item is an object
/// with exactly as many entries as there are keys, and each key is found in it holding a
/// scalar, so the item's entries are exactly the table's columns.
pub proof fn law_table_keeps_every_field(items: Seq<Option<Seq<(Chars, CellV)>>>, min_rows: nat)
    ensures
        tabular_keys_spec(items, min_rows) matches Some(keys) ==> forall|i: int|
            0 <= i < items.len() ==> {
                &&& #[trigger] items[i] is Some
                &&& items[i]->Some_0.len() == keys.len()
                &&& forall|j: int|
                    0 <= j < keys.len() ==> (lookup(items[i]->Some_0, keys[j]) is Some && !(lookup(items[i]->Some_0, keys[j])->Some_0 is Nested))
            },
{
    if let Some(keys) = tabular_keys_spec(items, min_rows) {
        assert forall|i: int| 0 <= i < items.len() implies {
            &&& #[trigger] items[i] is Some
            &&& items[i]->Some_0.len() == keys.len()
            &&& forall|j: int|
                0 <= j < keys.len() ==> (lookup(items[i]->Some_0, keys[j]) is Some && !(lookup(items[i]->Some_0, keys[j])->Some_0 is Nested))
        } by {
            assert(fits(items[i], keys));
            assert forall|j: int| 0 <= j < keys.len() implies (lookup(items[i]->Some_0, keys[j]) is Some && !(lookup(items[i]->Some_0, keys[j])->Some_0 is Nested)) by {
                assert(lookup(items[i]->Some_0, keys[j]) matches Some(c) && is_scalar(c));
            }
        }
    }
}

} // verus!
