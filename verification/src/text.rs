//! Character-level text helpers shared by every module: a `&str` is read as its
//! `Seq<char>` view, and strings are built back char by char.
//!
//! The spec functions here say what `str::trim`, `str::lines`, `str::split_whitespace`,
//! `str::split` and `join` compute, as folds over a prefix, so a loop that walks a
//! string left to right can keep "the answer for the prefix read so far" as its
//! invariant.

use vstd::prelude::*;

verus! {

pub type Chars = Seq<char>;

// ---------------------------------------------------------------------------------------
// Specs
// ---------------------------------------------------------------------------------------

/// Unicode `White_Space`, the set `char::is_whitespace` tests.
pub open spec fn is_ws(c: char) -> bool {
    let u = c as u32;
    ||| u == 0x20
    ||| (0x09 <= u && u <= 0x0D)
    ||| u == 0x85
    ||| u == 0xA0
    ||| u == 0x1680
    ||| (0x2000 <= u && u <= 0x200A)
    ||| u == 0x2028
    ||| u == 0x2029
    ||| u == 0x202F
    ||| u == 0x205F
    ||| u == 0x3000
}

/// `s` without its leading whitespace (`str::trim_start`), as a fold over prefixes:
/// a character is kept once anything non-blank has been kept.
pub open spec fn trim_start(s: Chars) -> Chars
    decreases s.len(),
{
    if s.len() == 0 {
        s
    } else {
        let p = trim_start(s.drop_last());
        if p.len() == 0 && is_ws(s.last()) {
            p
        } else {
            p.push(s.last())
        }
    }
}

/// `s` without its trailing whitespace (`str::trim_end`).
pub open spec fn trim_end(s: Chars) -> Chars
    decreases s.len(),
{
    if s.len() > 0 && is_ws(s.last()) {
        trim_end(s.drop_last())
    } else {
        s
    }
}

/// `str::trim`.
pub open spec fn trim(s: Chars) -> Chars {
    trim_end(trim_start(s))
}

/// `p` is a prefix of `s`.
pub open spec fn starts_with(s: Chars, p: Chars) -> bool {
    p.len() <= s.len() && s.take(p.len() as int) == p
}

/// `p` is a suffix of `s`.
pub open spec fn ends_with(s: Chars, p: Chars) -> bool {
    p.len() <= s.len() && s.skip(s.len() - p.len()) == p
}

/// `p` occurs in `s` at index `i`.
pub open spec fn occurs_at(s: Chars, p: Chars, i: int) -> bool {
    0 <= i && i + p.len() <= s.len() && s.subrange(i, i + p.len()) == p
}

/// `s.contains(p)`.
pub open spec fn contains(s: Chars, p: Chars) -> bool {
    exists|i: int| occurs_at(s, p, i)
}

/// `s.find(p)`: the first index at which `p` occurs.
pub open spec fn is_first_occurrence(s: Chars, p: Chars, i: int) -> bool {
    occurs_at(s, p, i) && forall|j: int| 0 <= j < i ==> !occurs_at(s, p, j)
}

/// `s.find(p)` as a value: the first index at which `p` occurs, if any.
pub open spec fn find_spec(s: Chars, p: Chars) -> Option<int> {
    if contains(s, p) {
        Some(choose|i: int| is_first_occurrence(s, p, i))
    } else {
        None
    }
}

/// The first occurrence is unique, so [`find_spec`] names it.
pub proof fn lemma_find_spec(s: Chars, p: Chars, i: int)
    requires
        is_first_occurrence(s, p, i),
    ensures
        find_spec(s, p) == Some(i),
{
    assert(contains(s, p));
    let j = choose|j: int| is_first_occurrence(s, p, j);
    if j < i {
        assert(!occurs_at(s, p, j));
    } else if i < j {
        assert(!occurs_at(s, p, i));
    }
}

/// An occurrence at `i` means there is a first one, at or before `i`.
pub proof fn lemma_first_exists(s: Chars, p: Chars, i: int)
    requires
        occurs_at(s, p, i),
    ensures
        exists|k: int| is_first_occurrence(s, p, k),
    decreases i,
{
    if exists|j: int| 0 <= j < i && occurs_at(s, p, j) {
        let j = choose|j: int| 0 <= j < i && occurs_at(s, p, j);
        lemma_first_exists(s, p, j);
    } else {
        assert(is_first_occurrence(s, p, i));
    }
}

/// [`find_spec`] names the first occurrence whenever there is one.
pub proof fn lemma_find_spec_first(s: Chars, p: Chars)
    ensures
        find_spec(s, p) matches Some(x) ==> is_first_occurrence(s, p, x),
        find_spec(s, p) is None ==> !contains(s, p),
{
    if contains(s, p) {
        let i = choose|i: int| occurs_at(s, p, i);
        lemma_first_exists(s, p, i);
    }
}

/// Decimal digits of a natural number.
pub open spec fn dec_nat(n: nat) -> Chars
    decreases n,
{
    if n < 10 {
        seq![digit_char(n)]
    } else {
        dec_nat(n / 10).push(digit_char(n % 10))
    }
}

/// The ASCII digit for `d < 10`.
pub open spec fn digit_char(d: nat) -> char {
    (('0' as u32) + d) as char
}

/// `i.to_string()` for a signed integer.
pub open spec fn dec_int(n: int) -> Chars {
    if n < 0 {
        seq!['-'] + dec_nat((-n) as nat)
    } else {
        dec_nat(n as nat)
    }
}

/// `str::split(sep)` on one character: always one more piece than separators.
pub open spec fn split_char(s: Chars, sep: char) -> Seq<Chars>
    decreases s.len(),
{
    if s.len() == 0 {
        seq![Seq::empty()]
    } else {
        let p = split_char(s.drop_last(), sep);
        if s.last() == sep {
            p.push(Seq::empty())
        } else {
            p.update(p.len() - 1, p.last().push(s.last()))
        }
    }
}

/// Pieces of `str::lines` read so far, and the open line, for a prefix.
pub open spec fn lines_acc(s: Chars) -> (Seq<Chars>, Chars)
    decreases s.len(),
{
    if s.len() == 0 {
        (Seq::empty(), Seq::empty())
    } else {
        let (done, cur) = lines_acc(s.drop_last());
        if s.last() == '\n' {
            (done.push(strip_cr(cur)), Seq::empty())
        } else {
            (done, cur.push(s.last()))
        }
    }
}

/// One `\r` dropped from the end of a line that ended in `\n`.
pub open spec fn strip_cr(l: Chars) -> Chars {
    if l.len() > 0 && l.last() == '\r' {
        l.drop_last()
    } else {
        l
    }
}

/// `str::lines`: split at `\n` (and `\r\n`); a final empty line is not a line.
pub open spec fn lines(s: Chars) -> Seq<Chars> {
    let (done, cur) = lines_acc(s);
    if cur.len() > 0 {
        done.push(cur)
    } else {
        done
    }
}

/// Words of `str::split_whitespace` read so far, and the open word, for a prefix.
pub open spec fn words_acc(s: Chars) -> (Seq<Chars>, Chars)
    decreases s.len(),
{
    if s.len() == 0 {
        (Seq::empty(), Seq::empty())
    } else {
        let (done, cur) = words_acc(s.drop_last());
        if is_ws(s.last()) {
            if cur.len() > 0 {
                (done.push(cur), Seq::empty())
            } else {
                (done, cur)
            }
        } else {
            (done, cur.push(s.last()))
        }
    }
}

/// `str::split_whitespace`.
pub open spec fn words(s: Chars) -> Seq<Chars> {
    let (done, cur) = words_acc(s);
    if cur.len() > 0 {
        done.push(cur)
    } else {
        done
    }
}

/// `parts.join(sep)`.
pub open spec fn join(parts: Seq<Chars>, sep: Chars) -> Chars
    decreases parts.len(),
{
    if parts.len() == 0 {
        Seq::empty()
    } else if parts.len() == 1 {
        parts[0]
    } else {
        join(parts.drop_last(), sep) + sep + parts.last()
    }
}

/// The views of a vector of strings.
pub open spec fn views(v: Seq<String>) -> Seq<Chars> {
    v.map_values(|s: String| s@)
}

// ---------------------------------------------------------------------------------------
// Exec helpers
// ---------------------------------------------------------------------------------------

/// Appends one character to a `String` (`String::push`).
#[verifier::external_body]
pub(crate) fn push_char(s: &mut String, c: char)
    ensures
        final(s)@ == old(s)@.push(c),
{
    s.push(c);
}

/// What `char::is_alphanumeric` answers for a character.
pub uninterp spec fn alphanumeric(c: char) -> bool;

/// `char::is_alphanumeric`: whether `c` is Unicode alphabetic or numeric. ASCII letters and
/// digits are; every other ASCII character is not.
#[verifier::external_body]
pub(crate) fn is_alphanumeric(c: char) -> (r: bool)
    ensures
        r == alphanumeric(c),
        ('a' <= c <= 'z' || 'A' <= c <= 'Z' || '0' <= c <= '9') ==> r,
        (c as u32) < 128 && !('a' <= c <= 'z' || 'A' <= c <= 'Z' || '0' <= c <= '9') ==> !r,
{
    c.is_alphanumeric()
}

/// The characters of `s`, in order.
pub fn chars_of(s: &str) -> (v: Vec<char>)
    ensures
        v@ == s@,
{
    let mut v: Vec<char> = Vec::new();
    for c in it: s.chars()
        invariant
            v@ == it.seq().take(it.index() as int),
    {
        v.push(c);
    }
    v
}

/// A `String` holding `v[lo..hi]`.
pub fn string_of(v: &[char], lo: usize, hi: usize) -> (s: String)
    requires
        lo <= hi <= v@.len(),
    ensures
        s@ == v@.subrange(lo as int, hi as int),
{
    let mut s = String::new();
    let mut i = lo;
    while i < hi
        invariant
            lo <= i <= hi <= v@.len(),
            s@ == v@.subrange(lo as int, i as int),
        decreases hi - i,
    {
        push_char(&mut s, v[i]);
        assert(v@.subrange(lo as int, i + 1) == v@.subrange(lo as int, i as int).push(v@[i as int]));
        i += 1;
    }
    s
}

/// A `String` holding all of `v`.
pub fn string_from(v: &[char]) -> (s: String)
    ensures
        s@ == v@,
{
    let s = string_of(v, 0, v.len());
    assert(v@.subrange(0, v@.len() as int) == v@);
    s
}

/// Appends `v[lo..hi]` to `s`.
pub fn push_range(s: &mut String, v: &[char], lo: usize, hi: usize)
    requires
        lo <= hi <= v@.len(),
    ensures
        final(s)@ == old(s)@ + v@.subrange(lo as int, hi as int),
{
    let mut i = lo;
    while i < hi
        invariant
            lo <= i <= hi <= v@.len(),
            s@ == old(s)@ + v@.subrange(lo as int, i as int),
        decreases hi - i,
    {
        push_char(s, v[i]);
        assert(v@.subrange(lo as int, i + 1) == v@.subrange(lo as int, i as int).push(v@[i as int]));
        i += 1;
    }
}

/// Appends all of `v` to `s`.
pub fn push_all(s: &mut String, v: &[char])
    ensures
        final(s)@ == old(s)@ + v@,
{
    push_range(s, v, 0, v.len());
    assert(v@.subrange(0, v@.len() as int) == v@);
}

/// A copy of `s`.
pub fn copy_str(s: &str) -> (r: String)
    ensures
        r@ == s@,
{
    s.to_owned()
}

/// `char::is_whitespace`.
pub fn is_whitespace(c: char) -> (b: bool)
    ensures
        b == is_ws(c),
{
    let u = c as u32;
    u == 0x20 || (0x09 <= u && u <= 0x0D) || u == 0x85 || u == 0xA0 || u == 0x1680 || (0x2000
        <= u && u <= 0x200A) || u == 0x2028 || u == 0x2029 || u == 0x202F || u == 0x205F || u
        == 0x3000
}

/// `a == b` on character slices.
pub fn chars_eq(a: &[char], b: &[char]) -> (r: bool)
    ensures
        r == (a@ == b@),
{
    if a.len() != b.len() {
        return false;
    }
    let mut i: usize = 0;
    while i < a.len()
        invariant
            a@.len() == b@.len(),
            i <= a@.len(),
            forall|j: int| 0 <= j < i ==> a@[j] == b@[j],
        decreases a@.len() - i,
    {
        if a[i] != b[i] {
            return false;
        }
        i += 1;
    }
    assert(a@ =~= b@);
    true
}

/// Whether `p` occurs in `s` at index `at`.
pub fn matches_at(s: &[char], p: &[char], at: usize) -> (r: bool)
    ensures
        r == occurs_at(s@, p@, at as int),
{
    if at > s.len() || p.len() > s.len() - at {
        return false;
    }
    let mut i: usize = 0;
    while i < p.len()
        invariant
            at + p@.len() <= s@.len(),
            s@.len() <= usize::MAX,
            i <= p@.len(),
            forall|j: int| 0 <= j < i ==> s@[at + j] == p@[j],
        decreases p@.len() - i,
    {
        if s[at + i] != p[i] {
            assert(s@.subrange(at as int, at + p@.len())[i as int] != p@[i as int]);
            return false;
        }
        i += 1;
    }
    assert(s@.subrange(at as int, at + p@.len()) =~= p@);
    true
}

/// `s.starts_with(p)`.
pub fn has_prefix(s: &[char], p: &[char]) -> (r: bool)
    ensures
        r == starts_with(s@, p@),
{
    let r = matches_at(s, p, 0);
    assert(p@.len() <= s@.len() ==> s@.subrange(0, p@.len() as int) == s@.take(p@.len() as int));
    r
}

/// `s.ends_with(p)`.
pub fn has_suffix(s: &[char], p: &[char]) -> (r: bool)
    ensures
        r == ends_with(s@, p@),
{
    if p.len() > s.len() {
        return false;
    }
    let r = matches_at(s, p, s.len() - p.len());
    assert(s@.subrange(s@.len() - p@.len(), s@.len() as int) == s@.skip(s@.len() - p@.len()));
    r
}

/// `s.find(p)` from index `from` on: the first occurrence at or after `from`.
pub fn find_from(s: &[char], p: &[char], from: usize) -> (r: Option<usize>)
    ensures
        match r {
            Some(i) => from <= i && occurs_at(s@, p@, i as int) && forall|j: int|
                from <= j < i ==> !occurs_at(s@, p@, j),
            None => forall|j: int| from <= j ==> !occurs_at(s@, p@, j),
        },
{
    let mut i = from;
    if i > s.len() {
        return None;
    }
    while i <= s.len()
        invariant
            from <= i <= s@.len() + 1,
            forall|j: int| from <= j < i ==> !occurs_at(s@, p@, j),
        decreases s@.len() + 1 - i,
    {
        if matches_at(s, p, i) {
            return Some(i);
        }
        if i == s.len() {
            return None;
        }
        i += 1;
    }
    None
}

/// `s.find(p)`.
pub fn find(s: &[char], p: &[char]) -> (r: Option<usize>)
    ensures
        match r {
            Some(i) => is_first_occurrence(s@, p@, i as int) && find_spec(s@, p@) == Some(
                i as int,
            ),
            None => !contains(s@, p@) && find_spec(s@, p@) is None,
        },
{
    let r = find_from(s, p, 0);
    match r {
        Some(i) => {
            proof {
                lemma_find_spec(s@, p@, i as int);
            }
        },
        None => {},
    }
    r
}

/// `digit.to_string()` pushed onto `s` for `d < 10`.
fn push_digit(s: &mut String, d: u64)
    requires
        d < 10,
    ensures
        final(s)@ == old(s)@.push(digit_char(d as nat)),
{
    let c = if d == 0 {
        '0'
    } else if d == 1 {
        '1'
    } else if d == 2 {
        '2'
    } else if d == 3 {
        '3'
    } else if d == 4 {
        '4'
    } else if d == 5 {
        '5'
    } else if d == 6 {
        '6'
    } else if d == 7 {
        '7'
    } else if d == 8 {
        '8'
    } else {
        '9'
    };
    push_char(s, c);
}

/// Appends the decimal digits of `n` (`{n}` in a format string).
pub fn push_u64(s: &mut String, n: u64)
    ensures
        final(s)@ == old(s)@ + dec_nat(n as nat),
    decreases n,
{
    if n < 10 {
        push_digit(s, n);
        assert(dec_nat(n as nat) == seq![digit_char(n as nat)]);
    } else {
        push_u64(s, n / 10);
        push_digit(s, n % 10);
        assert(dec_nat(n as nat) == dec_nat((n / 10) as nat).push(digit_char((n % 10) as nat)));
    }
}

/// Appends the decimal form of a signed `n`, with a leading `-` when negative.
pub fn push_i64(s: &mut String, n: i64)
    ensures
        final(s)@ == old(s)@ + dec_int(n as int),
{
    if n < 0 {
        push_char(s, '-');
        let m: u64 = (0i128 - (n as i128)) as u64;
        push_u64(s, m);
        assert(old(s)@ + dec_int(n as int) == old(s)@.push('-') + dec_nat(m as nat));
    } else {
        push_u64(s, n as u64);
    }
}

/// `parts.join(sep)`.
pub fn join_strings(parts: &[String], sep: &str) -> (r: String)
    ensures
        r@ == join(views(parts@), sep@),
{
    let mut r = String::new();
    let mut i: usize = 0;
    while i < parts.len()
        invariant
            i <= parts@.len(),
            r@ == join(views(parts@).take(i as int), sep@),
        decreases parts@.len() - i,
    {
        let ghost vs = views(parts@);
        assert(vs.take(i + 1).drop_last() == vs.take(i as int));
        if i > 0 {
            r.append(sep);
        }
        r.append(parts[i].as_str());
        i += 1;
    }
    assert(views(parts@).take(parts@.len() as int) == views(parts@));
    r
}

} // verus!

verus! {

/// `s.lines()`, each line as its own `String`.
pub fn lines_vec(s: &str) -> (v: Vec<String>)
    ensures
        views(v@) == lines(s@),
{
    let c = chars_of(s);
    let mut done: Vec<String> = Vec::new();
    let mut cur: Vec<char> = Vec::new();
    let mut i: usize = 0;
    while i < c.len()
        invariant
            i <= c@.len(),
            c@ == s@,
            (views(done@), cur@) == lines_acc(c@.take(i as int)),
        decreases c@.len() - i,
    {
        assert(c@.take(i + 1).drop_last() == c@.take(i as int));
        if c[i] == '\n' {
            let mut n = cur.len();
            if n > 0 && cur[n - 1] == '\r' {
                n = n - 1;
            }
            let line = string_of(cur.as_slice(), 0, n);
            proof {
                assert(cur@.subrange(0, n as int) == strip_cr(cur@));
            }
            let ghost before = done@;
            done.push(line);
            assert(views(done@) == views(before).push(line@));
            cur = Vec::new();
        } else {
            cur.push(c[i]);
        }
        i += 1;
    }
    assert(c@.take(c@.len() as int) == c@);
    if cur.len() > 0 {
        let ghost before = done@;
        let last = string_from(cur.as_slice());
        done.push(last);
        assert(views(done@) == views(before).push(last@));
    }
    done
}

/// `s.split_whitespace()`, each word as its own `String`.
pub fn words_vec(s: &str) -> (v: Vec<String>)
    ensures
        views(v@) == words(s@),
{
    let c = chars_of(s);
    let mut done: Vec<String> = Vec::new();
    let mut cur: Vec<char> = Vec::new();
    let mut i: usize = 0;
    while i < c.len()
        invariant
            i <= c@.len(),
            c@ == s@,
            (views(done@), cur@) == words_acc(c@.take(i as int)),
        decreases c@.len() - i,
    {
        assert(c@.take(i + 1).drop_last() == c@.take(i as int));
        if is_whitespace(c[i]) {
            if cur.len() > 0 {
                let w = string_from(cur.as_slice());
                let ghost before = done@;
                done.push(w);
                assert(views(done@) == views(before).push(w@));
                cur = Vec::new();
            }
        } else {
            cur.push(c[i]);
        }
        i += 1;
    }
    assert(c@.take(c@.len() as int) == c@);
    if cur.len() > 0 {
        let ghost before = done@;
        let last = string_from(cur.as_slice());
        done.push(last);
        assert(views(done@) == views(before).push(last@));
    }
    done
}

/// `s.split(sep)` on one character, each piece as its own `String`.
pub fn split_vec(s: &str, sep: char) -> (v: Vec<String>)
    ensures
        views(v@) == split_char(s@, sep),
{
    let c = chars_of(s);
    let mut done: Vec<String> = Vec::new();
    let mut cur: Vec<char> = Vec::new();
    let mut i: usize = 0;
    while i < c.len()
        invariant
            i <= c@.len(),
            c@ == s@,
            views(done@).push(cur@) == split_char(c@.take(i as int), sep),
        decreases c@.len() - i,
    {
        assert(c@.take(i + 1).drop_last() == c@.take(i as int));
        if c[i] == sep {
            let w = string_from(cur.as_slice());
            let ghost before = done@;
            done.push(w);
            assert(views(done@) == views(before).push(w@));
            cur = Vec::new();
            assert(views(done@).push(cur@) == views(before).push(w@).push(Seq::empty()));
        } else {
            let ghost pre = split_char(c@.take(i as int), sep);
            cur.push(c[i]);
            assert(views(done@).push(cur@) =~= pre.update(pre.len() - 1, pre.last().push(c@[i as int])));
        }
        i += 1;
    }
    assert(c@.take(c@.len() as int) == c@);
    let ghost before = done@;
    let last = string_from(cur.as_slice());
    done.push(last);
    assert(views(done@) == views(before).push(last@));
    done
}

/// A line-ending string never is empty where `lines` splits it.
pub proof fn lemma_split_nonempty(s: Chars, sep: char)
    ensures
        split_char(s, sep).len() >= 1,
    decreases s.len(),
{
    if s.len() > 0 {
        lemma_split_nonempty(s.drop_last(), sep);
    }
}

} // verus!

verus! {

/// `s.replace(p, r)`: non-overlapping occurrences of `p`, left to right, become `r`.
pub open spec fn replace_all(s: Chars, p: Chars, r: Chars) -> Chars
    recommends
        p.len() > 0,
    decreases s.len(),
{
    if s.len() == 0 || p.len() == 0 {
        s
    } else if starts_with(s, p) {
        r + replace_all(s.skip(p.len() as int), p, r)
    } else {
        seq![s[0]] + replace_all(s.drop_first(), p, r)
    }
}

/// Replacing with something no longer never lengthens the text.
pub proof fn lemma_replace_shorter(s: Chars, p: Chars, r: Chars)
    requires
        r.len() <= p.len(),
    ensures
        replace_all(s, p, r).len() <= s.len(),
    decreases s.len(),
{
    if s.len() > 0 && p.len() > 0 {
        if starts_with(s, p) {
            lemma_replace_shorter(s.skip(p.len() as int), p, r);
        } else {
            lemma_replace_shorter(s.drop_first(), p, r);
        }
    }
}

/// Without an occurrence of `p` there is nothing to replace.
pub proof fn lemma_replace_absent(s: Chars, p: Chars, r: Chars)
    requires
        !contains(s, p),
    ensures
        replace_all(s, p, r) == s,
    decreases s.len(),
{
    if s.len() > 0 && p.len() > 0 {
        assert(!occurs_at(s, p, 0));
        assert(p.len() <= s.len() ==> s.subrange(0, p.len() as int) == s.take(p.len() as int));
        assert forall|i: int| !occurs_at(s.drop_first(), p, i) by {
            if occurs_at(s.drop_first(), p, i) {
                assert(s.subrange(i + 1, i + 1 + p.len()) =~= s.drop_first().subrange(i, i + p.len()));
                assert(occurs_at(s, p, i + 1));
            }
        }
        lemma_replace_absent(s.drop_first(), p, r);
        assert(s =~= seq![s[0]] + s.drop_first());
    }
}

/// `s.replace(p, r)` for a non-empty `p`.
pub fn replace_chars(s: &[char], p: &[char], r: &[char]) -> (out: Vec<char>)
    requires
        p@.len() > 0,
    ensures
        out@ == replace_all(s@, p@, r@),
{
    let mut out: Vec<char> = Vec::new();
    let n = s.len();
    let mut i: usize = 0;
    assert(s@.skip(0) == s@);
    while i < n
        invariant
            n == s@.len(),
            i <= n,
            p@.len() > 0,
            replace_all(s@, p@, r@) == out@ + replace_all(s@.skip(i as int), p@, r@),
        decreases n - i,
    {
        let ghost rest = s@.skip(i as int);
        if matches_at(s, p, i) {
            assert(rest.take(p@.len() as int) =~= s@.subrange(i as int, i + p@.len()));
            assert(rest.skip(p@.len() as int) =~= s@.skip(i + p@.len()));
            let mut k: usize = 0;
            let ghost before = out@;
            while k < r.len()
                invariant
                    k <= r@.len(),
                    out@ == before + r@.take(k as int),
                decreases r@.len() - k,
            {
                out.push(r[k]);
                assert(r@.take(k + 1) == r@.take(k as int).push(r@[k as int]));
                k += 1;
            }
            assert(r@.take(r@.len() as int) == r@);
            i += p.len();
        } else {
            assert(!starts_with(rest, p@)) by {
                if starts_with(rest, p@) {
                    assert(rest.take(p@.len() as int) =~= s@.subrange(i as int, i + p@.len()));
                }
            }
            assert(rest.drop_first() =~= s@.skip(i + 1));
            out.push(s[i]);
            i += 1;
        }
    }
    assert(s@.skip(i as int) =~= Seq::<char>::empty());
    out
}

/// `s.trim_start()` as its own vector.
pub fn trim_start_chars(s: &[char]) -> (r: Vec<char>)
    ensures
        r@ == trim_start(s@),
{
    let mut r: Vec<char> = Vec::new();
    let mut i: usize = 0;
    while i < s.len()
        invariant
            i <= s@.len(),
            r@ == trim_start(s@.take(i as int)),
        decreases s@.len() - i,
    {
        assert(s@.take(i + 1).drop_last() == s@.take(i as int));
        if !(r.len() == 0 && is_whitespace(s[i])) {
            r.push(s[i]);
        }
        i += 1;
    }
    assert(s@.take(s@.len() as int) == s@);
    r
}

/// `s.trim_end()` as its own vector.
pub fn trim_end_chars(s: &[char]) -> (r: Vec<char>)
    ensures
        r@ == trim_end(s@),
{
    let mut j = s.len();
    assert(s@.take(j as int) == s@);
    while j > 0 && is_whitespace(s[j - 1])
        invariant
            j <= s@.len(),
            trim_end(s@) == trim_end(s@.take(j as int)),
        decreases j,
    {
        assert(s@.take(j as int).drop_last() == s@.take(j - 1));
        j -= 1;
    }
    let mut r: Vec<char> = Vec::new();
    let mut i: usize = 0;
    while i < j
        invariant
            i <= j <= s@.len(),
            r@ == s@.take(i as int),
        decreases j - i,
    {
        r.push(s[i]);
        assert(s@.take(i + 1) == s@.take(i as int).push(s@[i as int]));
        i += 1;
    }
    r
}

/// `s.trim()` as its own vector.
pub fn trim_chars(s: &[char]) -> (r: Vec<char>)
    ensures
        r@ == trim(s@),
{
    let a = trim_start_chars(s);
    trim_end_chars(a.as_slice())
}

/// `v[from..]` as its own vector.
pub fn skip_chars(v: &[char], from: usize) -> (r: Vec<char>)
    requires
        from <= v@.len(),
    ensures
        r@ == v@.skip(from as int),
{
    let mut r: Vec<char> = Vec::new();
    let mut i = from;
    while i < v.len()
        invariant
            from <= i <= v@.len(),
            r@ == v@.subrange(from as int, i as int),
        decreases v@.len() - i,
    {
        r.push(v[i]);
        i += 1;
    }
    r
}

/// `v[..to]` as its own vector.
pub fn take_chars(v: &[char], to: usize) -> (r: Vec<char>)
    requires
        to <= v@.len(),
    ensures
        r@ == v@.take(to as int),
{
    let mut r: Vec<char> = Vec::new();
    let mut i: usize = 0;
    while i < to
        invariant
            i <= to <= v@.len(),
            r@ == v@.take(i as int),
        decreases to - i,
    {
        r.push(v[i]);
        assert(v@.take(i + 1) == v@.take(i as int).push(v@[i as int]));
        i += 1;
    }
    r
}

/// `s.strip_prefix(p)` on characters.
pub fn strip_prefix_chars(s: &[char], p: &str) -> (r: Option<Vec<char>>)
    ensures
        match r {
            Some(rest) => starts_with(s@, p@) && rest@ == s@.skip(p@.len() as int),
            None => !starts_with(s@, p@),
        },
{
    let pc = chars_of(p);
    if has_prefix(s, pc.as_slice()) {
        Some(skip_chars(s, pc.len()))
    } else {
        None
    }
}

} // verus!

verus! {

/// `v == lit`.
pub fn eq_lit(v: &[char], lit: &str) -> (r: bool)
    ensures
        r == (v@ == lit@),
{
    let l = chars_of(lit);
    chars_eq(v, l.as_slice())
}

/// `a == b` on strings.
pub fn str_eq(a: &str, b: &str) -> (r: bool)
    ensures
        r == (a@ == b@),
{
    let x = chars_of(a);
    let y = chars_of(b);
    chars_eq(x.as_slice(), y.as_slice())
}

/// `v.starts_with(lit)`.
pub fn prefix_lit(v: &[char], lit: &str) -> (r: bool)
    ensures
        r == starts_with(v@, lit@),
{
    let l = chars_of(lit);
    has_prefix(v, l.as_slice())
}

/// `v.contains(lit)`.
pub fn contains_lit(v: &[char], lit: &str) -> (r: bool)
    ensures
        r == contains(v@, lit@),
{
    let l = chars_of(lit);
    find(v, l.as_slice()).is_some()
}

} // verus!
