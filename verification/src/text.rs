//! Text primitives: what trimming, line and word splitting, searching and
//! prefix tests mean on a sequence of characters, and functions that compute
//! them on character slices.

use vstd::prelude::*;

verus! {

/// `String::push` appends one character to the end of the string.
pub assume_specification[ String::push ](s: &mut String, c: char)
    ensures
        final(s)@ == old(s)@.push(c),
;

// ---------------------------------------------------------------------------
// Meaning
// ---------------------------------------------------------------------------
/// The Unicode `White_Space` property.
pub open spec fn is_ws(c: char) -> bool {
    ||| '\u{9}' <= c <= '\u{d}'
    ||| c == '\u{20}'
    ||| c == '\u{85}'
    ||| c == '\u{a0}'
    ||| c == '\u{1680}'
    ||| '\u{2000}' <= c <= '\u{200a}'
    ||| c == '\u{2028}'
    ||| c == '\u{2029}'
    ||| c == '\u{202f}'
    ||| c == '\u{205f}'
    ||| c == '\u{3000}'
}

/// `s` without its leading white space.
pub open spec fn trim_start_of(s: Seq<char>) -> Seq<char>
    decreases s.len(),
{
    if s.len() > 0 && is_ws(s[0]) {
        trim_start_of(s.drop_first())
    } else {
        s
    }
}

/// `s` without its trailing white space.
pub open spec fn trim_end_of(s: Seq<char>) -> Seq<char>
    decreases s.len(),
{
    if s.len() > 0 && is_ws(s.last()) {
        trim_end_of(s.drop_last())
    } else {
        s
    }
}

/// `s` without leading and trailing white space.
pub open spec fn trim_of(s: Seq<char>) -> Seq<char> {
    trim_end_of(trim_start_of(s))
}

/// The index of the first `c` in `s`; the length of `s` when there is none.
pub open spec fn position_of(s: Seq<char>, c: char) -> int
    decreases s.len(),
{
    if s.len() == 0 || s[0] == c {
        0
    } else {
        1 + position_of(s.drop_first(), c)
    }
}

/// The index of the last `c` in `s`; minus one when there is none.
pub open spec fn last_position_of(s: Seq<char>, c: char) -> int
    decreases s.len(),
{
    if s.len() == 0 {
        -1
    } else if s.last() == c {
        s.len() - 1
    } else {
        last_position_of(s.drop_last(), c)
    }
}

/// The index of the first white space in `s`; its length when there is none.
pub open spec fn ws_position_of(s: Seq<char>) -> int
    decreases s.len(),
{
    if s.len() == 0 || is_ws(s[0]) {
        0
    } else {
        1 + ws_position_of(s.drop_first())
    }
}

/// `s` without one trailing carriage return.
pub open spec fn without_cr(s: Seq<char>) -> Seq<char> {
    if s.len() > 0 && s.last() == '\r' {
        s.drop_last()
    } else {
        s
    }
}

/// The lines of `s`: each ends at a line feed, which is left out together with
/// a carriage return right before it; what follows the last line feed is a
/// line too, unless it is empty.
pub open spec fn lines_of(s: Seq<char>) -> Seq<Seq<char>>
    decreases s.len(),
{
    let k = position_of(s, '\n');
    if s.len() == 0 {
        Seq::empty()
    } else if k < 0 || k >= s.len() {
        seq![s]
    } else {
        seq![without_cr(s.take(k))] + lines_of(s.skip(k + 1))
    }
}

/// The pieces of `s` between the separators `sep`; one more than there are
/// separators.
pub open spec fn split_of(s: Seq<char>, sep: char) -> Seq<Seq<char>>
    decreases s.len(),
{
    let k = position_of(s, sep);
    if k < 0 || k >= s.len() {
        seq![s]
    } else {
        seq![s.take(k)] + split_of(s.skip(k + 1), sep)
    }
}

/// The maximal runs of characters in `s` that are not white space.
pub open spec fn words_of(s: Seq<char>) -> Seq<Seq<char>>
    decreases s.len(),
{
    let k = ws_position_of(s);
    if s.len() == 0 {
        Seq::empty()
    } else if is_ws(s[0]) {
        words_of(s.drop_first())
    } else if k <= 0 || k > s.len() {
        Seq::empty()
    } else {
        seq![s.take(k)] + words_of(s.skip(k))
    }
}

/// `p` occurs in `s` from index `i` on.
pub open spec fn occurs_at(s: Seq<char>, p: Seq<char>, i: int) -> bool {
    0 <= i && i + p.len() <= s.len() && s.subrange(i, i + p.len()) == p
}

/// `p` occurs somewhere in `s`.
pub open spec fn occurs_in(s: Seq<char>, p: Seq<char>) -> bool {
    exists|i: int| #[trigger] occurs_at(s, p, i)
}

/// `s` begins with `p`.
pub open spec fn has_prefix(s: Seq<char>, p: Seq<char>) -> bool {
    p.len() <= s.len() && s.take(p.len() as int) == p
}

/// The lower case of an ASCII letter; any other character as it is.
pub open spec fn ascii_lower(c: char) -> char {
    if 'A' <= c <= 'Z' {
        (c as u32 + 32) as char
    } else {
        c
    }
}

/// `s` with its ASCII letters in lower case.
pub open spec fn ascii_lower_of(s: Seq<char>) -> Seq<char> {
    s.map_values(|c: char| ascii_lower(c))
}

/// Concatenation of `parts` with `sep` between neighbours.
pub open spec fn join_of(parts: Seq<Seq<char>>, sep: Seq<char>) -> Seq<char>
    decreases parts.len(),
{
    if parts.len() == 0 {
        Seq::empty()
    } else if parts.len() == 1 {
        parts[0]
    } else {
        join_of(parts.drop_last(), sep) + sep + parts.last()
    }
}

/// Lexicographic order by character.
pub open spec fn text_less(a: Seq<char>, b: Seq<char>) -> bool
    decreases a.len(),
{
    if b.len() == 0 {
        false
    } else if a.len() == 0 {
        true
    } else if a[0] != b[0] {
        a[0] < b[0]
    } else {
        text_less(a.drop_first(), b.drop_first())
    }
}

/// The characters behind a list of character slices.
pub open spec fn pieces(v: Seq<&[char]>) -> Seq<Seq<char>> {
    Seq::new(v.len(), |i: int| v[i]@)
}

/// The characters behind a list of strings.
pub open spec fn texts(v: Seq<String>) -> Seq<Seq<char>> {
    Seq::new(v.len(), |i: int| v[i]@)
}

/// The characters behind an optional string.
pub open spec fn opt_text(o: Option<String>) -> Option<Seq<char>> {
    match o {
        Some(s) => Some(s@),
        None => None,
    }
}

// ---------------------------------------------------------------------------
// Facts
// ---------------------------------------------------------------------------
pub proof fn lemma_position(s: Seq<char>, c: char, k: int)
    requires
        0 <= k <= s.len(),
        forall|j: int| 0 <= j < k ==> s[j] != c,
        k < s.len() ==> s[k] == c,
    ensures
        position_of(s, c) == k,
    decreases k,
{
    if k > 0 {
        lemma_position(s.drop_first(), c, k - 1);
    }
}

pub proof fn lemma_position_bounds(s: Seq<char>, c: char)
    ensures
        0 <= position_of(s, c) <= s.len(),
        forall|j: int| 0 <= j < position_of(s, c) ==> s[j] != c,
        position_of(s, c) < s.len() ==> s[position_of(s, c)] == c,
        s.contains(c) <==> position_of(s, c) < s.len(),
    decreases s.len(),
{
    if s.len() > 0 && s[0] != c {
        let t = s.drop_first();
        lemma_position_bounds(t, c);
        assert forall|j: int| 0 <= j < position_of(s, c) implies s[j] != c by {
            if j > 0 {
                assert(t[j - 1] == s[j]);
            }
        }
    }
    if s.contains(c) {
        let i = choose|i: int| 0 <= i < s.len() && s[i] == c;
        assert(i >= position_of(s, c));
    }
}

pub proof fn lemma_last_position(s: Seq<char>, c: char, k: int)
    requires
        -1 <= k < s.len(),
        k >= 0 ==> s[k] == c,
        forall|j: int| k < j < s.len() ==> s[j] != c,
    ensures
        last_position_of(s, c) == k,
    decreases s.len(),
{
    if s.len() > 0 && k < s.len() - 1 {
        assert(s.last() == s[s.len() - 1]);
        lemma_last_position(s.drop_last(), c, k);
    }
}

pub proof fn lemma_ws_position(s: Seq<char>, k: int)
    requires
        0 <= k <= s.len(),
        forall|j: int| 0 <= j < k ==> !is_ws(#[trigger] s[j]),
        k < s.len() ==> is_ws(s[k]),
    ensures
        ws_position_of(s) == k,
    decreases k,
{
    if k > 0 {
        assert(!is_ws(s[0]));
        let t = s.drop_first();
        assert forall|j: int| 0 <= j < k - 1 implies !is_ws(#[trigger] t[j]) by {
            assert(t[j] == s[j + 1]);
        }
        lemma_ws_position(t, k - 1);
    }
}

pub proof fn lemma_trim_start(s: Seq<char>, k: int)
    requires
        0 <= k <= s.len(),
        forall|j: int| 0 <= j < k ==> is_ws(#[trigger] s[j]),
        k < s.len() ==> !is_ws(s[k]),
    ensures
        trim_start_of(s) == s.skip(k),
    decreases k,
{
    if k > 0 {
        assert(is_ws(s[0]));
        let t = s.drop_first();
        assert forall|j: int| 0 <= j < k - 1 implies is_ws(#[trigger] t[j]) by {
            assert(t[j] == s[j + 1]);
        }
        lemma_trim_start(t, k - 1);
        assert(t.skip(k - 1) == s.skip(k));
    } else {
        assert(s.skip(0) == s);
    }
}

pub proof fn lemma_trim_end(s: Seq<char>, k: int)
    requires
        0 <= k <= s.len(),
        forall|j: int| k <= j < s.len() ==> is_ws(#[trigger] s[j]),
        k > 0 ==> !is_ws(s[k - 1]),
    ensures
        trim_end_of(s) == s.take(k),
    decreases s.len() - k,
{
    if k < s.len() {
        assert(is_ws(s[s.len() - 1]));
        let t = s.drop_last();
        lemma_trim_end(t, k);
        assert(t.take(k) == s.take(k));
    } else {
        assert(s.take(k) == s);
    }
}

pub proof fn lemma_text_less_irreflexive(a: Seq<char>)
    ensures
        !text_less(a, a),
    decreases a.len(),
{
    if a.len() > 0 {
        lemma_text_less_irreflexive(a.drop_first());
    }
}

pub proof fn lemma_text_less_transitive(a: Seq<char>, b: Seq<char>, c: Seq<char>)
    requires
        text_less(a, b),
        text_less(b, c),
    ensures
        text_less(a, c),
    decreases a.len(),
{
    if a.len() > 0 && a[0] == b[0] && b[0] == c[0] {
        lemma_text_less_transitive(a.drop_first(), b.drop_first(), c.drop_first());
    }
}

pub proof fn lemma_text_less_total(a: Seq<char>, b: Seq<char>)
    ensures
        text_less(a, b) || text_less(b, a) || a == b,
    decreases a.len(),
{
    if a.len() > 0 && b.len() > 0 && a[0] == b[0] {
        lemma_text_less_total(a.drop_first(), b.drop_first());
        if a.drop_first() == b.drop_first() {
            assert(a =~= seq![a[0]] + a.drop_first());
            assert(b =~= seq![b[0]] + b.drop_first());
        }
    } else if a.len() == 0 && b.len() == 0 {
        assert(a =~= b);
    }
}

/// Text that neither begins nor ends with white space is its own trimming.
pub proof fn lemma_trim_of_trimmed(s: Seq<char>)
    requires
        s.len() > 0 ==> !is_ws(s[0]) && !is_ws(s.last()),
    ensures
        trim_of(s) == s,
{
}

// ---------------------------------------------------------------------------
// Conversions
// ---------------------------------------------------------------------------
/// The characters of a string.
pub fn chars_of(s: &str) -> (r: Vec<char>)
    ensures
        r@ == s@,
{
    let mut out: Vec<char> = Vec::new();
    for c in it: s.chars()
        invariant
            out@ == it.seq().take(it.index()),
    {
        out.push(c);
    }
    out
}

/// A string made of the given characters.
pub fn string_of(cs: &[char]) -> (r: String)
    ensures
        r@ == cs@,
{
    let mut out = String::new();
    let mut i: usize = 0;
    while i < cs.len()
        invariant
            i <= cs@.len(),
            out@ == cs@.take(i as int),
        decreases cs.len() - i,
    {
        out.push(cs[i]);
        i = i + 1;
    }
    assert(cs@.take(cs@.len() as int) == cs@);
    out
}

/// Whether two character slices hold the same text.
pub fn same_chars(a: &[char], b: &[char]) -> (r: bool)
    ensures
        r == (a@ == b@),
{
    if a.len() != b.len() {
        return false;
    }
    let mut i: usize = 0;
    while i < a.len()
        invariant
            a@.len() == b@.len(),
            i <= a@.len(),
            forall|j: int| 0 <= j < i ==> a@[j] == b@[j],
        decreases a.len() - i,
    {
        if a[i] != b[i] {
            return false;
        }
        i = i + 1;
    }
    assert(a@ =~= b@);
    true
}

/// Whether a character slice holds the text of `s`.
pub fn chars_are(a: &[char], s: &str) -> (r: bool)
    ensures
        r == (a@ == s@),
{
    let b = chars_of(s);
    same_chars(a, &b)
}

/// Whether two strings hold the same text.
pub fn same_text(a: &str, b: &str) -> (r: bool)
    ensures
        r == (a@ == b@),
{
    let x = chars_of(a);
    let y = chars_of(b);
    same_chars(&x, &y)
}

/// Whether two optional strings are both absent, or hold the same text.
pub fn same_opt_text(a: &Option<String>, b: &Option<String>) -> (r: bool)
    ensures
        r == (opt_text(*a) == opt_text(*b)),
{
    match (a, b) {
        (Some(x), Some(y)) => same_text(x.as_str(), y.as_str()),
        (None, None) => true,
        _ => false,
    }
}

/// A copy of an optional string.
pub fn clone_opt(o: &Option<String>) -> (r: Option<String>)
    ensures
        opt_text(r) == opt_text(*o),
{
    match o {
        Some(s) => Some(s.clone()),
        None => None,
    }
}

/// Appends copies of the strings `more`.
pub fn push_all(out: &mut Vec<String>, more: &Vec<String>)
    ensures
        texts(final(out)@) == texts(old(out)@) + texts(more@),
{
    let mut i: usize = 0;
    assert(texts(out@) + texts(more@).take(0) =~= texts(out@));
    while i < more.len()
        invariant
            i <= more@.len(),
            texts(out@) == texts(old(out)@) + texts(more@).take(i as int),
        decreases more.len() - i,
    {
        let ghost before = out@;
        out.push(more[i].clone());
        proof {
            assert(texts(out@) =~= texts(before).push(more@[i as int]@));
            assert(texts(more@).take(i + 1) =~= texts(more@).take(i as int).push(
                more@[i as int]@,
            ));
        }
        i = i + 1;
    }
    assert(texts(more@).take(more@.len() as int) =~= texts(more@));
}

/// Copies of the strings.
pub fn clone_texts(v: &Vec<String>) -> (r: Vec<String>)
    ensures
        texts(r@) == texts(v@),
{
    let mut out: Vec<String> = Vec::new();
    let mut i: usize = 0;
    while i < v.len()
        invariant
            i <= v@.len(),
            out@.len() == i,
            forall|j: int| 0 <= j < i ==> (#[trigger] out@[j])@ == v@[j]@,
        decreases v.len() - i,
    {
        out.push(v[i].clone());
        i = i + 1;
    }
    assert(texts(out@) =~= texts(v@));
    out
}

// ---------------------------------------------------------------------------
// Trimming and searching
// ---------------------------------------------------------------------------
/// Whether `c` is white space.
pub fn is_space(c: char) -> (r: bool)
    ensures
        r == is_ws(c),
{
    ('\u{9}' <= c && c <= '\u{d}') || c == '\u{20}' || c == '\u{85}' || c == '\u{a0}' || c
        == '\u{1680}' || ('\u{2000}' <= c && c <= '\u{200a}') || c == '\u{2028}' || c == '\u{2029}'
        || c == '\u{202f}' || c == '\u{205f}' || c == '\u{3000}'
}

pub fn trim_start<'a>(s: &'a [char]) -> (r: &'a [char])
    ensures
        r@ == trim_start_of(s@),
{
    let mut i: usize = 0;
    while i < s.len() && is_space(s[i])
        invariant
            i <= s@.len(),
            forall|j: int| 0 <= j < i ==> is_ws(#[trigger] s@[j]),
        decreases s.len() - i,
    {
        i = i + 1;
    }
    proof {
        lemma_trim_start(s@, i as int);
        assert(s@.subrange(i as int, s@.len() as int) == s@.skip(i as int));
    }
    &s[i..s.len()]
}

pub fn trim_end<'a>(s: &'a [char]) -> (r: &'a [char])
    ensures
        r@ == trim_end_of(s@),
{
    let mut i: usize = s.len();
    while i > 0 && is_space(s[i - 1])
        invariant
            i <= s@.len(),
            forall|j: int| i <= j < s@.len() ==> is_ws(#[trigger] s@[j]),
        decreases i,
    {
        i = i - 1;
    }
    proof {
        lemma_trim_end(s@, i as int);
        assert(s@.subrange(0, i as int) == s@.take(i as int));
    }
    &s[0..i]
}

pub fn trim<'a>(s: &'a [char]) -> (r: &'a [char])
    ensures
        r@ == trim_of(s@),
{
    trim_end(trim_start(s))
}

/// The index of the first `c`; the length of `s` when there is none.
pub fn position(s: &[char], c: char) -> (r: usize)
    ensures
        r == position_of(s@, c),
        r <= s@.len(),
        r < s@.len() ==> s@[r as int] == c,
        s@.contains(c) <==> r < s@.len(),
{
    let mut i: usize = 0;
    while i < s.len() && s[i] != c
        invariant
            i <= s@.len(),
            forall|j: int| 0 <= j < i ==> s@[j] != c,
        decreases s.len() - i,
    {
        i = i + 1;
    }
    proof {
        lemma_position(s@, c, i as int);
        lemma_position_bounds(s@, c);
    }
    i
}

/// The index of the last `c`, if there is one.
pub fn last_position(s: &[char], c: char) -> (r: Option<usize>)
    ensures
        match r {
            Some(i) => i == last_position_of(s@, c) && i < s@.len() && s@[i as int] == c,
            None => last_position_of(s@, c) == -1,
        },
{
    let mut i: usize = s.len();
    while i > 0
        invariant
            i <= s@.len(),
            forall|j: int| i <= j < s@.len() ==> s@[j] != c,
        decreases i,
    {
        i = i - 1;
        if s[i] == c {
            proof {
                lemma_last_position(s@, c, i as int);
            }
            return Some(i);
        }
    }
    proof {
        lemma_last_position(s@, c, -1);
    }
    None
}

pub fn contains_char(s: &[char], c: char) -> (r: bool)
    ensures
        r == s@.contains(c),
{
    position(s, c) < s.len()
}

/// Whether `p` occurs in `s` from index `i` on.
pub fn matches_at(s: &[char], p: &[char], i: usize) -> (r: bool)
    requires
        i <= s@.len(),
    ensures
        r == occurs_at(s@, p@, i as int),
{
    if p.len() > s.len() - i {
        return false;
    }
    proof {
        assert(i + p@.len() <= s@.len());
    }
    let sub = &s[i..i + p.len()];
    same_chars(sub, p)
}

/// Whether `p` occurs in `s`.
pub fn contains_text(s: &[char], p: &str) -> (r: bool)
    ensures
        r == occurs_in(s@, p@),
{
    let q = chars_of(p);
    let mut i: usize = 0;
    loop
        invariant
            q@ == p@,
            i <= s@.len(),
            forall|j: int| 0 <= j < i ==> !#[trigger] occurs_at(s@, p@, j),
        decreases s.len() - i,
    {
        if matches_at(s, &q, i) {
            assert(occurs_at(s@, p@, i as int));
            return true;
        }
        if i == s.len() {
            assert forall|j: int| !#[trigger] occurs_at(s@, p@, j) by {}
            return false;
        }
        i = i + 1;
    }
}

pub fn starts_with(s: &[char], p: &str) -> (r: bool)
    ensures
        r == has_prefix(s@, p@),
{
    let q = chars_of(p);
    let r = matches_at(s, &q, 0);
    assert(q@.len() <= s@.len() ==> s@.subrange(0, q@.len() as int) == s@.take(q@.len() as int));
    r
}

/// What follows the prefix `p`, if `s` begins with it.
pub fn strip_prefix<'a>(s: &'a [char], p: &str) -> (r: Option<&'a [char]>)
    ensures
        match r {
            Some(t) => has_prefix(s@, p@) && t@ == s@.skip(p@.len() as int),
            None => !has_prefix(s@, p@),
        },
{
    let q = chars_of(p);
    if starts_with(s, p) {
        proof {
            assert(s@.subrange(q@.len() as int, s@.len() as int) == s@.skip(q@.len() as int));
        }
        Some(&s[q.len()..s.len()])
    } else {
        None
    }
}

// ---------------------------------------------------------------------------
// Splitting
// ---------------------------------------------------------------------------
proof fn lemma_lines_step(s: Seq<char>, start: int, k: int)
    requires
        0 <= start <= k < s.len(),
        s[k] == '\n',
        forall|j: int| start <= j < k ==> s[j] != '\n',
    ensures
        lines_of(s.skip(start)) == seq![without_cr(s.subrange(start, k))] + lines_of(s.skip(k + 1)),
{
    let t = s.skip(start);
    lemma_position(t, '\n', k - start);
    assert(t.take(k - start) == s.subrange(start, k));
    assert(t.skip(k - start + 1) == s.skip(k + 1));
}

/// The lines of `s`.
pub fn lines<'a>(s: &'a [char]) -> (r: Vec<&'a [char]>)
    ensures
        pieces(r@) == lines_of(s@),
{
    let mut out: Vec<&'a [char]> = Vec::new();
    let mut start: usize = 0;
    let mut k: usize = 0;
    assert(s@.skip(0) == s@);
    assert(pieces(out@) + lines_of(s@) == lines_of(s@));
    while k < s.len()
        invariant
            start <= k <= s@.len(),
            forall|j: int| start <= j < k ==> s@[j] != '\n',
            pieces(out@) + lines_of(s@.skip(start as int)) == lines_of(s@),
        decreases s.len() - k,
    {
        if s[k] == '\n' {
            let end: usize = if k > start && s[k - 1] == '\r' {
                k - 1
            } else {
                k
            };
            let piece = &s[start..end];
            let ghost before = out@;
            out.push(piece);
            proof {
                lemma_lines_step(s@, start as int, k as int);
                let full = s@.subrange(start as int, k as int);
                assert(piece@ == without_cr(full)) by {
                    if full.len() > 0 {
                        assert(full.last() == s@[k - 1]);
                        assert(full.drop_last() == s@.subrange(start as int, k - 1));
                    }
                }
                assert(pieces(out@) == pieces(before) + seq![piece@]);
                assert(pieces(out@) + lines_of(s@.skip(k + 1)) == pieces(before) + (seq![piece@]
                    + lines_of(s@.skip(k + 1))));
            }
            start = k + 1;
        }
        k = k + 1;
    }
    if start < s.len() {
        let piece = &s[start..s.len()];
        let ghost before = out@;
        out.push(piece);
        proof {
            let t = s@.skip(start as int);
            assert(piece@ == t);
            assert forall|j: int| 0 <= j < t.len() implies t[j] != '\n' by {
                assert(t[j] == s@[start + j]);
            }
            lemma_position(t, '\n', t.len() as int);
            assert(pieces(out@) == pieces(before) + seq![piece@]);
        }
    } else {
        proof {
            assert(s@.skip(start as int) == Seq::<char>::empty());
            assert(lines_of(Seq::<char>::empty()) == Seq::<Seq<char>>::empty());
            assert(pieces(out@) + Seq::<Seq<char>>::empty() == pieces(out@));
        }
    }
    out
}

proof fn lemma_split_step(s: Seq<char>, sep: char, start: int, k: int)
    requires
        0 <= start <= k < s.len(),
        s[k] == sep,
        forall|j: int| start <= j < k ==> s[j] != sep,
    ensures
        split_of(s.skip(start), sep) == seq![s.subrange(start, k)] + split_of(s.skip(k + 1), sep),
{
    let t = s.skip(start);
    lemma_position(t, sep, k - start);
    assert(t.take(k - start) == s.subrange(start, k));
    assert(t.skip(k - start + 1) == s.skip(k + 1));
}

/// The pieces of `s` between the separators.
pub fn split<'a>(s: &'a [char], sep: char) -> (r: Vec<&'a [char]>)
    ensures
        pieces(r@) == split_of(s@, sep),
{
    let mut out: Vec<&'a [char]> = Vec::new();
    let mut start: usize = 0;
    let mut k: usize = 0;
    assert(s@.skip(0) == s@);
    assert(pieces(out@) + split_of(s@, sep) == split_of(s@, sep));
    while k < s.len()
        invariant
            start <= k <= s@.len(),
            forall|j: int| start <= j < k ==> s@[j] != sep,
            pieces(out@) + split_of(s@.skip(start as int), sep) == split_of(s@, sep),
        decreases s.len() - k,
    {
        if s[k] == sep {
            let piece = &s[start..k];
            let ghost before = out@;
            out.push(piece);
            proof {
                lemma_split_step(s@, sep, start as int, k as int);
                assert(pieces(out@) == pieces(before) + seq![piece@]);
                assert(pieces(out@) + split_of(s@.skip(k + 1), sep) == pieces(before) + (
                seq![piece@] + split_of(s@.skip(k + 1), sep)));
            }
            start = k + 1;
        }
        k = k + 1;
    }
    let piece = &s[start..s.len()];
    let ghost before = out@;
    out.push(piece);
    proof {
        let t = s@.skip(start as int);
        assert(piece@ == t);
        assert forall|j: int| 0 <= j < t.len() implies t[j] != sep by {
            assert(t[j] == s@[start + j]);
        }
        lemma_position(t, sep, t.len() as int);
        assert(pieces(out@) == pieces(before) + seq![piece@]);
    }
    out
}

/// The words of `s`.
pub fn words<'a>(s: &'a [char]) -> (r: Vec<&'a [char]>)
    ensures
        pieces(r@) == words_of(s@),
{
    let mut out: Vec<&'a [char]> = Vec::new();
    let mut k: usize = 0;
    assert(s@.skip(0) == s@);
    assert(pieces(out@) + words_of(s@) == words_of(s@));
    while k < s.len()
        invariant
            k <= s@.len(),
            pieces(out@) + words_of(s@.skip(k as int)) == words_of(s@),
        decreases s.len() - k,
    {
        let ghost t = s@.skip(k as int);
        if is_space(s[k]) {
            assert(t.drop_first() == s@.skip(k + 1));
            k = k + 1;
        } else {
            let start: usize = k;
            while k < s.len() && !is_space(s[k])
                invariant
                    start <= k <= s@.len(),
                    forall|j: int| start <= j < k ==> !is_ws(#[trigger] s@[j]),
                decreases s.len() - k,
            {
                k = k + 1;
            }
            let piece = &s[start..k];
            let ghost before = out@;
            out.push(piece);
            proof {
                assert(t == s@.skip(start as int));
                assert forall|j: int| 0 <= j < k - start implies !is_ws(#[trigger] t[j]) by {
                    assert(t[j] == s@[start + j]);
                }
                lemma_ws_position(t, k - start);
                assert(k > start);
                assert(t.take(k - start) == piece@);
                assert(t.skip(k - start) == s@.skip(k as int));
                assert(pieces(out@) == pieces(before) + seq![piece@]);
                assert(pieces(out@) + words_of(s@.skip(k as int)) == pieces(before) + (seq![piece@]
                    + words_of(s@.skip(k as int))));
            }
        }
    }
    proof {
        assert(s@.skip(k as int) == Seq::<char>::empty());
        assert(words_of(Seq::<char>::empty()) == Seq::<Seq<char>>::empty());
        assert(pieces(out@) + Seq::<Seq<char>>::empty() == pieces(out@));
    }
    out
}

/// The lines, each ended by a line feed.
pub open spec fn unlines(lines: Seq<Seq<char>>) -> Seq<char>
    decreases lines.len(),
{
    if lines.len() == 0 {
        Seq::empty()
    } else {
        lines[0] + seq!['\n'] + unlines(lines.drop_first())
    }
}

/// Text that was written line by line reads back as these lines, as long as
/// none of them holds a line feed or ends in a carriage return.
pub proof fn lines_read_back(lines: Seq<Seq<char>>)
    requires
        forall|i: int|
            0 <= i < lines.len() ==> !(#[trigger] lines[i]).contains('\n') && !(lines[i].len() > 0
                && lines[i].last() == '\r'),
    ensures
        lines_of(unlines(lines)) == lines,
    decreases lines.len(),
{
    if lines.len() == 0 {
        assert(lines_of(unlines(lines)) =~= lines);
    } else {
        let l = lines[0];
        let t = lines.drop_first();
        let s = unlines(lines);
        assert forall|i: int| 0 <= i < t.len() implies !(#[trigger] t[i]).contains('\n') && !(
        t[i].len() > 0 && t[i].last() == '\r') by {
            assert(t[i] == lines[i + 1]);
        }
        lines_read_back(t);
        assert forall|j: int| 0 <= j < l.len() implies s[j] != '\n' by {
            assert(s[j] == l[j]);
            assert(l.contains(l[j]));
        }
        assert(s[l.len() as int] == '\n');
        lemma_position(s, '\n', l.len() as int);
        assert(s.take(l.len() as int) =~= l);
        assert(s.skip(l.len() as int + 1) =~= unlines(t));
        assert(lines_of(s) =~= seq![l] + t);
        assert(seq![l] + t =~= lines);
    }
}

// ---------------------------------------------------------------------------
// Building
// ---------------------------------------------------------------------------
/// `s` with its ASCII letters in lower case.
pub fn to_ascii_lower(s: &[char]) -> (r: Vec<char>)
    ensures
        r@ == ascii_lower_of(s@),
{
    let mut out: Vec<char> = Vec::new();
    let mut i: usize = 0;
    while i < s.len()
        invariant
            i <= s@.len(),
            out@ == ascii_lower_of(s@).take(i as int),
        decreases s.len() - i,
    {
        let c = s[i];
        let d = if 'A' <= c && c <= 'Z' {
            ((c as u8) + 32) as char
        } else {
            c
        };
        out.push(d);
        i = i + 1;
    }
    out
}

/// The strings joined with `sep` between neighbours.
pub fn join(parts: &Vec<String>, sep: &str) -> (r: String)
    ensures
        r@ == join_of(texts(parts@), sep@),
{
    let mut out = String::new();
    let mut i: usize = 0;
    let ghost all = texts(parts@);
    while i < parts.len()
        invariant
            i <= parts@.len(),
            all == texts(parts@),
            out@ == join_of(all.take(i as int), sep@),
        decreases parts.len() - i,
    {
        if i > 0 {
            out.append(sep);
        }
        out.append(parts[i].as_str());
        proof {
            let next = all.take(i + 1);
            assert(next.drop_last() == all.take(i as int));
            assert(next.last() == parts@[i as int]@);
            if i == 0 {
                assert(out@ == next[0]);
            }
        }
        i = i + 1;
    }
    assert(all.take(all.len() as int) == all);
    out
}

/// `a` followed by `b`.
pub fn cat(a: &str, b: &str) -> (r: String)
    ensures
        r@ == a@ + b@,
{
    let mut s = a.to_string();
    s.append(b);
    s
}

/// Whether `a` comes before `b` in lexicographic order.
pub fn is_text_less(a: &[char], b: &[char]) -> (r: bool)
    ensures
        r == text_less(a@, b@),
{
    let mut i: usize = 0;
    assert(a@.skip(0) == a@ && b@.skip(0) == b@);
    while i < a.len() && i < b.len()
        invariant
            i <= a@.len(),
            i <= b@.len(),
            text_less(a@, b@) == text_less(a@.skip(i as int), b@.skip(i as int)),
        decreases a.len() - i,
    {
        if a[i] != b[i] {
            return a[i] < b[i];
        }
        proof {
            assert(a@.skip(i as int).drop_first() == a@.skip(i + 1));
            assert(b@.skip(i as int).drop_first() == b@.skip(i + 1));
        }
        i = i + 1;
    }
    i < b.len()
}

/// Trimming takes the white space around a text away, and nothing else.
pub proof fn trimming_takes_only_white_space(before: Seq<char>, s: Seq<char>, after: Seq<char>)
    requires
        forall|i: int| 0 <= i < before.len() ==> is_ws(#[trigger] before[i]),
        forall|i: int| 0 <= i < after.len() ==> is_ws(#[trigger] after[i]),
        s.len() > 0 ==> !is_ws(s[0]) && !is_ws(s.last()),
    ensures
        trim_of(before + s + after) == s,
{
    let t = before + s + after;
    let b = before.len() as int;
    let n = s.len() as int;
    if n == 0 {
        assert forall|j: int| 0 <= j < t.len() implies is_ws(#[trigger] t[j]) by {
            if j < b {
                assert(t[j] == before[j]);
            } else {
                assert(t[j] == after[j - b]);
            }
        }
        lemma_trim_start(t, t.len() as int);
        assert(t.skip(t.len() as int) =~= s);
    } else {
        assert forall|j: int| 0 <= j < b implies is_ws(#[trigger] t[j]) by {
            assert(t[j] == before[j]);
        }
        assert(t[b] == s[0]);
        lemma_trim_start(t, b);
        let u = t.skip(b);
        assert(u =~= s + after);
        assert forall|j: int| n <= j < u.len() implies is_ws(#[trigger] u[j]) by {
            assert(u[j] == after[j - n]);
        }
        assert(u[n - 1] == s.last());
        lemma_trim_end(u, n);
        assert(u.take(n) =~= s);
    }
}

/// What trimming leaves is a part of the text that neither begins nor ends with
/// white space.
pub proof fn trimming_leaves_a_part(s: Seq<char>)
    ensures
        trim_of(s).len() > 0 ==> !is_ws(trim_of(s)[0]) && !is_ws(trim_of(s).last()),
        exists|i: int, j: int|
            #![trigger s.subrange(i, j)]
            {
                &&& 0 <= i <= j <= s.len()
                &&& trim_of(s) == s.subrange(i, j)
                &&& forall|k: int| 0 <= k < i ==> is_ws(#[trigger] s[k])
                &&& forall|k: int| j <= k < s.len() ==> is_ws(#[trigger] s[k])
            },
{
    let i = lemma_leading_ws(s);
    let t = s.skip(i);
    lemma_trim_start(s, i);
    let j = lemma_trailing_ws(t);
    lemma_trim_end(t, j);
    assert(t.take(j) =~= s.subrange(i, i + j));
    assert forall|k: int| i + j <= k < s.len() implies is_ws(#[trigger] s[k]) by {
        assert(t[k - i] == s[k]);
    }
    let r = trim_of(s);
    if r.len() > 0 {
        assert(r[0] == s[i]);
        assert(r.last() == t[j - 1]);
    }
}

proof fn lemma_leading_ws(s: Seq<char>) -> (k: int)
    ensures
        0 <= k <= s.len(),
        forall|j: int| 0 <= j < k ==> is_ws(#[trigger] s[j]),
        k < s.len() ==> !is_ws(s[k]),
    decreases s.len(),
{
    if s.len() > 0 && is_ws(s[0]) {
        let t = s.drop_first();
        let k = lemma_leading_ws(t);
        assert forall|j: int| 0 <= j < k + 1 implies is_ws(#[trigger] s[j]) by {
            if j > 0 {
                assert(t[j - 1] == s[j]);
            }
        }
        k + 1
    } else {
        0
    }
}

proof fn lemma_trailing_ws(s: Seq<char>) -> (k: int)
    ensures
        0 <= k <= s.len(),
        forall|j: int| k <= j < s.len() ==> is_ws(#[trigger] s[j]),
        k > 0 ==> !is_ws(s[k - 1]),
    decreases s.len(),
{
    if s.len() > 0 && is_ws(s.last()) {
        let t = s.drop_last();
        let k = lemma_trailing_ws(t);
        assert forall|j: int| k <= j < s.len() implies is_ws(#[trigger] s[j]) by {
            if j < t.len() {
                assert(t[j] == s[j]);
            }
        }
        k
    } else {
        s.len() as int
    }
}

/// White space around the first word does not count, and the other words are
/// those of what follows it.
pub proof fn words_are_split_at_white_space(before: Seq<char>, w: Seq<char>, after: Seq<char>)
    requires
        forall|i: int| 0 <= i < before.len() ==> is_ws(#[trigger] before[i]),
        forall|i: int| 0 <= i < w.len() ==> !is_ws(#[trigger] w[i]),
        after.len() > 0 ==> is_ws(after[0]),
        w.len() > 0,
    ensures
        words_of(before + w + after) == seq![w] + words_of(after),
        words_of(before) == Seq::<Seq<char>>::empty(),
    decreases before.len(),
{
    let s = before + w + after;
    if before.len() == 0 {
        let n = w.len() as int;
        assert forall|j: int| 0 <= j < n implies !is_ws(#[trigger] s[j]) by {
            assert(s[j] == w[j]);
        }
        assert(n < s.len() ==> s[n] == after[0]);
        lemma_ws_position(s, n);
        assert(s.take(n) =~= w);
        assert(s.skip(n) =~= after);
        assert(!is_ws(s[0]));
    } else {
        assert(s[0] == before[0]);
        assert(s.drop_first() =~= before.drop_first() + w + after);
        words_are_split_at_white_space(before.drop_first(), w, after);
    }
}

/// Pieces without the separator read back once they are joined with it.
pub proof fn joined_pieces_read_back(parts: Seq<Seq<char>>, sep: char)
    requires
        parts.len() > 0,
        forall|i: int| 0 <= i < parts.len() ==> !(#[trigger] parts[i]).contains(sep),
    ensures
        split_of(join_of(parts, seq![sep]), sep) == parts,
    decreases parts.len(),
{
    let p = parts[0];
    let n = p.len() as int;
    lemma_position_bounds(p, sep);
    if parts.len() == 1 {
        assert(parts =~= seq![p]);
    } else {
        let t = parts.drop_first();
        lemma_join_first(parts, seq![sep]);
        let s = join_of(parts, seq![sep]);
        assert(s =~= p + seq![sep] + join_of(t, seq![sep]));
        assert forall|j: int| 0 <= j < n implies s[j] != sep by {
            assert(s[j] == p[j]);
        }
        lemma_position(s, sep, n);
        assert(s.take(n) =~= p);
        assert(s.skip(n + 1) =~= join_of(t, seq![sep]));
        joined_pieces_read_back(t, sep);
        assert(seq![p] + t =~= parts);
    }
}

/// Joining puts the first part and the separator before the other parts joined.
pub proof fn lemma_join_first(parts: Seq<Seq<char>>, sep: Seq<char>)
    requires
        parts.len() > 1,
    ensures
        join_of(parts, sep) == parts[0] + sep + join_of(parts.drop_first(), sep),
    decreases parts.len(),
{
    let t = parts.drop_first();
    let u = parts.drop_last();
    if parts.len() == 2 {
        assert(u.len() == 1);
        assert(join_of(u, sep) == parts[0]);
        assert(join_of(t, sep) == parts[1]);
    } else {
        lemma_join_first(u, sep);
        assert(u.drop_first() =~= t.drop_last());
        assert(join_of(parts, sep) =~= parts[0] + sep + join_of(t, sep));
    }
}

/// A text begins with another exactly if it is that text with something after
/// it, and holds another exactly if that stands between two others.
pub proof fn beginning_with_and_holding(s: Seq<char>, p: Seq<char>)
    ensures
        has_prefix(s, p) <==> exists|rest: Seq<char>| s == #[trigger] (p + rest),
        occurs_in(s, p) <==> exists|a: Seq<char>, b: Seq<char>| s == #[trigger] (a + p + b),
{
    if has_prefix(s, p) {
        assert(s =~= p + s.skip(p.len() as int));
    }
    if exists|rest: Seq<char>| s == #[trigger] (p + rest) {
        let rest = choose|rest: Seq<char>| s == #[trigger] (p + rest);
        assert(s.take(p.len() as int) =~= p);
    }
    if occurs_in(s, p) {
        let i = choose|i: int| #[trigger] occurs_at(s, p, i);
        assert(s =~= s.take(i) + p + s.skip(i + p.len()));
    }
    if exists|a: Seq<char>, b: Seq<char>| s == #[trigger] (a + p + b) {
        let (a, b) = choose|a: Seq<char>, b: Seq<char>| s == #[trigger] (a + p + b);
        assert(s.subrange(a.len() as int, a.len() as int + p.len()) =~= p);
        assert(occurs_at(s, p, a.len() as int));
    }
}

/// Lower case changes the letters from `A` to `Z` into those from `a` to `z`,
/// and nothing else.
pub proof fn lower_case_changes_only_letters(s: Seq<char>, i: int)
    requires
        0 <= i < s.len(),
    ensures
        ascii_lower_of(s).len() == s.len(),
        s[i] < 'A' || s[i] > 'Z' ==> ascii_lower_of(s)[i] == s[i],
        'A' <= s[i] <= 'Z' ==> ascii_lower_of(s)[i] as u32 - 'a' as u32 == s[i] as u32 - 'A' as u32,
{
}

/// What a contract says of a list of strings, it says of each of them.
pub proof fn texts_are_those_of_the_strings(v: Seq<String>, o: Option<String>, i: int)
    ensures
        texts(v).len() == v.len(),
        0 <= i < v.len() ==> texts(v)[i] == v[i]@,
        o is Some <==> opt_text(o) is Some,
        o is Some ==> opt_text(o)->0 == o->0@,
{
}

/// A text comes before another exactly if it is a proper beginning of it, or is
/// smaller in the first character in which they differ.
pub proof fn texts_are_ordered_by_the_first_difference(a: Seq<char>, b: Seq<char>, k: int)
    requires
        0 <= k <= a.len(),
        k <= b.len(),
        forall|i: int| 0 <= i < k ==> a[i] == b[i],
    ensures
        k == a.len() && k < b.len() ==> text_less(a, b) && !text_less(b, a),
        k < a.len() && k < b.len() && a[k] < b[k] ==> text_less(a, b) && !text_less(b, a),
        k == a.len() && k == b.len() ==> !text_less(a, b),
    decreases k,
{
    if k > 0 {
        assert(a[0] == b[0]);
        let s = a.drop_first();
        let t = b.drop_first();
        assert forall|i: int| 0 <= i < k - 1 implies s[i] == t[i] by {
            assert(s[i] == a[i + 1] && t[i] == b[i + 1]);
        }
        texts_are_ordered_by_the_first_difference(s, t, k - 1);
    }
}

/// A line ends at a line feed, or at a carriage return and a line feed, neither
/// of which belongs to it; what follows the last line feed is a line as it is,
/// unless it is empty.
pub proof fn lines_end_at_line_feeds(l: Seq<char>, rest: Seq<char>)
    requires
        !l.contains('\n'),
    ensures
        lines_of(l + seq!['\r', '\n'] + rest) == seq![l] + lines_of(rest),
        !(l.len() > 0 && l.last() == '\r') ==> lines_of(l + seq!['\n'] + rest) == seq![l]
            + lines_of(rest),
        l.len() > 0 ==> lines_of(l) == seq![l],
        lines_of(Seq::empty()) == Seq::<Seq<char>>::empty(),
{
    let n = l.len() as int;
    lemma_position_bounds(l, '\n');
    let a = l + seq!['\r', '\n'] + rest;
    assert forall|j: int| 0 <= j < n + 1 implies a[j] != '\n' by {
        if j < n {
            assert(a[j] == l[j]);
        }
    }
    assert(a[n + 1] == '\n');
    lemma_position(a, '\n', n + 1);
    assert(a.take(n + 1).last() == '\r');
    assert(a.take(n + 1).drop_last() =~= l);
    assert(a.skip(n + 2) =~= rest);
    let b = l + seq!['\n'] + rest;
    assert forall|j: int| 0 <= j < n implies b[j] != '\n' by {
        assert(b[j] == l[j]);
    }
    assert(b[n] == '\n');
    lemma_position(b, '\n', n);
    assert(b.take(n) =~= l);
    assert(b.skip(n + 1) =~= rest);
}

} // verus!
