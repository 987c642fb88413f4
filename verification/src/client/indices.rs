//! Index specifications such as `1,3-5`.

use vstd::prelude::*;

use crate::number;
use crate::text;

verus! {

// ---------------------------------------------------------------------------
// Meaning
// ---------------------------------------------------------------------------
/// The parts between commas, trimmed, without the empty ones.
pub open spec fn parts_of(pieces: Seq<Seq<char>>) -> Seq<Seq<char>>
    decreases pieces.len(),
{
    if pieces.len() == 0 {
        Seq::empty()
    } else {
        let t = text::trim_of(pieces.last());
        if t.len() == 0 {
            parts_of(pieces.drop_last())
        } else {
            parts_of(pieces.drop_last()).push(t)
        }
    }
}

/// The smaller and the larger of two numbers.
pub open spec fn ordered(a: int, b: int) -> (int, int) {
    if a <= b {
        (a, b)
    } else {
        (b, a)
    }
}

/// The numbers from the first to the second that a part stands for, or what is
/// wrong with it. A part is a number, or two numbers around a hyphen in either
/// order; none of them is zero.
pub open spec fn range_of(part: Seq<char>) -> Result<(int, int), Seq<char>> {
    let k = text::position_of(part, '-');
    if k < part.len() {
        let a = number::number_of(text::trim_of(part.take(k)), 10, usize::MAX as int);
        let b = number::number_of(text::trim_of(part.skip(k + 1)), 10, usize::MAX as int);
        match (a, b) {
            (Some(x), Some(y)) => if x == 0 || y == 0 {
                Err("indices start at 1: "@ + part)
            } else {
                Ok(ordered(x, y))
            },
            _ => Err("invalid range: "@ + part),
        }
    } else {
        match number::number_of(part, 10, usize::MAX as int) {
            Some(x) => if x == 0 {
                Err("indices start at 1: "@ + part)
            } else {
                Ok((x, x))
            },
            None => Err("invalid number: "@ + part),
        }
    }
}

/// What is wrong with the first part that is wrong.
pub open spec fn first_error(parts: Seq<Seq<char>>) -> Option<Seq<char>>
    decreases parts.len(),
{
    if parts.len() == 0 {
        None
    } else {
        match range_of(parts[0]) {
            Err(e) => Some(e),
            Ok(_) => first_error(parts.drop_first()),
        }
    }
}

/// `n` lies in the range that `part` stands for.
pub open spec fn in_part(part: Seq<char>, n: int) -> bool {
    range_of(part) matches Ok((lo, hi)) && lo <= n <= hi
}

/// Some part stands for a range that holds `n`.
pub open spec fn in_some_part(parts: Seq<Seq<char>>, n: int) -> bool {
    exists|i: int| 0 <= i < parts.len() && in_part(#[trigger] parts[i], n)
}

/// The parts of an index specification.
pub open spec fn spec_parts(spec_text: Seq<char>) -> Seq<Seq<char>> {
    parts_of(text::split_of(spec_text, ','))
}

/// Each number is larger than the one before it.
pub open spec fn increasing(v: Seq<usize>) -> bool {
    forall|i: int, j: int| 0 <= i < j < v.len() ==> #[trigger] v[i] < #[trigger] v[j]
}

/// `v` lists, in increasing order, the numbers that the parts stand for.
pub open spec fn lists(v: Seq<usize>, parts: Seq<Seq<char>>) -> bool {
    &&& increasing(v)
    &&& forall|n: usize| #[trigger] v.contains(n) <==> in_some_part(parts, n as int)
}

/// The numbers that the parts stand for, each once and in increasing order.
pub open spec fn numbers_of(parts: Seq<Seq<char>>) -> Seq<usize> {
    choose|v: Seq<usize>| lists(v, parts)
}

/// At most one increasing sequence holds given numbers.
pub proof fn increasing_is_determined(a: Seq<usize>, b: Seq<usize>)
    requires
        increasing(a),
        increasing(b),
        forall|n: usize| a.contains(n) <==> b.contains(n),
    ensures
        a == b,
    decreases a.len(),
{
    if a.len() == 0 {
        if b.len() > 0 {
            assert(b.contains(b[0]));
            assert(a.contains(b[0]));
        }
        assert(a =~= b);
    } else {
        assert(a.contains(a.last()));
        assert(b.contains(a.last()));
        assert(b.len() > 0);
        assert(b.contains(b.last()));
        assert(a.contains(b.last()));
        let i = choose|i: int| 0 <= i < a.len() && a[i] == b.last();
        let j = choose|j: int| 0 <= j < b.len() && b[j] == a.last();
        assert(b.last() <= a.last()) by {
            if i < a.len() - 1 {
                assert(a[i] < a[a.len() - 1]);
            }
        }
        assert(a.last() <= b.last()) by {
            if j < b.len() - 1 {
                assert(b[j] < b[b.len() - 1]);
            }
        }
        let s = a.drop_last();
        let t = b.drop_last();
        assert forall|n: usize| s.contains(n) <==> t.contains(n) by {
            if s.contains(n) {
                let k = choose|k: int| 0 <= k < s.len() && s[k] == n;
                assert(a[k] == n);
                assert(a[k] < a[a.len() - 1]);
                assert(a.contains(n));
                assert(b.contains(n));
                let m = choose|m: int| 0 <= m < b.len() && b[m] == n;
                assert(m < b.len() - 1);
                assert(t[m] == n);
            }
            if t.contains(n) {
                let k = choose|k: int| 0 <= k < t.len() && t[k] == n;
                assert(b[k] == n);
                assert(b[k] < b[b.len() - 1]);
                assert(b.contains(n));
                assert(a.contains(n));
                let m = choose|m: int| 0 <= m < a.len() && a[m] == n;
                assert(m < a.len() - 1);
                assert(s[m] == n);
            }
        }
        increasing_is_determined(s, t);
        assert(a =~= s.push(a.last()));
        assert(b =~= t.push(b.last()));
    }
}

// ---------------------------------------------------------------------------
// Computation
// ---------------------------------------------------------------------------
/// The parts between commas, trimmed, without the empty ones.
fn nonempty_parts<'a>(pieces: &Vec<&'a [char]>) -> (r: Vec<&'a [char]>)
    ensures
        text::pieces(r@) == parts_of(text::pieces(pieces@)),
{
    let ghost all = text::pieces(pieces@);
    let mut out: Vec<&'a [char]> = Vec::new();
    let mut i: usize = 0;
    assert(all.take(0) =~= Seq::<Seq<char>>::empty());
    assert(text::pieces(out@) =~= Seq::<Seq<char>>::empty());
    while i < pieces.len()
        invariant
            i <= pieces@.len(),
            all == text::pieces(pieces@),
            text::pieces(out@) == parts_of(all.take(i as int)),
        decreases pieces.len() - i,
    {
        proof {
            let t = all.take(i + 1);
            assert(t.drop_last() =~= all.take(i as int));
            assert(t.last() == pieces@[i as int]@);
        }
        let t = text::trim(pieces[i]);
        if t.len() > 0 {
            let ghost before = out@;
            out.push(t);
            assert(text::pieces(out@) =~= text::pieces(before).push(t@));
        }
        i = i + 1;
    }
    assert(all.take(all.len() as int) =~= all);
    out
}

fn error_text(what: &str, part: &[char]) -> (r: String)
    ensures
        r@ == what@ + part@,
{
    text::cat(what, text::string_of(part).as_str())
}

fn parse_index(s: &[char]) -> (r: Option<usize>)
    ensures
        match r {
            Some(n) => number::number_of(s@, 10, usize::MAX as int) == Some(n as int),
            None => number::number_of(s@, 10, usize::MAX as int) is None,
        },
{
    match number::parse_number(s, 10, usize::MAX as u64) {
        Some(n) => Some(n as usize),
        None => None,
    }
}

fn parse_part(part: &[char]) -> (r: Result<(usize, usize), String>)
    ensures
        match r {
            Ok((lo, hi)) => range_of(part@) == Ok::<(int, int), Seq<char>>((lo as int, hi as int))
                && 1 <= lo <= hi,
            Err(e) => range_of(part@) == Err::<(int, int), Seq<char>>(e@),
        },
{
    let k = text::position(part, '-');
    if k < part.len() {
        let head = &part[0..k];
        let tail = &part[k + 1..part.len()];
        proof {
            assert(part@.subrange(0, k as int) =~= part@.take(k as int));
            assert(part@.subrange(k + 1, part@.len() as int) =~= part@.skip(k + 1));
        }
        let a = parse_index(text::trim(head));
        let b = parse_index(text::trim(tail));
        match (a, b) {
            (Some(x), Some(y)) => {
                if x == 0 || y == 0 {
                    Err(error_text("indices start at 1: ", part))
                } else if x <= y {
                    Ok((x, y))
                } else {
                    Ok((y, x))
                }
            },
            _ => Err(error_text("invalid range: ", part)),
        }
    } else {
        match parse_index(part) {
            Some(x) => {
                if x == 0 {
                    Err(error_text("indices start at 1: ", part))
                } else {
                    Ok((x, x))
                }
            },
            None => Err(error_text("invalid number: ", part)),
        }
    }
}

/// The numbers of `v` and those from `lo` to `hi`, in increasing order.
fn with_range(v: &Vec<usize>, lo: usize, hi: usize) -> (r: Vec<usize>)
    requires
        increasing(v@),
        lo <= hi,
    ensures
        increasing(r@),
        forall|n: usize| #[trigger] r@.contains(n) <==> v@.contains(n) || lo <= n <= hi,
{
    let mut out: Vec<usize> = Vec::new();
    let mut i: usize = 0;
    while i < v.len() && v[i] < lo
        invariant
            i <= v@.len(),
            increasing(v@),
            out@ == v@.take(i as int),
            forall|j: int| 0 <= j < i ==> v@[j] < lo,
        decreases v.len() - i,
    {
        out.push(v[i]);
        i = i + 1;
    }
    let ghost low = i as int;
    let mut n: usize = lo;
    while n < hi
        invariant
            lo <= n <= hi,
            0 <= low <= v@.len(),
            increasing(v@),
            forall|j: int| 0 <= j < low ==> v@[j] < lo,
            out@.len() == low + (n - lo),
            forall|j: int| 0 <= j < low ==> out@[j] == v@[j],
            forall|j: int| low <= j < out@.len() ==> out@[j] == lo + (j - low),
        decreases hi - n,
    {
        out.push(n);
        n = n + 1;
    }
    out.push(hi);
    while i < v.len() && v[i] <= hi
        invariant
            low <= i <= v@.len(),
            increasing(v@),
            forall|j: int| low <= j < i ==> v@[j] <= hi,
        decreases v.len() - i,
    {
        i = i + 1;
    }
    let ghost high = i as int;
    let ghost mid = out@.len() as int;
    proof {
        assert(low < v@.len() ==> v@[low] >= lo);
        assert forall|j: int| low <= j < high implies lo <= #[trigger] v@[j] <= hi by {
            if j > low {
                assert(v@[low] < v@[j]);
            }
        }
        assert forall|j: int| high <= j < v@.len() implies v@[j] > hi by {
            if j > high {
                assert(v@[high] < v@[j]);
            }
        }
    }
    while i < v.len()
        invariant
            0 <= low <= high <= i <= v@.len(),
            lo <= hi,
            increasing(v@),
            mid == low + (hi - lo) + 1,
            out@.len() == mid + (i - high),
            forall|j: int| 0 <= j < low ==> v@[j] < lo,
            forall|j: int| low <= j < high ==> lo <= #[trigger] v@[j] <= hi,
            forall|j: int| high <= j < v@.len() ==> v@[j] > hi,
            forall|j: int| 0 <= j < low ==> out@[j] == v@[j],
            forall|j: int| low <= j < mid ==> out@[j] == lo + (j - low),
            forall|j: int| mid <= j < out@.len() ==> #[trigger] out@[j] == v@[high + (j - mid)],
        decreases v.len() - i,
    {
        out.push(v[i]);
        i = i + 1;
    }
    proof {
        assert forall|p: int, q: int| 0 <= p < q < out@.len() implies #[trigger] out@[p]
            < #[trigger] out@[q] by {
            if q < low {
                assert(v@[p] < v@[q]);
            } else if p >= mid {
                assert(v@[high + (p - mid)] < v@[high + (q - mid)]);
            }
        }
        assert forall|x: usize| #[trigger]
            out@.contains(x) <==> v@.contains(x) || lo <= x <= hi by {
            if out@.contains(x) {
                let k = choose|k: int| 0 <= k < out@.len() && out@[k] == x;
                if k < low {
                    assert(v@[k] == x);
                } else if k >= mid {
                    assert(v@[high + (k - mid)] == x);
                }
            }
            if v@.contains(x) {
                let k = choose|k: int| 0 <= k < v@.len() && v@[k] == x;
                if k < low {
                    assert(out@[k] == x);
                } else if k >= high {
                    assert(out@[mid + (k - high)] == x);
                }
            }
            if lo <= x <= hi {
                assert(out@[low + (x - lo)] == x);
            }
        }
    }
    out
}

/// The indices that a specification stands for, each once and in increasing
/// order, or what is wrong with its first wrong part.
pub fn parse_index_spec(spec_text: &str) -> (r: Result<Vec<usize>, String>)
    ensures
        match r {
            Ok(v) => {
                &&& first_error(spec_parts(spec_text@)) is None
                &&& lists(v@, spec_parts(spec_text@))
                &&& v@ == numbers_of(spec_parts(spec_text@))
            },
            Err(e) => first_error(spec_parts(spec_text@)) == Some(e@),
        },
{
    let cs = text::chars_of(spec_text);
    let pieces = text::split(&cs, ',');
    let parts = nonempty_parts(&pieces);
    let ghost ps = spec_parts(spec_text@);
    assert(text::pieces(parts@) == ps);
    let mut out: Vec<usize> = Vec::new();
    let mut i: usize = 0;
    assert(ps.skip(0) =~= ps);
    while i < parts.len()
        invariant
            i <= parts@.len(),
            ps == spec_parts(spec_text@),
            text::pieces(parts@) == ps,
            first_error(ps) == first_error(ps.skip(i as int)),
            increasing(out@),
            forall|n: usize| #[trigger]
                out@.contains(n) <==> in_some_part(ps.take(i as int), n as int),
        decreases parts.len() - i,
    {
        proof {
            assert(ps[i as int] == parts@[i as int]@);
            assert(ps.skip(i as int)[0] == ps[i as int]);
            assert(ps.skip(i as int).drop_first() =~= ps.skip(i + 1));
        }
        match parse_part(parts[i]) {
            Err(e) => {
                return Err(e);
            },
            Ok((lo, hi)) => {
                let ghost before = out@;
                let next = with_range(&out, lo, hi);
                proof {
                    let t = ps.take(i as int);
                    let u = ps.take(i + 1);
                    assert forall|n: usize| #[trigger]
                        next@.contains(n) <==> in_some_part(u, n as int) by {
                        assert(before.contains(n) <==> in_some_part(t, n as int));
                        if in_some_part(t, n as int) {
                            let k = choose|k: int|
                                0 <= k < t.len() && in_part(#[trigger] t[k], n as int);
                            assert(u[k] == t[k]);
                        }
                        if lo <= n <= hi {
                            assert(u[i as int] == ps[i as int]);
                            assert(in_part(u[i as int], n as int));
                        }
                        if in_some_part(u, n as int) {
                            let k = choose|k: int|
                                0 <= k < u.len() && in_part(#[trigger] u[k], n as int);
                            if k < i {
                                assert(t[k] == u[k]);
                            }
                        }
                    }
                }
                out = next;
            },
        }
        i = i + 1;
    }
    proof {
        assert(ps.take(ps.len() as int) =~= ps);
        assert(ps.skip(ps.len() as int) =~= Seq::<Seq<char>>::empty());
        assert(lists(out@, ps));
        increasing_is_determined(out@, numbers_of(ps));
    }
    Ok(out)
}

/// No specification stands for the index zero.
pub proof fn zero_is_never_meant(spec_text: Seq<char>)
    ensures
        !in_some_part(spec_parts(spec_text), 0),
{
    let ps = spec_parts(spec_text);
    assert forall|i: int| 0 <= i < ps.len() implies !in_part(#[trigger] ps[i], 0) by {
        lemma_range_is_positive(ps[i]);
    }
}

proof fn lemma_number_is_natural(s: Seq<char>, max: int)
    ensures
        number::number_of(s, 10, max) matches Some(n) ==> n >= 0,
{
    let d = number::without_plus(s);
    if number::all_digits(d, 10) {
        number::lemma_value_is_natural(d, 10);
    }
}

proof fn lemma_range_is_positive(part: Seq<char>)
    ensures
        range_of(part) matches Ok((lo, hi)) ==> 1 <= lo <= hi,
{
    let k = text::position_of(part, '-');
    lemma_number_is_natural(text::trim_of(part.take(k)), usize::MAX as int);
    lemma_number_is_natural(text::trim_of(part.skip(k + 1)), usize::MAX as int);
    lemma_number_is_natural(part, usize::MAX as int);
}

/// A number stands for itself, and two numbers with a hyphen between them for
/// all from the smaller to the larger, in whichever order they stand and with
/// white space around them or not.
pub proof fn ranges_go_from_the_smaller_to_the_larger(
    a: int,
    b: int,
    w: Seq<char>,
    x: Seq<char>,
    n: int,
)
    requires
        1 <= a <= usize::MAX,
        1 <= b <= usize::MAX,
        forall|i: int| 0 <= i < w.len() ==> text::is_ws(#[trigger] w[i]),
        forall|i: int| 0 <= i < x.len() ==> text::is_ws(#[trigger] x[i]),
    ensures
        in_part(number::decimal(a), n) <==> n == a,
        in_part(number::decimal(a) + w + seq!['-'] + x + number::decimal(b), n) <==> (a <= n <= b
            || b <= n <= a),
{
    number::decimal_round_trip(a, usize::MAX as int);
    number::decimal_round_trip(b, usize::MAX as int);
    number::numeral_reads_back(a, 10);
    number::numeral_reads_back(b, 10);
    let p = number::decimal(a);
    let q = number::decimal(b);
    assert forall|j: int| 0 <= j < p.len() implies p[j] != '-' && !text::is_ws(#[trigger] p[j]) by {
        assert(number::digit_of(p[j]) < 10);
    }
    assert forall|j: int| 0 <= j < q.len() implies !text::is_ws(#[trigger] q[j]) by {
        assert(number::digit_of(q[j]) < 10);
    }
    text::lemma_position(p, '-', p.len() as int);
    let s = p + w + seq!['-'] + x + q;
    let k = p.len() + w.len();
    assert forall|j: int| 0 <= j < k implies s[j] != '-' by {
        if j < p.len() {
            assert(s[j] == p[j]);
        } else {
            assert(s[j] == w[j - p.len()]);
            assert(text::is_ws(w[j - p.len()]));
        }
    }
    assert(s[k as int] == '-');
    text::lemma_position(s, '-', k as int);
    let none = Seq::<char>::empty();
    assert(s.take(k as int) =~= none + p + w);
    assert(s.skip(k as int + 1) =~= x + q + none);
    text::trimming_takes_only_white_space(none, p, w);
    text::trimming_takes_only_white_space(x, q, none);
}

/// What is wrong with a part: a number that is none, a range of which one end is
/// no number, or a zero; with nothing else is anything wrong.
pub proof fn what_is_wrong_with_a_part(part: Seq<char>, x: Seq<char>, y: Seq<char>)
    requires
        !x.contains('-'),
    ensures
        !part.contains('-') ==> match number::number_of(part, 10, usize::MAX as int) {
            None => range_of(part) == Err::<(int, int), Seq<char>>("invalid number: "@ + part),
            Some(n) => if n == 0 {
                range_of(part) == Err::<(int, int), Seq<char>>("indices start at 1: "@ + part)
            } else {
                range_of(part) == Ok::<(int, int), Seq<char>>((n, n))
            },
        },
        ({
            let p = x + seq!['-'] + y;
            match (
                number::number_of(text::trim_of(x), 10, usize::MAX as int),
                number::number_of(text::trim_of(y), 10, usize::MAX as int),
            ) {
                (Some(a), Some(b)) => if a == 0 || b == 0 {
                    range_of(p) == Err::<(int, int), Seq<char>>("indices start at 1: "@ + p)
                } else {
                    range_of(p) matches Ok((lo, hi)) && ((lo == a && hi == b) || (lo == b && hi
                        == a)) && lo <= hi
                },
                _ => range_of(p) == Err::<(int, int), Seq<char>>("invalid range: "@ + p),
            }
        }),
{
    text::lemma_position_bounds(part, '-');
    text::lemma_position_bounds(x, '-');
    let p = x + seq!['-'] + y;
    let k = x.len() as int;
    assert forall|j: int| 0 <= j < k implies p[j] != '-' by {
        assert(p[j] == x[j]);
    }
    assert(p[k] == '-');
    text::lemma_position(p, '-', k);
    assert(p.take(k) =~= x);
    assert(p.skip(k + 1) =~= y);
}

/// A specification is refused exactly if one of its parts is, for what is wrong
/// with the first such part.
pub proof fn the_first_wrong_part_counts(parts: Seq<Seq<char>>)
    ensures
        match first_error(parts) {
            Some(e) => exists|k: int|
                #![trigger parts[k]]
                {
                    &&& 0 <= k < parts.len()
                    &&& range_of(parts[k]) == Err::<(int, int), Seq<char>>(e)
                    &&& forall|j: int| 0 <= j < k ==> range_of(#[trigger] parts[j]) is Ok
                },
            None => forall|j: int| 0 <= j < parts.len() ==> range_of(#[trigger] parts[j]) is Ok,
        },
    decreases parts.len(),
{
    if parts.len() > 0 {
        if range_of(parts[0]) is Ok {
            let t = parts.drop_first();
            the_first_wrong_part_counts(t);
            match first_error(t) {
                Some(e) => {
                    let k = choose|k: int|
                        #![trigger t[k]]
                        {
                            &&& 0 <= k < t.len()
                            &&& range_of(t[k]) == Err::<(int, int), Seq<char>>(e)
                            &&& forall|j: int| 0 <= j < k ==> range_of(#[trigger] t[j]) is Ok
                        };
                    assert(parts[k + 1] == t[k]);
                    assert forall|j: int| 0 <= j < k + 1 implies range_of(
                        #[trigger] parts[j],
                    ) is Ok by {
                        if j > 0 {
                            assert(t[j - 1] == parts[j]);
                        }
                    }
                },
                None => {
                    assert forall|j: int| 0 <= j < parts.len() implies range_of(
                        #[trigger] parts[j],
                    ) is Ok by {
                        if j > 0 {
                            assert(t[j - 1] == parts[j]);
                        }
                    }
                },
            }
        } else {
            assert(range_of(parts[0]) is Err);
        }
    }
}

/// Parts are what stands between the commas, trimmed; what is blank is passed
/// over.
pub proof fn parts_stand_between_commas(pieces: Seq<Seq<char>>, last: Seq<char>)
    requires
        forall|i: int| 0 <= i < pieces.len() ==> !(#[trigger] pieces[i]).contains(','),
        !last.contains(','),
    ensures
        ({
            let before = if pieces.len() == 0 {
                Seq::empty()
            } else {
                spec_parts(text::join_of(pieces, seq![',']))
            };
            let after = spec_parts(text::join_of(pieces.push(last), seq![',']));
            if text::trim_of(last).len() == 0 {
                after == before
            } else {
                after == before.push(text::trim_of(last))
            }
        }),
{
    let all = pieces.push(last);
    assert forall|i: int| 0 <= i < all.len() implies !(#[trigger] all[i]).contains(',') by {
        if i < pieces.len() {
            assert(all[i] == pieces[i]);
        }
    }
    text::joined_pieces_read_back(all, ',');
    assert(all.drop_last() =~= pieces);
    if pieces.len() > 0 {
        text::joined_pieces_read_back(pieces, ',');
    } else {
        assert(parts_of(pieces) =~= Seq::<Seq<char>>::empty());
    }
    assert(parts_of(all) == if text::trim_of(last).len() == 0 {
        parts_of(pieces)
    } else {
        parts_of(pieces).push(text::trim_of(last))
    });
}

/// What a list of indices holds: the numbers of the parts, none twice, and in
/// increasing order.
pub proof fn indices_are_those_of_the_parts(v: Seq<usize>, parts: Seq<Seq<char>>, n: usize)
    requires
        lists(v, parts),
    ensures
        forall|i: int, j: int| 0 <= i < j < v.len() ==> v[i] < v[j],
        v.contains(n) <==> exists|k: int|
            0 <= k < parts.len() && (range_of(#[trigger] parts[k]) matches Ok((lo, hi)) && lo <= n
                <= hi),
{
    if v.contains(n) {
        let k = choose|k: int| 0 <= k < parts.len() && in_part(#[trigger] parts[k], n as int);
        assert(range_of(parts[k]) is Ok);
    }
    if exists|k: int|
        0 <= k < parts.len() && (range_of(#[trigger] parts[k]) matches Ok((lo, hi)) && lo <= n
            <= hi) {
        let k = choose|k: int|
            0 <= k < parts.len() && (range_of(#[trigger] parts[k]) matches Ok((lo, hi)) && lo <= n
                <= hi);
        assert(in_part(parts[k], n as int));
        assert(in_some_part(parts, n as int));
    }
}

} // verus!
