//! Numerals: reading unsigned integers from text and writing them.

use vstd::prelude::*;

verus! {

// ---------------------------------------------------------------------------
// Reading
// ---------------------------------------------------------------------------
/// The value of `c` as a digit: `0` to `9`, then the letters of either case.
/// 36 for a character that is no digit in any base.
pub open spec fn digit_of(c: char) -> int {
    if '0' <= c <= '9' {
        c as int - '0' as int
    } else if 'a' <= c <= 'z' {
        c as int - 'a' as int + 10
    } else if 'A' <= c <= 'Z' {
        c as int - 'A' as int + 10
    } else {
        36
    }
}

/// Every character is a digit in base `radix`.
pub open spec fn all_digits(s: Seq<char>, radix: int) -> bool {
    forall|i: int| 0 <= i < s.len() ==> #[trigger] digit_of(s[i]) < radix
}

/// The number that the digits `s` denote in base `radix`.
pub open spec fn value_of(s: Seq<char>, radix: int) -> int
    decreases s.len(),
{
    if s.len() == 0 {
        0
    } else {
        value_of(s.drop_last(), radix) * radix + digit_of(s.last())
    }
}

/// `s` without one leading plus sign.
pub open spec fn without_plus(s: Seq<char>) -> Seq<char> {
    if s.len() > 0 && s[0] == '+' {
        s.drop_first()
    } else {
        s
    }
}

/// The unsigned number that `s` spells in base `radix`: at least one digit,
/// after an optional plus sign, and a value of at most `max`.
pub open spec fn number_of(s: Seq<char>, radix: int, max: int) -> Option<int> {
    let d = without_plus(s);
    if d.len() > 0 && all_digits(d, radix) && value_of(d, radix) <= max {
        Some(value_of(d, radix))
    } else {
        None
    }
}

proof fn lemma_value_grows(s: Seq<char>, radix: int, k: int)
    requires
        1 <= radix,
        0 <= k <= s.len(),
        all_digits(s, radix),
    ensures
        0 <= value_of(s.take(k), radix) <= value_of(s, radix),
    decreases s.len(),
{
    if k == s.len() {
        assert(s.take(k) == s);
        if k > 0 {
            let t = s.drop_last();
            assert forall|i: int| 0 <= i < t.len() implies #[trigger] digit_of(t[i]) < radix by {
                assert(t[i] == s[i]);
            }
            lemma_value_grows(t, radix, t.len() as int);
            assert(t.take(t.len() as int) == t);
            assert(value_of(t, radix) * radix >= 0) by (nonlinear_arith)
                requires
                    value_of(t, radix) >= 0,
                    radix >= 1,
            ;
        }
    } else {
        let t = s.drop_last();
        assert forall|i: int| 0 <= i < t.len() implies #[trigger] digit_of(t[i]) < radix by {
            assert(t[i] == s[i]);
        }
        lemma_value_grows(t, radix, k);
        assert(t.take(k) == s.take(k));
        assert(value_of(t, radix) * radix >= value_of(t, radix)) by (nonlinear_arith)
            requires
                value_of(t, radix) >= 0,
                radix >= 1,
        ;
    }
}

/// Digits denote a natural number.
pub proof fn lemma_value_is_natural(s: Seq<char>, radix: int)
    requires
        1 <= radix,
        all_digits(s, radix),
    ensures
        0 <= value_of(s, radix),
{
    lemma_value_grows(s, radix, s.len() as int);
}

fn digit(c: char) -> (r: u32)
    ensures
        r == digit_of(c),
        r <= 36,
{
    if '0' <= c && c <= '9' {
        c as u32 - '0' as u32
    } else if 'a' <= c && c <= 'z' {
        c as u32 - 'a' as u32 + 10
    } else if 'A' <= c && c <= 'Z' {
        c as u32 - 'A' as u32 + 10
    } else {
        36
    }
}

/// The unsigned number that `s` spells in base `radix`, if it is at most `max`.
pub fn parse_number(s: &[char], radix: u32, max: u64) -> (r: Option<u64>)
    requires
        2 <= radix <= 36,
    ensures
        match r {
            Some(n) => number_of(s@, radix as int, max as int) == Some(n as int),
            None => number_of(s@, radix as int, max as int) is None,
        },
{
    let start: usize = if s.len() > 0 && s[0] == '+' {
        1
    } else {
        0
    };
    let ghost d = without_plus(s@);
    assert(d == s@.skip(start as int));
    if start == s.len() {
        return None;
    }
    let mut acc: u64 = 0;
    let mut i: usize = start;
    assert(d.take(0) == Seq::<char>::empty());
    while i < s.len()
        invariant
            2 <= radix <= 36,
            start <= i <= s@.len(),
            d == without_plus(s@),
            d == s@.skip(start as int),
            acc <= max,
            acc == value_of(d.take(i - start), radix as int),
            forall|j: int| 0 <= j < i - start ==> #[trigger] digit_of(d[j]) < radix,
        decreases s.len() - i,
    {
        let v = digit(s[i]);
        let ghost k = i - start;
        assert(d[k] == s@[i as int]);
        if v >= radix {
            assert(!all_digits(d, radix as int)) by {
                assert(digit_of(d[k]) >= radix);
            }
            return None;
        }
        assert(acc as u128 * radix as u128 <= 0xffff_ffff_ffff_ffff * 36) by (nonlinear_arith)
            requires
                acc <= 0xffff_ffff_ffff_ffff,
                radix <= 36,
        ;
        let next: u128 = acc as u128 * radix as u128 + v as u128;
        proof {
            let t = d.take(k + 1);
            assert(t.drop_last() == d.take(k));
            assert(t.last() == d[k]);
            assert(value_of(t, radix as int) == next);
        }
        if next > max as u128 {
            proof {
                if all_digits(d, radix as int) {
                    lemma_value_grows(d, radix as int, k + 1);
                }
            }
            return None;
        }
        acc = next as u64;
        i = i + 1;
    }
    proof {
        assert(d.take(d.len() as int) == d);
    }
    Some(acc)
}

// ---------------------------------------------------------------------------
// Writing
// ---------------------------------------------------------------------------
/// The digit character of a value below sixteen.
pub open spec fn digit_char(d: int) -> char {
    if d < 10 {
        ('0' as int + d) as char
    } else {
        ('a' as int + d - 10) as char
    }
}

/// The shortest numeral of `n` in base `radix`.
pub open spec fn numeral(n: int, radix: int) -> Seq<char>
    decreases n,
{
    if n < radix || radix < 2 {
        seq![digit_char(n)]
    } else if n / radix < n && 0 <= n / radix {
        numeral(n / radix, radix).push(digit_char(n % radix))
    } else {
        Seq::empty()
    }
}

/// The decimal numeral of `n`.
pub open spec fn decimal(n: int) -> Seq<char> {
    numeral(n, 10)
}

fn digit_as_char(d: u8) -> (r: char)
    requires
        d < 16,
    ensures
        r == digit_char(d as int),
{
    if d < 10 {
        (48u8 + d) as char
    } else {
        (87u8 + d) as char
    }
}

/// Appends the numeral of `n` in base `radix`.
pub fn push_numeral(out: &mut String, n: u64, radix: u64)
    requires
        2 <= radix <= 16,
    ensures
        final(out)@ == old(out)@ + numeral(n as int, radix as int),
    decreases n,
{
    if n < radix {
        out.push(digit_as_char(n as u8));
        proof {
            assert(old(out)@.push(digit_char(n as int)) == old(out)@ + seq![digit_char(n as int)]);
        }
    } else {
        assert(n / radix < n && n % radix < radix) by (nonlinear_arith)
            requires
                2 <= radix <= n,
        ;
        push_numeral(out, n / radix, radix);
        out.push(digit_as_char((n % radix) as u8));
    }
}

/// The decimal numeral of `n`.
pub fn decimal_text(n: u64) -> (r: String)
    ensures
        r@ == decimal(n as int),
{
    let mut s = String::new();
    push_numeral(&mut s, n, 10);
    s
}

// ---------------------------------------------------------------------------
// Reading back what was written
// ---------------------------------------------------------------------------
/// A numeral consists of digits of its base, at least one, and denotes the
/// number it was made from.
pub proof fn numeral_reads_back(n: int, radix: int)
    requires
        0 <= n,
        2 <= radix <= 16,
    ensures
        numeral(n, radix).len() > 0,
        all_digits(numeral(n, radix), radix),
        value_of(numeral(n, radix), radix) == n,
    decreases n,
{
    let s = numeral(n, radix);
    if n < radix {
        assert(s.len() == 1 && s[0] == digit_char(n));
        assert(digit_of(s[0]) == n);
        assert(s.drop_last() == Seq::<char>::empty());
        assert(value_of(s.drop_last(), radix) * radix == 0) by (nonlinear_arith)
            requires
                value_of(s.drop_last(), radix) == 0,
        ;
        assert(s.last() == s[0]);
    } else {
        let q = n / radix;
        let m = n % radix;
        assert(0 <= q < n && 0 <= m < radix && q * radix + m == n) by (nonlinear_arith)
            requires
                q == n / radix,
                m == n % radix,
                2 <= radix <= n,
        ;
        numeral_reads_back(q, radix);
        assert(s == numeral(q, radix).push(digit_char(m)));
        assert(s.drop_last() == numeral(q, radix));
        assert(digit_of(digit_char(m)) == m);
        assert forall|i: int| 0 <= i < s.len() implies #[trigger] digit_of(s[i]) < radix by {
            if i < s.len() - 1 {
                assert(s[i] == numeral(q, radix)[i]);
                assert(digit_of(numeral(q, radix)[i]) < radix);
            }
        }
    }
}

/// Reading the numeral of a number gives the number back, if it is not too
/// large.
pub proof fn numeral_round_trip(n: int, radix: int, max: int)
    requires
        0 <= n,
        2 <= radix <= 16,
    ensures
        n <= max ==> number_of(numeral(n, radix), radix, max) == Some(n),
        n > max ==> number_of(numeral(n, radix), radix, max) is None,
{
    numeral_reads_back(n, radix);
    let s = numeral(n, radix);
    assert(digit_of(s[0]) < radix);
    assert(s[0] != '+');
}

/// Reading the decimal numeral of a number gives the number back.
pub proof fn decimal_round_trip(n: int, max: int)
    requires
        0 <= n <= max,
    ensures
        number_of(decimal(n), 10, max) == Some(n),
{
    numeral_reads_back(n, 10);
    let s = decimal(n);
    assert(digit_of(s[0]) < 10);
    assert(s[0] != '+');
}

/// A zero in front does not change a number, nor does one plus sign; and
/// whatever holds anything but digits behind the plus sign is no number.
pub proof fn numerals_may_have_zeros_and_a_plus(s: Seq<char>, radix: int, max: int, i: int)
    requires
        2 <= radix <= 36,
    ensures
        s.len() > 0 && s[0] != '+' ==> number_of(seq!['0'] + s, radix, max) == number_of(
            s,
            radix,
            max,
        ),
        s.len() > 0 && s[0] != '+' ==> number_of(seq!['+'] + s, radix, max) == number_of(
            s,
            radix,
            max,
        ),
        s.len() > 0 && s[0] == '+' ==> number_of(seq!['+'] + s, radix, max) is None,
        number_of(Seq::empty(), radix, max) is None,
        number_of(seq!['+'], radix, max) is None,
        radix == 10 && 0 <= i < s.len() && !(i == 0 && s[0] == '+') && !('0' <= s[i] <= '9')
            ==> number_of(s, radix, max) is None,
        radix == 16 && 0 <= i < s.len() && !(i == 0 && s[0] == '+') && !('0' <= s[i] <= '9') && !(
        'a' <= s[i] <= 'f') && !('A' <= s[i] <= 'F') ==> number_of(s, radix, max) is None,
        number_of(s, radix, max) matches Some(n) ==> 0 <= n <= max,
{
    let z = seq!['0'] + s;
    let p = seq!['+'] + s;
    assert(p.drop_first() =~= s);
    assert(seq!['+'].drop_first() =~= Seq::<char>::empty());
    lemma_leading_zero(s, radix);
    if s.len() > 0 && s[0] != '+' {
        assert(z[0] == '0');
        if all_digits(s, radix) {
            assert forall|j: int| 0 <= j < z.len() implies #[trigger] digit_of(z[j]) < radix by {
                if j > 0 {
                    assert(digit_of(s[j - 1]) < radix);
                }
            }
        }
        if all_digits(z, radix) {
            assert forall|j: int| 0 <= j < s.len() implies #[trigger] digit_of(s[j]) < radix by {
                assert(digit_of(z[j + 1]) < radix);
            }
        }
    }
    if s.len() > 0 && s[0] == '+' {
        assert(digit_of(s[0]) == 36);
    }
    let d = without_plus(s);
    if 0 <= i < s.len() && !(i == 0 && s[0] == '+') {
        let k = if s[0] == '+' {
            i - 1
        } else {
            i
        };
        assert(d[k] == s[i]);
        if all_digits(d, radix) {
            assert(digit_of(d[k]) < radix);
        }
    }
    if all_digits(d, radix) {
        lemma_value_is_natural(d, radix);
    }
}

proof fn lemma_leading_zero(s: Seq<char>, radix: int)
    ensures
        value_of(seq!['0'] + s, radix) == value_of(s, radix),
    decreases s.len(),
{
    let z = seq!['0'] + s;
    if s.len() == 0 {
        assert(z.drop_last() =~= Seq::<char>::empty());
        assert(z.last() == '0');
        assert(value_of(z.drop_last(), radix) == 0);
        assert(value_of(z, radix) == 0 * radix + 0);
    } else {
        assert(z.drop_last() =~= seq!['0'] + s.drop_last());
        lemma_leading_zero(s.drop_last(), radix);
    }
}

/// Whether the digits above nine are large or small letters does not matter.
pub proof fn the_case_of_a_digit_does_not_matter(
    s: Seq<char>,
    t: Seq<char>,
    radix: int,
    max: int,
)
    requires
        s.len() == t.len(),
        forall|i: int|
            0 <= i < s.len() ==> #[trigger] s[i] == t[i] || ('A' <= s[i] <= 'Z' && t[i] as int
                == s[i] as int + 32),
    ensures
        number_of(s, radix, max) == number_of(t, radix, max),
{
    let d = without_plus(s);
    let e = without_plus(t);
    assert(s.len() > 0 ==> (s[0] == '+' <==> t[0] == '+'));
    assert forall|i: int| 0 <= i < d.len() implies #[trigger] digit_of(d[i]) == digit_of(e[i]) by {
        let k = if s[0] == '+' {
            i + 1
        } else {
            i
        };
        assert(d[i] == s[k] && e[i] == t[k]);
    }
    lemma_same_value(d, e, radix);
    if all_digits(d, radix) {
        assert forall|i: int| 0 <= i < e.len() implies #[trigger] digit_of(e[i]) < radix by {
            assert(digit_of(d[i]) < radix);
        }
    }
    if all_digits(e, radix) {
        assert forall|i: int| 0 <= i < d.len() implies #[trigger] digit_of(d[i]) < radix by {
            assert(digit_of(e[i]) < radix);
        }
    }
}

proof fn lemma_same_value(d: Seq<char>, e: Seq<char>, radix: int)
    requires
        d.len() == e.len(),
        forall|i: int| 0 <= i < d.len() ==> #[trigger] digit_of(d[i]) == digit_of(e[i]),
    ensures
        value_of(d, radix) == value_of(e, radix),
    decreases d.len(),
{
    if d.len() > 0 {
        let p = d.drop_last();
        let q = e.drop_last();
        assert forall|i: int| 0 <= i < p.len() implies #[trigger] digit_of(p[i]) == digit_of(
            q[i],
        ) by {
            assert(digit_of(d[i]) == digit_of(e[i]));
        }
        lemma_same_value(p, q, radix);
        assert(digit_of(d[d.len() - 1]) == digit_of(e[e.len() - 1]));
    }
}

/// One more digit behind a number multiplies it by the base and adds the digit.
pub proof fn a_digit_behind_multiplies(s: Seq<char>, c: char, max: int, n: int)
    requires
        number_of(s, 10, max) == Some(n),
        '0' <= c <= '9',
        10 * n + (c as int - '0' as int) <= max,
    ensures
        number_of(s.push(c), 10, max) == Some(10 * n + (c as int - '0' as int)),
{
    let t = s.push(c);
    let d = without_plus(s);
    let e = without_plus(t);
    assert(t[0] == s[0]);
    assert(e =~= d.push(c));
    assert(e.drop_last() =~= d);
    assert forall|j: int| 0 <= j < e.len() implies #[trigger] digit_of(e[j]) < 10 by {
        if j < d.len() {
            assert(digit_of(d[j]) < 10);
        }
    }
}

/// A numeral has no needless zero in front and is made of the digits from `0` to
/// `9` and the letters from `a` to `f`.
pub proof fn numerals_are_short_and_small(n: int, radix: int, i: int)
    requires
        0 <= n,
        2 <= radix <= 16,
        0 <= i < numeral(n, radix).len(),
    ensures
        n > 0 ==> numeral(n, radix)[0] != '0',
        n == 0 ==> numeral(n, radix) == seq!['0'],
        '0' <= numeral(n, radix)[i] <= '9' || 'a' <= numeral(n, radix)[i] <= 'f',
    decreases n,
{
    if n >= radix {
        let q = n / radix;
        let m = n % radix;
        assert(0 < q < n && 0 <= m < radix) by (nonlinear_arith)
            requires
                q == n / radix,
                m == n % radix,
                2 <= radix <= n,
        ;
        numeral_reads_back(q, radix);
        let t = numeral(q, radix);
        assert(numeral(n, radix) == t.push(digit_char(m)));
        numerals_are_short_and_small(
            q,
            radix,
            if i < t.len() {
                i
            } else {
                0
            },
        );
        assert(numeral(n, radix)[0] == t[0]);
    }
}

} // verus!
