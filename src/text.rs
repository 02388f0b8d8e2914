//! Characters, decimal digits and fixed-point numbers as text.
use vstd::prelude::*;

verus! {

/// The character of a decimal digit.
pub open spec fn digit_char(d: int) -> char {
    if d == 0 {
        '0'
    } else if d == 1 {
        '1'
    } else if d == 2 {
        '2'
    } else if d == 3 {
        '3'
    } else if d == 4 {
        '4'
    } else if d == 5 {
        '5'
    } else if d == 6 {
        '6'
    } else if d == 7 {
        '7'
    } else if d == 8 {
        '8'
    } else {
        '9'
    }
}

pub open spec fn is_digit(c: char) -> bool {
    '0' <= c && c <= '9'
}

/// The value of a digit character.
pub open spec fn digit_value(c: char) -> int {
    c as u32 as int - '0' as u32 as int
}

/// `10` to the power `k`.
pub open spec fn pow10(k: nat) -> nat
    decreases k,
{
    if k == 0 {
        1
    } else {
        10 * pow10((k - 1) as nat)
    }
}

/// The shortest decimal text of `n`.
pub open spec fn nat_digits(n: nat) -> Seq<char>
    decreases n,
{
    if n < 10 {
        seq![digit_char(n as int)]
    } else {
        nat_digits(n / 10).push(digit_char((n % 10) as int))
    }
}

/// The last `w` decimal digits of `n`, with leading zeros.
pub open spec fn padded_digits(n: nat, w: nat) -> Seq<char>
    decreases w,
{
    if w == 0 {
        Seq::empty()
    } else {
        padded_digits(n / 10, (w - 1) as nat).push(digit_char((n % 10) as int))
    }
}

/// `n` in decimal with at least two digits, as `{:02}` writes it.
pub open spec fn two_digits(n: nat) -> Seq<char> {
    if n < 10 {
        seq!['0', digit_char(n as int)]
    } else {
        nat_digits(n)
    }
}

/// `a / d`, rounded to nearest with halves rounded up.
pub open spec fn round_div(a: nat, d: nat) -> nat
    recommends
        d > 0,
{
    (a + d / 2) / d
}

pub open spec fn abs(v: int) -> nat {
    if v < 0 {
        (-v) as nat
    } else {
        v as nat
    }
}

/// The text of `v / 10^k` with `p` decimal places, rounded to nearest.
pub open spec fn decimal_text(v: int, k: nat, p: nat) -> Seq<char> {
    let q = round_div(abs(v), pow10(k));
    let sign = if v < 0 {
        seq!['-']
    } else {
        Seq::empty()
    };
    let whole = nat_digits(q / pow10(p));
    if p == 0 {
        sign + whole
    } else {
        sign + whole + seq!['.'] + padded_digits(q % pow10(p), p)
    }
}

pub proof fn lemma_pow10_bound(k: nat)
    requires
        k <= 9,
    ensures
        1 <= pow10(k) <= pow10(9),
        pow10(9) == 1_000_000_000,
    decreases 9 - k,
{
    reveal_with_fuel(pow10, 10);
    if k < 9 {
        lemma_pow10_bound(k + 1);
    }
}

/// Relies on `str::chars`: the characters of `s`, in order.
#[verifier::external_body]
pub(crate) fn chars_of(s: &str) -> (r: Vec<char>)
    ensures
        r@ == s@,
{
    s.chars().collect()
}

/// Relies on `String`'s `FromIterator<char>`: the string of those characters.
#[verifier::external_body]
pub(crate) fn string_of(v: &[char]) -> (r: String)
    ensures
        r@ == v@,
{
    v.iter().collect()
}

pub fn digit_of(d: u64) -> (c: char)
    requires
        d < 10,
    ensures
        c == digit_char(d as int),
{
    match d {
        0 => '0',
        1 => '1',
        2 => '2',
        3 => '3',
        4 => '4',
        5 => '5',
        6 => '6',
        7 => '7',
        8 => '8',
        _ => '9',
    }
}

/// Appends the characters of `s`.
pub fn push_str(out: &mut Vec<char>, s: &str)
    ensures
        final(out)@ == old(out)@ + s@,
{
    let cs = chars_of(s);
    let mut i: usize = 0;
    while i < cs.len()
        invariant
            i <= cs@.len(),
            cs@ == s@,
            out@ == old(out)@ + cs@.subrange(0, i as int),
        decreases cs@.len() - i,
    {
        out.push(cs[i]);
        i = i + 1;
        assert(cs@.subrange(0, i as int) == cs@.subrange(0, i - 1).push(cs@[i - 1]));
    }
    assert(cs@.subrange(0, cs@.len() as int) == cs@);
}

/// Appends the characters of `s`.
pub fn push_chars(out: &mut Vec<char>, s: &[char])
    ensures
        final(out)@ == old(out)@ + s@,
{
    let mut i: usize = 0;
    while i < s.len()
        invariant
            i <= s@.len(),
            out@ == old(out)@ + s@.subrange(0, i as int),
        decreases s@.len() - i,
    {
        out.push(s[i]);
        i = i + 1;
        assert(s@.subrange(0, i as int) == s@.subrange(0, i - 1).push(s@[i - 1]));
    }
    assert(s@.subrange(0, s@.len() as int) == s@);
}

/// Appends the shortest decimal text of `n`.
pub fn push_nat(out: &mut Vec<char>, n: u128)
    ensures
        final(out)@ == old(out)@ + nat_digits(n as nat),
    decreases n,
{
    if n >= 10 {
        push_nat(out, n / 10);
    }
    out.push(digit_of((n % 10) as u64));
    assert(old(out)@ + nat_digits(n as nat) == (old(out)@ + (if n >= 10 {
        nat_digits((n / 10) as nat)
    } else {
        Seq::empty()
    })).push(digit_char((n % 10) as int)));
}

/// Appends the last `w` decimal digits of `n`, with leading zeros.
pub fn push_padded(out: &mut Vec<char>, n: u128, w: u32)
    ensures
        final(out)@ == old(out)@ + padded_digits(n as nat, w as nat),
    decreases w,
{
    if w > 0 {
        push_padded(out, n / 10, w - 1);
        out.push(digit_of((n % 10) as u64));
        assert(old(out)@ + padded_digits(n as nat, w as nat) == (old(out)@ + padded_digits(
            (n / 10) as nat,
            (w - 1) as nat,
        )).push(digit_char((n % 10) as int)));
    } else {
        assert(old(out)@ + padded_digits(n as nat, w as nat) == old(out)@);
    }
}

/// Appends `n` with at least two digits.
pub fn push_two_digits(out: &mut Vec<char>, n: u128)
    ensures
        final(out)@ == old(out)@ + two_digits(n as nat),
{
    if n < 10 {
        out.push('0');
        out.push(digit_of(n as u64));
        assert(old(out)@.push('0').push(digit_char(n as int)) == old(out)@ + two_digits(
            n as nat,
        ));
    } else {
        push_nat(out, n);
    }
}

pub fn pow10_of(k: u32) -> (r: u128)
    requires
        k <= 9,
    ensures
        r == pow10(k as nat),
        1 <= r <= 1_000_000_000,
{
    let mut r: u128 = 1;
    let mut i: u32 = 0;
    while i < k
        invariant
            i <= k <= 9,
            r == pow10(i as nat),
        decreases k - i,
    {
        proof {
            lemma_pow10_bound(i as nat);
            lemma_pow10_bound((i + 1) as nat);
        }
        r = r * 10;
        i = i + 1;
    }
    proof {
        lemma_pow10_bound(k as nat);
    }
    r
}

/// Appends the text of `a / 10^k` with `p` decimal places.
pub fn push_scaled(out: &mut Vec<char>, a: u128, k: u32, p: u32)
    requires
        k <= 9,
        p <= 9,
        a <= u128::MAX - 1_000_000_000,
    ensures
        final(out)@ == old(out)@ + decimal_text(a as int, k as nat, p as nat),
{
    let d = pow10_of(k);
    let q = (a + d / 2) / d;
    let e = pow10_of(p);
    let ghost start = out@;
    push_nat(out, q / e);
    if p > 0 {
        out.push('.');
        push_padded(out, q % e, p);
        assert(out@ == start + nat_digits((q / e) as nat) + seq!['.'] + padded_digits(
            (q % e) as nat,
            p as nat,
        ));
    }
    assert(Seq::<char>::empty() + nat_digits((q / e) as nat) == nat_digits((q / e) as nat));
}

/// Appends the text of `v / 10^k` with `p` decimal places.
pub fn push_decimal(out: &mut Vec<char>, v: i64, k: u32, p: u32)
    requires
        k <= 9,
        p <= 9,
    ensures
        final(out)@ == old(out)@ + decimal_text(v as int, k as nat, p as nat),
{
    let a: u128 = if v < 0 {
        (-(v as i128)) as u128
    } else {
        v as u128
    };
    let ghost start = out@;
    if v < 0 {
        out.push('-');
    }
    push_scaled(out, a, k, p);
    assert(abs(a as int) == abs(v as int));
    if v < 0 {
        assert(decimal_text(v as int, k as nat, p as nat) =~= seq!['-'] + decimal_text(
            a as int,
            k as nat,
            p as nat,
        ));
    } else {
        assert(decimal_text(v as int, k as nat, p as nat) =~= decimal_text(
            a as int,
            k as nat,
            p as nat,
        ));
    }
}

/// The text of `v / 10^k` rounded to `p` decimal places (halves away from zero).
pub fn decimal_string(v: i64, k: u32, p: u32) -> (r: String)
    requires
        k <= 9,
        p <= 9,
    ensures
        r@ == decimal_text(v as int, k as nat, p as nat),
{
    let mut out: Vec<char> = Vec::new();
    push_decimal(&mut out, v, k, p);
    assert(out@ == decimal_text(v as int, k as nat, p as nat));
    string_of(out.as_slice())
}


/// The value of a run of decimal digits.
pub open spec fn digits_value(s: Seq<char>) -> int
    decreases s.len(),
{
    if s.len() == 0 {
        0
    } else {
        digits_value(s.drop_last()) * 10 + digit_value(s.last())
    }
}

pub open spec fn all_digits(s: Seq<char>) -> bool {
    forall|i: int| 0 <= i < s.len() ==> is_digit(#[trigger] s[i])
}

/// The index of the first character at or after `i` that is not a digit.
pub open spec fn first_non_digit(s: Seq<char>, i: int) -> int
    decreases s.len() - i,
{
    if i >= s.len() || i < 0 {
        s.len() as int
    } else if is_digit(s[i]) {
        first_non_digit(s, i + 1)
    } else {
        i
    }
}

/// The first `k` digits of a fraction, as a number of `10^-k` units.
pub open spec fn frac_value(f: Seq<char>, k: nat) -> int {
    let m = if f.len() < k {
        f.len()
    } else {
        k
    };
    digits_value(f.take(m as int)) * pow10((k - m) as nat)
}

/// An unsigned decimal `digits[.digits]` (with at least one digit) in `10^-k`
/// units; fraction digits past the `k`-th are dropped.
pub open spec fn unsigned_decimal(b: Seq<char>, k: nat) -> Option<int> {
    let j = first_non_digit(b, 0);
    if j == b.len() {
        if b.len() == 0 {
            None
        } else {
            Some(digits_value(b) * pow10(k))
        }
    } else if b[j] == '.' && all_digits(b.skip(j + 1)) && b.len() > 1 {
        Some(digits_value(b.take(j)) * pow10(k) + frac_value(b.skip(j + 1), k))
    } else {
        None
    }
}

/// A decimal number with an optional sign, in `10^-k` units.
pub open spec fn decimal_value(s: Seq<char>, k: nat) -> Option<int> {
    if s.len() > 0 && s[0] == '-' {
        match unsigned_decimal(s.drop_first(), k) {
            Some(v) => Some(-v),
            None => None,
        }
    } else if s.len() > 0 && s[0] == '+' {
        unsigned_decimal(s.drop_first(), k)
    } else {
        unsigned_decimal(s, k)
    }
}

/// What `parse_decimal` gives: the value when it is a decimal that fits `i64`.
pub open spec fn decimal_i64(s: Seq<char>, k: nat) -> Option<i64> {
    match decimal_value(s, k) {
        Some(v) => if i64::MIN <= v <= i64::MAX {
            Some(v as i64)
        } else {
            None
        },
        None => None,
    }
}

proof fn lemma_digits_value_bounds(s: Seq<char>)
    requires
        all_digits(s),
    ensures
        0 <= digits_value(s) < pow10(s.len()),
    decreases s.len(),
{
    if s.len() > 0 {
        assert(all_digits(s.drop_last()));
        lemma_digits_value_bounds(s.drop_last());
        assert(is_digit(s[s.len() - 1]));
    }
}

proof fn lemma_digits_value_prefix(s: Seq<char>, a: int, b: int)
    requires
        0 <= a <= b <= s.len(),
        all_digits(s.take(b)),
    ensures
        digits_value(s.take(a)) <= digits_value(s.take(b)),
    decreases b - a,
{
    if a < b {
        assert(s.take(b).drop_last() =~= s.take(b - 1));
        assert(all_digits(s.take(b - 1)));
        assert(is_digit(s.take(b)[b - 1]));
        lemma_digits_value_bounds(s.take(b - 1));
        lemma_digits_value_prefix(s, a, b - 1);
    }
}

proof fn lemma_first_non_digit_skip(s: Seq<char>, i: int)
    requires
        0 <= i <= s.len(),
        all_digits(s.take(i)),
    ensures
        first_non_digit(s, 0) == first_non_digit(s, i),
    decreases i,
{
    if i > 0 {
        assert(s.take(i)[i - 1] == s[i - 1]);
        assert(all_digits(s.take(i - 1))) by {
            assert forall|t: int| 0 <= t < i - 1 implies is_digit(#[trigger] s.take(i - 1)[t]) by {
                assert(s.take(i)[t] == s[t]);
            }
        }
        lemma_first_non_digit_skip(s, i - 1);
    }
}

pub fn is_digit_char(c: char) -> (r: bool)
    ensures
        r == is_digit(c),
{
    '0' <= c && c <= '9'
}

fn digit_u128(c: char) -> (d: u128)
    requires
        is_digit(c),
    ensures
        d == digit_value(c),
        d < 10,
{
    (c as u32 - '0' as u32) as u128
}

/// Reads a decimal number (`-12.5`, `+3`, `.25`) as a count of `10^-k` units.
/// Fraction digits past the `k`-th are dropped; `None` when the text is not
/// such a number or the value does not fit `i64`.
pub fn parse_decimal(s: &[char], k: u32) -> (r: Option<i64>)
    requires
        k <= 9,
    ensures
        r == decimal_i64(s@, k as nat),
{
    let n = s.len();
    let mut i: usize = 0;
    let mut neg = false;
    if n > 0 && (s[0] == '-' || s[0] == '+') {
        neg = s[0] == '-';
        i = 1;
    }
    let start = i;
    let ghost b = s@.subrange(start as int, n as int);
    assert(s@.len() > 0 && s@[0] == '-' ==> b =~= s@.drop_first());
    assert(s@.len() > 0 && s@[0] == '+' ==> b =~= s@.drop_first());
    assert(!(s@.len() > 0 && (s@[0] == '-' || s@[0] == '+')) ==> b =~= s@);
    let pk = pow10_of(k);
    let mut whole: u128 = 0;
    while i < n && is_digit_char(s[i])
        invariant
            start <= i <= n == s@.len(),
            b == s@.subrange(start as int, n as int),
            all_digits(b.take(i - start)),
            whole == digits_value(b.take(i - start)),
            whole <= 10_000_000_000_000_000_000u128,
            s@.len() > 0 && s@[0] == '-' ==> b =~= s@.drop_first(),
            s@.len() > 0 && s@[0] == '+' ==> b =~= s@.drop_first(),
            !(s@.len() > 0 && (s@[0] == '-' || s@[0] == '+')) ==> b =~= s@,
            neg == (s@.len() > 0 && s@[0] == '-'),
            start == (if s@.len() > 0 && (s@[0] == '-' || s@[0] == '+') { 1usize } else { 0usize }),
        decreases n - i,
    {
        let d = digit_u128(s[i]);
        proof {
            assert(b.take(i + 1 - start).drop_last() =~= b.take(i - start));
            assert(b.take(i + 1 - start).last() == s@[i as int]);
        }
        whole = whole * 10 + d;
        i = i + 1;
        assert(all_digits(b.take(i - start))) by {
            assert forall|t: int| 0 <= t < i - start implies is_digit(#[trigger] b.take(i - start)[t]) by {
                if t < i - 1 - start {
                    assert(b.take(i - start)[t] == b.take(i - 1 - start)[t]);
                }
            }
        }
        if whole > 10_000_000_000_000_000_000u128 {
            proof {
                lemma_value_too_large(b, i - start, k as nat);
            }
            return None;
        }
    }
    proof {
        lemma_first_non_digit_skip(b, i - start);
    }
    let mut value: u128;
    if i == n {
        assert(first_non_digit(b, i - start) == b.len());
        assert(b.take(i - start) =~= b);
        if i == start {
            return None;
        }
        assert(whole * pk <= 10_000_000_000_000_000_000u128 * 1_000_000_000u128) by (nonlinear_arith)
            requires
                whole <= 10_000_000_000_000_000_000u128,
                pk <= 1_000_000_000u128,
        ;
        value = whole * pk;
    } else if s[i] == '.' {
        assert(first_non_digit(b, i - start) == i - start);
        let dot = i;
        i = i + 1;
        let ghost f = b.skip(dot + 1 - start);
        assert(f =~= s@.subrange(dot + 1, n as int));
        let (frac, m) = match scan_fraction(s, i, k) {
            Some(fm) => fm,
            None => {
                return None;
            },
        };
        if n == 1 + start {
            return None;
        }
        proof {
            lemma_pow10_bound(m as nat);
            lemma_pow10_bound((k - m) as nat);
            lemma_pow10_split(m as nat, (k - m) as nat);
        }
        let scale = pow10_of(k - m);
        assert(frac * scale < pow10(k as nat)) by (nonlinear_arith)
            requires
                frac < pow10(m as nat),
                scale >= 1,
                scale == pow10((k - m) as nat),
                pow10(k as nat) == pow10(m as nat) * pow10((k - m) as nat),
        ;
        assert(whole * pk <= 10_000_000_000_000_000_000u128 * 1_000_000_000u128) by (nonlinear_arith)
            requires
                whole <= 10_000_000_000_000_000_000u128,
                pk <= 1_000_000_000u128,
        ;
        value = whole * pk + frac * scale;
        assert(frac_value(f, k as nat) == frac * scale);
        assert(b.len() > 1);
    } else {
        assert(first_non_digit(b, i - start) == i - start);
        return None;
    }
    if neg {
        if value > 9_223_372_036_854_775_808u128 {
            None
        } else {
            Some((-(value as i128)) as i64)
        }
    } else {
        if value > 9_223_372_036_854_775_807u128 {
            None
        } else {
            Some(value as i64)
        }
    }
}

proof fn lemma_first_non_digit_range(s: Seq<char>, i: int)
    requires
        0 <= i <= s.len(),
    ensures
        i <= first_non_digit(s, i) <= s.len(),
        first_non_digit(s, i) < s.len() ==> !is_digit(s[first_non_digit(s, i)]),
        all_digits(s.subrange(i, first_non_digit(s, i))),
    decreases s.len() - i,
{
    if i < s.len() && is_digit(s[i]) {
        lemma_first_non_digit_range(s, i + 1);
        let j = first_non_digit(s, i);
        assert forall|t: int| 0 <= t < j - i implies is_digit(#[trigger] s.subrange(i, j)[t]) by {
            if t > 0 {
                assert(s.subrange(i, j)[t] == s.subrange(i + 1, j)[t - 1]);
            }
        }
    }
}

/// Reads the digits of `s` from `from` on: the first `k` of them as a number
/// and how many were taken, or `None` when one is not a digit.
fn scan_fraction(s: &[char], from: usize, k: u32) -> (r: Option<(u128, u32)>)
    requires
        from <= s@.len(),
        k <= 9,
    ensures
        r is Some <==> all_digits(s@.subrange(from as int, s@.len() as int)),
        r matches Some((frac, m)) ==> {
            let f = s@.subrange(from as int, s@.len() as int);
            &&& m == (if f.len() < k {
                f.len() as int
            } else {
                k as int
            })
            &&& frac == digits_value(f.take(m as int))
            &&& frac < pow10(m as nat)
        },
{
    let n = s.len();
    let ghost f = s@.subrange(from as int, n as int);
    let mut i = from;
    let mut frac: u128 = 0;
    let mut m: u32 = 0;
    while i < n
        invariant
            from <= i <= n == s@.len(),
            f == s@.subrange(from as int, n as int),
            all_digits(f.take(i - from)),
            m <= k <= 9,
            m == (if i - from < k {
                i - from
            } else {
                k as int
            }),
            frac == digits_value(f.take(m as int)),
            frac < pow10(m as nat),
        decreases n - i,
    {
        if !is_digit_char(s[i]) {
            assert(f[i - from] == s@[i as int]);
            return None;
        }
        if m < k {
            let d = digit_u128(s[i]);
            proof {
                assert(f.take(m + 1).drop_last() =~= f.take(m as int));
                assert(f.take(m + 1).last() == s@[i as int]);
                lemma_pow10_bound(m as nat);
            }
            frac = frac * 10 + d;
            m = m + 1;
        }
        i = i + 1;
        assert(all_digits(f.take(i - from))) by {
            assert forall|t: int| 0 <= t < i - from implies is_digit(#[trigger] f.take(i - from)[t]) by {
                if t < i - from - 1 {
                    assert(f.take(i - from)[t] == f.take(i - from - 1)[t]);
                } else {
                    assert(f[t] == s@[i - 1]);
                }
            }
        }
    }
    assert(f.take(i - from) =~= f);
    Some((frac, m))
}

proof fn lemma_value_too_large(b: Seq<char>, i: int, k: nat)
    requires
        0 <= i <= b.len(),
        all_digits(b.take(i)),
        digits_value(b.take(i)) > 10_000_000_000_000_000_000int,
    ensures
        unsigned_decimal(b, k) is None || unsigned_decimal(b, k)->0 > 10_000_000_000_000_000_000int,
{
    let j = first_non_digit(b, 0);
    lemma_first_non_digit_skip(b, i);
    lemma_first_non_digit_range(b, i);
    lemma_pow10_bound_any(k);
    if j == b.len() {
        assert(b.take(j) =~= b);
        all_digits_take(b, j);
        lemma_digits_value_prefix(b, i, j);
        assert(digits_value(b) * pow10(k) >= digits_value(b)) by (nonlinear_arith)
            requires
                digits_value(b) >= 0,
                pow10(k) >= 1,
        ;
    } else if b[j] == '.' && all_digits(b.skip(j + 1)) && b.len() > 1 {
        all_digits_take(b, j);
        lemma_digits_value_prefix(b, i, j);
        lemma_frac_nonneg(b.skip(j + 1), k);
        assert(digits_value(b.take(j)) * pow10(k) >= digits_value(b.take(j))) by (nonlinear_arith)
            requires
                digits_value(b.take(j)) >= 0,
                pow10(k) >= 1,
        ;
    }
}

proof fn lemma_pow10_bound_any(k: nat)
    ensures
        pow10(k) >= 1,
    decreases k,
{
    if k > 0 {
        lemma_pow10_bound_any((k - 1) as nat);
    }
}

proof fn all_digits_take(s: Seq<char>, j: int)
    requires
        0 <= j <= s.len(),
        first_non_digit(s, 0) >= j,
    ensures
        all_digits(s.take(j)),
{
    lemma_first_non_digit_range(s, 0);
    let e = first_non_digit(s, 0);
    assert forall|t: int| 0 <= t < j implies is_digit(#[trigger] s.take(j)[t]) by {
        assert(s.take(j)[t] == s.subrange(0, e)[t]);
    }
}

proof fn lemma_frac_nonneg(f: Seq<char>, k: nat)
    requires
        all_digits(f),
    ensures
        frac_value(f, k) >= 0,
{
    let m = if f.len() < k {
        f.len()
    } else {
        k
    };
    assert(all_digits(f.take(m as int))) by {
        assert forall|t: int| 0 <= t < m implies is_digit(#[trigger] f.take(m as int)[t]) by {
            assert(f.take(m as int)[t] == f[t]);
        }
    }
    lemma_digits_value_bounds(f.take(m as int));
    assert(digits_value(f.take(m as int)) * pow10((k - m) as nat) >= 0) by (nonlinear_arith)
        requires
            digits_value(f.take(m as int)) >= 0,
    ;
}

proof fn lemma_pow10_split(a: nat, b: nat)
    ensures
        pow10(a + b) == pow10(a) * pow10(b),
    decreases a,
{
    if a > 0 {
        let a1 = (a - 1) as nat;
        lemma_pow10_split(a1, b);
        assert(pow10(a1 + b + 1) == 10 * pow10(a1 + b));
        assert(pow10(a1 + 1) == 10 * pow10(a1));
        assert(a == a1 + 1);
        assert(a + b == a1 + b + 1);
        assert(pow10(a + b) == pow10(a1 + b + 1));
        assert(pow10(a) == pow10(a1 + 1));
        assert(10 * (pow10(a1) * pow10(b)) == (10 * pow10(a1)) * pow10(b)) by (nonlinear_arith);
    } else {
        assert(a + b == b);
        assert(pow10(a) == 1);
    }
}

proof fn lemma_digit_char(d: int)
    requires
        0 <= d < 10,
    ensures
        is_digit(digit_char(d)),
        digit_value(digit_char(d)) == d,
{
}

proof fn lemma_nat_digits(n: nat)
    ensures
        nat_digits(n).len() >= 1,
        all_digits(nat_digits(n)),
        digits_value(nat_digits(n)) == n,
    decreases n,
{
    lemma_digit_char((n % 10) as int);
    if n >= 10 {
        lemma_nat_digits(n / 10);
        let s = nat_digits(n);
        assert(s.drop_last() =~= nat_digits(n / 10));
        assert(s.last() == digit_char((n % 10) as int));
        assert forall|i: int| 0 <= i < s.len() implies is_digit(#[trigger] s[i]) by {
            if i < s.len() - 1 {
                assert(s[i] == nat_digits(n / 10)[i]);
            }
        }
        vstd::arithmetic::div_mod::lemma_fundamental_div_mod(n as int, 10);
        assert(digits_value(s) == digits_value(nat_digits(n / 10)) * 10 + digit_value(s.last()));
    } else {
        lemma_digit_char(n as int);
        let s = nat_digits(n);
        assert(s.drop_last() =~= Seq::<char>::empty());
        assert(digits_value(Seq::<char>::empty()) == 0);
        assert(s.last() == digit_char(n as int));
        assert(n % 10 == n);
        assert(digits_value(s) == digits_value(s.drop_last()) * 10 + digit_value(s.last()));
    }
}

proof fn lemma_padded_digits(n: nat, w: nat)
    ensures
        padded_digits(n, w).len() == w,
        all_digits(padded_digits(n, w)),
        digits_value(padded_digits(n, w)) == n % pow10(w),
    decreases w,
{
    if w > 0 {
        let w1 = (w - 1) as nat;
        lemma_padded_digits(n / 10, w1);
        lemma_digit_char((n % 10) as int);
        let s = padded_digits(n, w);
        assert(s.drop_last() =~= padded_digits(n / 10, w1));
        assert forall|i: int| 0 <= i < s.len() implies is_digit(#[trigger] s[i]) by {
            if i < s.len() - 1 {
                assert(s[i] == padded_digits(n / 10, w1)[i]);
            }
        }
        lemma_pow10_bound_any(w1);
        vstd::arithmetic::div_mod::lemma_breakdown(n as int, 10, pow10(w1) as int);
        assert(pow10(w) == 10 * pow10(w1));
    } else {
        assert(n % 1 == 0);
    }
}

/// The text that `decimal_string(v, 0, p)` writes reads back through
/// `parse_decimal(_, p)` as `v`: numbers written with all their digits
/// survive a round through text.
pub proof fn lemma_decimal_text_reads_back(v: i64, p: nat)
    requires
        p <= 9,
    ensures
        decimal_i64(decimal_text(v as int, 0, p), p) == Some(v),
{
    let q = round_div(abs(v as int), pow10(0));
    assert(pow10(0) == 1);
    assert(pow10(0) / 2 == 0);
    assert(q == (abs(v as int) + 0) / 1);
    assert((abs(v as int) + 0) / 1 == abs(v as int)) by (nonlinear_arith);
    assert(q == abs(v as int));
    lemma_pow10_bound(p);
    let w = q / pow10(p);
    let f = q % pow10(p);
    lemma_nat_digits(w);
    lemma_padded_digits(f, p);
    let whole = nat_digits(w);
    let b = if p == 0 {
        whole
    } else {
        whole + seq!['.'] + padded_digits(f, p)
    };
    let sign = if v < 0 {
        seq!['-']
    } else {
        Seq::<char>::empty()
    };
    let t = decimal_text(v as int, 0, p);
    assert(t =~= sign + b);
    assert(is_digit(b[0]));
    let j = whole.len() as int;
    assert(b.take(j) =~= whole);
    lemma_first_non_digit_skip(b, j);
    if p == 0 {
        assert(b =~= whole);
        assert(first_non_digit(b, j) == b.len());
        assert(q / 1 == q) by (nonlinear_arith);
        assert(w == q);
        assert(digits_value(b) == w);
        assert(first_non_digit(b, 0) == b.len());
        assert(digits_value(b) * pow10(p) == q);
        assert(unsigned_decimal(b, p) == Some(q as int));
    } else {
        assert(b[j] == '.');
        assert(first_non_digit(b, j) == j);
        let fr = b.skip(j + 1);
        assert(fr =~= padded_digits(f, p));
        assert(fr.take(p as int) =~= fr);
        assert(pow10((p - p) as nat) == 1);
        lemma_pow10_bound_any(p);
        assert(f < pow10(p)) by {
            vstd::arithmetic::div_mod::lemma_mod_bound(q as int, pow10(p) as int);
        }
        assert(f % pow10(p) == f) by {
            vstd::arithmetic::div_mod::lemma_small_mod(f, pow10(p));
        }
        assert(fr.len() == p);
        assert(digits_value(fr.take(p as int)) == f);
        assert(digits_value(fr.take(p as int)) * pow10((p - p) as nat) == f);
        assert(frac_value(fr, p) == f);
        vstd::arithmetic::div_mod::lemma_fundamental_div_mod(q as int, pow10(p) as int);
        assert(w * pow10(p) + f == q) by (nonlinear_arith)
            requires
                q == pow10(p) * (q / pow10(p)) + q % pow10(p),
                w == q / pow10(p),
                f == q % pow10(p),
        ;
        assert(unsigned_decimal(b, p) == Some(q as int));
    }
    if v < 0 {
        assert(t[0] == '-');
        assert(t.drop_first() =~= b);
    } else {
        assert(t =~= b);
        assert(t[0] != '-' && t[0] != '+');
    }
}

} // verus!
