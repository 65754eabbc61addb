//! Decimal numbers as `str::parse::<f64>` accepts them, read exactly: a
//! number of seconds becomes a whole number of units of 10^-18 seconds.
use crate::text::{
    all_digits, all_zeros, digits_value, find_char, first_index_of, is_digit,
    lemma_digits_bound, lemma_digits_concat, lemma_digits_last_nonzero, lemma_digits_lead,
    lemma_digits_zeros, lemma_first_index_at, lemma_first_index_none, lemma_pow10_adds,
    lemma_pow10_increases, lemma_pow10_positive, pow10,
};
use crate::time::TimeError;
use vstd::arithmetic::div_mod::{lemma_fundamental_div_mod, lemma_fundamental_div_mod_converse};
use vstd::prelude::*;

verus! {

/// Units of 10^-18 seconds in one second.
pub open spec fn units_per_second() -> int {
    pow10(18) as int
}

/// The bound (exclusive) on the magnitude of one field, in units.
pub open spec fn unit_bound() -> int {
    pow10(33) as int
}

/// A number as `str::parse::<f64>` reads it, before any rounding: a finite
/// decimal `±digits × 10^exponent`, an infinity, or not-a-number.
pub enum Decimal {
    Finite { negative: bool, digits: nat, exponent: int },
    Infinite { negative: bool },
    NotANumber,
}

/// `c`, with an ASCII capital letter taken to its small letter.
pub open spec fn ascii_lower(c: char) -> char {
    if 'A' <= c && c <= 'Z' {
        ((c as int) + 32) as char
    } else {
        c
    }
}

/// `s` spells `word` (in small letters), ignoring ASCII case.
pub open spec fn spells(s: Seq<char>, word: Seq<char>) -> bool {
    s.len() == word.len() && forall|i: int| 0 <= i < s.len() ==> ascii_lower(#[trigger] s[i]) == word[i]
}

pub open spec fn word_inf() -> Seq<char> {
    seq!['i', 'n', 'f']
}

pub open spec fn word_infinity() -> Seq<char> {
    seq!['i', 'n', 'f', 'i', 'n', 'i', 't', 'y']
}

pub open spec fn word_nan() -> Seq<char> {
    seq!['n', 'a', 'n']
}

pub open spec fn is_exp_marker(c: char) -> bool {
    c == 'e' || c == 'E'
}

/// The first position of an exponent marker (`e` or `E`) in `s`.
pub closed spec fn first_exp_marker(s: Seq<char>) -> Option<int> {
    if exists|i: int| 0 <= i < s.len() && is_exp_marker(s[i]) {
        Some(
            choose|i: int|
                0 <= i < s.len() && is_exp_marker(s[i]) && forall|j: int|
                    0 <= j < i ==> !is_exp_marker(s[j]),
        )
    } else {
        None
    }
}

/// `s` without a leading `+` or `-`.
pub open spec fn unsigned_part(s: Seq<char>) -> Seq<char> {
    if s.len() > 0 && (s[0] == '+' || s[0] == '-') {
        s.skip(1)
    } else {
        s
    }
}

/// An exponent: an optional sign and one or more decimal digits.
#[verifier::opaque]
pub open spec fn exponent_syntax(s: Seq<char>) -> Option<int> {
    let d = unsigned_part(s);
    if d.len() > 0 && all_digits(d) {
        if s[0] == '-' {
            Some(-(digits_value(d) as int))
        } else {
            Some(digits_value(d) as int)
        }
    } else {
        None
    }
}

/// Where the mantissa of `body` ends: at the first exponent marker, or at the end.
pub open spec fn mantissa_end(body: Seq<char>) -> int {
    match first_exp_marker(body) {
        Some(i) => i,
        None => body.len() as int,
    }
}

/// Where the whole-number digits of a mantissa end: at the first `.`, or at the end.
pub open spec fn point_at(mant: Seq<char>) -> int {
    match first_index_of(mant, '.') {
        Some(i) => i,
        None => mant.len() as int,
    }
}

/// The fraction digits of a mantissa: what follows its first `.`.
pub open spec fn fraction_part(mant: Seq<char>) -> Seq<char> {
    if point_at(mant) < mant.len() {
        mant.skip(point_at(mant) + 1)
    } else {
        Seq::empty()
    }
}

/// What `str::parse::<f64>` accepts, with the exact number it writes:
/// an optional sign, then `inf`, `infinity` or `nan` in any ASCII case, or
/// digits with at most one `.` and at least one digit, followed by an optional
/// exponent (`e` or `E`, an optional sign, one or more digits).
pub open spec fn decimal_syntax(s: Seq<char>) -> Option<Decimal> {
    let negative = s.len() > 0 && s[0] == '-';
    let body = unsigned_part(s);
    if spells(body, word_inf()) || spells(body, word_infinity()) {
        Some(Decimal::Infinite { negative })
    } else if spells(body, word_nan()) {
        Some(Decimal::NotANumber)
    } else {
        number_syntax(negative, body)
    }
}

/// A finite decimal from its whole digits, its fraction digits and its
/// exponent: at least one digit, and every one a decimal digit.
#[verifier::opaque]
pub open spec fn finite_from_parts(negative: bool, whole: Seq<char>, frac: Seq<char>, exponent: Option<
    int,
>) -> Option<Decimal> {
    if all_digits(whole) && all_digits(frac) && whole.len() + frac.len() > 0 && exponent is Some {
        Some(
            Decimal::Finite {
                negative,
                digits: digits_value(whole + frac),
                exponent: exponent.unwrap() - frac.len(),
            },
        )
    } else {
        None
    }
}

/// A finite number after its sign: a mantissa and an optional exponent.
#[verifier::opaque]
pub open spec fn number_syntax(negative: bool, body: Seq<char>) -> Option<Decimal> {
    let m = mantissa_end(body);
    let mant = body.take(m);
    let exponent = if m < body.len() {
        exponent_syntax(body.skip(m + 1))
    } else {
        Some(0int)
    };
    finite_from_parts(negative, mant.take(point_at(mant)), fraction_part(mant), exponent)
}

/// A finite decimal as a whole number of units of 10^-18, when it is one
/// and its magnitude is below 10^33; an infinity or not-a-number is none.
#[verifier::opaque]
pub open spec fn decimal_units(d: Decimal) -> Result<int, TimeError> {
    match d {
        Decimal::Finite { negative, digits, exponent } => {
            let e = exponent + 18;
            let top: int = if e >= 0 {
                (digits * pow10(e as nat)) as int
            } else {
                digits as int
            };
            let bottom: int = if e >= 0 {
                1
            } else {
                pow10((-e) as nat) as int
            };
            if top % bottom == 0 && top / bottom < unit_bound() {
                Ok(
                    if negative {
                        -(top / bottom)
                    } else {
                        top / bottom
                    },
                )
            } else {
                Err(TimeError::OutOfRange)
            }
        },
        _ => Err(TimeError::OutOfRange),
    }
}

/// A field of seconds as units: `None` when it is not a number at all.
pub open spec fn seconds_units(s: Seq<char>) -> Option<Result<int, TimeError>> {
    match decimal_syntax(s) {
        Some(d) => Some(decimal_units(d)),
        None => None,
    }
}

/// An amount of seconds as floating point holds it: a whole number of units
/// of 10^-18 seconds, an infinity, or not-a-number.
#[derive(Clone, Copy, Debug, PartialEq, Eq, Structural)]
pub enum Seconds {
    Units(i128),
    Infinite { negative: bool },
    NotANumber,
}

/// A field of seconds as `str::parse::<f64>` reads it: `None` when it is
/// not a number; an infinity or not-a-number as such; a finite number as its
/// units, or `OutOfRange` when they cannot be held.
pub open spec fn field_value(s: Seq<char>) -> Option<Result<Seconds, TimeError>> {
    match decimal_syntax(s) {
        None => None,
        Some(Decimal::Infinite { negative }) => Some(Ok(Seconds::Infinite { negative })),
        Some(Decimal::NotANumber) => Some(Ok(Seconds::NotANumber)),
        Some(d) => match decimal_units(d) {
            Ok(u) => Some(Ok(Seconds::Units(u as i128))),
            Err(e) => Some(Err(e)),
        },
    }
}


/// Where a magnitude `d·10^t` with `d` of `l` digits stands against `10^33`.
proof fn lemma_scaled_bound(d: nat, l: nat, t: nat)
    requires
        l >= 1,
        pow10((l - 1) as nat) <= d < pow10(l),
    ensures
        (d * pow10(t) < pow10(33)) <==> (l + t <= 33),
{
    lemma_pow10_adds(l, t);
    lemma_pow10_adds((l - 1) as nat, t);
    lemma_pow10_positive(t);
    let p = pow10(t);
    assert(d * p < pow10(l) * p) by (nonlinear_arith)
        requires
            d < pow10(l),
            p >= 1,
    ;
    assert(d * p >= pow10((l - 1) as nat) * p) by (nonlinear_arith)
        requires
            d >= pow10((l - 1) as nat),
            p >= 1,
    ;
    if l + t <= 33 {
        lemma_pow10_increases(l + t, 33);
    } else {
        lemma_pow10_increases(33, (l - 1 + t) as nat);
    }
}

/// The units of a finite decimal `±d·10^(tz)·10^e`, where `d` has `l` digits
/// and does not end in zero: the decimal is a whole number of units exactly
/// when `t = tz + e + 18` is not negative, and then it is `d·10^t` units.
proof fn lemma_units_significant(negative: bool, d: nat, l: nat, tz: nat, e: int)
    requires
        l >= 1,
        pow10((l - 1) as nat) <= d < pow10(l),
        d % 10 != 0,
    ensures
        ({
            let t = tz + e + 18;
            decimal_units(Decimal::Finite { negative, digits: d * pow10(tz), exponent: e }) == if t
                >= 0 && l + t <= 33 {
                Ok(
                    if negative {
                        -(d * pow10(t as nat))
                    } else {
                        d * pow10(t as nat) as int
                    },
                )
            } else {
                Err(TimeError::OutOfRange)
            }
        }),
{
    reveal(decimal_units);
    let t = tz + e + 18;
    let shift = e + 18;
    let n: int = (d * pow10(tz)) as int;
    lemma_pow10_positive(tz);
    if shift >= 0 {
        lemma_pow10_adds(tz, shift as nat);
        assert(n * pow10(shift as nat) == d * pow10(t as nat)) by (nonlinear_arith)
            requires
                n == d * pow10(tz),
                pow10(t as nat) == pow10(tz) * pow10(shift as nat),
        ;
        lemma_scaled_bound(d, l, t as nat);
    } else if t >= 0 {
        let k = (-shift) as nat;
        lemma_pow10_adds(t as nat, k);
        lemma_pow10_positive(k);
        let q = d * pow10(t as nat);
        assert(n == q * pow10(k)) by (nonlinear_arith)
            requires
                n == d * pow10(tz),
                pow10(tz) == pow10(t as nat) * pow10(k),
                q == d * pow10(t as nat),
        ;
        vstd::arithmetic::div_mod::lemma_fundamental_div_mod_converse(n, pow10(k) as int, q as int, 0);
        lemma_scaled_bound(d, l, t as nat);
    } else {
        let k = (-shift) as nat;
        let extra = (k - tz) as nat;
        lemma_pow10_adds(tz, extra);
        lemma_pow10_positive(k);
        lemma_pow10_positive((extra - 1) as nat);
        let pk: int = pow10(k) as int;
        if n % pk == 0 {
            let q = n / pk;
            vstd::arithmetic::div_mod::lemma_fundamental_div_mod(n, pk);
            let pt = pow10(tz);
            let pe = pow10(extra);
            assert(d == q * pe) by (nonlinear_arith)
                requires
                    n == d * pt,
                    n == pk * q,
                    pk == pt * pe,
                    pt >= 1,
            ;
            let p1 = pow10((extra - 1) as nat);
            assert(pe == 10 * p1);
            assert(d == (q * p1) * 10 + 0) by (nonlinear_arith)
                requires
                    d == q * pe,
                    pe == 10 * p1,
            ;
            vstd::arithmetic::div_mod::lemma_fundamental_div_mod_converse(
                d as int,
                10,
                q * pow10((extra - 1) as nat),
                0,
            );
            assert(false);
        }
    }
}


/// Digits with a first and a last non-zero digit write the digits between
/// them, shifted left by the zeros that follow.
proof fn lemma_significant(w: Seq<char>, f: int, l: int)
    requires
        all_digits(w),
        0 <= f <= l < w.len(),
        forall|i: int| 0 <= i < f ==> #[trigger] w[i] == '0',
        forall|i: int| l < i < w.len() ==> #[trigger] w[i] == '0',
    ensures
        digits_value(w) == digits_value(w.subrange(f, l + 1)) * pow10((w.len() - 1 - l) as nat),
{
    let lead = w.take(f);
    let mid = w.subrange(f, l + 1);
    let tail = w.skip(l + 1);
    assert(w =~= (lead + mid) + tail);
    assert forall|i: int| 0 <= i < lead.len() implies #[trigger] lead[i] == '0' by {
        assert(lead[i] == w[i]);
    }
    assert forall|i: int| 0 <= i < tail.len() implies #[trigger] tail[i] == '0' by {
        assert(tail[i] == w[l + 1 + i]);
    }
    lemma_digits_zeros(lead);
    lemma_digits_zeros(tail);
    lemma_digits_concat(lead + mid, tail);
    lemma_digits_concat(lead, mid);
    lemma_pow10_positive(mid.len());
    assert(0 * pow10(mid.len()) == 0) by (nonlinear_arith);
}

/// `c` with an ASCII capital letter taken to its small letter.
fn lower_char(c: char) -> (r: char)
    ensures
        r == ascii_lower(c),
{
    if 'A' <= c && c <= 'Z' {
        let b = c as u8;
        assert(b == c as int);
        (b + 32) as char
    } else {
        c
    }
}

/// Whether `v[lo..hi]` spells `word`, ignoring ASCII case.
fn spells_range(v: &Vec<char>, lo: usize, hi: usize, word: &Vec<char>) -> (r: bool)
    requires
        lo <= hi <= v.len(),
    ensures
        r == spells(v@.subrange(lo as int, hi as int), word@),
{
    let ghost s = v@.subrange(lo as int, hi as int);
    if hi - lo != word.len() {
        return false;
    }
    let mut i: usize = 0;
    while i < word.len()
        invariant
            hi - lo == word.len(),
            lo <= hi <= v.len(),
            s == v@.subrange(lo as int, hi as int),
            i <= word.len(),
            forall|j: int| 0 <= j < i ==> ascii_lower(#[trigger] s[j]) == word@[j],
        decreases word.len() - i,
    {
        if lower_char(v[lo + i]) != word[i] {
            assert(ascii_lower(s[i as int]) != word@[i as int]);
            return false;
        }
        i = i + 1;
    }
    true
}

/// The first position of an exponent marker in `v[lo..hi]`, counted from `lo`.
fn find_exp_marker(v: &Vec<char>, lo: usize, hi: usize) -> (r: Option<usize>)
    requires
        lo <= hi <= v.len(),
    ensures
        match r {
            Some(k) => first_exp_marker(v@.subrange(lo as int, hi as int)) == Some(k as int) && k
                < hi - lo,
            None => first_exp_marker(v@.subrange(lo as int, hi as int)) == None::<int>,
        },
{
    let ghost s = v@.subrange(lo as int, hi as int);
    let mut j: usize = lo;
    while j < hi
        invariant
            lo <= j <= hi <= v.len(),
            s == v@.subrange(lo as int, hi as int),
            forall|k: int| 0 <= k < j - lo ==> !is_exp_marker(#[trigger] s[k]),
        decreases hi - j,
    {
        if v[j] == 'e' || v[j] == 'E' {
            proof {
                let i = (j - lo) as int;
                assert(is_exp_marker(s[i]));
                let k = choose|k: int|
                    0 <= k < s.len() && is_exp_marker(s[k]) && forall|m: int|
                        0 <= m < k ==> !is_exp_marker(s[m]);
                if k < i {
                    assert(!is_exp_marker(s[k]));
                } else if k > i {
                    assert(!is_exp_marker(s[i]));
                }
            }
            return Some(j - lo);
        }
        j = j + 1;
    }
    None
}

/// Exponents of this magnitude or more are out of range whatever the digits.
pub open spec fn exponent_cap() -> int {
    1_000_000_000_000_000_000_000_000_000_000
}

/// An exponent `v[lo..hi]` (an optional sign and digits), with its magnitude
/// capped at `exponent_cap()`.
fn exponent_capped(v: &Vec<char>, lo: usize, hi: usize) -> (r: Option<i128>)
    requires
        lo <= hi <= v.len(),
    ensures
        match r {
            None => exponent_syntax(v@.subrange(lo as int, hi as int)) is None,
            Some(x) => exponent_syntax(v@.subrange(lo as int, hi as int)) is Some && ({
                let e = exponent_syntax(v@.subrange(lo as int, hi as int)).unwrap();
                &&& -exponent_cap() < e < exponent_cap() ==> x == e
                &&& e >= exponent_cap() ==> x == exponent_cap()
                &&& e <= -exponent_cap() ==> x == -exponent_cap()
            }),
        },
{
    reveal(exponent_syntax);
    let ghost s = v@.subrange(lo as int, hi as int);
    let negative = lo < hi && v[lo] == '-';
    let start = if lo < hi && (v[lo] == '+' || v[lo] == '-') {
        lo + 1
    } else {
        lo
    };
    let ghost d = v@.subrange(start as int, hi as int);
    assert(d =~= unsigned_part(s));
    if start == hi {
        return None;
    }
    let cap: u128 = 1_000_000_000_000_000_000_000_000_000_000;
    let mut acc: u128 = 0;
    let mut j: usize = start;
    while j < hi
        invariant
            lo <= start <= j <= hi <= v.len(),
            s == v@.subrange(lo as int, hi as int),
            d == v@.subrange(start as int, hi as int),
            d == unsigned_part(s),
            cap == exponent_cap(),
            all_digits(d.take(j - start)),
            acc == if digits_value(d.take(j - start)) < cap {
                digits_value(d.take(j - start)) as int
            } else {
                cap as int
            },
        decreases hi - j,
    {
        let c = v[j];
        assert(c == d[j - start]);
        if !('0' <= c && c <= '9') {
            assert(!all_digits(d));
            proof {
                reveal(exponent_syntax);
            }
            return None;
        }
        let dv = (c as u32 - '0' as u32) as u128;
        proof {
            crate::text::lemma_digits_take(d, j - start);
        }
        if acc < cap {
            acc = acc * 10 + dv;
            if acc > cap {
                acc = cap;
            }
        }
        proof {
            assert forall|i: int| 0 <= i < j + 1 - start implies is_digit(
                #[trigger] d.take(j + 1 - start)[i],
            ) by {
                if i < j - start {
                    assert(d.take(j + 1 - start)[i] == d.take(j - start)[i]);
                }
            }
        }
        j = j + 1;
    }
    assert(d.take(hi - start) =~= d);
    assert(s[0] == '-' <==> negative);
    if negative {
        Some(-(acc as i128))
    } else {
        Some(acc as i128)
    }
}

/// Ten to the power `t`, for `t` up to 38.
fn pow10_u128(t: u32) -> (r: u128)
    requires
        t <= 38,
    ensures
        r == pow10(t as nat),
{
    let mut r: u128 = 1;
    let mut i: u32 = 0;
    proof {
        lemma_pow10_values();
    }
    while i < t
        invariant
            i <= t <= 38,
            r == pow10(i as nat),
            pow10(38) == 100000000000000000000000000000000000000,
        decreases t - i,
    {
        proof {
            lemma_pow10_increases((i + 1) as nat, 38);
        }
        r = r * 10;
        i = i + 1;
    }
    r
}


/// Whether `v[lo..hi]` is all decimal digits.
fn digits_range(v: &Vec<char>, lo: usize, hi: usize) -> (r: bool)
    requires
        lo <= hi <= v.len(),
    ensures
        r == all_digits(v@.subrange(lo as int, hi as int)),
{
    let ghost s = v@.subrange(lo as int, hi as int);
    let mut j = lo;
    while j < hi
        invariant
            lo <= j <= hi <= v.len(),
            s == v@.subrange(lo as int, hi as int),
            forall|i: int| 0 <= i < j - lo ==> is_digit(#[trigger] s[i]),
        decreases hi - j,
    {
        if !('0' <= v[j] && v[j] <= '9') {
            assert(!is_digit(s[j - lo]));
            return false;
        }
        j = j + 1;
    }
    true
}

/// Appends `v[lo..hi]` to `w`.
fn append_range(w: &mut Vec<char>, v: &Vec<char>, lo: usize, hi: usize)
    requires
        lo <= hi <= v.len(),
    ensures
        final(w)@ == old(w)@ + v@.subrange(lo as int, hi as int),
{
    let mut j = lo;
    while j < hi
        invariant
            lo <= j <= hi <= v.len(),
            w@ == old(w)@ + v@.subrange(lo as int, j as int),
        decreases hi - j,
    {
        w.push(v[j]);
        j = j + 1;
        assert(w@ =~= old(w)@ + v@.subrange(lo as int, j as int));
    }
}

/// A field's outcome with its units taken as integers.
pub open spec fn units_view(r: Option<Result<i128, TimeError>>) -> Option<Result<int, TimeError>> {
    match r {
        None => None,
        Some(Ok(x)) => Some(Ok(x as int)),
        Some(Err(e)) => Some(Err(e)),
    }
}

/// The digits `w[f..=l]` as a number, for at most 33 digits.
fn significant_value(w: &Vec<char>, f: usize, l: usize) -> (r: u128)
    requires
        f <= l < w.len(),
        l - f < 33,
        all_digits(w@.subrange(f as int, l + 1)),
    ensures
        r == digits_value(w@.subrange(f as int, l + 1)),
{
    let ghost ds = w@.subrange(f as int, l + 1);
    let mut acc: u128 = 0;
    let mut j = f;
    proof {
        lemma_pow10_values();
        assert(ds.take(0) =~= Seq::<char>::empty());
    }
    while j <= l
        invariant
            f <= j <= l + 1,
            l < w.len(),
            l - f < 33,
            ds == w@.subrange(f as int, l + 1),
            all_digits(ds),
            acc == digits_value(ds.take(j - f)),
            pow10(32) == 100000000000000000000000000000000,
        decreases l + 1 - j,
    {
        let c = w[j];
        assert(c == ds[j - f]);
        assert(is_digit(ds[j - f]));
        proof {
            crate::text::lemma_digits_take(ds, j - f);
            let pre = ds.take(j - f);
            assert forall|i: int| 0 <= i < pre.len() implies is_digit(#[trigger] pre[i]) by {
                assert(pre[i] == ds[i]);
            }
            lemma_digits_bound(pre);
            lemma_pow10_increases(pre.len(), 32);
        }
        acc = acc * 10 + (c as u32 - '0' as u32) as u128;
        j = j + 1;
    }
    assert(ds.take(l + 1 - f) =~= ds);
    acc
}

pub proof fn lemma_pow10_values()
    ensures
        pow10(15) == 1_000_000_000_000_000,
        pow10(18) == 1_000_000_000_000_000_000,
        pow10(32) == 100000000000000000000000000000000,
        pow10(33) == 1000000000000000000000000000000000,
        pow10(38) == 100000000000000000000000000000000000000,
{
    reveal_with_fuel(pow10, 39);
}

/// The units of the finite decimal `±digits(w)·10^(e - flen)`, given the
/// exponent `e` capped at `exponent_cap()`.
fn finite_units(w: &Vec<char>, negative: bool, e: i128, flen: usize, Ghost(e_true): Ghost<int>) -> (r:
    Result<i128, TimeError>)
    requires
        all_digits(w@),
        -exponent_cap() < e_true < exponent_cap() ==> e == e_true,
        e_true >= exponent_cap() ==> e == exponent_cap(),
        e_true <= -exponent_cap() ==> e == -exponent_cap(),
        -exponent_cap() <= e <= exponent_cap(),
    ensures
        units_view(Some(r)) == Some(
            decimal_units(
                Decimal::Finite { negative, digits: digits_value(w@), exponent: e_true - flen },
            ),
        ),
{
    let ghost ws = w@;
    let ghost exp_true = e_true - flen;
    let n = w.len();
    let mut f: usize = 0;
    while f < n && w[f] == '0'
        invariant
            f <= n == w.len(),
            forall|i: int| 0 <= i < f ==> #[trigger] w@[i] == '0',
        decreases n - f,
    {
        f = f + 1;
    }
    if f == n {
        proof {
            reveal(decimal_units);
            assert(all_zeros(ws));
            lemma_digits_zeros(ws);
            let sh = exp_true + 18;
            if sh >= 0 {
                assert(0 * pow10(sh as nat) == 0) by (nonlinear_arith);
            } else {
                lemma_pow10_positive((-sh) as nat);
                vstd::arithmetic::div_mod::lemma_fundamental_div_mod_converse(
                    0,
                    pow10((-sh) as nat) as int,
                    0,
                    0,
                );
            }
            lemma_pow10_positive(33);
        }
        return Ok(0);
    }
    let mut l: usize = n - 1;
    while w[l] == '0'
        invariant
            f <= l < n == w.len(),
            w@[f as int] != '0',
            forall|i: int| l < i < n ==> #[trigger] w@[i] == '0',
        decreases l,
    {
        l = l - 1;
    }
    let big_l: usize = l - f + 1;
    let tz: usize = n - 1 - l;
    let t: i128 = tz as i128 + e - flen as i128 + 18;
    let ghost ds = ws.subrange(f as int, l + 1);
    proof {
        lemma_significant(ws, f as int, l as int);
        assert forall|i: int| 0 <= i < ds.len() implies is_digit(#[trigger] ds[i]) by {
            assert(ds[i] == ws[f + i]);
        }
        assert(ds[0] == ws[f as int]);
        assert(ds.last() == ws[l as int]);
        lemma_digits_lead(ds);
        lemma_digits_bound(ds);
        lemma_digits_last_nonzero(ds);
        lemma_units_significant(negative, digits_value(ds), big_l as nat, tz as nat, exp_true);
    }
    if t < 0 || big_l as i128 + t > 33 {
        return Err(TimeError::OutOfRange);
    }
    assert(t == tz + exp_true + 18);
    let d = significant_value(w, f, l);
    let p = pow10_u128(t as u32);
    proof {
        lemma_scaled_bound(d as nat, big_l as nat, t as nat);
        lemma_pow10_values();
    }
    let q = d * p;
    if negative {
        Ok(-(q as i128))
    } else {
        Ok(q as i128)
    }
}

/// `number_syntax` with the mantissa end `m` and the point `dot` found.
proof fn lemma_number_parts(negative: bool, body: Seq<char>, m: int, dot: int)
    requires
        m == mantissa_end(body),
        dot == point_at(body.take(m)),
        0 <= dot <= m <= body.len(),
    ensures
        number_syntax(negative, body) == finite_from_parts(
            negative,
            body.subrange(0, dot),
            if dot < m {
                body.subrange(dot + 1, m)
            } else {
                Seq::<char>::empty()
            },
            if m < body.len() {
                exponent_syntax(body.subrange(m + 1, body.len() as int))
            } else {
                Some(0int)
            },
        ),
{
    reveal(number_syntax);
    let mant = body.take(m);
    assert(mant.take(dot) =~= body.subrange(0, dot));
    if dot < m {
        assert(fraction_part(mant) =~= body.subrange(dot + 1, m));
    }
    if m < body.len() {
        assert(body.skip(m + 1) =~= body.subrange(m + 1, body.len() as int));
    }
}

/// Where the mantissa of `v[b..hi]` ends, and where its point is.
fn mantissa_bounds(v: &Vec<char>, b: usize, hi: usize) -> (r: (usize, usize))
    requires
        b <= hi <= v.len(),
    ensures
        b <= r.1 <= r.0 <= hi,
        r.0 - b == mantissa_end(v@.subrange(b as int, hi as int)),
        r.1 - b == point_at(v@.subrange(b as int, hi as int).take(r.0 - b)),
{
    let ghost body = v@.subrange(b as int, hi as int);
    let m = match find_exp_marker(v, b, hi) {
        Some(k) => b + k,
        None => hi,
    };
    let dot = match find_char(v, b, m, '.') {
        Some(k) => b + k,
        None => m,
    };
    assert(v@.subrange(b as int, m as int) =~= body.take(m - b));
    (m, dot)
}

/// The units of the finite decimal with whole digits `v[b..dot]`, fraction
/// digits `v[fs..m]` and exponent `v[m+1..hi]` (when `m < hi`).
fn parts_field(v: &Vec<char>, negative: bool, b: usize, dot: usize, fs: usize, m: usize, hi: usize) -> (r:
    Option<Result<i128, TimeError>>)
    requires
        b <= dot <= fs <= m <= hi <= v.len(),
    ensures
        units_view(r) == match finite_from_parts(
            negative,
            v@.subrange(b as int, dot as int),
            v@.subrange(fs as int, m as int),
            if m < hi {
                exponent_syntax(v@.subrange(m + 1, hi as int))
            } else {
                Some(0int)
            },
        ) {
            Some(d) => Some(decimal_units(d)),
            None => None,
        },
{
    reveal(finite_from_parts);
    let ghost whole = v@.subrange(b as int, dot as int);
    let ghost frac = v@.subrange(fs as int, m as int);
    if !digits_range(v, b, dot) || !digits_range(v, fs, m) || (dot - b) + (m - fs) == 0 {
        return None;
    }
    let exponent = if m < hi {
        exponent_capped(v, m + 1, hi)
    } else {
        Some(0i128)
    };
    let e = match exponent {
        Some(e) => e,
        None => {
            return None;
        },
    };
    let mut w: Vec<char> = Vec::new();
    append_range(&mut w, v, b, dot);
    append_range(&mut w, v, fs, m);
    assert(w@ =~= whole + frac);
    let ghost e_true = if m < hi {
        exponent_syntax(v@.subrange(m + 1, hi as int)).unwrap()
    } else {
        0int
    };
    assert(all_digits(w@)) by {
        assert forall|i: int| 0 <= i < w@.len() implies is_digit(#[trigger] w@[i]) by {
            if i < whole.len() {
                assert(w@[i] == whole[i]);
            } else {
                assert(w@[i] == frac[i - whole.len()]);
            }
        }
    }
    Some(finite_units(&w, negative, e, m - fs, Ghost(e_true)))
}

/// The parts of `v[b..hi]` as seen from `v` and from the body itself.
proof fn lemma_body_parts(v: Seq<char>, b: int, dot: int, fs: int, m: int, hi: int)
    requires
        0 <= b <= dot <= m <= hi <= v.len(),
        fs == if dot < m {
            dot + 1
        } else {
            m
        },
    ensures
        ({
            let body = v.subrange(b, hi);
            &&& body.subrange(0, dot - b) == v.subrange(b, dot)
            &&& (if dot < m {
                body.subrange(dot + 1 - b, m - b)
            } else {
                Seq::<char>::empty()
            }) == v.subrange(fs, m)
            &&& m < hi ==> body.subrange(m + 1 - b, body.len() as int) == v.subrange(m + 1, hi)
            &&& (m - b < body.len() <==> m < hi)
        }),
{
    let body = v.subrange(b, hi);
    assert(body.subrange(0, dot - b) =~= v.subrange(b, dot));
    if dot < m {
        assert(body.subrange(dot + 1 - b, m - b) =~= v.subrange(fs, m));
    } else {
        assert(Seq::<char>::empty() =~= v.subrange(fs, m));
    }
    if m < hi {
        assert(body.subrange(m + 1 - b, body.len() as int) =~= v.subrange(m + 1, hi));
    }
}

/// The units of the finite number `v[b..hi]` (after its sign): `None` when
/// it is not a number.
fn number_field(v: &Vec<char>, b: usize, hi: usize, negative: bool) -> (r: Option<
    Result<i128, TimeError>,
>)
    requires
        b <= hi <= v.len(),
    ensures
        units_view(r) == match number_syntax(negative, v@.subrange(b as int, hi as int)) {
            Some(d) => Some(decimal_units(d)),
            None => None,
        },
{
    let ghost body = v@.subrange(b as int, hi as int);
    let (m, dot) = mantissa_bounds(v, b, hi);
    let fs = if dot < m {
        dot + 1
    } else {
        m
    };
    let ghost whole_b = body.subrange(0, dot - b);
    let ghost frac_b = if dot < m {
        body.subrange(dot + 1 - b, m - b)
    } else {
        Seq::<char>::empty()
    };
    let ghost exp_b = if m - b < body.len() {
        exponent_syntax(body.subrange(m + 1 - b, body.len() as int))
    } else {
        Some(0int)
    };
    proof {
        lemma_number_parts(negative, body, m - b, dot - b);
        lemma_body_parts(v@, b as int, dot as int, fs as int, m as int, hi as int);
    }
    parts_field(v, negative, b, dot, fs, m, hi)
}

/// The seconds written in `v[lo..hi]`: `None` when it is not a number, as
/// `str::parse::<f64>` would refuse it.
pub fn seconds_field(v: &Vec<char>, lo: usize, hi: usize) -> (r: Option<Result<Seconds, TimeError>>)
    requires
        lo <= hi <= v.len(),
    ensures
        r == field_value(v@.subrange(lo as int, hi as int)),
{
    let ghost s = v@.subrange(lo as int, hi as int);
    let negative = lo < hi && v[lo] == '-';
    let b = if lo < hi && (v[lo] == '+' || v[lo] == '-') {
        lo + 1
    } else {
        lo
    };
    assert(v@.subrange(b as int, hi as int) =~= unsigned_part(s));
    let w_inf = vec!['i', 'n', 'f'];
    let w_infinity = vec!['i', 'n', 'f', 'i', 'n', 'i', 't', 'y'];
    let w_nan = vec!['n', 'a', 'n'];
    assert(w_inf@ =~= word_inf());
    assert(w_infinity@ =~= word_infinity());
    assert(w_nan@ =~= word_nan());
    if spells_range(v, b, hi, &w_inf) || spells_range(v, b, hi, &w_infinity) {
        return Some(Ok(Seconds::Infinite { negative }));
    }
    if spells_range(v, b, hi, &w_nan) {
        return Some(Ok(Seconds::NotANumber));
    }
    let r = number_field(v, b, hi, negative);
    proof {
        reveal(number_syntax);
        reveal(finite_from_parts);
        lemma_field_bound(s);
    }
    match r {
        None => None,
        Some(Ok(u)) => Some(Ok(Seconds::Units(u))),
        Some(Err(e)) => Some(Err(e)),
    }
}


/// A string without exponent markers has its mantissa end at its end.
proof fn lemma_no_exp_marker(s: Seq<char>)
    requires
        forall|j: int| 0 <= j < s.len() ==> !is_exp_marker(#[trigger] s[j]),
    ensures
        mantissa_end(s) == s.len(),
{
    assert(first_exp_marker(s) == None::<int>);
}

/// A field of whole digits writes that many seconds.
pub proof fn lemma_whole_field(x: Seq<char>)
    requires
        all_digits(x),
        x.len() >= 1,
        digits_value(x) < pow10(15),
    ensures
        seconds_units(x) == Some(Ok::<int, TimeError>((digits_value(x) * pow10(18)) as int)),
{
    reveal(decimal_units);
    assert(is_digit(x[0]));
    assert(unsigned_part(x) == x);
    assert(ascii_lower(x[0]) == x[0]);
    assert(!spells(x, word_inf()));
    assert(!spells(x, word_infinity()));
    assert(!spells(x, word_nan()));
    lemma_no_exp_marker(x);
    assert(x.take(x.len() as int) =~= x);
    lemma_first_index_none(x, '.');
    lemma_number_parts(false, x, x.len() as int, x.len() as int);
    reveal(finite_from_parts);
    assert(x.subrange(0, x.len() as int) =~= x);
    assert(x + Seq::<char>::empty() =~= x);
    lemma_pow10_adds(15, 18);
    lemma_pow10_positive(18);
    let v = digits_value(x);
    assert(v * pow10(18) < pow10(15) * pow10(18)) by (nonlinear_arith)
        requires
            v < pow10(15),
            pow10(18) >= 1,
    ;
    assert(v * pow10(18) >= 0) by (nonlinear_arith);
}

/// A field `ss.mmm` writes `ss + mmm/1000` seconds.
pub proof fn lemma_fraction_field(a: Seq<char>, b: Seq<char>)
    requires
        all_digits(a),
        all_digits(b),
        a.len() == 2,
        b.len() == 3,
    ensures
        seconds_units(a + seq!['.'] + b) == Some(
            Ok::<int, TimeError>(((digits_value(a) * 1000 + digits_value(b)) * pow10(15)) as int),
        ),
{
    reveal(decimal_units);
    let x = a + seq!['.'] + b;
    assert(x[0] == a[0]);
    assert(is_digit(x[0]));
    assert(unsigned_part(x) == x);
    assert(!spells(x, word_inf()));
    assert(!spells(x, word_infinity()));
    assert(!spells(x, word_nan()));
    assert forall|j: int| 0 <= j < x.len() implies !is_exp_marker(#[trigger] x[j]) by {
        if j < 2 {
            assert(x[j] == a[j]);
            assert(is_digit(a[j]));
        } else if j > 2 {
            assert(x[j] == b[j - 3]);
            assert(is_digit(b[j - 3]));
        }
    }
    lemma_no_exp_marker(x);
    assert(x.take(6) =~= x);
    assert(x[2] == '.');
    assert(is_digit(a[0]) && is_digit(a[1]));
    lemma_first_index_at(x, '.', 2);
    lemma_number_parts(false, x, 6, 2);
    reveal(finite_from_parts);
    assert(x.subrange(0, 2) =~= a);
    assert(x.subrange(3, 6) =~= b);
    lemma_digits_concat(a, b);
    assert(pow10(3) == 1000) by {
        reveal_with_fuel(pow10, 4);
    }
    lemma_digits_bound(a);
    lemma_digits_bound(b);
    assert(pow10(2) == 100) by {
        reveal_with_fuel(pow10, 3);
    }
    lemma_pow10_values();
    let v = digits_value(a) * 1000 + digits_value(b);
    assert(v < 100000);
    assert(v * pow10(15) < pow10(33)) by (nonlinear_arith)
        requires
            v < 100000,
            pow10(15) == 1_000_000_000_000_000,
            pow10(33) == 1000000000000000000000000000000000,
    ;
    assert(v * pow10(15) >= 0) by (nonlinear_arith)
        requires
            v >= 0,
    ;
}

/// A field that is a number of units holds less than `unit_bound()` of them.
pub proof fn lemma_field_bound(f: Seq<char>)
    ensures
        seconds_units(f) matches Some(Ok(u)) ==> -unit_bound() < u < unit_bound(),
{
    reveal(decimal_units);
    if let Some(Decimal::Finite { negative, digits, exponent }) = decimal_syntax(f) {
        let e = exponent + 18;
        let bottom: int = if e >= 0 {
            1
        } else {
            pow10((-e) as nat) as int
        };
        let top: int = if e >= 0 {
            (digits * pow10(e as nat)) as int
        } else {
            digits as int
        };
        if e < 0 {
            lemma_pow10_positive((-e) as nat);
        }
        assert(top >= 0) by (nonlinear_arith)
            requires
                e >= 0 ==> top == digits * pow10(e as nat),
                e < 0 ==> top == digits,
        ;
        vstd::arithmetic::div_mod::lemma_div_pos_is_pos(top, bottom);
    }
}

/// A field that is a finite number of units is that number as `Seconds`,
/// which holds it.
pub proof fn lemma_field_value_units(f: Seq<char>)
    ensures
        seconds_units(f) matches Some(Ok(u)) ==> field_value(f) == Some(
            Ok::<Seconds, TimeError>(Seconds::Units(u as i128)),
        ) && -unit_bound() < u < unit_bound(),
        field_value(f) matches Some(Ok(Seconds::Units(u))) ==> -unit_bound() < u < unit_bound(),
{
    reveal(decimal_units);
    lemma_field_bound(f);
    lemma_pow10_values();
}

} // verus!
