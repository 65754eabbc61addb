//! Character-level helpers on strings: prefixes, equality, building.
use vstd::arithmetic::div_mod::lemma_fundamental_div_mod;
use vstd::prelude::*;
use vstd::string::*;

verus! {

/// `p` is a prefix of `s`.
pub open spec fn is_prefix(p: Seq<char>, s: Seq<char>) -> bool {
    p.len() <= s.len() && s.subrange(0, p.len() as int) =~= p
}

/// Whether `s` starts with `p`, as `str::starts_with` with a `&str` pattern.
pub fn starts_with(s: &str, p: &str) -> (r: bool)
    ensures
        r == is_prefix(p@, s@),
{
    let n = p.unicode_len();
    let m = s.unicode_len();
    if n > m {
        return false;
    }
    let mut i: usize = 0;
    while i < n
        invariant
            n == p@.len(),
            m == s@.len(),
            n <= m,
            i <= n,
            forall|j: int| 0 <= j < i ==> s@[j] == p@[j],
        decreases n - i,
    {
        if s.get_char(i) != p.get_char(i) {
            assert(s@.subrange(0, n as int)[i as int] != p@[i as int]);
            return false;
        }
        i = i + 1;
    }
    true
}

/// Whether two string slices hold the same characters.
pub fn str_eq(a: &str, b: &str) -> (r: bool)
    ensures
        r == (a@ == b@),
{
    let n = a.unicode_len();
    let m = b.unicode_len();
    if n != m {
        return false;
    }
    let mut i: usize = 0;
    while i < n
        invariant
            n == a@.len(),
            m == b@.len(),
            n == m,
            i <= n,
            forall|j: int| 0 <= j < i ==> a@[j] == b@[j],
        decreases n - i,
    {
        if a.get_char(i) != b.get_char(i) {
            return false;
        }
        i = i + 1;
    }
    assert(a@ =~= b@);
    true
}

/// Appends one character, as `String::push`.
#[verifier::external_body]
pub(crate) fn push_char(s: &mut String, c: char)
    ensures
        final(s)@ == old(s)@.push(c),
{
    s.push(c);
}

/// A new string holding the characters `v[lo..hi]`.
pub fn string_of_range(v: &Vec<char>, lo: usize, hi: usize) -> (r: String)
    requires
        lo <= hi <= v.len(),
    ensures
        r@ == v@.subrange(lo as int, hi as int),
{
    let mut out: Vec<char> = Vec::new();
    let mut i = lo;
    while i < hi
        invariant
            lo <= i <= hi <= v.len(),
            out@ == v@.subrange(lo as int, i as int),
        decreases hi - i,
    {
        out.push(v[i]);
        i = i + 1;
        assert(out@ =~= v@.subrange(lo as int, i as int));
    }
    string_of(&out)
}

/// A new string holding the given characters.
pub fn string_of(chars: &Vec<char>) -> (r: String)
    ensures
        r@ == chars@,
{
    let mut r = String::new();
    let mut i: usize = 0;
    while i < chars.len()
        invariant
            i <= chars.len(),
            r@ == chars@.subrange(0, i as int),
        decreases chars.len() - i,
    {
        push_char(&mut r, chars[i]);
        i = i + 1;
        assert(r@ =~= chars@.subrange(0, i as int));
    }
    assert(chars@.subrange(0, chars.len() as int) =~= chars@);
    r
}

/// The characters of a string slice.
pub fn chars_of(s: &str) -> (r: Vec<char>)
    ensures
        r@ == s@,
{
    let n = s.unicode_len();
    let mut r: Vec<char> = Vec::new();
    let mut i: usize = 0;
    while i < n
        invariant
            n == s@.len(),
            i <= n,
            r@ == s@.subrange(0, i as int),
        decreases n - i,
    {
        r.push(s.get_char(i));
        i = i + 1;
        assert(r@ =~= s@.subrange(0, i as int));
    }
    assert(s@.subrange(0, n as int) =~= s@);
    r
}

/// An owned copy of a string slice.
pub fn owned(s: &str) -> (r: String)
    ensures
        r@ == s@,
{
    String::from_str(s)
}


pub open spec fn is_digit(c: char) -> bool {
    '0' <= c && c <= '9'
}

pub open spec fn digit_value(c: char) -> nat {
    (c as int - '0' as int) as nat
}

pub open spec fn all_digits(s: Seq<char>) -> bool {
    forall|i: int| 0 <= i < s.len() ==> is_digit(#[trigger] s[i])
}

/// The number that a string of decimal digits writes.
pub open spec fn digits_value(s: Seq<char>) -> nat
    decreases s.len(),
{
    if s.len() == 0 {
        0
    } else {
        digits_value(s.drop_last()) * 10 + digit_value(s.last())
    }
}

/// The digits of an unsigned number, after an optional `+`.
pub open spec fn unsigned_digits(s: Seq<char>) -> Seq<char> {
    if s.len() > 0 && s[0] == '+' {
        s.skip(1)
    } else {
        s
    }
}

/// What `str::parse::<u64>` accepts and gives: an optional `+` and one or
/// more decimal digits writing a number that fits.
pub closed spec fn parse_u64_spec(s: Seq<char>) -> Option<u64> {
    let d = unsigned_digits(s);
    if d.len() > 0 && all_digits(d) && digits_value(d) <= u64::MAX {
        Some(digits_value(d) as u64)
    } else {
        None
    }
}

/// What `str::parse::<i64>` accepts and gives: an optional sign and one or
/// more decimal digits writing a number that fits.
pub closed spec fn parse_i64_spec(s: Seq<char>) -> Option<i64> {
    let negative = s.len() > 0 && s[0] == '-';
    let d = if s.len() > 0 && (s[0] == '+' || s[0] == '-') {
        s.skip(1)
    } else {
        s
    };
    if d.len() > 0 && all_digits(d) {
        let v: int = if negative {
            -digits_value(d)
        } else {
            digits_value(d) as int
        };
        if i64::MIN <= v <= i64::MAX {
            Some(v as i64)
        } else {
            None
        }
    } else {
        None
    }
}

/// Why `str::parse::<i64>` refuses a string, as `std::num::IntErrorKind`
/// names it.
#[derive(Clone, Copy, Debug, PartialEq, Eq, Structural)]
pub enum IntErrorKind {
    Empty,
    InvalidDigit,
    PosOverflow,
    NegOverflow,
}

/// The characters after an optional sign.
pub open spec fn signed_body(s: Seq<char>) -> Seq<char> {
    if s.len() > 0 && (s[0] == '+' || s[0] == '-') {
        s.skip(1)
    } else {
        s
    }
}

/// The first `n` characters of `d` are digits, and each of its first `n`
/// prefixes writes a number of at most `bound`.
pub open spec fn digits_within(d: Seq<char>, bound: int, n: int) -> bool {
    forall|j: int| 0 <= j < n ==> is_digit(#[trigger] d[j]) && digits_value(d.take(j + 1)) <= bound
}

/// The largest magnitude that an `i64` holds, after a `-` or not.
pub open spec fn i64_magnitude(negative: bool) -> int {
    if negative {
        9223372036854775808
    } else {
        9223372036854775807
    }
}

/// Why `str::parse::<i64>` refuses `s`, read from the left as it reads: the
/// string is empty; a sign stands alone, or a character that is not a digit
/// comes before the number has grown too large; else the number is past
/// `i64::MAX` (or, after a `-`, past `i64::MIN`). On a string that it
/// accepts, this names no case of the refusals.
pub open spec fn int_error_kind(s: Seq<char>) -> IntErrorKind {
    let d = signed_body(s);
    let negative = s.len() > 0 && s[0] == '-';
    if s.len() == 0 {
        IntErrorKind::Empty
    } else if d.len() == 0 {
        IntErrorKind::InvalidDigit
    } else if exists|k: int|
        0 <= k < d.len() && !is_digit(#[trigger] d[k]) && digits_within(d, i64_magnitude(negative), k) {
        IntErrorKind::InvalidDigit
    } else if negative {
        IntErrorKind::NegOverflow
    } else {
        IntErrorKind::PosOverflow
    }
}

/// `int_error_kind` of the characters `v[lo..hi]`.
pub fn int_error_kind_range(v: &Vec<char>, lo: usize, hi: usize) -> (r: IntErrorKind)
    requires
        lo <= hi <= v.len(),
    ensures
        r == int_error_kind(v@.subrange(lo as int, hi as int)),
{
    let ghost s = v@.subrange(lo as int, hi as int);
    if lo == hi {
        return IntErrorKind::Empty;
    }
    let negative = v[lo] == '-';
    let start = if v[lo] == '+' || v[lo] == '-' {
        lo + 1
    } else {
        lo
    };
    let ghost d = v@.subrange(start as int, hi as int);
    assert(d =~= signed_body(s));
    if start == hi {
        return IntErrorKind::InvalidDigit;
    }
    let bound: u128 = if negative {
        9223372036854775808
    } else {
        9223372036854775807
    };
    let ghost b = i64_magnitude(negative);
    let mut acc: u128 = 0;
    let mut j: usize = start;
    while j < hi
        invariant
            lo < start <= j <= hi <= v.len() || (lo == start && start <= j <= hi <= v.len()),
            d == v@.subrange(start as int, hi as int),
            s == v@.subrange(lo as int, hi as int),
            s.len() > 0 && d.len() > 0,
            d == signed_body(s),
            negative == (s[0] == '-'),
            b == i64_magnitude(negative),
            bound == b,
            bound <= 9223372036854775808,
            acc == digits_value(d.take(j - start)),
            acc <= bound,
            digits_within(d, b, j - start),
        decreases hi - j,
    {
        let c = v[j];
        assert(c == d[j - start]);
        if !('0' <= c && c <= '9') {
            assert(0 <= j - start < d.len() && !is_digit(d[j - start]) && digits_within(d, b, j - start));
            return IntErrorKind::InvalidDigit;
        }
        let dv = (c as u32 - '0' as u32) as u128;
        proof {
            lemma_digits_take(d, j - start);
        }
        acc = acc * 10 + dv;
        if acc > bound {
            proof {
                assert forall|k: int|
                    0 <= k < d.len() && !is_digit(#[trigger] d[k]) implies !digits_within(d, b, k) by {
                    if k > j - start {
                        assert(is_digit(d[j - start]) && digits_value(d.take(j - start + 1)) <= b ==> false);
                    }
                }
            }
            if negative {
                return IntErrorKind::NegOverflow;
            } else {
                return IntErrorKind::PosOverflow;
            }
        }
        assert(digits_within(d, b, j + 1 - start)) by {
            assert forall|i: int| 0 <= i < j + 1 - start implies is_digit(#[trigger] d[i])
                && digits_value(d.take(i + 1)) <= b by {
                if i < j - start {
                }
            }
        }
        j = j + 1;
    }
    proof {
        assert forall|k: int| 0 <= k < d.len() && !is_digit(#[trigger] d[k]) implies !digits_within(d, b, k) by {
            assert(is_digit(d[k]));
        }
    }
    if negative {
        IntErrorKind::NegOverflow
    } else {
        IntErrorKind::PosOverflow
    }
}

/// What `parse_u64_spec` is: an optional `+` and one or more digits writing
/// a number that fits.
pub proof fn lemma_parse_u64_spec(s: Seq<char>)
    ensures
        parse_u64_spec(s) == (if unsigned_digits(s).len() > 0 && all_digits(unsigned_digits(s))
            && digits_value(unsigned_digits(s)) <= u64::MAX {
            Some(digits_value(unsigned_digits(s)) as u64)
        } else {
            None
        }),
{
}

/// What `parse_i64_spec` is: an optional sign and one or more digits writing
/// a number that fits, negated after a `-`.
pub proof fn lemma_parse_i64_spec(s: Seq<char>)
    ensures
        parse_i64_spec(s) == ({
            let negative = s.len() > 0 && s[0] == '-';
            let d = signed_body(s);
            if d.len() > 0 && all_digits(d) {
                let v: int = if negative {
                    -digits_value(d)
                } else {
                    digits_value(d) as int
                };
                if i64::MIN <= v <= i64::MAX {
                    Some(v as i64)
                } else {
                    None
                }
            } else {
                None
            }
        }),
{
}

pub proof fn lemma_digits_take(d: Seq<char>, j: int)
    requires
        0 <= j < d.len(),
    ensures
        digits_value(d.take(j + 1)) == digits_value(d.take(j)) * 10 + digit_value(d[j]),
{
    assert(d.take(j + 1).drop_last() =~= d.take(j));
}

/// A number written in digits is at least the number its leading digits write.
pub proof fn lemma_digits_prefix_le(d: Seq<char>, j: int)
    requires
        0 <= j <= d.len(),
    ensures
        digits_value(d.take(j)) <= digits_value(d),
    decreases d.len() - j,
{
    if j < d.len() {
        lemma_digits_take(d, j);
        lemma_digits_prefix_le(d, j + 1);
    } else {
        assert(d.take(j) =~= d);
    }
}

/// The digits `v[lo..hi]` as a number, if they are all digits and the number
/// is at most `u64::MAX`; `None` also when the range is empty.
pub fn digits_u64(v: &Vec<char>, lo: usize, hi: usize) -> (r: Option<u64>)
    requires
        lo <= hi <= v.len(),
    ensures
        match r {
            Some(x) => hi > lo && all_digits(v@.subrange(lo as int, hi as int))
                && digits_value(v@.subrange(lo as int, hi as int)) == x,
            None => !(hi > lo && all_digits(v@.subrange(lo as int, hi as int)) && digits_value(
                v@.subrange(lo as int, hi as int),
            ) <= u64::MAX),
        },
{
    let ghost d = v@.subrange(lo as int, hi as int);
    if lo == hi {
        return None;
    }
    let mut acc: u64 = 0;
    let mut j: usize = lo;
    while j < hi
        invariant
            lo <= j <= hi <= v.len(),
            d == v@.subrange(lo as int, hi as int),
            all_digits(d.take(j - lo)),
            acc == digits_value(d.take(j - lo)),
        decreases hi - j,
    {
        let c = v[j];
        assert(c == d[j - lo]);
        if !('0' <= c && c <= '9') {
            assert(!all_digits(d));
            return None;
        }
        let dv = (c as u32 - '0' as u32) as u64;
        proof {
            lemma_digits_take(d, j - lo);
        }
        if acc > (u64::MAX - dv) / 10 {
            proof {
                if all_digits(d) {
                    lemma_digits_prefix_le(d, j - lo + 1);
                }
            }
            return None;
        }
        acc = acc * 10 + dv;
        proof {
            assert forall|i: int| 0 <= i < j + 1 - lo implies is_digit(#[trigger] d.take(j + 1 - lo)[i]) by {
                if i < j - lo {
                    assert(d.take(j + 1 - lo)[i] == d.take(j - lo)[i]);
                }
            }
        }
        j = j + 1;
    }
    assert(d.take(hi - lo) =~= d);
    Some(acc)
}

/// `str::parse::<u64>` on the characters `v[lo..hi]`.
pub fn parse_u64_range(v: &Vec<char>, lo: usize, hi: usize) -> (r: Option<u64>)
    requires
        lo <= hi <= v.len(),
    ensures
        r == parse_u64_spec(v@.subrange(lo as int, hi as int)),
{
    let ghost s = v@.subrange(lo as int, hi as int);
    if lo < hi && v[lo] == '+' {
        assert(s.skip(1) =~= v@.subrange(lo + 1, hi as int));
        digits_u64(v, lo + 1, hi)
    } else {
        digits_u64(v, lo, hi)
    }
}

/// `str::parse::<i64>` on the characters `v[lo..hi]`.
pub fn parse_i64_range(v: &Vec<char>, lo: usize, hi: usize) -> (r: Option<i64>)
    requires
        lo <= hi <= v.len(),
    ensures
        r == parse_i64_spec(v@.subrange(lo as int, hi as int)),
{
    let ghost s = v@.subrange(lo as int, hi as int);
    let negative = lo < hi && v[lo] == '-';
    let start = if lo < hi && (v[lo] == '+' || v[lo] == '-') {
        lo + 1
    } else {
        lo
    };
    assert(start > lo ==> s.skip(1) =~= v@.subrange(start as int, hi as int));
    assert(start == lo ==> s =~= v@.subrange(start as int, hi as int));
    match digits_u64(v, start, hi) {
        None => {
            proof {
                let d = v@.subrange(start as int, hi as int);
                if d.len() > 0 && all_digits(d) {
                    assert(digits_value(d) > u64::MAX);
                }
            }
            None
        },
        Some(m) => {
            if negative {
                if m > 9223372036854775808u64 {
                    None
                } else if m == 9223372036854775808u64 {
                    Some(i64::MIN)
                } else {
                    Some(-(m as i64))
                }
            } else {
                if m > i64::MAX as u64 {
                    None
                } else {
                    Some(m as i64)
                }
            }
        },
    }
}

/// Ten to the power `n`.
pub open spec fn pow10(n: nat) -> nat
    decreases n,
{
    if n == 0 {
        1
    } else {
        10 * pow10((n - 1) as nat)
    }
}

pub proof fn lemma_pow10_positive(n: nat)
    ensures
        pow10(n) >= 1,
    decreases n,
{
    if n > 0 {
        lemma_pow10_positive((n - 1) as nat);
    }
}

pub proof fn lemma_pow10_adds(a: nat, b: nat)
    ensures
        pow10(a + b) == pow10(a) * pow10(b),
    decreases a,
{
    assert(pow10(a) * pow10(b) >= 0) by (nonlinear_arith);
    if a > 0 {
        let a1 = (a - 1) as nat;
        lemma_pow10_adds(a1, b);
        let x = pow10(a1);
        let y = pow10(b);
        assert(pow10(a) == 10 * x);
        assert(pow10(a + b) == 10 * pow10(a1 + b));
        assert(10 * (x * y) == (10 * x) * y) by (nonlinear_arith);
    } else {
        let y = pow10(b);
        assert(pow10(a) == 1);
        assert(pow10(a) * y == y) by (nonlinear_arith)
            requires
                pow10(a) == 1,
        ;
    }
}

pub proof fn lemma_pow10_strictly_increases(a: nat, b: nat)
    requires
        a < b,
    ensures
        pow10(a) < pow10(b),
{
    lemma_pow10_adds(a, (b - a) as nat);
    lemma_pow10_positive(a);
    lemma_pow10_positive((b - a - 1) as nat);
    let x = pow10(a);
    let y = pow10((b - a) as nat);
    assert(y == 10 * pow10((b - a - 1) as nat));
    assert(x * y >= x * 10) by (nonlinear_arith)
        requires
            y >= 10,
            x >= 1,
    ;
}

pub proof fn lemma_pow10_increases(a: nat, b: nat)
    requires
        a <= b,
    ensures
        pow10(a) <= pow10(b),
{
    if a < b {
        lemma_pow10_strictly_increases(a, b);
    }
}

/// A string of digits written after `a` shifts it left by its length.
pub proof fn lemma_digits_concat(a: Seq<char>, b: Seq<char>)
    ensures
        digits_value(a + b) == digits_value(a) * pow10(b.len()) + digits_value(b),
    decreases b.len(),
{
    assert(digits_value(a) * pow10(b.len()) >= 0) by (nonlinear_arith);
    if b.len() == 0 {
        assert(a + b =~= a);
        let x = digits_value(a);
        assert(pow10(b.len()) == 1);
        assert(x * pow10(b.len()) == x) by (nonlinear_arith)
            requires
                pow10(b.len()) == 1,
        ;
    } else {
        let b1 = b.drop_last();
        lemma_digits_concat(a, b1);
        assert((a + b).drop_last() =~= a + b1);
        assert((a + b).last() == b.last());
        let x = digits_value(a);
        let p = pow10(b1.len());
        let y = digits_value(b1);
        let z = digit_value(b.last());
        assert(pow10(b.len()) == 10 * p);
        assert(digits_value(a + b) == digits_value(a + b1) * 10 + z);
        assert(digits_value(b) == y * 10 + z);
        assert((x * p + y) * 10 + z == x * (10 * p) + (y * 10 + z)) by (nonlinear_arith);
    }
}

/// Every character of `s` is `0`.
pub open spec fn all_zeros(s: Seq<char>) -> bool {
    forall|i: int| 0 <= i < s.len() ==> #[trigger] s[i] == '0'
}

pub proof fn lemma_digits_zeros(s: Seq<char>)
    requires
        all_zeros(s),
    ensures
        digits_value(s) == 0,
    decreases s.len(),
{
    if s.len() > 0 {
        assert forall|i: int| 0 <= i < s.drop_last().len() implies #[trigger] s.drop_last()[i]
            == '0' by {
            assert(s.drop_last()[i] == s[i]);
        }
        lemma_digits_zeros(s.drop_last());
    }
}

/// `n` digits write a number below `10^n`.
pub proof fn lemma_digits_bound(s: Seq<char>)
    requires
        all_digits(s),
    ensures
        digits_value(s) < pow10(s.len()),
    decreases s.len(),
{
    if s.len() > 0 {
        let s1 = s.drop_last();
        assert forall|i: int| 0 <= i < s1.len() implies is_digit(#[trigger] s1[i]) by {
            assert(s1[i] == s[i]);
        }
        lemma_digits_bound(s1);
        assert(is_digit(s[s.len() - 1]));
        let x = digits_value(s1);
        let p = pow10(s1.len());
        let z = digit_value(s.last());
        assert(x * 10 + z < 10 * p) by (nonlinear_arith)
            requires
                x < p,
                z <= 9,
        ;
    }
}

/// `n` digits led by a non-zero digit write a number of at least `10^(n-1)`.
pub proof fn lemma_digits_lead(s: Seq<char>)
    requires
        all_digits(s),
        s.len() > 0,
        s[0] != '0',
    ensures
        digits_value(s) >= pow10((s.len() - 1) as nat),
{
    let head = s.take(1);
    let rest = s.skip(1);
    assert(head + rest =~= s);
    lemma_digits_concat(head, rest);
    assert(head.drop_last() =~= Seq::<char>::empty());
    assert(digits_value(head.drop_last()) == 0);
    assert(head.last() == s[0]);
    assert(is_digit(s[0]));
    assert(digits_value(head) == digit_value(s[0]));
    assert(digits_value(head) >= 1);
    let p = pow10(rest.len());
    assert(digits_value(head) * p >= p) by (nonlinear_arith)
        requires
            digits_value(head) >= 1,
            p >= 0,
    ;
}

/// Digits that end in a non-zero digit write a number that ten does not divide.
pub proof fn lemma_digits_last_nonzero(s: Seq<char>)
    requires
        all_digits(s),
        s.len() > 0,
        s.last() != '0',
    ensures
        digits_value(s) % 10 != 0,
{
    assert(is_digit(s[s.len() - 1]));
    let z = digit_value(s.last());
    let x = digits_value(s.drop_last());
    vstd::arithmetic::div_mod::lemma_fundamental_div_mod_converse((x * 10 + z) as int, 10, x as int, z as int);
}

/// The character of a decimal digit.
pub open spec fn digit_char(d: nat) -> char {
    ((48 + d) as int) as char
}

/// The decimal digits of `n`, without leading zeros (`0` for zero).
pub open spec fn decimal(n: nat) -> Seq<char>
    decreases n,
{
    if n < 10 {
        seq![digit_char(n)]
    } else {
        decimal(n / 10).push(digit_char(n % 10))
    }
}

/// `s` with zeros in front, to at least `width` characters, as `{:0width}`.
pub open spec fn zero_pad(s: Seq<char>, width: nat) -> Seq<char> {
    if s.len() < width {
        Seq::new((width - s.len()) as nat, |i: int| '0') + s
    } else {
        s
    }
}

/// The decimal digits of `n`.
pub fn decimal_chars(n: u128) -> (r: Vec<char>)
    ensures
        r@ == decimal(n as nat),
    decreases n,
{
    let c = ((48 + n % 10) as u8) as char;
    if n < 10 {
        vec![c]
    } else {
        let mut r = decimal_chars(n / 10);
        r.push(c);
        r
    }
}

/// Appends `n` in decimal, zero-padded to `width` characters.
pub fn push_padded(out: &mut Vec<char>, n: u128, width: usize)
    ensures
        final(out)@ == old(out)@ + zero_pad(decimal(n as nat), width as nat),
{
    let digits = decimal_chars(n);
    let mut k = digits.len();
    while k < width
        invariant
            digits@ == decimal(n as nat),
            digits.len() <= k <= width || (k == digits.len() && k >= width),
            out@ == old(out)@ + Seq::new((k - digits.len()) as nat, |i: int| '0'),
        decreases width - k,
    {
        out.push('0');
        k = k + 1;
        assert(out@ =~= old(out)@ + Seq::new((k - digits.len()) as nat, |i: int| '0'));
    }
    let mut j: usize = 0;
    while j < digits.len()
        invariant
            j <= digits.len(),
            digits@ == decimal(n as nat),
            out@ == old(out)@ + Seq::new((k - digits.len()) as nat, |i: int| '0') + digits@.take(
                j as int,
            ),
            k == if digits.len() < width {
                width
            } else {
                digits.len()
            },
        decreases digits.len() - j,
    {
        out.push(digits[j]);
        j = j + 1;
        assert(out@ =~= old(out)@ + Seq::new((k - digits.len()) as nat, |i: int| '0')
            + digits@.take(j as int));
    }
    assert(digits@.take(j as int) =~= digits@);
    if digits.len() >= width {
        assert(Seq::new(0nat, |i: int| '0') + digits@ =~= digits@);
    }
}

/// The digits of `n`: decimal digits that write `n`.
pub proof fn lemma_decimal(n: nat)
    ensures
        all_digits(decimal(n)),
        decimal(n).len() >= 1,
        digits_value(decimal(n)) == n,
    decreases n,
{
    if n < 10 {
        let c = digit_char(n);
        assert(c as int == 48 + n);
        assert(decimal(n).drop_last() =~= Seq::<char>::empty());
        assert(decimal(n)[0] == c);
        assert(decimal(n).last() == c);
        assert(digits_value(Seq::<char>::empty()) == 0);
        assert(digits_value(decimal(n)) == digits_value(decimal(n).drop_last()) * 10 + digit_value(c));
        assert(digits_value(decimal(n)) == n);
    } else {
        lemma_decimal(n / 10);
        let c = digit_char(n % 10);
        assert(c as int == 48 + n % 10);
        let d = decimal(n);
        assert(d.drop_last() =~= decimal(n / 10));
        assert(d.last() == c);
        assert(digit_value(c) == n % 10);
        assert(digits_value(d) == digits_value(decimal(n / 10)) * 10 + n % 10);
        assert forall|i: int| 0 <= i < d.len() implies is_digit(#[trigger] d[i]) by {
            if i < d.len() - 1 {
                assert(d[i] == decimal(n / 10)[i]);
            }
        }
        lemma_fundamental_div_mod(n as int, 10);
        assert((n / 10) * 10 == 10 * (n / 10)) by (nonlinear_arith);
        assert(digits_value(d) == n);
    }
}

/// A number below `10^k` has at most `k` digits.
pub proof fn lemma_decimal_len(n: nat, k: nat)
    requires
        k >= 1,
        n < pow10(k),
    ensures
        decimal(n).len() <= k,
    decreases n,
{
    if n >= 10 {
        let k1 = (k - 1) as nat;
        if k1 == 0 {
            assert(pow10(0) == 1);
            assert(pow10(k) == 10);
        } else {
            assert(pow10(k) == 10 * pow10(k1));
            lemma_fundamental_div_mod(n as int, 10);
            if n / 10 >= pow10(k1) {
                assert(false);
            }
            lemma_decimal_len(n / 10, k1);
        }
    }
}

/// Padding with zeros keeps the digits and the number they write.
pub proof fn lemma_zero_pad(s: Seq<char>, w: nat)
    requires
        all_digits(s),
        s.len() >= 1,
    ensures
        zero_pad(s, w).len() == if s.len() < w {
            w as int
        } else {
            s.len() as int
        },
        all_digits(zero_pad(s, w)),
        digits_value(zero_pad(s, w)) == digits_value(s),
        zero_pad(s, w).last() == s.last(),
{
    if s.len() < w {
        let z = Seq::new((w - s.len()) as nat, |i: int| '0');
        let p = zero_pad(s, w);
        assert(all_zeros(z));
        lemma_digits_zeros(z);
        lemma_digits_concat(z, s);
        assert(0 * pow10(s.len()) == 0) by (nonlinear_arith);
        assert forall|i: int| 0 <= i < p.len() implies is_digit(#[trigger] p[i]) by {
            if i >= z.len() {
                assert(p[i] == s[i - z.len()]);
            }
        }
    }
}

/// Appends the characters of `s`.
pub fn push_str(out: &mut Vec<char>, s: &str)
    ensures
        final(out)@ == old(out)@ + s@,
{
    let n = s.unicode_len();
    let mut i: usize = 0;
    while i < n
        invariant
            n == s@.len(),
            i <= n,
            out@ == old(out)@ + s@.take(i as int),
        decreases n - i,
    {
        out.push(s.get_char(i));
        i = i + 1;
        assert(out@ =~= old(out)@ + s@.take(i as int));
    }
    assert(s@.take(n as int) =~= s@);
}

/// A signed number in decimal, zero-padded to `width` characters counting
/// the sign, as `{:0width}`.
pub open spec fn signed_pad(x: int, width: nat) -> Seq<char> {
    if x < 0 {
        seq!['-'] + zero_pad(decimal((-x) as nat), if width >= 1 {
            (width - 1) as nat
        } else {
            0
        })
    } else {
        zero_pad(decimal(x as nat), width)
    }
}

/// Appends `x` in decimal, zero-padded to `width` characters counting the
/// sign.
pub fn push_signed_padded(out: &mut Vec<char>, x: i64, width: usize)
    ensures
        final(out)@ == old(out)@ + signed_pad(x as int, width as nat),
{
    if x < 0 {
        out.push('-');
        let ghost mid = out@;
        let m: u128 = (-(x as i128)) as u128;
        push_padded(out, m, if width >= 1 {
            width - 1
        } else {
            0
        });
        assert(out@ =~= old(out)@ + signed_pad(x as int, width as nat));
    } else {
        push_padded(out, x as u128, width);
    }
}

/// Appends `x` in decimal, with a `-` when it is negative, as `{}`.
pub fn push_int(out: &mut Vec<char>, x: i128)
    requires
        x > i128::MIN,
    ensures
        final(out)@ == old(out)@ + signed_pad(x as int, 0),
{
    if x < 0 {
        out.push('-');
        push_padded(out, (-x) as u128, 0);
        assert(out@ =~= old(out)@ + signed_pad(x as int, 0));
    } else {
        push_padded(out, x as u128, 0);
    }
}

/// A whole number written in decimal, with a `-` when it is negative,
/// reads back as itself with `str::parse::<i64>`.
pub proof fn lemma_parse_i64_signed(n: i64)
    ensures
        parse_i64_spec(signed_pad(n as int, 0)) == Some(n),
{
    let m: nat = if n < 0 {
        (-(n as int)) as nat
    } else {
        n as nat
    };
    lemma_decimal(m);
    let d = decimal(m);
    assert(zero_pad(d, 0) == d);
    assert(is_digit(d[0]));
    let s = signed_pad(n as int, 0);
    if n < 0 {
        assert(s == seq!['-'] + d);
        assert(s.skip(1) =~= d);
    } else {
        assert(s == d);
    }
}

/// The first position of `c` in `s`.
pub closed spec fn first_index_of(s: Seq<char>, c: char) -> Option<int> {
    if exists|i: int| 0 <= i < s.len() && s[i] == c {
        Some(choose|i: int| 0 <= i < s.len() && s[i] == c && forall|j: int| 0 <= j < i ==> s[j] != c)
    } else {
        None
    }
}

/// `k` is the first position of `c` in `s` when `c` stands there and not before.
pub proof fn lemma_first_index_at(s: Seq<char>, c: char, k: int)
    requires
        0 <= k < s.len(),
        s[k] == c,
        forall|j: int| 0 <= j < k ==> s[j] != c,
    ensures
        first_index_of(s, c) == Some(k),
{
    let i = choose|i: int| 0 <= i < s.len() && s[i] == c && forall|j: int| 0 <= j < i ==> s[j] != c;
    if i < k {
        assert(s[i] != c);
    } else if i > k {
        assert(s[k] != c);
    }
}

/// A character that does not occur has no first position.
pub proof fn lemma_first_index_none(s: Seq<char>, c: char)
    requires
        forall|j: int| 0 <= j < s.len() ==> s[j] != c,
    ensures
        first_index_of(s, c) == None::<int>,
{
}

/// The first position of `c` in `v[lo..hi]`, counted from `lo`.
pub fn find_char(v: &Vec<char>, lo: usize, hi: usize, c: char) -> (r: Option<usize>)
    requires
        lo <= hi <= v.len(),
    ensures
        match r {
            Some(k) => first_index_of(v@.subrange(lo as int, hi as int), c) == Some(k as int) && k
                < hi - lo && v@[lo + k] == c,
            None => first_index_of(v@.subrange(lo as int, hi as int), c) == None::<int>,
        },
{
    let ghost s = v@.subrange(lo as int, hi as int);
    let mut j: usize = lo;
    while j < hi
        invariant
            lo <= j <= hi <= v.len(),
            s == v@.subrange(lo as int, hi as int),
            forall|k: int| 0 <= k < j - lo ==> s[k] != c,
        decreases hi - j,
    {
        if v[j] == c {
            proof {
                let i = (j - lo) as int;
                assert(s[i] == c);
                let k = choose|k: int| 0 <= k < s.len() && s[k] == c && forall|m: int| 0 <= m < k ==> s[m] != c;
                if k < i {
                    assert(s[k] != c);
                } else if k > i {
                    assert(s[i] != c);
                }
            }
            return Some(j - lo);
        }
        j = j + 1;
    }
    None
}

} // verus!
