//! Times as people and agents write them ("45f", "1.5s", "01:02.5",
//! "1:02:03.25"), their conversion to frames, and timecode text.
//!
//! Seconds are read as exact decimals: a time is held as a whole number of
//! units of 10^-18 seconds, and a value that cannot be held so (a non-zero
//! digit beyond the 18th decimal place, or 10^15 seconds or more in a field)
//! is refused. Infinities and not-a-number, which `str::parse::<f64>` also
//! reads, give the frames that floating point gives them.
use crate::decimal::{
    field_value, lemma_field_bound, lemma_field_value_units, lemma_fraction_field, lemma_pow10_values,
    lemma_whole_field, seconds_field, seconds_units, unit_bound, units_per_second, Seconds,
};
use crate::model::Fps;
use crate::text::{
    chars_of, decimal, find_char, first_index_of, is_digit, lemma_decimal, lemma_decimal_len,
    lemma_first_index_at, lemma_first_index_none, lemma_parse_i64_signed, int_error_kind, int_error_kind_range, IntErrorKind, lemma_pow10_increases,
    lemma_pow10_strictly_increases, lemma_zero_pad, parse_i64_range, parse_i64_spec, pow10,
    push_padded, push_str, signed_pad, string_of, string_of_range, zero_pad,
};
use vstd::arithmetic::div_mod::{
    lemma_div_denominator, lemma_div_multiples_vanish, lemma_fundamental_div_mod,
    lemma_fundamental_div_mod_converse,
};
use vstd::prelude::*;

verus! {


/// Why a time could not be read.
#[derive(Clone, Copy, Debug, PartialEq, Eq, Structural)]
pub enum TimeError {
    /// A frame count (`...f`) that `str::parse::<i64>` refuses, and why.
    Frames(IntErrorKind),
    /// An empty number of seconds.
    EmptyNumber,
    /// A number of seconds that is not a decimal number.
    InvalidNumber,
    /// A time with a colon that has neither two nor three fields.
    InvalidTimecode,
    /// Seconds with a non-zero digit beyond the 18th decimal place, or with a
    /// magnitude of 10^15 or more.
    OutOfRange,
}


/// The message of a time error, as the command line prints it.
pub open spec fn time_error_text(e: TimeError) -> Seq<char> {
    match e {
        TimeError::Frames(IntErrorKind::Empty) => "cannot parse integer from empty string"@,
        TimeError::Frames(IntErrorKind::InvalidDigit) => "invalid digit found in string"@,
        TimeError::Frames(IntErrorKind::PosOverflow) => "number too large to fit in target type"@,
        TimeError::Frames(IntErrorKind::NegOverflow) => "number too small to fit in target type"@,
        TimeError::EmptyNumber => "cannot parse float from empty string"@,
        TimeError::InvalidNumber => "invalid float literal"@,
        TimeError::InvalidTimecode => "invalid time"@,
        TimeError::OutOfRange => "time is out of range"@,
    }
}

impl TimeError {
    /// The message of the error, as the command line prints it.
    pub fn message(&self) -> (r: &'static str)
        ensures
            r@ == time_error_text(*self),
    {
        match self {
            TimeError::Frames(IntErrorKind::Empty) => "cannot parse integer from empty string",
            TimeError::Frames(IntErrorKind::InvalidDigit) => "invalid digit found in string",
            TimeError::Frames(IntErrorKind::PosOverflow) => "number too large to fit in target type",
            TimeError::Frames(IntErrorKind::NegOverflow) => "number too small to fit in target type",
            TimeError::EmptyNumber => "cannot parse float from empty string",
            TimeError::InvalidNumber => "invalid float literal",
            TimeError::InvalidTimecode => "invalid time",
            TimeError::OutOfRange => "time is out of range",
        }
    }
}

/// The full message of a time error for the text `value`, as the command
/// line prints it: a time with colons in the wrong number is named, trimmed.
pub open spec fn time_error_detail(e: TimeError, value: Seq<char>) -> Seq<char> {
    match e {
        TimeError::InvalidTimecode => "invalid time: "@ + trim(value),
        _ => time_error_text(e),
    }
}

impl TimeError {
    /// The full message of the error that reading `value` gave.
    pub fn describe(&self, value: &str) -> (r: String)
        ensures
            r@ == time_error_detail(*self, value@),
    {
        let mut out: Vec<char> = Vec::new();
        match self {
            TimeError::InvalidTimecode => {
                push_str(&mut out, "invalid time: ");
                let v = chars_of(value);
                let (a, b) = trim_range(&v, 0, v.len());
                assert(v@.subrange(0, v.len() as int) =~= value@);
                let mut i = a;
                while i < b
                    invariant
                        a <= i <= b <= v.len(),
                        out@ == "invalid time: "@ + v@.subrange(a as int, i as int),
                    decreases b - i,
                {
                    out.push(v[i]);
                    i = i + 1;
                    assert(out@ =~= "invalid time: "@ + v@.subrange(a as int, i as int));
                }
            },
            _ => {
                push_str(&mut out, self.message());
            },
        }
        string_of(&out)
    }
}

// ---------------------------------------------------------------- whitespace

/// The characters with the Unicode `White_Space` property, which
/// `str::trim` removes.
pub open spec fn is_space(c: char) -> bool {
    ||| ('\u{9}' <= c && c <= '\u{d}')
    ||| c == ' '
    ||| c == '\u{85}'
    ||| c == '\u{a0}'
    ||| c == '\u{1680}'
    ||| ('\u{2000}' <= c && c <= '\u{200a}')
    ||| c == '\u{2028}'
    ||| c == '\u{2029}'
    ||| c == '\u{202f}'
    ||| c == '\u{205f}'
    ||| c == '\u{3000}'
}

/// `s` without its leading whitespace.
pub open spec fn trim_start(s: Seq<char>) -> Seq<char>
    decreases s.len(),
{
    if s.len() > 0 && is_space(s[0]) {
        trim_start(s.drop_first())
    } else {
        s
    }
}

/// `s` without its trailing whitespace.
pub open spec fn trim_end(s: Seq<char>) -> Seq<char>
    decreases s.len(),
{
    if s.len() > 0 && is_space(s.last()) {
        trim_end(s.drop_last())
    } else {
        s
    }
}

/// `s` without leading and trailing whitespace, as `str::trim`.
pub open spec fn trim(s: Seq<char>) -> Seq<char> {
    trim_end(trim_start(s))
}


/// Whether `c` is whitespace, as `char::is_whitespace`.
pub fn space_char(c: char) -> (r: bool)
    ensures
        r == is_space(c),
{
    ('\u{9}' <= c && c <= '\u{d}') || c == ' ' || c == '\u{85}' || c == '\u{a0}' || c
        == '\u{1680}' || ('\u{2000}' <= c && c <= '\u{200a}') || c == '\u{2028}' || c
        == '\u{2029}' || c == '\u{202f}' || c == '\u{205f}' || c == '\u{3000}'
}

/// The bounds of `trim(v[lo..hi])` within `v`.
pub fn trim_range(v: &Vec<char>, lo: usize, hi: usize) -> (r: (usize, usize))
    requires
        lo <= hi <= v.len(),
    ensures
        lo <= r.0 <= r.1 <= hi,
        v@.subrange(r.0 as int, r.1 as int) == trim(v@.subrange(lo as int, hi as int)),
{
    let mut a = lo;
    while a < hi && space_char(v[a])
        invariant
            lo <= a <= hi <= v.len(),
            trim_start(v@.subrange(lo as int, hi as int)) == trim_start(
                v@.subrange(a as int, hi as int),
            ),
        decreases hi - a,
    {
        assert(v@.subrange(a as int, hi as int).drop_first() =~= v@.subrange(
            a + 1,
            hi as int,
        ));
        a = a + 1;
    }
    let mut b = hi;
    while b > a && space_char(v[b - 1])
        invariant
            lo <= a <= b <= hi <= v.len(),
            trim_end(v@.subrange(a as int, hi as int)) == trim_end(
                v@.subrange(a as int, b as int),
            ),
        decreases b - a,
    {
        assert(v@.subrange(a as int, b as int).drop_last() =~= v@.subrange(
            a as int,
            b - 1,
        ));
        b = b - 1;
    }
    (a, b)
}


// ---------------------------------------------------------------- frames

/// The integer nearest to `a / d` (for `d > 0`), halves away from zero.
pub open spec fn round_div(a: int, d: int) -> int {
    if a >= 0 {
        (2 * a + d) / (2 * d)
    } else {
        -((-2 * a + d) / (2 * d))
    }
}

/// `x` clamped to the range of `i64`, as a float-to-integer `as` cast does.
pub open spec fn saturate_i64(x: int) -> i64 {
    if x > i64::MAX {
        i64::MAX
    } else if x < i64::MIN {
        i64::MIN
    } else {
        x as i64
    }
}

/// The denominator of a frame rate, with zero read as one.
pub open spec fn fps_denominator(fps: Fps) -> int {
    if fps.denominator == 0 {
        1
    } else {
        fps.denominator as int
    }
}

/// The frame nearest to `units`·10^-18 seconds at `fps`, computed exactly:
/// halves away from zero, clamped to `i64`. (Floating point, which rounds
/// the product first, can land on the other side of a half.)
pub open spec fn frames_of_units(units: int, fps: Fps) -> i64 {
    saturate_i64(round_div(units * fps.numerator, units_per_second() * fps_denominator(fps)))
}

/// A bound on the units that one time, of at most three fields, adds up to.
pub open spec fn total_bound() -> int {
    3661 * unit_bound()
}

/// `frames_of_units`, for a total of at most three fields.
fn frames_from_units(units: i128, fps: Fps) -> (r: i64)
    requires
        -total_bound() < units < total_bound(),
    ensures
        r == frames_of_units(units as int, fps),
{
    proof {
        lemma_pow10_values();
    }
    let negative = units < 0;
    let mag: u128 = if negative {
        (-units) as u128
    } else {
        units as u128
    };
    let den: u128 = if fps.denominator == 0 {
        1
    } else {
        fps.denominator as u128
    };
    let num: u128 = fps.numerator as u128;
    let d: u128 = 1_000_000_000_000_000_000u128 * den;
    let a = mag / d;
    let b = mag % d;
    proof {
        vstd::arithmetic::div_mod::lemma_fundamental_div_mod(mag as int, d as int);
        assert(a * d + b == mag) by (nonlinear_arith)
            requires
                mag == d * a + b,
        ;
        assert(a <= 3661_000_000_000_000_000) by (nonlinear_arith)
            requires
                a * d <= mag,
                mag < 3661_000_000_000_000_000_000_000_000_000_000_000,
                d >= 1_000_000_000_000_000_000,
        ;
        assert(a * num <= 3661_000_000_000_000_000 * 4294967295) by (nonlinear_arith)
            requires
                a <= 3661_000_000_000_000_000,
                num <= 4294967295,
        ;
        assert(2 * b * num + d <= 2 * d * 4294967295 + d) by (nonlinear_arith)
            requires
                b < d,
                num <= 4294967295,
        ;
        assert(d <= 1_000_000_000_000_000_000 * 4294967295) by (nonlinear_arith)
            requires
                d == 1_000_000_000_000_000_000 * den,
                den <= 4294967295,
        ;
    }
    let rest = (2 * b * num + d) / (2 * d);
    let m = a * num + rest;
    proof {
        let x = 2 * (mag * num) + d;
        vstd::arithmetic::div_mod::lemma_fundamental_div_mod((2 * b * num + d) as int, (2 * d) as int);
        let r2 = (2 * b * num + d) % (2 * d);
        assert(2 * b * num + d == rest * (2 * d) + r2) by (nonlinear_arith)
            requires
                2 * b * num + d == (2 * d) * rest + r2,
        ;
        assert(x == (a * num + rest) * (2 * d) + r2) by (nonlinear_arith)
            requires
                x == 2 * (mag * num) + d,
                mag == a * d + b,
                2 * b * num + d == rest * (2 * d) + r2,
        ;
        vstd::arithmetic::div_mod::lemma_fundamental_div_mod_converse(
            x,
            (2 * d) as int,
            m as int,
            r2 as int,
        );
        assert(units * num == if negative {
            -(mag * num)
        } else {
            mag * num
        }) by (nonlinear_arith)
            requires
                negative ==> mag == -units,
                !negative ==> mag == units,
        ;
        assert(mag * num >= 0) by (nonlinear_arith);
        if negative && mag * num == 0 {
            assert(m == 0) by (nonlinear_arith)
                requires
                    m == (2 * (mag * num) + d) / (2 * d),
                    mag * num == 0,
                    d > 0,
            ;
        }
    }
    if negative {
        if m >= 9223372036854775808u128 {
            i64::MIN
        } else {
            -(m as i64)
        }
    } else {
        if m > 9223372036854775807u128 {
            i64::MAX
        } else {
            m as i64
        }
    }
}

// ---------------------------------------------------------------- parse_time

/// Why `str::parse::<f64>` refuses `f`: it is empty, or it is not a
/// number.
pub open spec fn number_error(f: Seq<char>) -> TimeError {
    if f.len() == 0 {
        TimeError::EmptyNumber
    } else {
        TimeError::InvalidNumber
    }
}

/// An amount is not-a-number.
pub open spec fn is_nan(x: Seconds) -> bool {
    x is NotANumber
}

/// An amount is the positive infinity.
pub open spec fn is_pos_inf(x: Seconds) -> bool {
    x == Seconds::Infinite { negative: false }
}

/// An amount is the negative infinity.
pub open spec fn is_neg_inf(x: Seconds) -> bool {
    x == Seconds::Infinite { negative: true }
}

/// The units of a finite amount (zero for the others).
pub open spec fn units_of(x: Seconds) -> int {
    match x {
        Seconds::Units(u) => u as int,
        _ => 0,
    }
}

/// The frame for a sum of amounts of seconds: a not-a-number among them,
/// or infinities of both signs, give not-a-number and so frame 0, as
/// floating point does; an infinity gives the `i64` bound of its sign (0 at
/// a zero frame rate, where the product is not-a-number); else the exact sum
/// `exact`, rounded exactly by `frames_of_units`.
pub open spec fn sum_frames(nan: bool, pos: bool, neg: bool, exact: int, fps: Fps) -> i64 {
    if nan || (pos && neg) {
        0
    } else if pos {
        if fps.numerator > 0 {
            i64::MAX
        } else {
            0
        }
    } else if neg {
        if fps.numerator > 0 {
            i64::MIN
        } else {
            0
        }
    } else {
        frames_of_units(exact, fps)
    }
}

/// The frames that a number of seconds written in `f` gives.
pub open spec fn seconds_time(f: Seq<char>, fps: Fps) -> Result<i64, TimeError> {
    match field_value(f) {
        None => Err(number_error(f)),
        Some(Err(e)) => Err(e),
        Some(Ok(x)) => Ok(sum_frames(is_nan(x), is_pos_inf(x), is_neg_inf(x), units_of(x), fps)),
    }
}

/// `minutes:seconds`: a field that is not a number makes the whole an
/// invalid number; else the first field out of range decides; else the
/// frames of `60·minutes + seconds`.
pub open spec fn two_fields_time(f1: Seq<char>, f2: Seq<char>, fps: Fps) -> Result<i64, TimeError> {
    match (field_value(f1), field_value(f2)) {
        (Some(Ok(a)), Some(Ok(b))) => Ok(
            sum_frames(
                is_nan(a) || is_nan(b),
                is_pos_inf(a) || is_pos_inf(b),
                is_neg_inf(a) || is_neg_inf(b),
                60 * units_of(a) + units_of(b),
                fps,
            ),
        ),
        (None, _) => Err(number_error(f1)),
        (_, None) => Err(number_error(f2)),
        (Some(Err(e)), _) => Err(e),
        (_, Some(Err(e))) => Err(e),
    }
}

/// `hours:minutes:seconds`, read as `two_fields_time` reads two fields.
pub open spec fn three_fields_time(f1: Seq<char>, f2: Seq<char>, f3: Seq<char>, fps: Fps) -> Result<
    i64,
    TimeError,
> {
    match (field_value(f1), field_value(f2), field_value(f3)) {
        (Some(Ok(a)), Some(Ok(b)), Some(Ok(c))) => Ok(
            sum_frames(
                is_nan(a) || is_nan(b) || is_nan(c),
                is_pos_inf(a) || is_pos_inf(b) || is_pos_inf(c),
                is_neg_inf(a) || is_neg_inf(b) || is_neg_inf(c),
                3600 * units_of(a) + 60 * units_of(b) + units_of(c),
                fps,
            ),
        ),
        (None, _, _) => Err(number_error(f1)),
        (_, None, _) => Err(number_error(f2)),
        (_, _, None) => Err(number_error(f3)),
        (Some(Err(e)), _, _) => Err(e),
        (_, Some(Err(e)), _) => Err(e),
        (_, _, Some(Err(e))) => Err(e),
    }
}

/// A time with a colon at `i`: split at every colon, it must have two or
/// three fields.
pub open spec fn timecode_time(v: Seq<char>, i: int, fps: Fps) -> Result<i64, TimeError> {
    let rest = v.skip(i + 1);
    match first_index_of(rest, ':') {
        None => two_fields_time(v.take(i), rest, fps),
        Some(j) => if first_index_of(rest.skip(j + 1), ':') is Some {
            Err(TimeError::InvalidTimecode)
        } else {
            three_fields_time(v.take(i), rest.take(j), rest.skip(j + 1), fps)
        },
    }
}

/// What `parse_time` gives: after trimming, `<n>f` is `n` frames (an `i64`);
/// `<x>s` is `x` seconds; a time with colons is `minutes:seconds` or
/// `hours:minutes:seconds`; anything else is seconds. Seconds become the
/// nearest frame at `fps`, halves away from zero, clamped to `i64`; an
/// infinity becomes the `i64` bound of its sign and not-a-number frame 0.
pub open spec fn parse_time_spec(s: Seq<char>, fps: Fps) -> Result<i64, TimeError> {
    let v = trim(s);
    if v.len() > 0 && v.last() == 'f' {
        match parse_i64_spec(trim(v.drop_last())) {
            Some(n) => Ok(n),
            None => Err(TimeError::Frames(int_error_kind(trim(v.drop_last())))),
        }
    } else if v.len() > 0 && v.last() == 's' {
        seconds_time(trim(v.drop_last()), fps)
    } else {
        match first_index_of(v, ':') {
            None => seconds_time(v, fps),
            Some(i) => timecode_time(v, i, fps),
        }
    }
}

/// `sum_frames`, for finite amounts whose sum is within three fields' bound.
fn sum_frames_exec(nan: bool, pos: bool, neg: bool, exact: i128, fps: Fps) -> (r: i64)
    requires
        -total_bound() < exact < total_bound(),
    ensures
        r == sum_frames(nan, pos, neg, exact as int, fps),
{
    if nan || (pos && neg) {
        0
    } else if pos {
        if fps.numerator > 0 {
            i64::MAX
        } else {
            0
        }
    } else if neg {
        if fps.numerator > 0 {
            i64::MIN
        } else {
            0
        }
    } else {
        frames_from_units(exact, fps)
    }
}

/// The units of a finite amount, zero for the others.
fn units_exec(x: Seconds) -> (r: i128)
    ensures
        r == units_of(x),
{
    match x {
        Seconds::Units(u) => u,
        _ => 0,
    }
}

/// The bound on one field, in units.
proof fn lemma_unit_bound()
    ensures
        unit_bound() == 1000000000000000000000000000000000,
{
    lemma_pow10_values();
}

/// `seconds_time` on `v[lo..hi]`.
fn seconds_time_range(v: &Vec<char>, lo: usize, hi: usize, fps: Fps) -> (r: Result<i64, TimeError>)
    requires
        lo <= hi <= v.len(),
    ensures
        r == seconds_time(v@.subrange(lo as int, hi as int), fps),
{
    match seconds_field(v, lo, hi) {
        None => Err(if lo == hi {
            TimeError::EmptyNumber
        } else {
            TimeError::InvalidNumber
        }),
        Some(Err(e)) => Err(e),
        Some(Ok(x)) => {
            proof {
                lemma_field_value_units(v@.subrange(lo as int, hi as int));
                lemma_unit_bound();
            }
            let u = units_exec(x);
            Ok(
                sum_frames_exec(
                    x == Seconds::NotANumber,
                    x == Seconds::Infinite { negative: false },
                    x == Seconds::Infinite { negative: true },
                    u,
                    fps,
                ),
            )
        },
    }
}

/// `two_fields_time` on `v[a..b]` and `v[c..d]`.
fn two_fields_range(v: &Vec<char>, a: usize, b: usize, c: usize, d: usize, fps: Fps) -> (r: Result<
    i64,
    TimeError,
>)
    requires
        a <= b <= v.len(),
        c <= d <= v.len(),
    ensures
        r == two_fields_time(v@.subrange(a as int, b as int), v@.subrange(c as int, d as int), fps),
{
    let p1 = seconds_field(v, a, b);
    let p2 = seconds_field(v, c, d);
    proof {
        lemma_unit_bound();
        lemma_field_value_units(v@.subrange(a as int, b as int));
        lemma_field_value_units(v@.subrange(c as int, d as int));
    }
    match (p1, p2) {
        (Some(Ok(x)), Some(Ok(y))) => {
            let ux = units_exec(x);
            let uy = units_exec(y);
            Ok(
                sum_frames_exec(
                    x == Seconds::NotANumber || y == Seconds::NotANumber,
                    x == Seconds::Infinite { negative: false } || y == Seconds::Infinite {
                        negative: false,
                    },
                    x == Seconds::Infinite { negative: true } || y == Seconds::Infinite {
                        negative: true,
                    },
                    60 * ux + uy,
                    fps,
                ),
            )
        },
        (None, _) => Err(if a == b {
            TimeError::EmptyNumber
        } else {
            TimeError::InvalidNumber
        }),
        (_, None) => Err(if c == d {
            TimeError::EmptyNumber
        } else {
            TimeError::InvalidNumber
        }),
        (Some(Err(e)), _) => Err(e),
        (_, Some(Err(e))) => Err(e),
    }
}

/// `three_fields_time` on `v[a..b]`, `v[c..d]` and `v[e..f]`.
fn three_fields_range(
    v: &Vec<char>,
    a: usize,
    b: usize,
    c: usize,
    d: usize,
    e: usize,
    f: usize,
    fps: Fps,
) -> (r: Result<i64, TimeError>)
    requires
        a <= b <= v.len(),
        c <= d <= v.len(),
        e <= f <= v.len(),
    ensures
        r == three_fields_time(
            v@.subrange(a as int, b as int),
            v@.subrange(c as int, d as int),
            v@.subrange(e as int, f as int),
            fps,
        ),
{
    let p1 = seconds_field(v, a, b);
    let p2 = seconds_field(v, c, d);
    let p3 = seconds_field(v, e, f);
    proof {
        lemma_unit_bound();
        lemma_field_value_units(v@.subrange(a as int, b as int));
        lemma_field_value_units(v@.subrange(c as int, d as int));
        lemma_field_value_units(v@.subrange(e as int, f as int));
    }
    match (p1, p2, p3) {
        (Some(Ok(x)), Some(Ok(y)), Some(Ok(z))) => {
            let ux = units_exec(x);
            let uy = units_exec(y);
            let uz = units_exec(z);
            let nan = x == Seconds::NotANumber || y == Seconds::NotANumber || z
                == Seconds::NotANumber;
            let pos = x == Seconds::Infinite { negative: false } || y == Seconds::Infinite {
                negative: false,
            } || z == Seconds::Infinite { negative: false };
            let neg = x == Seconds::Infinite { negative: true } || y == Seconds::Infinite {
                negative: true,
            } || z == Seconds::Infinite { negative: true };
            Ok(sum_frames_exec(nan, pos, neg, 3600 * ux + 60 * uy + uz, fps))
        },
        (None, _, _) => Err(if a == b {
            TimeError::EmptyNumber
        } else {
            TimeError::InvalidNumber
        }),
        (_, None, _) => Err(if c == d {
            TimeError::EmptyNumber
        } else {
            TimeError::InvalidNumber
        }),
        (_, _, None) => Err(if e == f {
            TimeError::EmptyNumber
        } else {
            TimeError::InvalidNumber
        }),
        (Some(Err(e)), _, _) => Err(e),
        (_, Some(Err(e)), _) => Err(e),
        (_, _, Some(Err(e))) => Err(e),
    }
}

/// Reads a time as an agent or a person writes it: `45f` (frames), `1.5s`
/// (seconds), `01:30.5` (minutes and seconds), `1:02:03.25` (hours, minutes
/// and seconds), or plain seconds, and gives the frame it falls on at `fps`.
pub fn parse_time(value: &str, fps: Fps) -> (r: Result<i64, TimeError>)
    ensures
        r == parse_time_spec(value@, fps),
{
    let v = chars_of(value);
    let (a, b) = trim_range(&v, 0, v.len());
    let ghost t = v@.subrange(a as int, b as int);
    assert(v@.subrange(0, v.len() as int) =~= value@);
    if a < b && v[b - 1] == 'f' {
        assert(t.drop_last() =~= v@.subrange(a as int, b - 1));
        let (c, d) = trim_range(&v, a, b - 1);
        match parse_i64_range(&v, c, d) {
            Some(n) => Ok(n),
            None => Err(TimeError::Frames(int_error_kind_range(&v, c, d))),
        }
    } else if a < b && v[b - 1] == 's' {
        assert(t.drop_last() =~= v@.subrange(a as int, b - 1));
        let (c, d) = trim_range(&v, a, b - 1);
        seconds_time_range(&v, c, d, fps)
    } else {
        match find_char(&v, a, b, ':') {
            None => seconds_time_range(&v, a, b, fps),
            Some(i) => {
                let k = a + i;
                let ghost rest = t.skip(i + 1);
                assert(rest =~= v@.subrange(k + 1, b as int));
                assert(t.take(i as int) =~= v@.subrange(a as int, k as int));
                match find_char(&v, k + 1, b, ':') {
                    None => two_fields_range(&v, a, k, k + 1, b, fps),
                    Some(j) => {
                        let k2 = k + 1 + j;
                        assert(rest.take(j as int) =~= v@.subrange(k + 1, k2 as int));
                        assert(rest.skip(j + 1) =~= v@.subrange(k2 + 1, b as int));
                        match find_char(&v, k2 + 1, b, ':') {
                            Some(_) => Err(TimeError::InvalidTimecode),
                            None => three_fields_range(&v, a, k, k + 1, k2, k2 + 1, b, fps),
                        }
                    },
                }
            },
        }
    }
}

// ---------------------------------------------------------------- ranges

/// `..` stands at position `i` of `s`.
pub open spec fn dots_at(s: Seq<char>, i: int) -> bool {
    0 <= i && i + 1 < s.len() && s[i] == '.' && s[i + 1] == '.'
}

/// The text before and after the first `..` in `s`, as
/// `str::split_once("..")` gives them; `None` when there is none.
pub open spec fn split_range_spec(s: Seq<char>) -> Option<(Seq<char>, Seq<char>)> {
    if exists|i: int| dots_at(s, i) {
        let i = choose|i: int| dots_at(s, i) && forall|j: int| 0 <= j < i ==> !dots_at(s, j);
        Some((s.take(i), s.skip(i + 2)))
    } else {
        None
    }
}

/// Splits a range of times such as `10s..20s` at its first `..`.
pub fn split_time_range(value: &str) -> (r: Option<(String, String)>)
    ensures
        match r {
            Some((a, b)) => split_range_spec(value@) == Some((a@, b@)),
            None => split_range_spec(value@) is None,
        },
{
    let v = chars_of(value);
    let n = v.len();
    let mut i: usize = 0;
    while i < n && i + 1 < n
        invariant
            n == v.len(),
            v@ == value@,
            i <= n,
            forall|j: int| 0 <= j < i ==> !dots_at(v@, j),
        decreases n - i,
    {
        if v[i] == '.' && v[i + 1] == '.' {
            proof {
                let s = v@;
                assert(dots_at(s, i as int));
                let k = choose|k: int| dots_at(s, k) && forall|j: int| 0 <= j < k ==> !dots_at(s, j);
                if k < i {
                    assert(!dots_at(s, k));
                } else if k > i {
                    assert(!dots_at(s, i as int));
                }
                assert(s.take(i as int) =~= s.subrange(0, i as int));
                assert(s.skip(i + 2) =~= s.subrange(i + 2, n as int));
            }
            let a = string_of_range(&v, 0, i);
            let b = string_of_range(&v, i + 2, n);
            return Some((a, b));
        }
        i = i + 1;
    }
    proof {
        assert forall|j: int| !dots_at(v@, j) by {
            if 0 <= j < i {
            }
        }
    }
    None
}

// ---------------------------------------------------------------- timecodes

/// The milliseconds that `format_timecode` shows for `frames` at `fps`: the
/// nearest to `frames / fps` seconds (negative frames read as zero), computed
/// exactly, halves away from zero, clamped to `i64`; with a zero frame rate, the largest
/// `i64` for a positive count and zero for none.
pub open spec fn timecode_millis(frames: i64, fps: Fps) -> int {
    let f: int = if frames < 0 {
        0
    } else {
        frames as int
    };
    if fps.numerator == 0 {
        if f > 0 {
            i64::MAX as int
        } else {
            0
        }
    } else {
        saturate_i64(round_div(f * 1000 * fps_denominator(fps), fps.numerator as int)) as int
    }
}

/// `hh:mm:ss.mmm` for a number of milliseconds; the hours take as many
/// digits as they need, and at least two.
pub open spec fn timecode_text(ms: nat) -> Seq<char> {
    zero_pad(decimal(ms / 3600000), 2) + seq![':'] + zero_pad(decimal((ms / 60000) % 60), 2) + seq![
        ':',
    ] + zero_pad(decimal((ms / 1000) % 60), 2) + seq!['.'] + zero_pad(decimal(ms % 1000), 3)
}

/// The milliseconds shown for `frames` at `fps`.
fn timecode_ms(frames: i64, fps: Fps) -> (r: u64)
    ensures
        r == timecode_millis(frames, fps),
{
    let f: u128 = if frames < 0 {
        0
    } else {
        frames as u128
    };
    if fps.numerator == 0 {
        return if f > 0 {
            i64::MAX as u64
        } else {
            0
        };
    }
    let den: u128 = if fps.denominator == 0 {
        1
    } else {
        fps.denominator as u128
    };
    let num: u128 = fps.numerator as u128;
    proof {
        assert(f * 1000 * den <= 9223372036854775807 * 1000 * 4294967295) by (nonlinear_arith)
            requires
                f <= 9223372036854775807,
                den <= 4294967295,
        ;
        assert(f * 1000 * den >= 0) by (nonlinear_arith);
    }
    let x = f * 1000 * den;
    let m = (2 * x + num) / (2 * num);
    if m > 9223372036854775807u128 {
        i64::MAX as u64
    } else {
        m as u64
    }
}

/// The timecode `hh:mm:ss.mmm` of a frame at `fps`.
pub fn format_timecode(frames: i64, fps: Fps) -> (r: String)
    ensures
        r@ == timecode_text(timecode_millis(frames, fps) as nat),
{
    let ms = timecode_ms(frames, fps);
    let mut out: Vec<char> = Vec::new();
    push_padded(&mut out, (ms / 3600000) as u128, 2);
    out.push(':');
    push_padded(&mut out, ((ms / 60000) % 60) as u128, 2);
    out.push(':');
    push_padded(&mut out, ((ms / 1000) % 60) as u128, 2);
    out.push('.');
    push_padded(&mut out, (ms % 1000) as u128, 3);
    assert(out@ =~= timecode_text(ms as nat));
    crate::text::string_of(&out)
}

/// Rounding a multiple of `p` to a count of `n` and back gives it again,
/// when `n <= p`: `round_div(round_div(f·p, n)·n, p) == f`.
proof fn lemma_round_back(f: int, n: int, p: int)
    requires
        f >= 0,
        0 < n <= p,
    ensures
        round_div(f * p, n) >= 0,
        round_div(round_div(f * p, n) * n, p) == f,
{
    assert(f * p >= 0) by (nonlinear_arith)
        requires
            f >= 0,
            p > 0,
    ;
    let x = 2 * (f * p) + n;
    let ms = x / (2 * n);
    let r = x % (2 * n);
    lemma_fundamental_div_mod(x, 2 * n);
    assert(ms >= 0) by (nonlinear_arith)
        requires
            x == (2 * n) * ms + r,
            x > 0,
            0 <= r < 2 * n,
    ;
    assert(ms * n >= 0) by (nonlinear_arith)
        requires
            ms >= 0,
            n > 0,
    ;
    assert(2 * (ms * n) == 2 * (f * p) + n - r) by (nonlinear_arith)
        requires
            x == (2 * n) * ms + r,
            x == 2 * (f * p) + n,
    ;
    let g = n - r + p;
    if n == p {
        assert(r == n * (2 * f + 1 - 2 * ms)) by (nonlinear_arith)
            requires
                2 * (ms * n) == 2 * (f * p) + n - r,
                n == p,
        ;
        assert(r > 0) by (nonlinear_arith)
            requires
                r == n * (2 * f + 1 - 2 * ms),
                0 <= r < 2 * n,
                n > 0,
        ;
    }
    assert(0 <= g < 2 * p);
    assert(2 * (ms * n) + p == f * (2 * p) + g) by (nonlinear_arith)
        requires
            2 * (ms * n) == 2 * (f * p) + n - r,
            g == n - r + p,
    ;
    lemma_fundamental_div_mod_converse(2 * (ms * n) + p, 2 * p, f, g);
}

/// A number of milliseconds is its hours, minutes, seconds and milliseconds.
proof fn lemma_millis_parts(ms: nat)
    ensures
        ms == 3600000 * (ms / 3600000) + 60000 * ((ms / 60000) % 60) + 1000 * ((ms / 1000) % 60)
            + ms % 1000,
{
    let a = ms / 1000;
    lemma_fundamental_div_mod(ms as int, 1000);
    lemma_div_denominator(ms as int, 1000, 60);
    lemma_fundamental_div_mod(a as int, 60);
    let b = a / 60;
    assert(b == ms / 60000);
    lemma_div_denominator(ms as int, 60000, 60);
    lemma_fundamental_div_mod(b as int, 60);
    assert(b / 60 == ms / 3600000);
}

/// Scaling a fraction's terms by `k > 0` keeps its rounding.
proof fn lemma_round_div_scale(a: int, d: int, k: int)
    requires
        a >= 0,
        d > 0,
        k > 0,
    ensures
        round_div(k * a, k * d) == round_div(a, d),
{
    assert(k * a >= 0) by (nonlinear_arith)
        requires
            a >= 0,
            k > 0,
    ;
    let y = 2 * a + d;
    assert(y >= 0);
    assert(2 * (k * a) + k * d == k * y) by (nonlinear_arith)
        requires
            y == 2 * a + d,
    ;
    assert(2 * (k * d) == k * (2 * d)) by (nonlinear_arith);
    lemma_div_denominator(k * y, k, 2 * d);
    lemma_div_multiples_vanish(y, k);
}

/// A timecode reads back as the frame it was made from, when the frame rate
/// is at most 1000 frames per second (so that a millisecond does not hold two
/// frames) and the milliseconds are not clamped to `i64`.
pub proof fn law_timecode_reads_back(frames: i64, fps: Fps)
    requires
        frames >= 0,
        0 < fps.numerator <= 1000 * fps_denominator(fps),
        round_div(frames * 1000 * fps_denominator(fps), fps.numerator as int) <= i64::MAX,
    ensures
        parse_time_spec(timecode_text(timecode_millis(frames, fps) as nat), fps) == Ok::<
            i64,
            TimeError,
        >(frames),
{
    let den = fps_denominator(fps);
    let num = fps.numerator as int;
    let pp = 1000 * den;
    assert(frames * 1000 * den == frames * pp) by (nonlinear_arith)
        requires
            pp == 1000 * den,
    ;
    lemma_round_back(frames as int, num, pp);
    let ms_i = round_div(frames * pp, num);
    assert(timecode_millis(frames, fps) == ms_i);
    let ms = ms_i as nat;
    let h = ms / 3600000;
    let mi = (ms / 60000) % 60;
    let se = (ms / 1000) % 60;
    let mm = ms % 1000;
    lemma_millis_parts(ms);
    lemma_decimal(h);
    lemma_decimal(mi);
    lemma_decimal(se);
    lemma_decimal(mm);
    assert(pow10(2) == 100 && pow10(3) == 1000) by {
        reveal_with_fuel(pow10, 4);
    }
    lemma_decimal_len(mi, 2);
    lemma_decimal_len(se, 2);
    lemma_decimal_len(mm, 3);
    let hh = zero_pad(decimal(h), 2);
    let mt = zero_pad(decimal(mi), 2);
    let st = zero_pad(decimal(se), 2);
    let mmt = zero_pad(decimal(mm), 3);
    lemma_zero_pad(decimal(h), 2);
    lemma_zero_pad(decimal(mi), 2);
    lemma_zero_pad(decimal(se), 2);
    lemma_zero_pad(decimal(mm), 3);
    let text = timecode_text(ms);
    let colon = seq![':'];
    let point = seq!['.'];
    assert(text == hh + colon + mt + colon + st + point + mmt);
    let n = hh.len() as int;
    assert(is_digit(hh[0]));
    assert(text[0] == hh[0]);
    assert(text.last() == mmt.last());
    assert(is_digit(mmt[2]));
    assert(trim_start(text) == text);
    assert(trim_end(text) == text);
    assert(trim(text) == text);
    assert forall|j: int| 0 <= j < n implies text[j] != ':' by {
        assert(text[j] == hh[j]);
        assert(is_digit(hh[j]));
    }
    assert(text[n] == ':');
    lemma_first_index_at(text, ':', n);
    let rest = text.skip(n + 1);
    assert(rest =~= mt + colon + st + point + mmt);
    assert(is_digit(mt[0]) && is_digit(mt[1]));
    assert(rest[0] == mt[0] && rest[1] == mt[1] && rest[2] == ':');
    lemma_first_index_at(rest, ':', 2);
    let last = rest.skip(3);
    assert(last =~= st + point + mmt);
    assert forall|j: int| 0 <= j < last.len() implies last[j] != ':' by {
        if j < 2 {
            assert(last[j] == st[j]);
            assert(is_digit(st[j]));
        } else if j > 2 {
            assert(last[j] == mmt[j - 3]);
            assert(is_digit(mmt[j - 3]));
        }
    }
    lemma_first_index_none(last, ':');
    assert(text.take(n) =~= hh);
    assert(rest.take(2) =~= mt);
    assert(st + point + mmt =~= st + seq!['.'] + mmt);
    lemma_pow10_values();
    lemma_pow10_strictly_increases(13, 15);
    assert(pow10(13) == 10_000_000_000_000) by {
        reveal_with_fuel(pow10, 14);
    }
    assert(h < 10_000_000_000_000);
    lemma_whole_field(hh);
    lemma_pow10_increases(2, 15);
    lemma_whole_field(mt);
    lemma_fraction_field(st, mmt);
    lemma_field_value_units(hh);
    lemma_field_value_units(mt);
    lemma_field_value_units(st + seq!['.'] + mmt);
    let total: int = (3600 * (h * pow10(18)) + 60 * (mi * pow10(18)) + (se * 1000 + mm) * pow10(15)) as int;
    let p15 = pow10(15) as int;
    let p18 = pow10(18) as int;
    assert(total == 3600 * (h * p18) + 60 * (mi * p18) + (se * 1000 + mm) * p15);
    assert(total == p15 * ms) by (nonlinear_arith)
        requires
            total == 3600 * (h * p18) + 60 * (mi * p18) + (se * 1000 + mm) * p15,
            ms == 3600000 * h + 60000 * mi + 1000 * se + mm,
            p18 == 1000 * p15,
    ;
    assert(parse_time_spec(text, fps) == Ok::<i64, TimeError>(frames_of_units(total, fps)));
    assert(ms * num >= 0) by (nonlinear_arith)
        requires
            num > 0,
    ;
    lemma_round_div_scale(ms * num, pp, pow10(15) as int);
    assert(pow10(15) * ms * num == pow10(15) * (ms * num)) by (nonlinear_arith);
    assert(pow10(18) * den == pow10(15) * pp) by (nonlinear_arith)
        requires
            pow10(18) == 1000 * pow10(15),
            pp == 1000 * den,
    ;
}

/// A frame count written as `<n>f` reads back as that many frames, at any
/// frame rate.
pub proof fn law_frame_counts_read_back(n: i64, fps: Fps)
    ensures
        parse_time_spec(signed_pad(n as int, 0) + seq!['f'], fps) == Ok::<i64, TimeError>(n),
{
    let t = signed_pad(n as int, 0);
    let m: nat = if n < 0 {
        (-(n as int)) as nat
    } else {
        n as nat
    };
    lemma_decimal(m);
    lemma_parse_i64_signed(n);
    let d = decimal(m);
    assert(zero_pad(d, 0) == d);
    assert(is_digit(d[0]));
    assert(is_digit(d[d.len() - 1]));
    assert(t.len() >= 1);
    assert(t[0] == '-' || is_digit(t[0]));
    assert(t.last() == d.last());
    let v = t + seq!['f'];
    assert(v[0] == t[0]);
    assert(v.last() == 'f');
    assert(trim_start(v) == v);
    assert(trim_end(v) == v);
    assert(v.drop_last() =~= t);
    assert(trim_start(t) == t);
    assert(trim_end(t) == t);
}

} // verus!
