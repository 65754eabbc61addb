//! Text for the terminal interface: shortened labels, short times, and the
//! status line after an edit.
use crate::edit::{edit_error_detail, str_option_view, EditError};
use crate::history::{EditReport, ReportView};
use crate::model::{Fps, Project, ProjectView};
use crate::text::{decimal, lemma_decimal, push_padded, string_of, zero_pad};
use crate::time::{fps_denominator, round_div, saturate_i64};
use vstd::prelude::*;

verus! {

/// `value` when it has at most `maximum` characters; else its first
/// `maximum - 3` characters (none when that is negative) and `...`.
pub open spec fn truncate_spec(value: Seq<char>, maximum: nat) -> Seq<char> {
    if value.len() <= maximum {
        value
    } else {
        value.take(if maximum >= 3 {
            maximum - 3
        } else {
            0
        }) + seq!['.', '.', '.']
    }
}

/// Shortens a label to at most `maximum` characters, ending it in `...`
/// when it was cut.
pub fn truncate(value: &str, maximum: usize) -> (r: String)
    ensures
        r@ == truncate_spec(value@, maximum as nat),
{
    let n = value.unicode_len();
    let mut out: Vec<char> = Vec::new();
    if n <= maximum {
        let mut i: usize = 0;
        while i < n
            invariant
                n == value@.len(),
                i <= n,
                out@ == value@.take(i as int),
            decreases n - i,
        {
            out.push(value.get_char(i));
            i = i + 1;
            assert(out@ =~= value@.take(i as int));
        }
        assert(value@.take(n as int) =~= value@);
        return string_of(&out);
    }
    let keep = if maximum >= 3 {
        maximum - 3
    } else {
        0
    };
    let mut i: usize = 0;
    while i < keep
        invariant
            n == value@.len(),
            keep < n,
            i <= keep,
            out@ == value@.take(i as int),
        decreases keep - i,
    {
        out.push(value.get_char(i));
        i = i + 1;
        assert(out@ =~= value@.take(i as int));
    }
    out.push('.');
    out.push('.');
    out.push('.');
    assert(out@ =~= value@.take(keep as int) + seq!['.', '.', '.']);
    string_of(&out)
}

/// The whole seconds nearest to `frames / fps` (negative frames read as
/// zero, halves away from zero, clamped to `i64`; with a zero rate, the
/// largest `i64` for a positive count and zero for none).
pub open spec fn rounded_seconds(frames: i64, fps: Fps) -> int {
    let f: int = if frames < 0 {
        0
    } else {
        frames as int
    };
    if fps.numerator == 0 {
        if f > 0 {
            i64::MAX as int
        } else {
            0
        }
    } else {
        saturate_i64(round_div(f * fps_denominator(fps), fps.numerator as int)) as int
    }
}

/// `mm:ss` for a number of seconds; the minutes take as many digits as they
/// need.
pub open spec fn short_time_text(seconds: nat) -> Seq<char> {
    zero_pad(decimal(seconds / 60), 2) + seq![':'] + zero_pad(decimal(seconds % 60), 2)
}

fn seconds_of(frames: i64, fps: Fps) -> (r: u64)
    ensures
        r == rounded_seconds(frames, fps),
{
    let f: u128 = if frames < 0 {
        0
    } else {
        frames as u128
    };
    if fps.numerator == 0 {
        return if f > 0 {
            i64::MAX as u64
        } else {
            0
        };
    }
    let den: u128 = if fps.denominator == 0 {
        1
    } else {
        fps.denominator as u128
    };
    let num: u128 = fps.numerator as u128;
    proof {
        assert(f * den <= 9223372036854775807 * 4294967295) by (nonlinear_arith)
            requires
                f <= 9223372036854775807,
                den <= 4294967295,
        ;
        assert(f * den >= 0) by (nonlinear_arith);
    }
    let x = f * den;
    let m = (2 * x + num) / (2 * num);
    if m > 9223372036854775807u128 {
        i64::MAX as u64
    } else {
        m as u64
    }
}

/// The playhead as `mm:ss`, to the nearest second.
pub fn short_time(frames: i64, fps: Fps) -> (r: String)
    ensures
        r@ == short_time_text(rounded_seconds(frames, fps) as nat),
{
    let s = seconds_of(frames, fps);
    let mut out: Vec<char> = Vec::new();
    push_padded(&mut out, (s / 60) as u128, 2);
    out.push(':');
    push_padded(&mut out, (s % 60) as u128, 2);
    assert(out@ =~= short_time_text(s as nat));
    string_of(&out)
}

/// The playhead as `mm:ss.00`, to the nearest second.
pub fn short_time_with_seconds(frames: i64, fps: Fps) -> (r: String)
    ensures
        r@ == short_time_text(rounded_seconds(frames, fps) as nat) + seq!['.', '0', '0'],
{
    let s = seconds_of(frames, fps);
    let mut out: Vec<char> = Vec::new();
    push_padded(&mut out, (s / 60) as u128, 2);
    out.push(':');
    push_padded(&mut out, (s % 60) as u128, 2);
    out.push('.');
    out.push('0');
    out.push('0');
    assert(out@ =~= short_time_text(s as nat) + seq!['.', '0', '0']);
    string_of(&out)
}

/// The status line after an edit: `operation -> revision N`, or the
/// error's full message for a command on `p` with the query `query` and the
/// track `track`.
pub open spec fn report_text(
    r: Result<ReportView, EditError>,
    p: ProjectView,
    query: Seq<char>,
    track: Option<Seq<char>>,
) -> Seq<char> {
    match r {
        Ok(report) => report.operation + " -> revision "@ + decimal(report.revision_after as nat),
        Err(e) => edit_error_detail(e, p, query, track),
    }
}

/// The status line after an edit, for a command on `p` with the query
/// `query` and the track `track`.
pub fn report(r: &Result<EditReport, EditError>, p: &Project, query: &str, track: Option<&str>) -> (s:
    String)
    ensures
        s@ == report_text(
            match r {
                Ok(x) => Ok(x@),
                Err(e) => Err(*e),
            },
            p@,
            query@,
            str_option_view(track),
        ),
{
    match r {
        Err(e) => e.describe(p, query, track),
        Ok(x) => {
            proof {
                reveal_strlit(" -> revision ");
            }
            let mut out = crate::text::chars_of(x.operation.as_str());
            let tail = vec![' ', '-', '>', ' ', 'r', 'e', 'v', 'i', 's', 'i', 'o', 'n', ' '];
            let ghost head = out@;
            let mut i: usize = 0;
            while i < tail.len()
                invariant
                    i <= tail.len(),
                    tail@ == " -> revision "@,
                    out@ == head + tail@.take(i as int),
                decreases tail.len() - i,
            {
                out.push(tail[i]);
                i = i + 1;
                assert(out@ =~= head + tail@.take(i as int));
            }
            assert(tail@.take(tail.len() as int) =~= tail@);
            push_padded(&mut out, x.revision_after as u128, 0);
            proof {
                lemma_decimal(x.revision_after as nat);
            }
            assert(out@ =~= report_text(Ok(x@), p@, query@, str_option_view(track)));
            string_of(&out)
        },
    }
}

} // verus!
