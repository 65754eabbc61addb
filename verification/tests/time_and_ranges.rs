use terminal_effects::model::Fps;
use terminal_effects::server::parse_range;
use terminal_effects::text::IntErrorKind;
use terminal_effects::time::{format_timecode, parse_time, split_time_range, TimeError};

#[test]
fn parses_agent_friendly_times() {
    let fps = Fps::default();
    assert_eq!(parse_time("45f", fps).unwrap(), 45);
    assert_eq!(parse_time("1.5s", fps).unwrap(), 45);
    assert_eq!(parse_time("00:01.500", fps).unwrap(), 45);
    assert_eq!(parse_time("00:00:01.500", fps).unwrap(), 45);
}

#[test]
fn formats_timecode() {
    assert_eq!(format_timecode(45, Fps::default()), "00:00:01.500");
}

#[test]
fn parses_open_and_bounded_ranges() {
    assert_eq!(parse_range("bytes=10-19", 100), Some((10, 19)));
    assert_eq!(parse_range("bytes=90-", 100), Some((90, 99)));
    assert_eq!(parse_range("bytes=120-", 100), None);
}

#[test]
fn parse_time_trims_and_reads_plain_seconds() {
    let fps = Fps::default();
    assert_eq!(parse_time("  2 ", fps), Ok(60));
    assert_eq!(parse_time("\t12 f\n", fps), Ok(12));
    assert_eq!(parse_time("-3f", fps), Ok(-3));
    assert_eq!(parse_time("+0.5", fps), Ok(15));
    assert_eq!(parse_time("1e1", fps), Ok(300));
    assert_eq!(parse_time("2.5E-1s", fps), Ok(8));
    assert_eq!(parse_time(".5", fps), Ok(15));
    assert_eq!(parse_time("1.", fps), Ok(30));
}

#[test]
fn parse_time_rounds_halves_away_from_zero() {
    let fps = Fps { numerator: 1, denominator: 1 };
    assert_eq!(parse_time("2.5", fps), Ok(3));
    assert_eq!(parse_time("-2.5", fps), Ok(-3));
    assert_eq!(parse_time("2.49", fps), Ok(2));
    let ntsc = Fps { numerator: 30000, denominator: 1001 };
    assert_eq!(parse_time("10s", ntsc), Ok(300));
    assert_eq!(parse_time("1:00", ntsc), Ok(1798));
}

#[test]
fn parse_time_reports_each_error() {
    let fps = Fps::default();
    assert_eq!(parse_time("x f", fps), Err(TimeError::Frames(IntErrorKind::InvalidDigit)));
    assert_eq!(parse_time("99999999999999999999f", fps), Err(TimeError::Frames(IntErrorKind::PosOverflow)));
    assert_eq!(parse_time("-99999999999999999999f", fps), Err(TimeError::Frames(IntErrorKind::NegOverflow)));
    assert_eq!(parse_time("-9223372036854775808f", fps), Ok(i64::MIN));
    assert_eq!(parse_time("9223372036854775808f", fps), Err(TimeError::Frames(IntErrorKind::PosOverflow)));
    assert_eq!(parse_time("9999999999999999999x9f", fps), Err(TimeError::Frames(IntErrorKind::PosOverflow)));
    assert_eq!(parse_time("12x99999999999999999999f", fps), Err(TimeError::Frames(IntErrorKind::InvalidDigit)));
    assert_eq!(parse_time(" f", fps), Err(TimeError::Frames(IntErrorKind::Empty)));
    assert_eq!(parse_time("+f", fps), Err(TimeError::Frames(IntErrorKind::InvalidDigit)));
    assert_eq!(parse_time("s", fps), Err(TimeError::EmptyNumber));
    assert_eq!(parse_time("   ", fps), Err(TimeError::EmptyNumber));
    assert_eq!(parse_time(":5", fps), Err(TimeError::EmptyNumber));
    assert_eq!(parse_time("x:", fps), Err(TimeError::InvalidNumber));
    assert_eq!(parse_time("abc", fps), Err(TimeError::InvalidNumber));
    assert_eq!(parse_time(".", fps), Err(TimeError::InvalidNumber));
    assert_eq!(parse_time("1:2:3:4", fps), Err(TimeError::InvalidTimecode));
    assert_eq!(parse_time("1:x", fps), Err(TimeError::InvalidNumber));
    assert_eq!(parse_time("1e15", fps), Err(TimeError::OutOfRange));
    assert_eq!(parse_time("0.0000000000000000001", fps), Err(TimeError::OutOfRange));
    assert_eq!(parse_time("0e999999999999999999999999", fps), Ok(0));
}

#[test]
fn format_timecode_breaks_down_hours_minutes_seconds() {
    let fps = Fps::default();
    assert_eq!(format_timecode(0, fps), "00:00:00.000");
    assert_eq!(format_timecode(-10, fps), "00:00:00.000");
    assert_eq!(format_timecode(30 * 3723 + 15, fps), "01:02:03.500");
    assert_eq!(format_timecode(30 * 3600 * 120, fps), "120:00:00.000");
    let stopped = Fps { numerator: 0, denominator: 1 };
    assert_eq!(format_timecode(0, stopped), "00:00:00.000");
    assert_eq!(format_timecode(1, stopped), "2562047788015:12:55.807");
}

#[test]
fn timecode_reads_back_as_the_same_frame() {
    let fps = Fps { numerator: 24000, denominator: 1001 };
    for frame in [0i64, 1, 23, 24, 1439, 86_400, 1_000_000] {
        let text = format_timecode(frame, fps);
        assert_eq!(parse_time(&text, fps), Ok(frame));
    }
}

#[test]
fn frame_counts_read_back_at_any_rate() {
    let rates = [Fps::default(), Fps { numerator: 0, denominator: 0 }, Fps { numerator: 24000, denominator: 1001 }];
    for fps in rates {
        for n in [0i64, 7, -7, i64::MAX, i64::MIN] {
            assert_eq!(parse_time(&format!("{n}f"), fps), Ok(n));
        }
    }
}

#[test]
fn time_errors_read_as_the_parsers_report_them() {
    assert_eq!(TimeError::InvalidTimecode.describe("  1:2:3:4 "), "invalid time: 1:2:3:4");
    assert_eq!(TimeError::Frames(IntErrorKind::InvalidDigit).describe("x f"), "invalid digit found in string");
    assert_eq!(TimeError::Frames(IntErrorKind::Empty).describe("f"), "cannot parse integer from empty string");
    assert_eq!(TimeError::Frames(IntErrorKind::PosOverflow).describe("9e99f"), "number too large to fit in target type");
    assert_eq!(TimeError::Frames(IntErrorKind::NegOverflow).describe("-9e99f"), "number too small to fit in target type");
    assert_eq!(TimeError::EmptyNumber.describe("s"), "cannot parse float from empty string");
    assert_eq!(TimeError::InvalidNumber.describe("abc"), "invalid float literal");
}

#[test]
fn infinite_and_undefined_times_saturate_as_floats_do() {
    let fps = Fps::default();
    assert_eq!(parse_time("infinity", fps), Ok(i64::MAX));
    assert_eq!(parse_time("-Infinity", fps), Ok(i64::MIN));
    assert_eq!(parse_time("infs", fps), Ok(i64::MAX));
    assert_eq!(parse_time("NaN", fps), Ok(0));
    assert_eq!(parse_time("inf:5", fps), Ok(i64::MAX));
    assert_eq!(parse_time("1:2:-infinity", fps), Ok(i64::MIN));
    assert_eq!(parse_time("1:2:-inf", fps), Err(TimeError::Frames(IntErrorKind::InvalidDigit)));
    assert_eq!(parse_time("inf:-infinity", fps), Ok(0));
    assert_eq!(parse_time("nan:1", fps), Ok(0));
    assert_eq!(parse_time("inf", fps), Err(TimeError::Frames(IntErrorKind::InvalidDigit)));
    assert_eq!(parse_time("1e15:infinity", fps), Err(TimeError::OutOfRange));
    let stopped = Fps { numerator: 0, denominator: 1 };
    assert_eq!(parse_time("infinity", stopped), Ok(0));
}

#[test]
fn time_ranges_split_at_their_first_two_dots() {
    assert_eq!(split_time_range("10s..20s"), Some(("10s".to_string(), "20s".to_string())));
    assert_eq!(split_time_range("1.5s..2.5s"), Some(("1.5s".to_string(), "2.5s".to_string())));
    assert_eq!(split_time_range("1...2"), Some(("1".to_string(), ".2".to_string())));
    assert_eq!(split_time_range("..5"), Some(("".to_string(), "5".to_string())));
    assert_eq!(split_time_range("10s-20s"), None);
    assert_eq!(split_time_range("."), None);
}
