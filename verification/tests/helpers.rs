use vlfo::cli::{check_start, CheckError, check_line, check_summary, first_error, first_line, parse_size, parse_u32, CheckOutcome, IntError, SizeError};
use vlfo::frames::{frame_file_name, frame_to_rgba, padded_row, unpad_rows};
use vlfo::hot::{Watch, POLL_INTERVAL_NS};
use vlfo::lexical::{is_float_literal, is_ident};
use vlfo::ndi::{
    count_drop, find_source, fourcc, frame_fits, is_bgr, is_opaque, source_matches, DropCounter, Offer,
    FOURCC_BGRA, FOURCC_BGRX, FOURCC_RGBA, FOURCC_RGBX,
};

fn chars(s: &str) -> Vec<char> {
    s.chars().collect()
}

#[test]
fn sizes_parse() {
    assert_eq!(parse_size("1280x720"), Ok((1280, 720)));
    assert_eq!(parse_size("+4800x7200"), Ok((4800, 7200)));
    assert_eq!(parse_size("0x4294967295"), Ok((0, u32::MAX)));
    assert_eq!(parse_size("1x2x3"), Err(SizeError::Int(IntError::InvalidDigit)));
}

#[test]
fn printed_sizes_parse_back() {
    for (w, h) in [(0u32, 0u32), (1, 1), (1280, 720), (4800, 7200), (u32::MAX, 10), (9, u32::MAX)] {
        assert_eq!(parse_size(&format!("{w}x{h}")), Ok((w, h)));
    }
}

#[test]
fn size_errors() {
    assert_eq!(parse_size("1280*720"), Err(SizeError::NotWxH));
    assert_eq!(parse_size("x720"), Err(SizeError::Int(IntError::Empty)));
    assert_eq!(parse_size("12a0x720"), Err(SizeError::Int(IntError::InvalidDigit)));
    assert_eq!(parse_size("-1x720"), Err(SizeError::Int(IntError::InvalidDigit)));
    assert_eq!(parse_size("1280x4294967296"), Err(SizeError::Int(IntError::PosOverflow)));
    assert_eq!(SizeError::NotWxH.message(), "size must be WxH");
}

#[test]
fn u32_parse_agrees_with_std() {
    let cases = [
        "", "+", "-", "0", "007", "+12", "++1", "4294967295", "4294967296", "99999999999", "1 ", " 1",
        "12x", "٣", "42949672950", "4294967299a",
    ];
    for c in cases {
        let ours = parse_u32(&chars(c));
        let std = c.parse::<u32>();
        match (ours, std) {
            (Ok(a), Ok(b)) => assert_eq!(a, b, "{c:?}"),
            (Err(e), Err(s)) => {
                let msg = SizeError::Int(e).message();
                assert_eq!(msg, s.to_string(), "{c:?}");
            }
            (a, b) => panic!("{c:?}: {a:?} vs {b:?}"),
        }
    }
}

#[test]
fn first_line_of_messages() {
    assert_eq!(first_line("one\ntwo"), "one");
    assert_eq!(first_line("one\r\ntwo"), "one");
    assert_eq!(first_line(""), "");
    assert_eq!(first_line("\nsecond"), "");
}

#[test]
fn first_error_picks_head_and_location() {
    let report = "\n  error: expected ';'  \n\n   = note\n   ┌─ wgsl:3:5\n  --> also\n";
    assert_eq!(first_error(report), "error: expected ';'  ┌─ wgsl:3:5");
    assert_eq!(first_error("bad thing\nno location here"), "bad thing");
    assert_eq!(first_error("  --> first line is the head\nx --> y"), "--> first line is the head  x --> y");
    assert_eq!(first_error(""), "");
}

#[test]
fn identifiers() {
    assert!(is_ident(&chars("_a1")));
    assert!(is_ident(&chars("speed")));
    assert!(!is_ident(&chars("1a")));
    assert!(!is_ident(&chars("")));
    assert!(!is_ident(&chars("a-b")));
    assert!(!is_ident(&chars("é")));
}

#[test]
fn watch_polls_at_most_twice_a_second() {
    let mut w = Watch::new("shader.fs", Some(100), 0);
    assert_eq!(w.path(), "shader.fs");
    assert!(!w.changed(POLL_INTERVAL_NS - 1, Some(200)));
    assert!(w.changed(POLL_INTERVAL_NS, Some(200)));
    assert_eq!(w.mtime, Some(200));
    assert!(!w.changed(POLL_INTERVAL_NS + 10, Some(300)));
    assert!(!w.changed(2 * POLL_INTERVAL_NS, Some(200)));
    assert!(!w.changed(3 * POLL_INTERVAL_NS, None));
    assert_eq!(w.mtime, Some(200));
    assert!(!w.due(3 * POLL_INTERVAL_NS + 1));
    assert!(w.changed(4 * POLL_INTERVAL_NS, Some(50)));
    assert_eq!(w.last_check, 4 * POLL_INTERVAL_NS);
}

#[test]
fn watch_clock_going_back_is_no_time() {
    let mut w = Watch::new("f", None, 10 * POLL_INTERVAL_NS);
    assert!(!w.changed(0, Some(1)));
    assert_eq!(w.last_check, 10 * POLL_INTERVAL_NS);
}

#[test]
fn readback_rows() {
    assert_eq!(padded_row(1), 256);
    assert_eq!(padded_row(64), 256);
    assert_eq!(padded_row(65), 512);
    assert_eq!(padded_row(0), 0);
    let data: Vec<u8> = (0..20).collect();
    assert_eq!(unpad_rows(&data, 1, 2, 10), vec![0, 1, 2, 3, 10, 11, 12, 13]);
    assert_eq!(unpad_rows(&data, 0, 2, 10), Vec::<u8>::new());
}

#[test]
fn received_frames_to_rgba() {
    let data: Vec<u8> = vec![1, 2, 3, 4, 5, 6, 7, 8, 99, 10, 20, 30, 40, 50, 60, 70, 80, 99];
    assert_eq!(frame_to_rgba(&data, 2, 2, 9, false, false), vec![1, 2, 3, 4, 5, 6, 7, 8, 10, 20, 30, 40, 50, 60, 70, 80]);
    assert_eq!(frame_to_rgba(&data, 2, 1, 9, true, true), vec![3, 2, 1, 255, 7, 6, 5, 255]);
    assert!(is_bgr(FOURCC_BGRA) && is_bgr(FOURCC_BGRX) && !is_bgr(FOURCC_RGBA));
    assert!(is_opaque(FOURCC_RGBX) && is_opaque(FOURCC_BGRX) && !is_opaque(FOURCC_BGRA));
}

#[test]
fn frame_files() {
    assert_eq!(frame_file_name(0), "frame00000.png");
    assert_eq!(frame_file_name(42), "frame00042.png");
    assert_eq!(frame_file_name(123456), "frame123456.png");
    assert_eq!(frame_file_name(7), format!("frame{:05}.png", 7));
}

#[test]
fn fourcc_codes() {
    assert_eq!(fourcc(b'R', b'G', b'B', b'A'), FOURCC_RGBA);
    assert_eq!(fourcc(b'R', b'G', b'B', b'X'), FOURCC_RGBX);
    assert_eq!(fourcc(b'B', b'G', b'R', b'A'), FOURCC_BGRA);
    assert_eq!(fourcc(b'B', b'G', b'R', b'X'), FOURCC_BGRX);
    assert_eq!(fourcc(0, 0, 0, 0x80), i32::MIN);
}

#[test]
fn sources_by_name() {
    assert!(source_matches("vlfo-1", "vlfo-1"));
    assert!(source_matches("HOST (vlfo-1)", "vlfo-1"));
    assert!(!source_matches("HOST (vlfo-12)", "vlfo-1"));
    assert!(!source_matches("(vlfo-1) HOST", "vlfo-1"));
    let list = vec![
        ("A (x)".to_string(), "u1".to_string()),
        ("B (y)".to_string(), String::new()),
        ("C (y)".to_string(), "u3".to_string()),
    ];
    assert_eq!(find_source(&list, "y"), Some(1));
    assert_eq!(find_source(&list, "A (x)"), Some(0));
    assert_eq!(find_source(&list, "z"), None);
}

#[test]
fn frame_sizes() {
    assert!(frame_fits(16, 2, 2));
    assert!(!frame_fits(15, 2, 2));
}

#[test]
fn dropped_frames_warn_every_sixty() {
    assert_eq!(count_drop(0, Offer::Full), (1, true));
    assert_eq!(count_drop(1, Offer::Full), (2, false));
    assert_eq!(count_drop(60, Offer::Full), (61, true));
    assert_eq!(count_drop(5, Offer::Queued), (5, false));
    assert_eq!(count_drop(5, Offer::Gone), (5, false));
}

#[test]
fn drop_counter_records_outcomes() {
    let mut c = DropCounter { dropped: 0 };
    assert!(!c.record(Offer::Queued));
    assert_eq!(c.dropped, 0);
    assert!(c.record(Offer::Full));
    assert_eq!(c.dropped, 1);
    assert!(!c.record(Offer::Full));
    assert!(!c.record(Offer::Gone));
    assert_eq!(c.dropped, 2);
    let mut late = DropCounter { dropped: 60 };
    assert!(late.record(Offer::Full));
    assert_eq!(late.dropped, 61);
}

#[test]
fn float_literals_are_what_f32_parse_accepts() {
    let cases = [
        "", "0", "-0", "+1", "1.", ".5", ".", "-.", "1e5", "1E5", "1e", "1e+", "1e-3", "1.5e-3", "e5",
        "1e5.0", "inf", "-INF", "Infinity", "+infinity", "infin", "nan", "NaN", "-nan", "1_000", "0x10",
        "1 ", " 1", "--1", "+-1", "1.2.3", "00012", "1e0001", "١", "1.e3", ".e3", "infe", "3.40282357e38",
        "1e-50", "9999999999999999999999999999999999999999999",
    ];
    for c in cases {
        let chars: Vec<char> = c.chars().collect();
        assert_eq!(is_float_literal(&chars), c.parse::<f32>().is_ok(), "{c:?}");
    }
}

#[test]
fn check_report_lines() {
    assert_eq!(check_line("a.fs", &CheckOutcome::Translated { images: 0 }), "OK     a.fs");
    assert_eq!(check_line("b.fs", &CheckOutcome::Translated { images: 2 }), "OK     b.fs (2 image inputs)");
    assert_eq!(check_line("c.fs", &CheckOutcome::ParseFailed("parse c.fs\ncause".into())), "PARSE  c.fs: parse c.fs");
    assert_eq!(
        check_line("d.fs", &CheckOutcome::TranslateFailed("\nerror: bad\n  ┌─ wgsl:1:2\n".into())),
        "FAIL   d.fs: error: bad  ┌─ wgsl:1:2"
    );
    let all = vec![
        CheckOutcome::Translated { images: 0 },
        CheckOutcome::ParseFailed("x".into()),
        CheckOutcome::TranslateFailed("y".into()),
        CheckOutcome::Translated { images: 1 },
    ];
    assert_eq!(check_summary(&all), "\n2 ok, 1 failed to translate, 1 failed to parse (4 total)");
}

#[test]
fn check_needs_files() {
    assert_eq!(check_start(0), Err(CheckError::NoFiles));
    assert_eq!(CheckError::NoFiles.message(), "no files given");
    assert_eq!(check_start(3), Ok(()));
}

#[test]
fn rows_need_only_the_bytes_they_read() {
    // two rows of 4 bytes, 10 apart: 14 bytes are enough
    let data: Vec<u8> = (0..14).collect();
    assert_eq!(unpad_rows(&data, 1, 2, 10), vec![0, 1, 2, 3, 10, 11, 12, 13]);
    assert_eq!(frame_to_rgba(&data, 1, 2, 10, true, false), vec![2, 1, 0, 3, 12, 11, 10, 13]);
    assert_eq!(unpad_rows(&[], 100, 0, 512), Vec::<u8>::new());
    assert_eq!(frame_to_rgba(&[], 100, 0, 400, false, false), Vec::<u8>::new());
}
