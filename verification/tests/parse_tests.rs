use raster3d::line::Line;
use raster3d::parse::{
    err_display_eol_or_lexeme, next_axis, next_lexeme, next_name, next_usize, skip_linespace,
    starts_with_comment, Axis, ParseError,
};
use raster3d::point::Point;

#[test]
fn skip_linespace_skips_blanks_and_tabs() {
    let s = "  \t moveto";
    assert_eq!(skip_linespace(s, 0), 4);
    assert_eq!(skip_linespace(s, 5), 5);
    assert_eq!(skip_linespace("   ", 0), 3);
    assert_eq!(skip_linespace("", 0), 0);
}

#[test]
fn comment_detection() {
    assert!(starts_with_comment("// note", 0));
    assert!(starts_with_comment("x // note", 2));
    assert!(!starts_with_comment("/ note", 0));
    assert!(!starts_with_comment("note", 0));
    assert!(!starts_with_comment("/", 0));
}

#[test]
fn next_lexeme_finds_spans() {
    let s = "  box 10";
    assert_eq!(next_lexeme(s, 0), Some((2, 5)));
    assert_eq!(next_lexeme(s, 5), Some((6, 8)));
    assert_eq!(next_lexeme(s, 8), None);
    assert_eq!(next_lexeme("   ", 0), None);
}

#[test]
fn next_name_accepts_identifiers() {
    let s = " knob_1 rest";
    let span = next_name(s, 0, 3).expect("name expected");
    assert_eq!(span, (1, 7));
    assert_eq!(&s[span.0..span.1], "knob_1");
}

#[test]
fn next_name_accepts_non_letter_openers() {
    // the script's loose rule: a lexeme that does not open with a letter is
    // taken as it stands
    let span = next_name("123abc", 0, 0).expect("lexeme expected");
    assert_eq!(span, (0, 6));
}

#[test]
fn next_name_rejects_bad_tail() {
    match next_name("ab$c", 0, 7) {
        Err(ParseError::ExpectedName(Some(t), 7)) => assert_eq!(t, "ab$c"),
        other => panic!("unexpected result: {:?}", other),
    }
}

#[test]
fn next_name_reports_end_of_line() {
    match next_name("   ", 0, 2) {
        Err(ParseError::ExpectedName(None, 2)) => {}
        other => panic!("unexpected result: {:?}", other),
    }
}

#[test]
fn next_usize_parses_numbers() {
    assert_eq!(next_usize(" 42 ", 0, 0).expect("number"), (42, 3));
    assert_eq!(next_usize("0", 0, 0).expect("number"), (0, 1));
    assert_eq!(next_usize("+7", 0, 0).expect("number"), (7, 2));
    assert_eq!(next_usize("007", 0, 0).expect("number"), (7, 3));
}

#[test]
fn next_usize_rejects_non_numbers() {
    match next_usize("4x2", 0, 1) {
        Err(ParseError::ExpectedUnsigned(Some(t), 1)) => assert_eq!(t, "4x2"),
        other => panic!("unexpected result: {:?}", other),
    }
    match next_usize("+", 0, 0) {
        Err(ParseError::ExpectedUnsigned(Some(t), 0)) => assert_eq!(t, "+"),
        other => panic!("unexpected result: {:?}", other),
    }
    match next_usize("-3", 0, 0) {
        Err(ParseError::ExpectedUnsigned(Some(t), 0)) => assert_eq!(t, "-3"),
        other => panic!("unexpected result: {:?}", other),
    }
    match next_usize("", 0, 4) {
        Err(ParseError::ExpectedUnsigned(None, 4)) => {}
        other => panic!("unexpected result: {:?}", other),
    }
}

#[test]
fn next_usize_rejects_overflow() {
    match next_usize("99999999999999999999999999", 0, 0) {
        Err(ParseError::ExpectedUnsigned(Some(t), 0)) => {
            assert_eq!(t, "99999999999999999999999999")
        }
        other => panic!("unexpected result: {:?}", other),
    }
}

#[test]
fn next_axis_parses_each_axis() {
    assert!(matches!(next_axis(" x", 0, 0), Ok((Axis::X, 2))));
    assert!(matches!(next_axis("y", 0, 0), Ok((Axis::Y, 1))));
    assert!(matches!(next_axis("z 30", 0, 0), Ok((Axis::Z, 1))));
}

#[test]
fn next_axis_rejects_other_words() {
    match next_axis("w", 0, 5) {
        Err(ParseError::ExpectedAxis(Some(t), 5)) => assert_eq!(t, "w"),
        other => panic!("unexpected result: {:?}", other),
    }
    match next_axis("xy", 0, 0) {
        Err(ParseError::ExpectedAxis(Some(t), 0)) => assert_eq!(t, "xy"),
        other => panic!("unexpected result: {:?}", other),
    }
    match next_axis("  ", 0, 1) {
        Err(ParseError::ExpectedAxis(None, 1)) => {}
        other => panic!("unexpected result: {:?}", other),
    }
}

#[test]
fn error_token_display() {
    assert_eq!(err_display_eol_or_lexeme(Some("box")), "'box'");
    assert_eq!(err_display_eol_or_lexeme(None), "end of line");
}

#[test]
fn line_accessors() {
    let l = Line::xyxy(1, 2, 3, 5);
    assert_eq!(l.dx(), 2);
    assert_eq!(l.dy(), 3);
    let p = l.startpoint();
    let q = l.endpoint();
    assert_eq!((p.x, p.y), (1, 2));
    assert_eq!((q.x, q.y), (3, 5));
    let r = l.reversed();
    assert_eq!((r.x0, r.y0, r.x1, r.y1), (3, 5, 1, 2));
}

#[test]
fn line_constructors() {
    let o = Line::origin_to(4, 6);
    assert_eq!((o.x0, o.y0, o.x1, o.y1), (0, 0, 4, 6));
    let f = Line::from_to(Point::xy(1, 1), Point::xy(2, 3));
    assert_eq!((f.x0, f.y0, f.x1, f.y1), (1, 1, 2, 3));
}

#[test]
fn next_usize_boundary_of_machine_word() {
    assert_eq!(
        next_usize("18446744073709551615", 0, 0).expect("number"),
        (usize::MAX, 20)
    );
    match next_usize("18446744073709551616", 0, 0) {
        Err(ParseError::ExpectedUnsigned(Some(t), 0)) => {
            assert_eq!(t, "18446744073709551616")
        }
        other => panic!("unexpected result: {:?}", other),
    }
}
