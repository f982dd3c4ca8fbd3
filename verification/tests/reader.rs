use whiteread::TextSource;
use whiteread::WhiteError;
use whiteread::WhiteReader;

fn reader_over(text: &str) -> WhiteReader<TextSource> {
    WhiteReader::new(TextSource::new(String::from(text)))
}

#[test]
fn line_boundary_semantics() {
    // The overview of how the various methods handle newlines.
    let mut r = reader_over("1 2\n\n3 4 5\n6 7\n8\n");
    assert_eq!(r.next_line().unwrap().trim(), "1 2");
    assert_eq!(r.parse().ok(), Some(1));
    // continue_line would return TooShort here: the 2-tuple crosses the
    // blank line into the third one.
    assert_eq!(r.parse().ok(), Some((2, 3)));
    // finish_line would return Leftovers here.
    assert_eq!(r.continue_line().ok(), Some(4));
    // line would return Leftovers here; the unconsumed 5 and 7 are skipped.
    assert_eq!(r.start_line().ok(), Some(6));
    assert_eq!(r.line().ok(), Some(8));
    // From now on, everything returns TooShort.
    assert!(matches!(r.parse::<u8>(), Err(WhiteError::TooShort)));
    assert!(matches!(r.line::<u8>(), Err(WhiteError::TooShort)));
    assert!(matches!(r.start_line::<u8>(), Err(WhiteError::TooShort)));
    assert!(matches!(r.continue_line::<u8>(), Err(WhiteError::TooShort)));
    assert!(matches!(r.next_line(), Err(WhiteError::TooShort)));
}

#[test]
fn start_line_then_scalars() {
    let mut r = reader_over("1 2\n\n3 4 5\n6 7\n8\n");
    assert_eq!(r.start_line().ok(), Some(1));
    assert_eq!(r.parse().ok(), Some((2, 3)));
    assert_eq!(r.continue_line().ok(), Some(4));
    assert_eq!(r.start_line().ok(), Some(6));
    assert_eq!(r.line().ok(), Some(8));
    assert!(matches!(r.parse::<u8>(), Err(WhiteError::TooShort)));
}

#[test]
fn continue_line_stays_on_the_line() {
    let mut r = reader_over("1\n2\n");
    assert_eq!(r.start_line().ok(), Some(1));
    assert!(matches!(r.continue_line::<i32>(), Err(WhiteError::TooShort)));
    // The next line is still there for line-starting calls.
    assert_eq!(r.start_line().ok(), Some(2));
}

#[test]
fn newline_agnostic_parse_crosses_lines() {
    let mut r = reader_over("1\n\n2\n3");
    assert_eq!(r.parse().ok(), Some((1, 2, 3)));
    assert!(matches!(r.parse::<u8>(), Err(WhiteError::TooShort)));
}

#[test]
fn parse_vector_until_exhaustion() {
    let mut r = reader_over("1 2\n3\n\n4 5\n");
    assert_eq!(r.parse().ok(), Some(vec![1, 2, 3, 4, 5]));
}

#[test]
fn finish_line_demands_exact_consumption() {
    let mut r = reader_over("1 2\n");
    assert_eq!(r.next_line().unwrap().trim(), "1 2");
    assert!(matches!(r.finish_line::<i32>(), Err(WhiteError::Leftovers)));

    let mut r = reader_over("1 2\n");
    assert!(matches!(r.line::<i32>(), Err(WhiteError::Leftovers)));

    let mut r = reader_over("1 2\n");
    assert_eq!(r.line().ok(), Some((1, 2)));
}

#[test]
fn empty_line_is_not_exhaustion() {
    let mut r = reader_over("\nx\n");
    assert_eq!(r.next_line().unwrap(), "\n");
    assert!(matches!(r.continue_line::<char>(), Err(WhiteError::TooShort)));
    assert_eq!(r.start_line().ok(), Some('x'));
    assert!(matches!(r.next_line(), Err(WhiteError::TooShort)));
}

#[test]
fn preview_does_not_consume() {
    // A previewed line parses exactly as it would have without the preview.
    let mut with_preview = reader_over("7 8\n9\n");
    let mut without = reader_over("7 8\n9\n");
    assert_eq!(with_preview.next_line().unwrap().trim(), "7 8");
    let a: (i32, i32, i32) = with_preview.parse().unwrap();
    let b: (i32, i32, i32) = without.parse().unwrap();
    assert_eq!(a, b);
    assert_eq!(a, (7, 8, 9));
}

#[test]
fn preview_then_line_grained_parsing() {
    let mut r = reader_over("5 6\n");
    assert_eq!(r.next_line().unwrap().trim(), "5 6");
    assert_eq!(r.continue_line().ok(), Some(5));
    assert_eq!(r.finish_line().ok(), Some(6));
}

#[test]
fn p_parses_fitting_input() {
    let mut r = reader_over("5 hello\n");
    let n: i32 = r.p();
    let w: String = r.p();
    assert_eq!(n, 5);
    assert_eq!(w, "hello");
}

#[test]
fn unwrap_gives_the_source_back() {
    let mut r = reader_over("1\n2\n");
    assert_eq!(r.start_line().ok(), Some(1));
    let src = r.unwrap();
    let mut r2 = WhiteReader::new(src);
    assert_eq!(r2.start_line().ok(), Some(2));
}

#[test]
fn reader_exhausts_idempotently() {
    let mut r = reader_over("only\n");
    assert_eq!(r.parse().ok(), Some(String::from("only")));
    for _ in 0..3 {
        assert!(matches!(r.parse::<String>(), Err(WhiteError::TooShort)));
    }
}

#[test]
fn source_without_trailing_newline() {
    let mut r = reader_over("1 2\n3 4");
    assert_eq!(r.line().ok(), Some((1, 2)));
    assert_eq!(r.line().ok(), Some((3, 4)));
    assert!(matches!(r.line::<(i32, i32)>(), Err(WhiteError::TooShort)));
}
