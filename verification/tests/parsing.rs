use whiteread::Lengthed;
use whiteread::StrStream;
use whiteread::Tokens;
use whiteread::White;
use whiteread::WhiteError;
use whiteread::WhiteResultExt;
use whiteread::parse_string;

#[test]
fn parses_string_and_number() {
    let (s, i): (String, i32) = parse_string("  answer  42 ").unwrap();
    assert_eq!(s, "answer");
    assert_eq!(i, 42);
}

#[test]
fn parses_number_with_spaces() {
    let number: i32 = parse_string(" 123  ").unwrap();
    assert_eq!(number, 123);
}

#[test]
fn parses_nested_tuples() {
    assert_eq!(parse_string("2 1 3 4").ok(), Some(((2, 1), (3, 4))));
}

#[test]
fn parses_triple() {
    assert_eq!(parse_string("1 -2 3").ok(), Some((1u8, -2i32, 3u64)));
}

#[test]
fn sequence_is_total() {
    // An open-ended sequence swallows every token in order ...
    assert_eq!(parse_string("2 1 3 4").ok(), Some(vec![2, 1, 3, 4]));
    // ... and an empty input is an empty sequence, not an error.
    assert_eq!(parse_string("").ok(), Some(Vec::<i32>::new()));
    assert_eq!(parse_string("   ").ok(), Some(Vec::<i32>::new()));
}

#[test]
fn length_prefixed_takes_exactly_the_count() {
    let Lengthed(v): Lengthed<u8> = parse_string("3 5 6 7").unwrap();
    assert_eq!(v, &[5, 6, 7]);
    assert_eq!(parse_string("2 1 3").ok(), Some(Lengthed(vec![1, 3])));
    assert_eq!(parse_string("0").ok(), Some(Lengthed(Vec::<i32>::new())));
}

#[test]
fn length_prefixed_leaves_extra_tokens_to_the_caller() {
    let mut cursor = Tokens::new(String::from("2 1 3 4"));
    let Lengthed(v): Lengthed<i32> = White::read(&mut cursor).unwrap();
    assert_eq!(v, vec![1, 3]);
    let rest: i32 = White::read(&mut cursor).unwrap();
    assert_eq!(rest, 4);
}

#[test]
fn length_prefixed_runs_short() {
    assert!(matches!(
        parse_string::<Lengthed<i32>>("3 1 2"),
        Err(WhiteError::TooShort)
    ));
}

#[test]
fn parses_mixed_shapes() {
    assert_eq!(parse_string("a 1 b 2").ok(), Some(vec![('a', 1), ('b', 2)]));
}

#[test]
fn too_short_leftovers_and_parse_error() {
    assert!(matches!(
        parse_string::<(u8, u16)>("1"),
        Err(WhiteError::TooShort)
    ));
    assert!(matches!(
        parse_string::<char>("x y z"),
        Err(WhiteError::Leftovers)
    ));
    assert!(matches!(
        parse_string::<i32>("seven"),
        Err(WhiteError::ParseError)
    ));
}

#[test]
fn char_takes_first_character_of_token() {
    assert_eq!(parse_string("abc").ok(), Some('a'));
}

#[test]
fn bool_is_spelled_out() {
    assert_eq!(parse_string("true false").ok(), Some((true, false)));
    assert!(matches!(
        parse_string::<bool>("True"),
        Err(WhiteError::ParseError)
    ));
    assert!(matches!(
        parse_string::<bool>("1"),
        Err(WhiteError::ParseError)
    ));
}

#[test]
fn unit_consumes_nothing() {
    assert_eq!(parse_string("").ok(), Some(()));
    assert!(matches!(parse_string::<()>("x"), Err(WhiteError::Leftovers)));
}

#[test]
fn signs_and_limits() {
    assert_eq!(parse_string("+42").ok(), Some(42u32));
    assert_eq!(parse_string("-42").ok(), Some(-42i32));
    assert_eq!(parse_string("-0").ok(), Some(0i64));
    assert_eq!(parse_string("2147483647").ok(), Some(i32::MAX));
    assert_eq!(parse_string("-2147483648").ok(), Some(i32::MIN));
    assert_eq!(parse_string("255").ok(), Some(255u8));
    assert_eq!(parse_string("18446744073709551615").ok(), Some(u64::MAX));
    assert_eq!(parse_string("-9223372036854775808").ok(), Some(i64::MIN));
    assert!(matches!(
        parse_string::<i32>("2147483648"),
        Err(WhiteError::ParseError)
    ));
    assert!(matches!(
        parse_string::<i32>("-2147483649"),
        Err(WhiteError::ParseError)
    ));
    assert!(matches!(
        parse_string::<u8>("256"),
        Err(WhiteError::ParseError)
    ));
    assert!(matches!(
        parse_string::<u64>("18446744073709551616"),
        Err(WhiteError::ParseError)
    ));
    assert!(matches!(
        parse_string::<u32>("-1"),
        Err(WhiteError::ParseError)
    ));
}

#[test]
fn malformed_numbers_are_rejected() {
    for bad in ["+", "-", "+-3", "-+3", "1.5", "1e3", "0x10", "12a"] {
        assert!(
            matches!(parse_string::<i64>(bad), Err(WhiteError::ParseError)),
            "{:?} should be a parse error",
            bad
        );
    }
}

#[test]
fn round_trip_of_rendered_tuples() {
    let pairs: [(u64, i64); 4] = [(0, 0), (17, -42), (u64::MAX, i64::MIN), (10, 9)];
    for (a, b) in pairs {
        let text = format!("{} {}", a, b);
        assert_eq!(parse_string(&text).ok(), Some((a, b)));
    }
}

#[test]
fn one_shot_cursor_exhausts_idempotently() {
    let mut cursor = Tokens::new(String::from(" one  two "));
    assert_eq!(cursor.next().unwrap().as_deref(), Some("one"));
    assert_eq!(cursor.next().unwrap().as_deref(), Some("two"));
    assert_eq!(cursor.next().unwrap(), None);
    assert_eq!(cursor.next().unwrap(), None);
    assert_eq!(cursor.next().unwrap(), None);
}

#[test]
fn ok_or_none_converts_exhaustion_only() {
    assert_eq!(Ok::<i32, WhiteError>(5).ok_or_none().unwrap(), Some(5));
    assert_eq!(
        Err::<i32, WhiteError>(WhiteError::TooShort).ok_or_none().unwrap(),
        None
    );
    assert!(matches!(
        Err::<i32, WhiteError>(WhiteError::ParseError).ok_or_none(),
        Err(WhiteError::ParseError)
    ));
    assert!(matches!(
        Err::<i32, WhiteError>(WhiteError::Leftovers).ok_or_none(),
        Err(WhiteError::Leftovers)
    ));
}

#[test]
fn error_descriptions() {
    assert_eq!(
        WhiteError::TooShort.description(),
        "not enough input to parse a value"
    );
    assert_eq!(WhiteError::Leftovers.description(), "excessive input provided");
    assert_eq!(WhiteError::ParseError.description(), "parse error occured");
    let io = std::io::Error::new(std::io::ErrorKind::Other, "boom");
    assert_eq!(WhiteError::from(io).description(), "IO error occured");
}

#[test]
fn io_errors_wrap_the_source_error() {
    let io = std::io::Error::new(std::io::ErrorKind::Other, "boom");
    assert!(matches!(WhiteError::from(io), WhiteError::IoError(_)));
}
