use textutils::head::{
    copy_start, configure, get_args, head_bytes, head_lines, parse_positive_int, push_banner, push_bytes, run,
    Config, ConfigError, Extent, Truncator,
};
use textutils::input::{ReadError, Source};

fn file_names(list: &[&str]) -> Vec<String> {
    list.iter().map(|name| name.to_string()).collect()
}

fn bytes_of(text: &str) -> Source {
    Source::Stream(text.as_bytes().to_vec())
}

#[test]
fn test_parse_positive_int() {
    // ok integer
    let res = parse_positive_int("3");
    assert!(res.is_ok());
    assert_eq!(res.unwrap(), 3);

    // any string is an error
    let res = parse_positive_int("bla");
    assert!(res.is_err());
    assert_eq!(res.unwrap_err().to_string(), "bla".to_string());

    // zero is an error
    let res = parse_positive_int("0");
    assert!(res.is_err());
    assert_eq!(res.unwrap_err().to_string(), "0".to_string());
}

#[test]
fn head_parse_positive_int_reads_decimal_digits() {
    assert_eq!(parse_positive_int("10"), Ok(10));
    assert_eq!(parse_positive_int("007"), Ok(7));
    assert_eq!(parse_positive_int("+42"), Ok(42));
    assert_eq!(
        parse_positive_int(&usize::MAX.to_string()),
        Ok(usize::MAX)
    );
}

#[test]
fn head_parse_positive_int_refuses_everything_else() {
    for value in [
        "", "+", "-", "-1", "+0", "000", "1.5", " 1", "1 ", "1+", "++1", "0x10", "1e3", "\u{663}",
        "12a", "a12",
    ] {
        assert_eq!(parse_positive_int(value), Err(value.to_string()));
        assert_eq!(value.parse::<usize>().ok().filter(|n| *n > 0), None);
    }
}

#[test]
fn head_parse_positive_int_refuses_what_does_not_fit() {
    let too_large = format!("{}0", usize::MAX);
    assert_eq!(parse_positive_int(&too_large), Err(too_large.clone()));
    let next = "18446744073709551616";
    if usize::MAX.to_string() == "18446744073709551615" {
        assert_eq!(parse_positive_int(next), Err(next.to_string()));
    }
}

#[test]
fn head_configure_copies_ten_lines_of_standard_input_by_default() {
    assert_eq!(
        configure(Vec::new(), None, None),
        Ok(Config {
            files: file_names(&["-"]),
            lines: 10,
            bytes: None
        })
    );
}

#[test]
fn head_configure_takes_the_numbers_given() {
    assert_eq!(
        configure(file_names(&["a", "b"]), Some("3".to_string()), None),
        Ok(Config {
            files: file_names(&["a", "b"]),
            lines: 3,
            bytes: None
        })
    );
    assert_eq!(
        configure(file_names(&["a"]), None, Some("12".to_string())),
        Ok(Config {
            files: file_names(&["a"]),
            lines: 10,
            bytes: Some(12)
        })
    );
}

#[test]
fn head_configure_names_the_value_it_refuses() {
    let lines = configure(file_names(&["a"]), Some("zero".to_string()), None);
    assert_eq!(
        lines,
        Err(ConfigError::IllegalLineCount("zero".to_string()))
    );
    assert_eq!(lines.unwrap_err().message(), "illegal line count -- zero");

    let bytes = configure(file_names(&["a"]), None, Some("0".to_string()));
    assert_eq!(bytes, Err(ConfigError::IllegalByteCount("0".to_string())));
    assert_eq!(bytes.unwrap_err().message(), "illegal byte count -- 0");

    let negative = configure(file_names(&["a"]), Some("-3".to_string()), None);
    assert_eq!(
        negative.unwrap_err().message(),
        "illegal line count -- -3"
    );
}

#[test]
fn head_configure_refuses_lines_with_bytes() {
    let both = configure(
        file_names(&["a"]),
        Some("1".to_string()),
        Some("x".to_string()),
    );
    assert_eq!(both, Err(ConfigError::LinesWithBytes));
    assert_eq!(
        both.unwrap_err().message(),
        "the argument '--lines <LINES>' cannot be used with '--bytes <BYTES>'"
    );
}

#[test]
fn head_config_says_how_much_to_copy() {
    let by_lines = configure(Vec::new(), Some("4".to_string()), None).unwrap();
    assert_eq!(by_lines.limit(), Extent::Lines(4));
    let by_bytes = configure(Vec::new(), None, Some("4".to_string())).unwrap();
    assert_eq!(by_bytes.limit(), Extent::Bytes(4));
}

#[test]
fn head_byte_mode_stops_in_the_middle_of_a_line() {
    let config = configure(file_names(&["greeting"]), None, Some("5".to_string())).unwrap();
    let sources = vec![bytes_of("hello world")];
    let mut stdout = String::new();
    let mut stderr = String::new();
    assert_eq!(run(&config, &sources, &mut stdout, &mut stderr), Ok(()));
    assert_eq!(stdout, "hello");
    assert_eq!(stderr, "");
}

#[test]
fn head_byte_mode_takes_what_there_is() {
    let mut out = String::new();
    head_bytes(100, b"short\n", &mut out);
    assert_eq!(out, "short\n");
    let mut none = String::from("kept");
    head_bytes(3, b"", &mut none);
    assert_eq!(none, "kept");
}

#[test]
fn head_byte_mode_replaces_what_is_not_utf8() {
    let mut out = String::new();
    push_bytes(&mut out, b"a\xffb");
    assert_eq!(out, "a\u{fffd}b");

    let mut cut = String::new();
    head_bytes(2, "a\u{e9}b".as_bytes(), &mut cut);
    assert_eq!(cut, "a\u{fffd}");

    let mut whole = String::new();
    head_bytes(3, "a\u{e9}b".as_bytes(), &mut whole);
    assert_eq!(whole, "a\u{e9}");
}

#[test]
fn head_line_mode_copies_the_first_lines() {
    let mut out = String::new();
    assert_eq!(head_lines(2, b"one\r\ntwo\nthree\n", &mut out), Ok(()));
    assert_eq!(out, "one\r\ntwo\n");

    let mut all = String::new();
    assert_eq!(head_lines(10, b"one\ntwo", &mut all), Ok(()));
    assert_eq!(all, "one\ntwo");

    let mut none = String::new();
    assert_eq!(head_lines(0, b"one\ntwo", &mut none), Ok(()));
    assert_eq!(none, "");
}

#[test]
fn head_line_mode_reads_no_further_than_it_copies() {
    let input = b"one\ntwo\n\xff\xff\nfour\n";
    let mut out = String::new();
    assert_eq!(head_lines(2, input, &mut out), Ok(()));
    assert_eq!(out, "one\ntwo\n");

    let mut broken = String::new();
    assert_eq!(
        head_lines(3, input, &mut broken),
        Err(ReadError::InvalidUtf8)
    );
    assert_eq!(broken, "one\ntwo\n");
    let mut by_bytes = String::new();
    assert_eq!(copy_start(Extent::Bytes(9), input, &mut by_bytes), Ok(()));
    assert_eq!(by_bytes, "one\ntwo\n\u{fffd}");
}

#[test]
fn head_truncator_counts_down() {
    let mut truncator = Truncator::new(2);
    let mut out = String::new();
    assert!(truncator.wants_line());
    assert!(truncator.take_line("a\n", &mut out));
    assert!(truncator.wants_line());
    assert!(truncator.take_line("b\n", &mut out));
    assert!(!truncator.wants_line());
    assert!(!truncator.take_line("c\n", &mut out));
    assert_eq!(out, "a\nb\n");
    assert_eq!(truncator.remaining, 0);
}

#[test]
fn head_banner_depends_on_place_and_number_of_inputs() {
    let mut only = String::new();
    push_banner(&mut only, 1, 0, "a");
    assert_eq!(only, "");
    let mut first = String::new();
    push_banner(&mut first, 2, 0, "a");
    assert_eq!(first, "==> a <==\n");
    let mut second = String::new();
    push_banner(&mut second, 2, 1, "b");
    assert_eq!(second, "\n==> b <==\n");
}

#[test]
fn head_run_over_several_files_separates_and_names_them() {
    let config = configure(file_names(&["a", "b", "c"]), Some("1".to_string()), None).unwrap();
    let sources = vec![bytes_of("a1\na2\n"), bytes_of(""), bytes_of("c1")];
    let mut stdout = String::new();
    let mut stderr = String::new();
    assert_eq!(run(&config, &sources, &mut stdout, &mut stderr), Ok(()));
    assert_eq!(
        stdout,
        "==> a <==\na1\n\n==> b <==\n\n==> c <==\nc1"
    );
    assert_eq!(stderr, "");
}

#[test]
fn head_run_reports_an_unreadable_file_and_goes_on() {
    let config = configure(file_names(&["gone", "b"]), None, None).unwrap();
    let sources = vec![
        Source::Unreadable("Permission denied (os error 13)".to_string()),
        bytes_of("b1\nb2\n"),
    ];
    let mut stdout = String::new();
    let mut stderr = String::new();
    assert_eq!(run(&config, &sources, &mut stdout, &mut stderr), Ok(()));
    assert_eq!(stdout, "\n==> b <==\nb1\nb2\n");
    assert_eq!(stderr, "gone: Permission denied (os error 13)\n");
}

#[test]
fn head_run_breaks_off_at_a_line_that_cannot_be_read() {
    let config = configure(file_names(&["a", "b"]), None, None).unwrap();
    let sources = vec![
        Source::Stream(b"a1\n\x80\n".to_vec()),
        bytes_of("b1\n"),
    ];
    let mut stdout = String::new();
    let mut stderr = String::new();
    assert_eq!(
        run(&config, &sources, &mut stdout, &mut stderr),
        Err(ReadError::InvalidUtf8)
    );
    assert_eq!(stdout, "==> a <==\na1\n");
    assert_eq!(stderr, "");
}
