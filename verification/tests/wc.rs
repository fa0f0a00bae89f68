use textutils::input::{ReadError, Source};
use textutils::wc::{
    count, format_row, format_value, configure, get_args, push_row, push_total, run, Config, ConfigError,
    FileInfo,
};

fn names(list: &[&str]) -> Vec<String> {
    list.iter().map(|name| name.to_string()).collect()
}

fn stream(text: &str) -> Source {
    Source::Stream(text.as_bytes().to_vec())
}

fn default_config(files: &[&str]) -> Config {
    configure(names(files), false, false, false, false).unwrap()
}

#[test]
fn test_count() {
    let text = "I don't want the world. I just want your half.\r\n";
    let info = count(text.as_bytes());

    assert!(info.is_ok());
    assert_eq!(
        info.unwrap(),
        FileInfo {
            lines: 1,
            words: 10,
            bytes: 48,
            chars: 48,
        }
    )
}

#[test]
fn test_format_value() {
    assert_eq!(format_value(1, false), "");
    assert_eq!(format_value(3, true), "       3");
    assert_eq!(format_value(10, true), "      10");
}

#[test]
fn test_format_row() {
    assert_eq!(
        format_row(
            format_value(1, true),
            format_value(2, false),
            format_value(3, true),
            format_value(4, true),
            "file.bar".to_string()
        ),
        "       1       3       4 file.bar"
    );
}

#[test]
fn wc_format_value_hidden_is_empty_for_any_value() {
    assert_eq!(format_value(0, false), "");
    assert_eq!(format_value(usize::MAX, false), "");
}

#[test]
fn wc_format_value_fills_and_exceeds_the_column() {
    assert_eq!(format_value(0, true), "       0");
    assert_eq!(format_value(12345678, true), "12345678");
    assert_eq!(format_value(123456789, true), "123456789");
    assert_eq!(format_value(usize::MAX, true), format!("{:>8}", usize::MAX));
}

#[test]
fn wc_format_row_without_suffix_has_no_trailing_space() {
    assert_eq!(
        format_row(
            format_value(7, true),
            format_value(8, true),
            format_value(9, true),
            format_value(1, false),
            String::new()
        ),
        "       7       8       9"
    );
}

#[test]
fn wc_count_of_empty_stream_is_zero() {
    assert_eq!(
        count(b""),
        Ok(FileInfo {
            lines: 0,
            words: 0,
            bytes: 0,
            chars: 0
        })
    );
}

#[test]
fn wc_count_adds_up_over_lines() {
    let info = count(b"one two\n\n  three\tfour five \nsix").unwrap();
    assert_eq!(
        info,
        FileInfo {
            lines: 4,
            words: 6,
            bytes: 31,
            chars: 31
        }
    );
}

#[test]
fn wc_count_tells_characters_from_bytes() {
    let text = "h\u{e9}llo w\u{f6}rld \u{1f600}\n";
    let info = count(text.as_bytes()).unwrap();
    assert_eq!(
        info,
        FileInfo {
            lines: 1,
            words: 3,
            bytes: text.len(),
            chars: text.chars().count()
        }
    );
    assert_eq!(info.bytes, 19);
    assert_eq!(info.chars, 14);
}

#[test]
fn wc_count_splits_words_at_unicode_whitespace() {
    let text = "a\u{a0}b\u{2003}c\u{3000}d\u{85}e\u{200b}f\n";
    let info = count(text.as_bytes()).unwrap();
    assert_eq!(info.words, 5);
    assert_eq!(info.words, text.split_whitespace().count());
}

#[test]
fn wc_count_fails_on_invalid_utf8() {
    assert_eq!(count(b"fine\n\xff\xfe\nfine\n"), Err(ReadError::InvalidUtf8));
    assert_eq!(
        ReadError::InvalidUtf8.message(),
        "stream did not contain valid UTF-8"
    );
}

#[test]
fn wc_add_line_accumulates_and_refuses_overflow() {
    let mut info = FileInfo::new();
    assert!(info.add_line("two words\n"));
    assert!(info.add_line("three\r\n"));
    assert_eq!(
        info,
        FileInfo {
            lines: 2,
            words: 3,
            bytes: 17,
            chars: 17
        }
    );
    let mut full = FileInfo {
        lines: 1,
        words: 1,
        bytes: usize::MAX - 1,
        chars: 1,
    };
    assert!(!full.add_line("ab"));
    assert_eq!(full.bytes, usize::MAX - 1);
    assert_eq!(full.lines, 1);
    assert!(full.add_line("a"));
    assert_eq!(full.bytes, usize::MAX);
}

#[test]
fn wc_configure_defaults_to_lines_words_bytes() {
    let config = default_config(&["a.txt"]);
    assert_eq!(
        config,
        Config {
            files: names(&["a.txt"]),
            lines: true,
            words: true,
            bytes: true,
            chars: false
        }
    );
}

#[test]
fn wc_configure_keeps_the_flags_that_were_given() {
    let config = configure(names(&["a", "b"]), false, true, false, true).unwrap();
    assert_eq!(
        config,
        Config {
            files: names(&["a", "b"]),
            lines: false,
            words: true,
            bytes: false,
            chars: true
        }
    );
}

#[test]
fn wc_configure_reads_standard_input_by_default() {
    let config = configure(Vec::new(), true, false, false, false).unwrap();
    assert_eq!(config.files, names(&["-"]));
    assert!(config.lines && !config.words && !config.bytes && !config.chars);
}

#[test]
fn wc_configure_refuses_bytes_with_chars() {
    let refused = configure(names(&["a"]), false, false, true, true);
    assert_eq!(refused, Err(ConfigError::BytesWithChars));
    assert_eq!(
        ConfigError::BytesWithChars.message(),
        "the argument '--chars' cannot be used with '--bytes'"
    );
}

#[test]
fn wc_run_over_two_files_ends_with_their_sum() {
    let config = default_config(&["one.txt", "two.txt"]);
    let sources = vec![stream("a b\nc\n"), stream("d\u{e9}\n")];
    let mut stdout = String::new();
    let mut stderr = String::new();
    assert_eq!(run(&config, &sources, &mut stdout, &mut stderr), Ok(()));
    assert_eq!(
        stdout,
        "       2       3       6 one.txt\n       1       1       4 two.txt\n       3       4      10 total\n"
    );
    assert_eq!(stderr, "");
}

#[test]
fn wc_run_over_one_file_has_no_total() {
    let config = default_config(&["one.txt"]);
    let sources = vec![stream("a b\nc\n")];
    let mut stdout = String::new();
    let mut stderr = String::new();
    assert_eq!(run(&config, &sources, &mut stdout, &mut stderr), Ok(()));
    assert_eq!(stdout, "       2       3       6 one.txt\n");
    assert_eq!(stderr, "");
}

#[test]
fn wc_run_shows_standard_input_without_a_name() {
    let config = default_config(&[]);
    let sources = vec![stream("x\n")];
    let mut stdout = String::new();
    let mut stderr = String::new();
    assert_eq!(run(&config, &sources, &mut stdout, &mut stderr), Ok(()));
    assert_eq!(stdout, "       1       1       2\n");
}

#[test]
fn wc_run_shows_all_four_columns_when_asked() {
    let config = Config {
        files: names(&["f"]),
        lines: true,
        words: true,
        bytes: true,
        chars: true,
    };
    let sources = vec![stream("\u{e9}\n")];
    let mut stdout = String::new();
    let mut stderr = String::new();
    assert_eq!(run(&config, &sources, &mut stdout, &mut stderr), Ok(()));
    assert_eq!(stdout, "       1       1       3       2 f\n");
}

#[test]
fn wc_run_skips_an_unreadable_file_and_goes_on() {
    let config = default_config(&["one.txt", "gone.txt", "two.txt"]);
    let sources = vec![
        stream("a\n"),
        Source::Unreadable("No such file or directory (os error 2)".to_string()),
        stream("b c\n"),
    ];
    let mut stdout = String::new();
    let mut stderr = String::new();
    assert_eq!(run(&config, &sources, &mut stdout, &mut stderr), Ok(()));
    assert_eq!(
        stdout,
        "       1       1       2 one.txt\n       1       2       4 two.txt\n       2       3       6 total\n"
    );
    assert_eq!(
        stderr,
        "gone.txt: No such file or directory (os error 2)\n"
    );

    let others = default_config(&["one.txt", "two.txt"]);
    let readable = vec![stream("a\n"), stream("b c\n")];
    let mut alone = String::new();
    let mut silent = String::new();
    assert_eq!(run(&others, &readable, &mut alone, &mut silent), Ok(()));
    assert_eq!(alone, stdout);
    assert_eq!(silent, "");
}

#[test]
fn wc_run_breaks_off_at_a_line_that_cannot_be_read() {
    let config = default_config(&["one.txt", "bad.txt", "two.txt"]);
    let sources = vec![
        stream("a\n"),
        Source::Stream(b"ok\n\xc3\x28\n".to_vec()),
        stream("b\n"),
    ];
    let mut stdout = String::from("before\n");
    let mut stderr = String::new();
    assert_eq!(
        run(&config, &sources, &mut stdout, &mut stderr),
        Err(ReadError::InvalidUtf8)
    );
    assert_eq!(stdout, "before\n       1       1       2 one.txt\n");
    assert_eq!(stderr, "");
}

#[test]
fn wc_rows_and_totals_can_be_written_one_by_one() {
    let config = default_config(&["-", "named"]);
    let mut totals = FileInfo::new();
    let mut out = String::new();
    let first = count(b"a b c\n").unwrap();
    push_row(&mut out, &config, &first, "-");
    assert!(totals.add(&first));
    let second = count(b"d\ne\n").unwrap();
    push_row(&mut out, &config, &second, "named");
    assert!(totals.add(&second));
    push_total(&mut out, &config, &totals);
    assert_eq!(
        out,
        "       1       3       6\n       2       2       4 named\n       3       5      10 total\n"
    );
}

#[test]
fn wc_count_line_by_line_is_the_count_of_the_whole_text() {
    for text in [
        "",
        "\n",
        "\n\n\n",
        "no terminator",
        "one\ntwo\nthree\n",
        "one\r\ntwo\r\nthree",
        " leading and trailing \n\t\ttabs\t\n",
        "\u{e9}t\u{e9}\n\u{4e2d}\u{6587} \u{1f600}\u{3000}x\n\u{a0}",
        "a\u{2028}b\u{85}c\n",
    ] {
        let info = count(text.as_bytes()).unwrap();
        let feeds = text.bytes().filter(|byte| *byte == b'\n').count();
        let unfinished = !text.is_empty() && !text.ends_with('\n');
        assert_eq!(info.lines, feeds + if unfinished { 1 } else { 0 });
        assert_eq!(info.words, text.split_whitespace().count());
        assert_eq!(info.bytes, text.len());
        assert_eq!(info.chars, text.chars().count());
    }
}
