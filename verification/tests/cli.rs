use textutils::cli::ArgsError;
use textutils::{cat, head, uniq, wc};

fn command_line(words: &[&str]) -> Vec<String> {
    words.iter().map(|word| word.to_string()).collect()
}

fn list(words: &[&str]) -> Vec<String> {
    command_line(words)
}

#[test]
fn cli_cat_reads_standard_input_without_numbers_by_default() {
    assert_eq!(
        cat::get_args(command_line(&["catr"])),
        Ok(cat::Config {
            files: list(&["-"]),
            number_lines: false,
            number_nonblank_lines: false
        })
    );
}

#[test]
fn cli_cat_takes_files_and_flags() {
    assert_eq!(
        cat::get_args(command_line(&["catr", "a.txt", "-n", "b.txt"])),
        Ok(cat::Config {
            files: list(&["a.txt", "b.txt"]),
            number_lines: true,
            number_nonblank_lines: false
        })
    );
    assert_eq!(
        cat::get_args(command_line(&["catr", "--number-nonblank", "-"])),
        Ok(cat::Config {
            files: list(&["-"]),
            number_lines: false,
            number_nonblank_lines: true
        })
    );
}

#[test]
fn cli_cat_lets_nonblank_override_all() {
    for line in [
        ["catr", "-n", "-b", "f"],
        ["catr", "-b", "-n", "f"],
        ["catr", "--number", "--number-nonblank", "f"],
    ] {
        assert_eq!(
            cat::get_args(command_line(&line)),
            Ok(cat::Config {
                files: list(&["f"]),
                number_lines: false,
                number_nonblank_lines: true
            })
        );
    }
}

#[test]
fn cli_cat_complains_about_an_unknown_option() {
    let refused = cat::get_args(command_line(&["catr", "--nope"])).unwrap_err();
    assert!(refused.is_error);
    assert!(refused.message.contains("--nope"));
}

#[test]
fn cli_help_and_version_are_no_errors() {
    let help = cat::get_args(command_line(&["catr", "--help"])).unwrap_err();
    assert!(!help.is_error);
    assert!(help.message.contains("--number-nonblank"));
    let version = uniq::get_args(command_line(&["uniqr", "--version"])).unwrap_err();
    assert!(!version.is_error);
    match wc::get_args(command_line(&["wcr", "-h"])) {
        Err(ArgsError::Usage(usage)) => {
            assert!(!usage.is_error);
            assert!(usage.message.contains("--chars"));
        }
        other => panic!("{:?}", other),
    }
    match head::get_args(command_line(&["headr", "-V"])) {
        Err(ArgsError::Usage(usage)) => assert!(!usage.is_error),
        other => panic!("{:?}", other),
    }
}

#[test]
fn cli_head_copies_ten_lines_by_default() {
    assert_eq!(
        head::get_args(command_line(&["headr"])),
        Ok(head::Config {
            files: list(&["-"]),
            lines: 10,
            bytes: None
        })
    );
}

#[test]
fn cli_head_takes_lines_or_bytes() {
    assert_eq!(
        head::get_args(command_line(&["headr", "-n", "3", "a", "b"])),
        Ok(head::Config {
            files: list(&["a", "b"]),
            lines: 3,
            bytes: None
        })
    );
    assert_eq!(
        head::get_args(command_line(&["headr", "a", "--bytes", "12"])),
        Ok(head::Config {
            files: list(&["a"]),
            lines: 10,
            bytes: Some(12)
        })
    );
    assert_eq!(
        head::get_args(command_line(&["headr", "--lines=+7"])),
        Ok(head::Config {
            files: list(&["-"]),
            lines: 7,
            bytes: None
        })
    );
}

#[test]
fn cli_head_names_the_number_it_refuses() {
    let zero = head::get_args(command_line(&["headr", "-n", "0", "a"]));
    assert_eq!(
        zero,
        Err(ArgsError::Options(head::ConfigError::IllegalLineCount(
            "0".to_string()
        )))
    );
    let word = head::get_args(command_line(&["headr", "-c", "many"]));
    assert_eq!(
        word,
        Err(ArgsError::Options(head::ConfigError::IllegalByteCount(
            "many".to_string()
        )))
    );
    let negative = head::get_args(command_line(&["headr", "--lines=-3"]));
    match negative {
        Err(ArgsError::Options(refused)) => {
            assert_eq!(refused.message(), "illegal line count -- -3")
        }
        other => panic!("{:?}", other),
    }
}

#[test]
fn cli_head_refuses_lines_with_bytes() {
    match head::get_args(command_line(&["headr", "-n", "1", "-c", "2", "a"])) {
        Err(ArgsError::Usage(usage)) => assert!(usage.is_error),
        Err(ArgsError::Options(refused)) => {
            assert_eq!(refused, head::ConfigError::LinesWithBytes)
        }
        other => panic!("{:?}", other),
    }
}

#[test]
fn cli_wc_shows_lines_words_and_bytes_by_default() {
    assert_eq!(
        wc::get_args(command_line(&["wcr", "a", "b"])),
        Ok(wc::Config {
            files: list(&["a", "b"]),
            lines: true,
            words: true,
            bytes: true,
            chars: false
        })
    );
    assert_eq!(
        wc::get_args(command_line(&["wcr"])).unwrap().files,
        list(&["-"])
    );
}

#[test]
fn cli_wc_shows_what_is_asked_for() {
    assert_eq!(
        wc::get_args(command_line(&["wcr", "-l", "a"])),
        Ok(wc::Config {
            files: list(&["a"]),
            lines: true,
            words: false,
            bytes: false,
            chars: false
        })
    );
    assert_eq!(
        wc::get_args(command_line(&["wcr", "-wm", "--lines"])),
        Ok(wc::Config {
            files: list(&["-"]),
            lines: true,
            words: true,
            bytes: false,
            chars: true
        })
    );
    assert_eq!(
        wc::get_args(command_line(&["wcr", "--bytes", "--words"])),
        Ok(wc::Config {
            files: list(&["-"]),
            lines: false,
            words: true,
            bytes: true,
            chars: false
        })
    );
}

#[test]
fn cli_wc_refuses_bytes_with_chars() {
    match wc::get_args(command_line(&["wcr", "-c", "-m", "a"])) {
        Err(ArgsError::Usage(usage)) => assert!(usage.is_error),
        Err(ArgsError::Options(refused)) => {
            assert_eq!(refused, wc::ConfigError::BytesWithChars)
        }
        other => panic!("{:?}", other),
    }
}

#[test]
fn cli_uniq_reads_standard_input_to_standard_output_by_default() {
    assert_eq!(
        uniq::get_args(command_line(&["uniqr"])),
        Ok(uniq::Config {
            in_file: "-".to_string(),
            out_file: None,
            count: false
        })
    );
}

#[test]
fn cli_uniq_takes_input_output_and_count() {
    assert_eq!(
        uniq::get_args(command_line(&["uniqr", "in.txt", "--count", "out.txt"])),
        Ok(uniq::Config {
            in_file: "in.txt".to_string(),
            out_file: Some("out.txt".to_string()),
            count: true
        })
    );
    assert_eq!(
        uniq::get_args(command_line(&["uniqr", "-c", "in.txt"])),
        Ok(uniq::Config {
            in_file: "in.txt".to_string(),
            out_file: None,
            count: true
        })
    );
}

#[test]
fn cli_uniq_complains_about_a_third_file() {
    let refused = uniq::get_args(command_line(&["uniqr", "a", "b", "c"])).unwrap_err();
    assert!(refused.is_error);
}

#[test]
fn cli_takes_a_command_line_without_even_a_name() {
    assert!(cat::get_args(Vec::new()).is_ok());
    assert!(uniq::get_args(Vec::new()).is_ok());
    assert!(head::get_args(Vec::new()).is_ok());
    assert!(wc::get_args(Vec::new()).is_ok());
}
