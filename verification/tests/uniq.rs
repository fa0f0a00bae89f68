use textutils::input::{ReadError, Source};
use textutils::uniq::{fold_stream, configure, get_args, run, Config, Deduplicator, Destination};

fn folded(show_counts: bool, text: &str) -> String {
    let mut out = String::new();
    assert_eq!(fold_stream(show_counts, text.as_bytes(), &mut out), Ok(()));
    out
}

#[test]
fn uniq_empty_input_gives_nothing() {
    assert_eq!(folded(true, ""), "");
    assert_eq!(folded(false, ""), "");
}

#[test]
fn uniq_runs_are_counted_in_order() {
    assert_eq!(folded(true, "a\na\nb\n"), "   2 a\n   1 b\n");
    assert_eq!(folded(false, "a\na\nb\n"), "a\nb\n");
}

#[test]
fn uniq_only_adjacent_lines_fold() {
    assert_eq!(
        folded(true, "a\nb\na\na\na\nb\n"),
        "   1 a\n   1 b\n   3 a\n   1 b\n"
    );
}

#[test]
fn uniq_terminators_do_not_tell_lines_apart() {
    assert_eq!(folded(true, "a\r\na\na"), "   3 a\r\n");
    assert_eq!(folded(true, "a\na\r\n"), "   2 a\n");
    assert_eq!(folded(false, "a\nb"), "a\nb");
}

#[test]
fn uniq_other_trailing_whitespace_tells_lines_apart() {
    assert_eq!(folded(true, "a\na \na\t\na\r\r\n"), "   1 a\n   1 a \n   1 a\t\n   1 a\r\r\n");
}

#[test]
fn uniq_blank_lines_at_the_start_are_a_run() {
    assert_eq!(folded(true, "\n\r\n\nx\n"), "   3 \n   1 x\n");
    assert_eq!(folded(false, "\n"), "\n");
}

#[test]
fn uniq_long_runs_widen_the_column() {
    let text = "x\n".repeat(12345);
    assert_eq!(folded(true, &text), "12345 x\n");
}

#[test]
fn uniq_a_line_that_cannot_be_read_leaves_the_open_run_unwritten() {
    let mut out = String::new();
    assert_eq!(
        fold_stream(true, b"a\na\nb\n\xff\nc\n", &mut out),
        Err(ReadError::InvalidUtf8)
    );
    assert_eq!(out, "   2 a\n");
}

#[test]
fn uniq_deduplicator_writes_a_run_when_the_next_begins() {
    let mut dedup = Deduplicator::new(true);
    let mut out = String::new();
    assert!(dedup.feed("a\n", &mut out));
    assert_eq!(out, "");
    assert!(dedup.feed("a\r\n", &mut out));
    assert_eq!(out, "");
    assert!(dedup.feed("b\n", &mut out));
    assert_eq!(out, "   2 a\n");
    dedup.finish(&mut out);
    assert_eq!(out, "   2 a\n   1 b\n");
    dedup.finish(&mut out);
    assert_eq!(out, "   2 a\n   1 b\n");
    assert_eq!(dedup.count, 0);
}

#[test]
fn uniq_deduplicator_refuses_a_run_that_does_not_fit() {
    let mut dedup = Deduplicator {
        show_counts: false,
        previous: "a\n".to_string(),
        count: usize::MAX,
    };
    let mut out = String::new();
    assert!(!dedup.feed("a\n", &mut out));
    assert_eq!(dedup.count, usize::MAX);
    assert!(dedup.feed("b\n", &mut out));
    assert_eq!(out, "a\n");
    assert_eq!(dedup.count, 1);
}

#[test]
fn uniq_configure_reads_standard_input_by_default() {
    let config = configure(None, None, false);
    assert_eq!(
        config,
        Config {
            in_file: "-".to_string(),
            out_file: None,
            count: false
        }
    );
    assert_eq!(config.destination(), Destination::Standard);
}

#[test]
fn uniq_configure_keeps_what_was_given() {
    let config = configure(Some("in.txt".to_string()), Some("out.txt".to_string()), true);
    assert_eq!(
        config,
        Config {
            in_file: "in.txt".to_string(),
            out_file: Some("out.txt".to_string()),
            count: true
        }
    );
    assert_eq!(
        config.destination(),
        Destination::Named("out.txt".to_string())
    );
}

#[test]
fn uniq_run_folds_the_input() {
    let config = configure(Some("in.txt".to_string()), None, true);
    let source = Source::Stream(b"one\none\ntwo".to_vec());
    let mut stdout = String::new();
    let mut stderr = String::new();
    assert_eq!(run(&config, &source, &mut stdout, &mut stderr), Ok(()));
    assert_eq!(stdout, "   2 one\n   1 two");
    assert_eq!(stderr, "");
}

#[test]
fn uniq_run_reports_an_unreadable_input() {
    let config = configure(Some("gone.txt".to_string()), None, true);
    let source = Source::Unreadable("No such file or directory (os error 2)".to_string());
    let mut stdout = String::new();
    let mut stderr = String::new();
    assert_eq!(run(&config, &source, &mut stdout, &mut stderr), Ok(()));
    assert_eq!(stdout, "");
    assert_eq!(
        stderr,
        "gone.txt: No such file or directory (os error 2)\n"
    );
}

#[test]
fn uniq_run_breaks_off_at_a_line_that_cannot_be_read() {
    let config = configure(None, None, false);
    let source = Source::Stream(b"a\nb\n\xf0\x28\n".to_vec());
    let mut stdout = String::new();
    let mut stderr = String::new();
    assert_eq!(
        run(&config, &source, &mut stdout, &mut stderr),
        Err(ReadError::InvalidUtf8)
    );
    assert_eq!(stdout, "a\n");
    assert_eq!(stderr, "");
}

#[test]
fn uniq_runs_hold_all_the_lines() {
    let text = "a\na\r\n\n\nb\nb\nb\na\nlast";
    let shown = folded(true, text);
    let mut total = 0;
    let mut before: Option<String> = None;
    for row in shown.lines() {
        let (count, line) = row.split_at(5);
        total += count.trim().parse::<usize>().unwrap();
        assert_ne!(before.as_deref(), Some(line));
        before = Some(line.to_string());
    }
    assert_eq!(total, text.lines().count());
    assert_eq!(shown, "   2 a\n   2 \n   3 b\n   1 a\n   1 last");
}
