use stale_urls::progress::{
    check_notice, clear_progress, color_enabled, counter_text, escape, parse_number, scan_notice,
    terminal_width, truncate, write_progress,
};
use stale_urls::summary::{
    count_places, file_error_text, found_text, notice_of_outcome, run_succeeded,
    styled_count_with_label, summary_text, tally, Tally,
};
use stale_urls::{
    styled, CheckOutcome, CheckProgress, CommitInfo, FoundUrl, Occurrence, SourceUrl, StaleReport,
    CYAN, RED,
};

const SHA1_HEX_LENGTH: usize = 40;

fn found() -> FoundUrl {
    FoundUrl {
        url: SourceUrl {
            text: "https://github.com/o/r/blob/0000000000000000000000000000000000000000/f#L1"
                .to_owned(),
            owner: "o".to_owned(),
            repo: "r".to_owned(),
            commit: "0".repeat(SHA1_HEX_LENGTH),
            path: "f".to_owned(),
            start: 1,
            end: 1,
        },
        occurrences: vec![Occurrence {
            file: b"README.md".to_vec(),
            line: 3,
        }],
    }
}

fn report() -> StaleReport {
    StaleReport {
        found: found(),
        change_commit: CommitInfo {
            hash: "1".repeat(SHA1_HEX_LENGTH),
            date: "2026-01-01T00:00:00Z".to_owned(),
            title: "change".to_owned(),
        },
        merge_commit: CommitInfo {
            hash: "2".repeat(SHA1_HEX_LENGTH),
            date: "2026-01-02T00:00:00Z".to_owned(),
            title: "merge".to_owned(),
        },
    }
}

#[test]
fn stale_reports_offer_colored_and_plain_rendering() {
    let report = report();

    let plain = report.to_string();
    assert!(!plain.contains("\x1b["));
    assert!(plain.contains("Stale URL:"));
    assert!(plain.contains("Merge commit:"));

    let colored = report.colored().to_string();
    assert!(colored.contains("\x1b[1;31mStale URL:\x1b[0m"));
    assert!(colored.contains("\x1b[1;33mChange commit:\x1b[0m"));
    assert!(colored.contains("\x1b[1;35mMerge commit:\x1b[0m"));
    assert!(colored.contains("README.md:3"));
    assert!(colored.contains(&format!("\x1b[0m{}", "1".repeat(SHA1_HEX_LENGTH))));
    assert!(!colored.contains(&format!("\x1b[36m{}", "1".repeat(SHA1_HEX_LENGTH))));
}

#[test]
fn plain_reports_read_like_this() {
    let mut report = report();
    report.merge_commit.hash = "1".repeat(SHA1_HEX_LENGTH);
    let one = "1".repeat(SHA1_HEX_LENGTH);
    assert_eq!(
        report.to_string(),
        format!(
            "Stale URL: {}\nFound at:\n  README.md:3\nChange commit:\n  Commit: {one}\n  \
             Date:   2026-01-01T00:00:00Z\n  Title:  change\n  \
             URL:    https://github.com/o/r/commit/{one}\n",
            report.found.url.text
        )
    );
}

#[test]
fn paths_that_are_no_text_are_shown_all_the_same() {
    let mut report = report();
    report.found.occurrences[0].file = b"a\xffb".to_vec();
    assert!(report.to_string().contains("\n  a\u{fffd}b:3\n"));
}

#[test]
fn truncates_the_end_to_preserve_the_start_of_the_path() {
    assert_eq!(truncate("a/long/path/file.rs", 12), "a/long/pa...");
    assert_eq!(truncate("short.rs", 12), "short.rs");
}

#[test]
fn little_room_leaves_only_dots() {
    assert_eq!(truncate("abcdef", 6), "abcdef");
    assert_eq!(truncate("abcdef", 5), "ab...");
    assert_eq!(truncate("abcdef", 4), "a...");
    assert_eq!(truncate("abcdef", 3), "...");
    assert_eq!(truncate("abcdef", 1), ".");
    assert_eq!(truncate("abcdef", 0), "");
    assert_eq!(truncate("\u{e9}\u{e9}\u{e9}\u{e9}\u{e9}", 4), "\u{e9}...");
}

#[test]
fn styling_can_be_disabled() {
    assert_eq!(styled("stale", RED, false).to_string(), "stale");
    assert_eq!(
        styled("stale", RED, true).to_string(),
        "\x1b[31mstale\x1b[0m"
    );
}

#[test]
fn progress_keeps_the_counter_suffix() {
    let mut output = String::new();
    write_progress(
        &mut output,
        80,
        "Checking: ",
        "https://example.com",
        " (2/3)",
        Some(CYAN),
        false,
    );
    assert_eq!(output, "\r\x1b[2KChecking: https://example.com (2/3)");

    let mut output = String::new();
    write_progress(
        &mut output,
        80,
        "Checking: ",
        "https://example.com",
        " (2/3)",
        Some(CYAN),
        true,
    );
    assert_eq!(
        output,
        "\r\x1b[2K\x1b[2mChecking: \x1b[0m\x1b[36mhttps://example.com\x1b[0m (2/3)"
    );
}

#[test]
fn progress_fits_its_terminal() {
    let mut output = String::new();
    write_progress(&mut output, 30, "Scanning: ", "a/very/long/path", " (1/2)", None, true);
    assert_eq!(output, "\r\x1b[2K\x1b[2mScanning: \x1b[0ma/very/lon... (1/2)");
    let mut output = "x".to_owned();
    write_progress(&mut output, 4, "Scanning: ", "a", " (1/2)", None, false);
    assert_eq!(output, "x\r\x1b[2KScanning:  (1/2)");
    clear_progress(&mut output);
    assert!(output.ends_with(" (1/2)\r\x1b[2K"));
}

#[test]
fn widths_come_from_the_terminal_or_its_environment() {
    assert_eq!(terminal_width(Some(132), Some("20")), 132);
    assert_eq!(terminal_width(Some(0), Some("20")), 20);
    assert_eq!(terminal_width(None, Some("+20")), 20);
    assert_eq!(terminal_width(None, Some("wide")), 80);
    assert_eq!(terminal_width(None, Some("0")), 0);
    assert_eq!(terminal_width(Some(0), None), 80);
}

#[test]
fn numbers_are_read_as_the_standard_library_reads_them() {
    for text in [
        "", "+", "-", "0", "007", "+7", "++7", "-0", "-1", " 1", "1 ", "1_0", "0x1", "\u{661}",
        "18446744073709551615", "18446744073709551616", "99999999999999999999999",
    ] {
        assert_eq!(parse_number(text), text.parse::<usize>().ok(), "{text}");
    }
}

#[test]
fn color_needs_a_terminal_and_no_objection() {
    assert!(color_enabled(true, false));
    assert!(!color_enabled(true, true));
    assert!(!color_enabled(false, false));
    assert!(!color_enabled(false, true));
}

#[test]
fn texts_are_escaped() {
    assert_eq!(escape("plain/\u{e9}"), "plain/\u{e9}");
    assert_eq!(escape("a\tb\x1b\"\n"), "a\\tb\\u{1b}\\\"\\n");
    assert_eq!(counter_text(10, 12), " (10/12)");
    assert_eq!(
        scan_notice(b"a\nb\xff", 1, 2, 80, false),
        "\r\x1b[2KScanning: a\\nb\u{fffd} (1/2)"
    );
}

#[test]
fn steps_are_shown_on_a_terminal_only() {
    let url = found().url;
    let text = url.text.clone();
    let notice = check_notice(
        CheckProgress::Preparing { repository: "o/r", index: 1, total: 2 },
        true,
        200,
        true,
    );
    assert_eq!(notice.stderr, "\r\x1b[2K\x1b[2mPreparing: \x1b[0mo/r (1/2)");
    assert_eq!(notice.stdout, "");
    let notice =
        check_notice(CheckProgress::Checking { url: &url, index: 1, total: 2 }, true, 200, false);
    assert_eq!(notice.stderr, format!("\r\x1b[2KChecking: {text} (1/2)"));
    let notice = check_notice(
        CheckProgress::Investigating { url: &url, index: 2, total: 2 },
        true,
        200,
        true,
    );
    assert_eq!(
        notice.stderr,
        format!("\r\x1b[2K\x1b[2mInvestigating: \x1b[0m\x1b[36m{text}\x1b[0m (2/2)")
    );
    let notice =
        check_notice(CheckProgress::Checking { url: &url, index: 1, total: 2 }, false, 200, false);
    assert_eq!((notice.stdout.as_str(), notice.stderr.as_str()), ("", ""));
    let notice = check_notice(CheckProgress::InvestigationCount { total: 0 }, false, 80, false);
    assert_eq!(
        (notice.stdout.as_str(), notice.stderr.as_str()),
        ("0 URL(s) require investigation.\n", "")
    );
    let notice = check_notice(CheckProgress::InvestigationCount { total: 3 }, true, 80, false);
    assert_eq!(
        (notice.stdout.as_str(), notice.stderr.as_str()),
        ("3 URL(s) require investigation.\n", "\r\x1b[2K")
    );
}

fn error() -> CheckOutcome {
    CheckOutcome::Error { found: found(), message: "why".to_owned() }
}

#[test]
fn outcomes_are_written_where_they_belong() {
    let current = CheckOutcome::Current { url: found().url };
    let notice = notice_of_outcome(&current, true, true);
    assert_eq!((notice.stdout.as_str(), notice.stderr.as_str()), ("", ""));

    let stale = CheckOutcome::Stale(report());
    let notice = notice_of_outcome(&stale, false, true);
    assert_eq!(notice.stdout, format!("{}\n", report().to_string()));
    assert_eq!(notice.stderr, "");
    let notice = notice_of_outcome(&stale, true, false);
    assert_eq!(notice.stdout, format!("{}\n", report().colored().to_string()));

    let notice = notice_of_outcome(&error(), true, false);
    assert_eq!(notice.stdout, "");
    assert_eq!(
        notice.stderr,
        format!("error: {}\n  at README.md:3\n  why\n", found().url.text)
    );
    let notice = notice_of_outcome(&error(), false, true);
    assert_eq!(
        notice.stderr,
        format!(
            "\x1b[1;31merror:\x1b[0m \x1b[36m{}\x1b[0m\n  \x1b[2mat\x1b[0m README.md:3\n  why\n",
            found().url.text
        )
    );
    assert_eq!(file_error_text("f: denied", false), "error: f: denied\n");
    assert_eq!(file_error_text("f", true), "\x1b[1;31merror:\x1b[0m f\n");
}

#[test]
fn a_run_is_summed_up() {
    let outcomes = vec![
        CheckOutcome::Current { url: found().url },
        error(),
        CheckOutcome::Stale(report()),
        CheckOutcome::Current { url: found().url },
    ];
    let sum = tally(&outcomes);
    assert_eq!(sum, Tally { current: 2, stale: 1, url_errors: 1 });
    assert_eq!(
        summary_text(4, sum, 0, false),
        "Checked 4 unique URL(s): 2 current, 1 stale, 1 URL error(s); 0 file error(s).\n"
    );
    assert_eq!(
        summary_text(4, sum, 0, true),
        "Checked 4 unique URL(s): \x1b[32m2 current\x1b[0m, \x1b[31m1 stale\x1b[0m, \
         \x1b[31m1 URL error(s)\x1b[0m; \x1b[2m0 file error(s)\x1b[0m.\n"
    );
    assert_eq!(styled_count_with_label(0, "stale", RED, true).to_string(), "\x1b[2m0 stale\x1b[0m");
    assert_eq!(count_places(&vec![found(), found()]), Some(2));
    assert_eq!(found_text(2, 1), "Found 2 GitHub URL(s), 1 unique.\n");
}

#[test]
fn a_run_succeeds_when_all_is_current() {
    let sum = |stale, url_errors| Tally { current: 5, stale, url_errors };
    assert!(run_succeeded(sum(0, 0), 0));
    assert!(!run_succeeded(sum(1, 0), 0));
    assert!(!run_succeeded(sum(0, 1), 0));
    assert!(!run_succeeded(sum(0, 0), 1));
}

/// A text without its styles.
fn without_styles(text: &str) -> String {
    let mut plain = String::new();
    let mut in_style = false;
    for c in text.chars() {
        if in_style {
            in_style = c != 'm';
        } else if c == '\x1b' {
            in_style = true;
        } else {
            plain.push(c);
        }
    }
    plain
}

#[test]
fn color_adds_styles_and_nothing_else() {
    let report = report();
    let colored = report.colored().to_string();
    assert_ne!(colored, report.to_string());
    assert_eq!(without_styles(&colored), report.to_string());
}
