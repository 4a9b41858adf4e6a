use stale_urls::lines::{contains_lines, extract_lines, lines};

#[test]
fn matches_exact_whole_contiguous_lines() {
    let expected = extract_lines(b"beta\n  gamma\n", 1, 2).unwrap();
    assert!(contains_lines(b"alpha\nbeta\n  gamma\ndelta\n", &expected));
    assert!(!contains_lines(
        b"alpha\nx beta\n  gamma\ndelta\n",
        &expected
    ));
    assert!(!contains_lines(b"alpha\nbeta\n gamma\ndelta\n", &expected));
}

#[test]
fn line_ranges_are_one_based_and_inclusive() {
    assert_eq!(
        extract_lines(b"one\ntwo\nthree\n", 2, 3).unwrap(),
        vec![b"two".to_vec(), b"three".to_vec()]
    );
    assert!(extract_lines(b"one\n", 2, 2).is_err());
}

#[test]
fn a_last_line_feed_starts_no_line() {
    assert_eq!(lines(b""), Vec::<Vec<u8>>::new());
    assert_eq!(lines(b"\n"), [b"".to_vec()]);
    assert_eq!(lines(b"a\n\nb"), [b"a".to_vec(), b"".to_vec(), b"b".to_vec()]);
    assert_eq!(lines(b"a\n\n"), [b"a".to_vec(), b"".to_vec()]);
}

#[test]
fn ranges_outside_a_file_are_refused() {
    for (start, end) in [(0, 1), (2, 1), (1, 4), (4, 4)] {
        assert_eq!(
            extract_lines(b"one\ntwo\nthree\n", start, end).unwrap_err().to_string(),
            format!("referenced range L{start}-L{end} is outside a file containing 3 line(s)")
        );
    }
}

#[test]
fn extracted_lines_stand_in_their_file_and_in_longer_ones() {
    let expected = extract_lines(b"one\ntwo\nthree", 2, 3).unwrap();
    assert!(contains_lines(b"one\ntwo\nthree", &expected));
    assert!(contains_lines(b"zero\none\ntwo\nthree\nfour", &expected));
    assert!(!contains_lines(b"two\nx\nthree", &expected));
    assert!(!contains_lines(b"two", &expected));
    assert!(!contains_lines(b"two", &[]));
}
