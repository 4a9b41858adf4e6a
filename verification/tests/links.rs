use stale_urls::url::{link_of_groups, parse_candidate, to_lower};

const HASH: &str = "0123456789abcdef0123456789abcdef01234567";

fn link(path: &str) -> String {
    format!("https://github.com/o/r/blob/{HASH}/{path}")
}

#[test]
fn parses_unwrapped_urls_and_trailing_punctuation() {
    let candidate = "https://github.com/o/r/blob/0123456789abcdef0123456789abcdef01234567/a%20b.rs#L2-L4).";
    let url = parse_candidate(candidate).unwrap();
    assert_eq!(url.owner, "o");
    assert_eq!(url.repo, "r");
    assert_eq!(url.path, "a b.rs");
    assert_eq!((url.start, url.end), (2, 4));
}

#[test]
fn requires_a_full_commit_hash() {
    assert!(parse_candidate("https://github.com/o/r/blob/0123456/a.rs#L1").is_none());
    assert!(parse_candidate("https://github.com/o/r/blob/main/a.rs#L1").is_none());
}

#[test]
fn every_closing_character_is_dropped() {
    let plain = link("a.rs#L7");
    for end in [")", "]", "}", ",", ".", ";", ":", ")].,;:}"] {
        let url = parse_candidate(&format!("{plain}{end}")).unwrap();
        assert_eq!(url.text, plain);
        assert_eq!((url.start, url.end), (7, 7));
    }
    assert!(parse_candidate(&format!("{plain}!")).is_none());
}

#[test]
fn a_single_line_ends_where_it_starts() {
    let url = parse_candidate(&link("dir/a.rs#L12")).unwrap();
    assert_eq!(url.path, "dir/a.rs");
    assert_eq!((url.start, url.end), (12, 12));
    assert_eq!(url.to_string(), link("dir/a.rs#L12"));
}

#[test]
fn hashes_are_lowered_and_texts_are_kept() {
    let text = "https://github.com/Own_er/re.po-1/blob/0123456789ABCDEF0123456789abcdef01234567/A.rs#L1";
    let url = parse_candidate(text).unwrap();
    assert_eq!(url.text, text);
    assert_eq!(url.owner, "Own_er");
    assert_eq!(url.repo, "re.po-1");
    assert_eq!(url.commit, HASH);
    assert_eq!(url.path, "A.rs");
}

#[test]
fn names_of_dots_are_no_names() {
    for (owner, repo) in [(".", "r"), ("..", "r"), ("o", "."), ("o", "..")] {
        let text = format!("https://github.com/{owner}/{repo}/blob/{HASH}/a.rs#L1");
        assert!(parse_candidate(&text).is_none());
    }
    let text = format!("https://github.com/.../.r/blob/{HASH}/a.rs#L1");
    assert_eq!(parse_candidate(&text).unwrap().owner, "...");
}

#[test]
fn paths_are_decoded() {
    assert_eq!(parse_candidate(&link("%C3%A9/%23.rs#L1")).unwrap().path, "\u{e9}/#.rs");
    assert_eq!(parse_candidate(&link("100%.rs#L1")).unwrap().path, "100%.rs");
    assert!(parse_candidate(&link("%FF.rs#L1")).is_none());
}

#[test]
fn line_numbers_have_to_fit() {
    assert_eq!(parse_candidate(&link("a#L18446744073709551615")).unwrap().start, usize::MAX);
    assert!(parse_candidate(&link("a#L18446744073709551616")).is_none());
    assert!(parse_candidate(&link("a#L1-L18446744073709551616")).is_none());
    assert_eq!(parse_candidate(&link("a#L007-L0")).unwrap().start, 7);
    assert_eq!(parse_candidate(&link("a#L007-L0")).unwrap().end, 0);
}

#[test]
fn other_shapes_are_no_links() {
    assert!(parse_candidate(&link("a.rs")).is_none());
    assert!(parse_candidate(&link("#L1")).is_none());
    assert!(parse_candidate(&link("a.rs#L")).is_none());
    assert!(parse_candidate(&link("a.rs#L1-2")).is_none());
    assert!(parse_candidate(&link("a.rs#L1-L2x")).is_none());
    assert!(parse_candidate(&link("a#b#L1")).is_none());
    assert!(parse_candidate("").is_none());
    assert!(parse_candidate("https://github.com/o/r").is_none());
    assert!(parse_candidate(&format!("https://github.com/o!/r/blob/{HASH}/a#L1")).is_none());
    assert!(parse_candidate(&format!("x{}", link("a#L1"))).is_none());
}

#[test]
fn links_are_made_of_their_groups() {
    let group = |text: &str| Some(text.to_owned());
    let whole = link("a%20b#L3-L9");
    let groups = vec![
        group(&whole),
        group("o"),
        group("r"),
        group(HASH),
        group("a%20b"),
        group("3"),
        group("9"),
    ];
    let url = link_of_groups(&whole, &groups).unwrap();
    assert_eq!(url.text, whole);
    assert_eq!(url.path, "a b");
    assert_eq!((url.start, url.end), (3, 9));
}

#[test]
fn only_ascii_is_lowered() {
    assert_eq!(to_lower("AbZ\u{c4}"), "abz\u{c4}");
}
