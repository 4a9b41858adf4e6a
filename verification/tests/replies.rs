use stale_urls::failure::Failure;
use stale_urls::git::{
    ancestry_of_reply, completion_of_reply, display_path, existence_of_reply, file_of_reply,
    git_failure, lines_of_reply, outcome_of_reply, text_of_reply, Output, Reply,
};
use stale_urls::porcelain::{
    commit_in, default_branch_in, parents_in, rename_of_reply, renamed_in_diff,
};

fn output(code: Option<i32>, stdout: &[u8], stderr: &[u8]) -> Output {
    Output {
        code,
        stdout: stdout.to_vec(),
        stderr: stderr.to_vec(),
    }
}

fn finished(code: Option<i32>, stdout: &[u8], stderr: &[u8]) -> Reply {
    Reply::Finished(output(code, stdout, stderr))
}

fn unstarted() -> Reply {
    Reply::Unstarted("gone".to_owned())
}

#[test]
fn failures_name_the_operation_and_what_git_wrote() {
    assert_eq!(
        git_failure("do it", &output(Some(1), b"", b"")).to_string(),
        "could not do it"
    );
    assert_eq!(
        git_failure("do it", &output(Some(1), b"", b" \n why \xff\n")).to_string(),
        "could not do it: why \u{fffd}"
    );
    let failure = Failure::caused("outer".to_owned(), "inner".to_owned());
    assert_eq!(failure.to_string(), "outer: inner");
    assert_eq!(Failure::plain("alone".to_owned()).to_string(), "alone");
}

#[test]
fn texts_have_to_be_text() {
    assert_eq!(text_of_reply(b"r", "ask", finished(Some(0), b"a\n", b"")).unwrap(), "a\n");
    assert_eq!(
        text_of_reply(b"r", "ask", finished(Some(2), b"a", b"no")).unwrap_err().to_string(),
        "could not ask: no"
    );
    assert_eq!(
        text_of_reply(b"r", "ask", finished(None, b"a", b"")).unwrap_err().to_string(),
        "could not ask"
    );
    assert_eq!(
        text_of_reply(b"a/b", "ask", unstarted()).unwrap_err().to_string(),
        "could not run Git in a/b: gone"
    );
    let failure = text_of_reply(b"r", "ask", finished(Some(0), b"a\xff", b"")).unwrap_err();
    assert_eq!(failure.message, "Git emitted non-UTF-8 output");
    assert_eq!(
        failure.cause.unwrap(),
        String::from_utf8(b"a\xff".to_vec()).unwrap_err().to_string()
    );
}

#[test]
fn lines_end_with_line_feeds() {
    assert_eq!(
        lines_of_reply(b"r", "ask", finished(Some(0), b"a\r\n\nb", b"")).unwrap(),
        ["a", "", "b"]
    );
    assert!(lines_of_reply(b"r", "ask", finished(Some(0), b"", b"")).unwrap().is_empty());
    assert!(lines_of_reply(b"r", "ask", finished(Some(1), b"", b"")).is_err());
}

#[test]
fn work_is_done_when_git_says_so() {
    assert!(outcome_of_reply(b"r", "work", finished(Some(0), b"", b"noise")).is_ok());
    assert_eq!(
        outcome_of_reply(b"r", "work", finished(Some(1), b"", b"")).unwrap_err().to_string(),
        "could not work"
    );
    assert!(completion_of_reply("work", finished(Some(0), b"", b"")).is_ok());
    assert_eq!(
        completion_of_reply("work", unstarted()).unwrap_err().to_string(),
        "could not work: gone"
    );
    assert_eq!(
        completion_of_reply("work", finished(None, b"", b"killed")).unwrap_err().to_string(),
        "could not work: killed"
    );
}

#[test]
fn files_and_objects_may_be_missing() {
    assert_eq!(
        file_of_reply(b"r", finished(Some(0), b"\xffx", b"")).unwrap(),
        Some(b"\xffx".to_vec())
    );
    assert_eq!(file_of_reply(b"r", finished(Some(128), b"x", b"no")).unwrap(), None);
    assert!(file_of_reply(b"r", unstarted()).is_err());
    assert!(existence_of_reply(b"r", finished(Some(0), b"", b"")).unwrap());
    assert!(!existence_of_reply(b"r", finished(Some(1), b"", b"")).unwrap());
    assert!(!existence_of_reply(b"r", finished(None, b"", b"")).unwrap());
    assert!(existence_of_reply(b"r", unstarted()).is_err());
}

#[test]
fn ancestry_has_three_answers() {
    assert!(ancestry_of_reply(b"r", finished(Some(0), b"", b"")).unwrap());
    assert!(!ancestry_of_reply(b"r", finished(Some(1), b"", b"")).unwrap());
    assert_eq!(
        ancestry_of_reply(b"r", finished(Some(128), b"", b"bad")).unwrap_err().to_string(),
        "could not check commit ancestry: bad"
    );
    assert!(ancestry_of_reply(b"r", finished(None, b"", b"")).is_err());
    assert!(ancestry_of_reply(b"r", unstarted()).is_err());
}

#[test]
fn renames_are_followed() {
    let diff = b"M\0a\0R100\0old\0new\0C75\0from\0to\0D\0gone\0";
    assert_eq!(renamed_in_diff(diff, "old", true), "new");
    assert_eq!(renamed_in_diff(diff, "new", false), "old");
    assert_eq!(renamed_in_diff(diff, "from", true), "to");
    assert_eq!(renamed_in_diff(diff, "to", false), "from");
    assert_eq!(renamed_in_diff(diff, "new", true), "new");
    assert_eq!(renamed_in_diff(diff, "a", true), "a");
    assert_eq!(renamed_in_diff(b"", "a", true), "a");
    assert_eq!(renamed_in_diff(b"R100\0a", "a", true), "a");
    assert_eq!(renamed_in_diff(b"\0R100\0a\0b\0", "a", true), "a");
    assert_eq!(renamed_in_diff(b"R1\0a\0b\0R2\0a\0c\0", "a", true), "b");
    assert_eq!(
        rename_of_reply(b"r", finished(Some(1), b"", b"no"), "a", true).unwrap_err().to_string(),
        "could not detect file renames: no"
    );
    assert_eq!(
        rename_of_reply(b"r", finished(Some(0), b"R1\0\xff\0b\0", b""), "\u{fffd}", true).unwrap(),
        "b"
    );
}

#[test]
fn the_default_branch_is_the_first_that_is_advertised() {
    let text = "0123\trefs/heads/x\nref: refs/heads/main\tHEAD\nref: refs/heads/b\tHEAD\n";
    assert_eq!(default_branch_in(text).unwrap(), "main");
    assert_eq!(default_branch_in("ref: refs/heads/a/b\tHEAD").unwrap(), "a/b");
    assert_eq!(default_branch_in("ref: refs/heads/\tHEAD").unwrap(), "");
    assert_eq!(
        default_branch_in("ref: refs/tags/v1\tHEAD\n").unwrap_err().to_string(),
        "origin did not advertise a default branch"
    );
}

#[test]
fn parents_follow_the_commit_itself() {
    assert_eq!(parents_in("c p1  p2\n"), ["p1", "p2"]);
    assert!(parents_in("c\n").is_empty());
    assert!(parents_in("").is_empty());
}

#[test]
fn commits_have_three_fields() {
    let info = commit_in("abc\x002026-01-01T00:00:00Z\0a title\0more \n\n");
    assert_eq!(info.hash, "abc");
    assert_eq!(info.date, "2026-01-01T00:00:00Z");
    assert_eq!(info.title, "a title\0more");
    let info = commit_in("abc\n");
    assert_eq!((info.hash.as_str(), info.date.as_str(), info.title.as_str()), ("abc", "", ""));
}

#[test]
fn paths_that_are_text_are_shown_as_they_are() {
    assert_eq!(display_path(b"src/lib.rs"), "src/lib.rs");
    assert_eq!(display_path("caf\u{e9}/\u{65e5}.md".as_bytes()), "caf\u{e9}/\u{65e5}.md");
    assert_eq!(display_path(b""), "");
    assert_eq!(display_path(b"a\xff/b"), "a\u{fffd}/b");
    let diff = "R100\0caf\u{e9}\0na\u{ef}ve\0".as_bytes();
    assert_eq!(renamed_in_diff(diff, "caf\u{e9}", true), "na\u{ef}ve");
    let refusal = output(Some(1), b"", "d\u{e9}sol\u{e9}\n".as_bytes());
    assert_eq!(git_failure("do it", &refusal).to_string(), "could not do it: d\u{e9}sol\u{e9}");
}
