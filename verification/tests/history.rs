use stale_urls::cache::{CachePlace, PlaceFacts};
use stale_urls::git::{Command, Output, Reply};
use stale_urls::listener::Nobody;
use stale_urls::repository::Repository;
use stale_urls::verdict::{check_local, investigate};
use stale_urls::world::{Outside, World};
use stale_urls::{FoundUrl, SourceUrl};

fn said(text: &str) -> Reply {
    Reply::Finished(Output {
        code: Some(0),
        stdout: text.as_bytes().to_vec(),
        stderr: Vec::new(),
    })
}

fn refused(code: i32) -> Reply {
    Reply::Finished(Output {
        code: Some(code),
        stdout: Vec::new(),
        stderr: b"refused".to_vec(),
    })
}

/// Answers each command, its arguments joined by blanks, from a list; all others are refused.
fn script(answers: Vec<(&'static str, Reply)>) -> impl Outside {
    outside(move |command: &Command| {
        assert_eq!(command.repository, Some(b"repo".to_vec()));
        let asked = command.args.join(" ");
        answers
            .iter()
            .find(|(known, _)| *known == asked)
            .map_or_else(|| refused(128), |(_, reply)| reply.clone())
    })
}

/// A world in which only Git is asked.
fn outside(git: impl FnMut(&Command) -> Reply) -> impl Outside {
    let place = |_: &CachePlace| -> PlaceFacts { panic!("the cache is not asked") };
    World::new(git, place, Nobody)
}

fn repository() -> Repository {
    Repository {
        path: b"repo".to_vec(),
        default_branch: "main".to_owned(),
        default_ref: "HEAD".to_owned(),
    }
}

fn link(start: usize, end: usize) -> FoundUrl {
    FoundUrl {
        url: SourceUrl {
            text: format!("https://github.com/o/r/blob/c0/f#L{start}-L{end}"),
            owner: "o".to_owned(),
            repo: "r".to_owned(),
            commit: "c0".to_owned(),
            path: "f".to_owned(),
            start,
            end,
        },
        occurrences: Vec::new(),
    }
}

const NO_RENAMES: &str = "M\0f\0";

#[test]
fn local_checks_tell_current_links_from_others() {
    let mut git = script(vec![
        ("show c0:f", said("before\ntarget\nafter\n")),
        ("show HEAD:f", said("more\nbefore\ntarget\nafter\n")),
    ]);
    assert!(check_local(&repository(), &mut git, &link(2, 2)).unwrap().is_none());
    assert!(check_local(&repository(), &mut git, &link(1, 3)).unwrap().is_none());
    let mut git = script(vec![
        ("show c0:f", said("before\ntarget\nafter\n")),
        ("show HEAD:f", said("before\nchanged\nafter\n")),
    ]);
    assert_eq!(
        check_local(&repository(), &mut git, &link(2, 2)).unwrap(),
        Some(vec![b"target".to_vec()])
    );
    let mut git = script(vec![("show c0:f", said("before\ntarget\nafter\n"))]);
    assert_eq!(
        check_local(&repository(), &mut git, &link(1, 1)).unwrap(),
        Some(vec![b"before".to_vec()])
    );
}

fn message<W: Outside>(found: &FoundUrl, world: &mut W) -> String {
    check_local(&repository(), world, found).unwrap_err().to_string()
}

#[test]
fn local_checks_say_what_is_wrong() {
    let mut git = script(vec![("show c0:f", said("one\n"))]);
    assert_eq!(message(&link(0, 0), &mut git), "invalid line range L0-L0");
    assert_eq!(message(&link(3, 2), &mut git), "invalid line range L3-L2");
    assert_eq!(
        message(&link(1, 2), &mut git),
        "referenced range L1-L2 is outside a file containing 1 line(s)"
    );
    let mut git = script(vec![]);
    assert_eq!(message(&link(1, 1), &mut git), "f does not exist at the referenced commit");
    let mut git = outside(|_: &Command| Reply::Unstarted("gone".to_owned()));
    assert_eq!(message(&link(1, 1), &mut git), "could not run Git in repo: gone");
}

#[test]
fn a_walk_follows_a_rename_before_it_finds_a_change() {
    let expected = vec![b"target".to_vec(), b"  exact".to_vec()];
    let answers = vec![
        ("rev-list --first-parent --reverse c0..c1", said("c1\n")),
        ("rev-list --first-parent --reverse c0..c2", said("c1\nc2\n")),
        ("diff --name-status -z -M c0 c1", said("R100\0old.txt\0new.txt\0")),
        ("diff --name-status -z -M c1 c2", said("M\0new.txt\0")),
        ("show c1:new.txt", said("before\ntarget\n  exact\nafter\n")),
        ("show c2:new.txt", said("before\ntarget\n exact\nafter\n")),
    ];
    let mut git = script(answers);
    assert_eq!(
        repository().find_break(&mut git, "c0", "c1", "old.txt", &expected).unwrap(),
        None
    );
    assert_eq!(
        repository().find_break(&mut git, "c0", "c2", "old.txt", &expected).unwrap(),
        Some("c2".to_owned())
    );
}

#[test]
fn a_walk_ends_at_the_first_break() {
    let expected = vec![b"x".to_vec()];
    let mut git = script(vec![
        ("rev-list --first-parent --reverse a..e", said("b\nc\nd\ne\n")),
        ("diff --name-status -z -M a b", said(NO_RENAMES)),
        ("diff --name-status -z -M b c", said(NO_RENAMES)),
        ("show b:f", said("x\n")),
    ]);
    assert_eq!(
        repository().find_break(&mut git, "a", "e", "f", &expected).unwrap(),
        Some("c".to_owned())
    );
}

#[test]
fn a_walk_stops_at_a_failure() {
    let expected = vec![b"x".to_vec()];
    let mut git = script(vec![]);
    assert_eq!(
        repository().find_break(&mut git, "a", "b", "f", &expected).unwrap_err().to_string(),
        "could not walk default-branch history: refused"
    );
    let mut git = script(vec![("rev-list --first-parent --reverse a..b", said("b\n"))]);
    assert_eq!(
        repository().find_break(&mut git, "a", "b", "f", &expected).unwrap_err().to_string(),
        "could not detect file renames: refused"
    );
}

fn merge_script() -> Vec<(&'static str, Reply)> {
    vec![
        ("rev-list --parents -n 1 merge", said("merge main side\n")),
        ("merge-base main side", said("base\n")),
        ("show base:f", said("keep\ntarget\nkeep\n")),
        ("rev-list --first-parent --reverse base..side", said("original\nside\n")),
        ("diff --name-status -z -M base original", said(NO_RENAMES)),
        ("show original:f", said("keep\nchanged\nkeep\n")),
        ("rev-list --parents -n 1 original", said("original base\n")),
        ("rev-list --first-parent --reverse c0..HEAD", said("main\nmerge\n")),
        ("diff --name-status -z -M c0 main", said("A\0unrelated.txt\0")),
        ("diff --name-status -z -M main merge", said(NO_RENAMES)),
        ("show main:f", said("keep\ntarget\nkeep\n")),
        ("show merge:f", said("keep\nchanged\nkeep\n")),
        ("merge-base --is-ancestor c0 HEAD", said("")),
        ("show -s --format=%H%x00%cI%x00%s original", said("o1\0d1\0change target\n")),
        ("show -s --format=%H%x00%cI%x00%s merge", said("m1\0d2\0merge feature\n")),
    ]
}

#[test]
fn an_origin_is_found_on_the_branch_that_was_merged() {
    let expected = vec![b"target".to_vec()];
    let mut git = script(merge_script());
    assert_eq!(
        repository().find_original_change(&mut git, "merge", "f", &expected, 0).unwrap(),
        "original"
    );
    assert_eq!(
        repository().find_original_change(&mut git, "merge", "f", &expected, 15).unwrap(),
        "original"
    );
    assert_eq!(
        repository().find_original_change(&mut git, "merge", "f", &expected, 16).unwrap(),
        "merge"
    );
    assert_eq!(
        repository().find_original_change(&mut git, "original", "f", &expected, 0).unwrap(),
        "original"
    );
}

#[test]
fn a_merge_whose_branches_kept_the_lines_is_its_own_origin() {
    let expected = vec![b"target".to_vec()];
    let mut git = script(vec![
        ("rev-list --parents -n 1 merge", said("merge main one two\n")),
        ("merge-base main one", said("b1\n")),
        ("show b1:f", said("other\n")),
        ("merge-base main two", said("b2\n")),
        ("show b2:f", said("target\n")),
        ("rev-list --first-parent --reverse b2..two", said("")),
    ]);
    assert_eq!(
        repository().find_original_change(&mut git, "merge", "f", &expected, 0).unwrap(),
        "merge"
    );
    let mut git = script(vec![("rev-list --parents -n 1 merge", said("merge main one\n"))]);
    assert_eq!(
        repository()
            .find_original_change(&mut git, "merge", "f", &expected, 0)
            .unwrap_err()
            .to_string(),
        "could not find merge base: refused"
    );
}

#[test]
fn an_investigation_names_both_commits() {
    let expected = vec![b"target".to_vec()];
    let mut git = script(merge_script());
    let report = investigate(&repository(), &mut git, &link(2, 2), &expected).unwrap().unwrap();
    assert_eq!(report.found.url, link(2, 2).url);
    assert_eq!(report.change_commit.hash, "o1");
    assert_eq!(report.change_commit.title, "change target");
    assert_eq!(report.merge_commit.hash, "m1");
    assert_eq!(report.merge_commit.date, "d2");
}

#[test]
fn an_investigation_may_find_the_lines_after_all() {
    let mut git = script(merge_script());
    let report =
        investigate(&repository(), &mut git, &link(1, 1), &[b"keep".to_vec()]).unwrap();
    assert!(report.is_none());
}

#[test]
fn commits_off_the_default_branch_are_not_investigated() {
    let expected = vec![b"target".to_vec()];
    let mut git = script(vec![("merge-base --is-ancestor c0 HEAD", refused(1))]);
    assert_eq!(
        investigate(&repository(), &mut git, &link(1, 1), &expected).unwrap_err().to_string(),
        "referenced commit c0 is not an ancestor of the current default branch"
    );
    let mut git = script(vec![]);
    assert_eq!(
        investigate(&repository(), &mut git, &link(1, 1), &expected).unwrap_err().to_string(),
        "could not check commit ancestry: refused"
    );
}

#[test]
fn missing_commits_are_fetched_together() {
    let mut asked = Vec::new();
    let mut git = outside(|command: &Command| {
        asked.push(command.args.join(" "));
        match command.args[0].as_str() {
            "cat-file" if command.args[2] == "have^{commit}" => said(""),
            "cat-file" => refused(1),
            _ => said(""),
        }
    });
    let commits: Vec<String> =
        ["second", "have", "first", "second"].iter().map(|s| (*s).to_owned()).collect();
    repository().fetch_commits(&mut git, &commits).unwrap();
    repository().fetch_commit(&mut git, "have").unwrap();
    drop(git);
    assert_eq!(
        asked,
        [
            "cat-file -e second^{commit}",
            "cat-file -e have^{commit}",
            "cat-file -e first^{commit}",
            "cat-file -e second^{commit}",
            "fetch --quiet --depth=1 --no-tags origin first second",
            "cat-file -e have^{commit}",
        ]
    );
    let mut git = script(vec![]);
    assert_eq!(
        repository().fetch_commit(&mut git, "x").unwrap_err().to_string(),
        "could not fetch referenced commit: refused"
    );
}

#[test]
fn histories_are_deepened_where_they_are_shallow() {
    let mut asked = Vec::new();
    let mut git = outside(|command: &Command| {
        asked.push(command.args.join(" "));
        said("true\n")
    });
    repository().ensure_full_default_history(&mut git).unwrap();
    drop(git);
    let mut whole = script(vec![("rev-parse --is-shallow-repository", said("false\n"))]);
    repository().ensure_full_default_history(&mut whole).unwrap();
    assert_eq!(
        asked,
        ["rev-parse --is-shallow-repository", "fetch --quiet --unshallow origin main"]
    );
    let mut git = script(vec![("rev-parse --is-shallow-repository", said(" true"))]);
    assert_eq!(
        repository().ensure_full_default_history(&mut git).unwrap_err().to_string(),
        "could not deepen default-branch history: refused"
    );
    let mut git = script(vec![]);
    assert_eq!(
        repository().ensure_full_default_history(&mut git).unwrap_err().to_string(),
        "could not inspect clone depth: refused"
    );
}
