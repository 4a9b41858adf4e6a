use stale_urls::cache::{CachePlace, PlaceFacts};
use stale_urls::check::{check_links, check_links_in, check_urls_in_cache};
use stale_urls::failure::Failure;
use stale_urls::git::{Command, Output, Reply};
use stale_urls::group::group_urls;
use stale_urls::listener::{CheckedLinks, Everything, Nobody};
use stale_urls::repository::Repository;
use stale_urls::world::World;
use stale_urls::{
    check_urls, check_urls_with, check_urls_with_phases, CheckOutcome, CheckProgress, FoundUrl,
    Occurrence, SourceUrl,
};
use std::cell::RefCell;

fn said(text: &str) -> Reply {
    Reply::Finished(Output {
        code: Some(0),
        stdout: text.as_bytes().to_vec(),
        stderr: Vec::new(),
    })
}

fn refused() -> Reply {
    Reply::Finished(Output {
        code: Some(128),
        stdout: Vec::new(),
        stderr: b"refused".to_vec(),
    })
}

fn link(owner: &str, repo: &str, commit: &str, line: usize) -> FoundUrl {
    FoundUrl {
        url: SourceUrl {
            text: format!("https://github.com/{owner}/{repo}/blob/{commit}/f#L{line}"),
            owner: owner.to_owned(),
            repo: repo.to_owned(),
            commit: commit.to_owned(),
            path: "f".to_owned(),
            start: line,
            end: line,
        },
        occurrences: vec![Occurrence {
            file: b"README.md".to_vec(),
            line: 3,
        }],
    }
}

fn present(_: &CachePlace) -> PlaceFacts {
    PlaceFacts {
        created: Ok(()),
        exists: true,
        is_repository: true,
    }
}

/// A repository whose default branch changed the second line of its file in one commit.
fn git(command: &Command) -> Reply {
    let args: Vec<&str> = command.args.iter().map(String::as_str).collect();
    match args.as_slice() {
        ["ls-remote", ..] => said("ref: refs/heads/main\tHEAD\n"),
        ["fetch", ..] | ["merge", ..] => said(""),
        ["branch", ..] => said("main\n"),
        ["cat-file", "-e", _] => said(""),
        ["show", "start:f"] => said("stable\ntarget\n"),
        ["show", "refs/remotes/origin/main:f"] | ["show", "change:f"] => said("stable\nchanged\n"),
        ["rev-parse", "--is-shallow-repository"] => said("false\n"),
        ["merge-base", "--is-ancestor", ..] => said(""),
        ["rev-list", "--first-parent", ..] => said("change\n"),
        ["rev-list", "--parents", ..] => said("change start\n"),
        ["diff", ..] => said("M\0f\0"),
        ["show", "-s", _, "change"] => said("change\0date\0title\n"),
        _ => refused(),
    }
}

fn event(progress: CheckProgress<'_>) -> String {
    match progress {
        CheckProgress::Preparing {
            repository,
            index,
            total,
        } => format!("preparing {repository} {index}/{total}"),
        CheckProgress::Checking { index, total, .. } => format!("checking {index}/{total}"),
        CheckProgress::InvestigationCount { total } => format!("investigation count {total}"),
        CheckProgress::Investigating { index, total, .. } => {
            format!("investigating {index}/{total}")
        }
    }
}

fn kind(outcome: &CheckOutcome) -> String {
    match outcome {
        CheckOutcome::Current { url } => format!("current {}", url.text),
        CheckOutcome::Stale(report) => format!("stale {}", report.found.url.text),
        CheckOutcome::Error { found, message } => format!("error {} {message}", found.url.text),
    }
}

fn text(found: &FoundUrl) -> String {
    found.url.text.clone()
}

#[test]
fn a_check_goes_through_its_phases_in_order() {
    let mut events = Vec::new();
    let outcomes = check_urls_in_cache(
        b"cache",
        vec![link("o", "r", "start", 1), link("o", "r", "start", 2)],
        git,
        present,
        |progress: CheckProgress<'_>| events.push(event(progress)),
    );
    assert_eq!(
        events,
        [
            "preparing o/r 1/1",
            "checking 1/2",
            "checking 2/2",
            "investigation count 1",
            "investigating 1/1",
        ]
    );
    assert_eq!(
        outcomes.iter().map(kind).collect::<Vec<_>>(),
        [
            format!("current {}", text(&link("o", "r", "start", 1))),
            format!("stale {}", text(&link("o", "r", "start", 2))),
        ]
    );
    match &outcomes[1] {
        CheckOutcome::Stale(report) => {
            assert_eq!(report.change_commit.hash, "change");
            assert_eq!(report.merge_commit.title, "title");
            assert_eq!(report.found.occurrences, link("o", "r", "start", 2).occurrences);
        }
        _ => unreachable!(),
    }
}

#[test]
fn nothing_to_check_is_told_as_well() {
    let mut events = Vec::new();
    let outcomes = check_urls_in_cache(
        b"cache",
        Vec::new(),
        git,
        present,
        |progress: CheckProgress<'_>| events.push(event(progress)),
    );
    assert!(outcomes.is_empty());
    assert_eq!(events, ["investigation count 0"]);
}

#[test]
fn links_are_grouped_by_repository() {
    let groups = group_urls(vec![
        link("b", "a", "1", 1),
        link("a", "z", "2", 2),
        link("b", "a", "3", 3),
        link("a", "b", "4", 4),
        link("a", "Z", "5", 5),
    ]);
    let names: Vec<(String, Vec<usize>)> = groups
        .iter()
        .map(|group| {
            (
                format!("{}/{}", group.owner, group.repo),
                group.members.iter().map(|found| found.url.start).collect(),
            )
        })
        .collect();
    assert_eq!(
        names,
        [
            ("a/Z".to_owned(), vec![5]),
            ("a/b".to_owned(), vec![4]),
            ("a/z".to_owned(), vec![2]),
            ("b/a".to_owned(), vec![1, 3]),
        ]
    );
}

#[test]
fn a_repository_that_cannot_be_opened_fails_its_links_only() {
    let outcomes = check_urls_in_cache(
        b"cache",
        vec![
            link("x", "r", "start", 1),
            link("o", "r", "start", 1),
            link("x", "r", "start", 2),
        ],
        git,
        |place: &CachePlace| PlaceFacts {
            created: Ok(()),
            exists: true,
            is_repository: place.path != b"cache/x/r",
        },
        |_: CheckProgress<'_>| {},
    );
    let error = "cache path cache/x/r is not a Git repository";
    assert_eq!(
        outcomes.iter().map(kind).collect::<Vec<_>>(),
        [
            format!("error {} {error}", text(&link("x", "r", "start", 1))),
            format!("error {} {error}", text(&link("x", "r", "start", 2))),
            format!("current {}", text(&link("o", "r", "start", 1))),
        ]
    );
}

#[test]
fn one_missing_commit_keeps_no_other_link_from_being_checked() {
    let mut fetches = Vec::new();
    let outcomes = check_urls_in_cache(
        b"cache",
        vec![link("o", "r", "lost", 1), link("o", "r", "start", 1)],
        |command: &Command| {
            let asked = command.args.join(" ");
            if asked == "cat-file -e lost^{commit}" {
                return refused();
            }
            if asked.starts_with("fetch --quiet --depth=1") {
                fetches.push(asked);
                return refused();
            }
            git(command)
        },
        present,
        |_: CheckProgress<'_>| {},
    );
    assert_eq!(
        outcomes.iter().map(kind).collect::<Vec<_>>(),
        [
            format!(
                "error {} could not fetch referenced commit: refused",
                text(&link("o", "r", "lost", 1))
            ),
            format!("current {}", text(&link("o", "r", "start", 1))),
        ]
    );
    assert_eq!(fetches.len(), 2);
    assert_eq!(fetches[0], "fetch --quiet --depth=1 --no-tags origin lost");
}

#[test]
fn histories_are_asked_for_once_and_only_where_needed() {
    let mut depths = Vec::new();
    let outcomes = check_urls_in_cache(
        b"cache",
        vec![
            link("a", "r", "start", 2),
            link("a", "r", "start", 2),
            link("b", "r", "start", 1),
        ],
        |command: &Command| {
            if command.args[0] == "rev-parse" {
                depths.push(String::from_utf8(command.repository.clone().unwrap()).unwrap());
                return refused();
            }
            git(command)
        },
        present,
        |_: CheckProgress<'_>| {},
    );
    assert_eq!(depths, ["cache/a/r"]);
    let error = "could not inspect clone depth: refused";
    assert_eq!(
        outcomes.iter().map(kind).collect::<Vec<_>>(),
        [
            format!("current {}", text(&link("b", "r", "start", 1))),
            format!("error {} {error}", text(&link("a", "r", "start", 2))),
            format!("error {} {error}", text(&link("a", "r", "start", 2))),
        ]
    );
}

#[test]
fn links_that_cannot_be_read_are_errors() {
    let outcomes = check_urls(
        vec![link("o", "r", "start", 0), link("o", "r", "start", 9)],
        Ok(b"cache".to_vec()),
        git,
        present,
    );
    assert_eq!(
        outcomes.iter().map(kind).collect::<Vec<_>>(),
        [
            format!("error {} invalid line range L0-L0", text(&link("o", "r", "start", 0))),
            format!(
                "error {} referenced range L9-L9 is outside a file containing 2 line(s)",
                text(&link("o", "r", "start", 9))
            ),
        ]
    );
}

#[test]
fn links_that_are_checked_are_counted() {
    let mut seen = Vec::new();
    let outcomes = check_urls_with(
        vec![link("o", "r", "start", 1), link("o", "r", "start", 2)],
        Ok(b"cache".to_vec()),
        git,
        present,
        |url: &SourceUrl, index: usize, total: usize| seen.push((url.start, index, total)),
    );
    assert_eq!(outcomes.len(), 2);
    assert_eq!(seen, [(1, 1, 2), (2, 2, 2)]);
}

#[test]
fn without_a_cache_every_link_is_an_error() {
    let outcomes = check_urls_with_phases(
        vec![link("o", "r", "start", 1), link("p", "q", "start", 2)],
        Err(Failure::caused("no directory".to_owned(), "denied".to_owned())),
        |_: &Command| panic!("Git is not asked"),
        |_: &CachePlace| panic!("the cache is not asked"),
        |_: CheckProgress<'_>| panic!("nothing is told"),
    );
    let error = "could not initialize the user cache: no directory: denied";
    assert_eq!(
        outcomes.iter().map(kind).collect::<Vec<_>>(),
        [
            format!("error {} {error}", text(&link("o", "r", "start", 1))),
            format!("error {} {error}", text(&link("p", "q", "start", 2))),
        ]
    );
}

fn open(
    facts: PlaceFacts,
    answer: impl Fn(&str) -> Option<Reply>,
) -> (Result<Repository, String>, Vec<String>) {
    let mut asked = Vec::new();
    let mut facts = Some(facts);
    let mut world = World::new(
        |command: &Command| {
            let words = command.args.join(" ");
            let place = command.repository.as_ref().or(command.target.as_ref()).unwrap();
            asked.push(format!("{}: {words}", String::from_utf8_lossy(place)));
            answer(&words).unwrap_or_else(|| git(command))
        },
        |place: &CachePlace| {
            assert_eq!(place.owner_directory, b"cache/o".to_vec());
            assert_eq!(place.path, b"cache/o/r".to_vec());
            facts.take().unwrap()
        },
        Nobody,
    );
    let result =
        Repository::open_or_update(&mut world, b"cache", &link("o", "r", "start", 1).url);
    drop(world);
    (result.map_err(|failure| failure.to_string()), asked)
}

fn facts(created: Result<(), String>, exists: bool, is_repository: bool) -> PlaceFacts {
    PlaceFacts {
        created,
        exists,
        is_repository,
    }
}

#[test]
fn repositories_are_cloned_updated_and_moved_forward() {
    let (opened, asked) = open(facts(Ok(()), false, false), |words| {
        words.starts_with("clone").then_some(said(""))
    });
    let repository = opened.unwrap();
    assert_eq!(repository.path, b"cache/o/r".to_vec());
    assert_eq!(repository.default_branch, "main");
    assert_eq!(repository.default_ref, "refs/remotes/origin/main");
    assert_eq!(
        asked,
        [
            "cache/o/r: clone --depth 1 --no-tags --quiet https://github.com/o/r.git",
            "cache/o/r: ls-remote --symref origin HEAD",
            "cache/o/r: fetch --quiet --prune origin +refs/heads/main:refs/remotes/origin/main",
            "cache/o/r: branch --show-current",
            "cache/o/r: merge --quiet --ff-only refs/remotes/origin/main",
        ]
    );
}

#[test]
fn another_branch_is_checked_out() {
    let (opened, asked) = open(facts(Ok(()), true, true), |words| match words {
        "branch --show-current" => Some(said("topic\n")),
        "checkout --quiet -B main refs/remotes/origin/main" => Some(said("")),
        _ => None,
    });
    assert!(opened.is_ok());
    assert_eq!(asked.len(), 4);
    assert_eq!(asked[3], "cache/o/r: checkout --quiet -B main refs/remotes/origin/main");
}

#[test]
fn each_step_of_opening_may_fail() {
    let error = |facts: PlaceFacts, step: &'static str| {
        open(facts, |words| words.starts_with(step).then_some(refused())).0.unwrap_err()
    };
    let here = || facts(Ok(()), true, true);
    assert_eq!(
        error(facts(Err("denied".to_owned()), false, false), "none"),
        "could not create cache/o: denied"
    );
    assert_eq!(
        error(facts(Ok(()), true, false), "none"),
        "cache path cache/o/r is not a Git repository"
    );
    assert_eq!(
        error(facts(Ok(()), false, false), "clone"),
        "could not shallow-clone repository: refused"
    );
    assert_eq!(error(here(), "ls-remote"), "could not determine remote default branch: refused");
    assert_eq!(error(here(), "fetch"), "could not update cached default branch: refused");
    assert_eq!(error(here(), "branch"), "could not read branch: refused");
    assert_eq!(error(here(), "merge"), "could not fast-forward cached default branch: refused");
}

/// What is asked and told in a check, in one list.
fn log_of(urls: Vec<FoundUrl>) -> Vec<String> {
    let log = RefCell::new(Vec::new());
    let mut world = World::new(
        |command: &Command| {
            let place = command.repository.as_ref().or(command.target.as_ref()).unwrap();
            let name = String::from_utf8_lossy(place).into_owned();
            log.borrow_mut().push(format!("{name}: {}", command.args[0]));
            if command.args[0] == "rev-parse" {
                return said("true\n");
            }
            git(command)
        },
        |place: &CachePlace| {
            log.borrow_mut().push(format!("prepare {}", String::from_utf8_lossy(&place.path)));
            present(place)
        },
        Everything::new(|progress: CheckProgress<'_>| log.borrow_mut().push(event(progress))),
    );
    check_links(b"cache", urls, &mut world);
    drop(world);
    log.into_inner()
}

#[test]
fn histories_are_made_whole_right_before_the_first_search() {
    let log = log_of(vec![
        link("a", "r", "start", 2),
        link("b", "r", "start", 1),
        link("a", "r", "start", 2),
    ]);
    let from = log.iter().position(|entry| entry == "checking 1/3").unwrap();
    assert_eq!(
        log[from..from + 14],
        [
            "checking 1/3",
            "cache/a/r: show",
            "cache/a/r: show",
            "checking 2/3",
            "cache/a/r: show",
            "cache/a/r: show",
            "checking 3/3",
            "cache/b/r: show",
            "cache/b/r: show",
            "investigation count 2",
            "investigating 1/2",
            "cache/a/r: rev-parse",
            "cache/a/r: fetch",
            "cache/a/r: merge-base",
        ]
    );
    let second = log.iter().position(|entry| entry == "investigating 2/2").unwrap();
    assert_eq!(log[second + 1], "cache/a/r: merge-base");
    assert_eq!(log.iter().filter(|entry| entry.ends_with("rev-parse")).count(), 1);
}

#[test]
fn repositories_are_made_ready_one_after_another() {
    let log = log_of(vec![link("b", "r", "start", 1), link("a", "r", "start", 1)]);
    assert_eq!(
        log[..12],
        [
            "preparing a/r 1/2",
            "prepare cache/a/r",
            "cache/a/r: ls-remote",
            "cache/a/r: fetch",
            "cache/a/r: branch",
            "cache/a/r: merge",
            "cache/a/r: cat-file",
            "preparing b/r 2/2",
            "prepare cache/b/r",
            "cache/b/r: ls-remote",
            "cache/b/r: fetch",
            "cache/b/r: branch",
        ]
    );
}

#[test]
fn links_of_an_unopened_repository_are_not_named() {
    let some = |place: &CachePlace| PlaceFacts {
        created: Ok(()),
        exists: true,
        is_repository: place.path != b"cache/x/r",
    };
    let mut named = Vec::new();
    let all = check_urls_with_phases(
        vec![
            link("x", "r", "start", 1),
            link("o", "r", "start", 2),
            link("x", "r", "start", 2),
            link("z", "r", "start", 1),
        ],
        Ok(b"cache".to_vec()),
        git,
        some,
        |progress: CheckProgress<'_>| match progress {
            CheckProgress::Checking { url, .. } | CheckProgress::Investigating { url, .. } => {
                named.push(url.owner.clone());
            }
            _ => {}
        },
    );
    assert_eq!(named, ["o", "z", "o"]);
    let others = check_urls(
        vec![link("o", "r", "start", 2), link("z", "r", "start", 1)],
        Ok(b"cache".to_vec()),
        git,
        some,
    );
    let told: Vec<String> = all.iter().map(kind).collect();
    assert_eq!(told.len(), 4);
    assert_eq!(told[2..], others.iter().map(kind).collect::<Vec<_>>());
    assert!(told[..2].iter().all(|entry| entry.starts_with("error https://github.com/x/r/")));
}

#[test]
fn checks_come_to_the_same_whoever_listens() {
    let urls = || {
        vec![
            link("o", "r", "start", 1),
            link("o", "r", "start", 2),
            link("p", "r", "start", 9),
        ]
    };
    let caches = || [Ok(b"cache".to_vec()), Err(Failure::plain("none".to_owned()))];
    for (k, cache) in caches().into_iter().enumerate() {
        let again = || caches().into_iter().nth(k).unwrap();
        let silent: Vec<String> =
            check_urls(urls(), cache, git, present).iter().map(kind).collect();
        let counted: Vec<String> =
            check_urls_with(urls(), again(), git, present, |_: &SourceUrl, _: usize, _: usize| {})
                .iter()
                .map(kind)
                .collect();
        let followed: Vec<String> =
            check_urls_with_phases(urls(), again(), git, present, |_: CheckProgress<'_>| {})
                .iter()
                .map(kind)
                .collect();
        assert_eq!(silent.len(), 3);
        assert_eq!(silent, counted);
        assert_eq!(silent, followed);
    }
}

#[test]
fn without_a_cache_nobody_is_asked_or_told() {
    let mut world = World::new(
        |_: &Command| -> Reply { panic!("Git is not asked") },
        |_: &CachePlace| -> PlaceFacts { panic!("the cache is not asked") },
        CheckedLinks::new(|_: &SourceUrl, _: usize, _: usize| panic!("nothing is told")),
    );
    let outcomes = check_links_in(
        Err(Failure::plain("none".to_owned())),
        vec![link("o", "r", "start", 1)],
        &mut world,
    );
    assert_eq!(
        kind(&outcomes[0]),
        format!(
            "error {} could not initialize the user cache: none",
            text(&link("o", "r", "start", 1))
        )
    );
}
