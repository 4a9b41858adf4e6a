//! What is found of one link: that its lines still stand, or which commit took them away.

use crate::failure::{plain_failure, Failure, FailureView};
use crate::git::{blob_view, flag_view, in_repository, shown_file, text_view, ReplyView};
use crate::history::{
    break_next, break_plan, commit_view, ends_at, holds_by_one_run, merges_left, origin_plan,
    range_args, the_break_is_the_first, walked,
};
use crate::index::{FoundUrl, FoundUrlView};
use crate::lines::{
    blob_lines, extract_lines, extracted_lines_are_found, holds_lines, line_range, names_lines,
    outside_message,
};
use crate::plan::{
    attempts_split, chains_ask_only, chains_split, first_step, made_by_the_same_steps,
    makings_ask_only, one_run, one_run_asks_only, Act, Plan, Step,
};
use crate::report::{CommitInfoView, StaleReport, StaleReportView};
use crate::repository::{
    ancestor_args, ancestor_made, ancestor_plan, ancestry_is_asked_for, asked_git, blob_holds,
    blob_made, blob_plan, holds_made, holds_plan, info_plan, info_view, lines_plan, show_args,
    Repository, RepositoryView,
};
use crate::text::{byte_views, decimal, to_decimal};
use crate::url::{SourceUrl, SourceUrlView};
use crate::world::{begins, begins_trying, did, did_nothing, ends, finishes, makes, Outside};
use vstd::prelude::*;

verus! {

// ---------------------------------------------------------------------------------------------
// On the default branch as it is
// ---------------------------------------------------------------------------------------------

/// What the local check of a link comes to: nothing where its lines stand, and else the lines.
pub open spec fn lines_view(result: Result<Option<Vec<Vec<u8>>>, Failure>) -> Result<
    Option<Seq<Seq<u8>>>,
    FailureView,
> {
    match result {
        Ok(Some(lines)) => Ok(Some(byte_views(lines@))),
        Ok(None) => Ok(None),
        Err(failure) => Err(failure@),
    }
}

/// What is said of a link whose lines are not in order.
pub open spec fn bad_range(url: SourceUrlView) -> FailureView {
    plain_failure("invalid line range L"@ + decimal(url.start) + "-L"@ + decimal(url.end))
}

/// What is said of a link to a file that its commit does not have.
pub open spec fn no_such_file(url: SourceUrlView) -> FailureView {
    plain_failure(url.path + " does not exist at the referenced commit"@)
}

/// The lines that a link names in its file.
pub open spec fn referenced_lines(
    url: SourceUrlView,
    blob: Result<Option<Seq<u8>>, FailureView>,
) -> Result<Seq<Seq<u8>>, FailureView> {
    match blob {
        Err(failure) => Err(failure),
        Ok(None) => Err(no_such_file(url)),
        Ok(Some(blob)) => if names_lines(url.start, url.end, blob_lines(blob).len()) {
            Ok(line_range(blob, url.start, url.end))
        } else {
            Err(plain_failure(outside_message(url.start, url.end, blob_lines(blob).len())))
        },
    }
}

/// What a local check says, once it is known whether the lines stand.
pub open spec fn local_result(
    expected: Seq<Seq<u8>>,
    held: Result<bool, FailureView>,
) -> Result<Option<Seq<Seq<u8>>>, FailureView> {
    match held {
        Err(failure) => Err(failure),
        Ok(true) => Ok(None),
        Ok(false) => Ok(Some(expected)),
    }
}

/// What is made of whether the lines of a link stand on the default branch.
pub open spec fn local_made(expected: Seq<Seq<u8>>) -> spec_fn(Result<bool, FailureView>) -> Result<
    Option<Seq<Seq<u8>>>,
    FailureView,
> {
    |held: Result<bool, FailureView>| local_result(expected, held)
}

/// What follows by the file that a link names.
pub open spec fn local_next(repository: RepositoryView, url: SourceUrlView) -> spec_fn(
    Result<Option<Seq<u8>>, FailureView>,
) -> Plan<Result<Option<Seq<Seq<u8>>>, FailureView>> {
    |blob: Result<Option<Seq<u8>>, FailureView>|
        match referenced_lines(url, blob) {
            Err(failure) => Plan::Done(Err(failure)),
            Ok(expected) => holds_plan(
                repository.path,
                repository.default_ref,
                url.path,
                expected,
            ).map_by(local_made(expected)),
        }
}

/// The plan of the local check of a link: its file is shown at its commit, and, where that has
/// the lines, on the default branch.
pub open spec fn local_plan(repository: RepositoryView, url: SourceUrlView) -> Plan<
    Result<Option<Seq<Seq<u8>>>, FailureView>,
> {
    if url.start == 0 || url.end < url.start {
        Plan::Done(Err(bad_range(url)))
    } else {
        blob_plan(repository.path, url.commit, url.path).then_by(local_next(repository, url))
    }
}

/// The local check of a link looks at its file once at its commit, and, where that has the lines,
/// once on the default branch; a link whose lines are not in order is not looked for at all.
pub proof fn local_checks_look_twice(
    repository: RepositoryView,
    url: SourceUrlView,
    steps: Seq<Step>,
    result: Result<Option<Seq<Seq<u8>>>, FailureView>,
)
    requires
        local_plan(repository, url).ran(steps, result),
    ensures
        if url.start == 0 || url.end < url.start {
            &&& steps.len() == 0
            &&& result == Err::<Option<Seq<Seq<u8>>>, _>(bad_range(url))
        } else {
            &&& steps.len() >= 1
            &&& steps[0].act == Act::Run(
                in_repository(repository.path, show_args(url.commit, url.path)),
            )
            &&& match referenced_lines(
                url,
                shown_file(repository.path, steps[0].answer->Reply_0),
            ) {
                Err(failure) => steps.len() == 1 && result == Err::<Option<Seq<Seq<u8>>>, _>(
                    failure,
                ),
                Ok(expected) => {
                    &&& steps.len() == 2
                    &&& steps[1].act == Act::Run(
                        in_repository(
                            repository.path,
                            show_args(repository.default_ref, url.path),
                        ),
                    )
                    &&& result == local_result(
                        expected,
                        blob_holds(
                            shown_file(repository.path, steps[1].answer->Reply_0),
                            expected,
                        ),
                    )
                },
            }
        },
{
    if url.start == 0 || url.end < url.start {
        first_step(local_plan(repository, url), steps, result);
    } else {
        let look = blob_plan(repository.path, url.commit, url.path);
        let next = local_next(repository, url);
        let (a, blob, b) = chains_split(look, next, steps, result);
        one_run(
            in_repository(repository.path, show_args(url.commit, url.path)),
            blob_made(repository.path),
            a,
            blob,
        );
        assert(steps[0] == a[0]);
        match referenced_lines(url, blob) {
            Err(failure) => {
                first_step(next(blob), b, result);
            },
            Ok(expected) => {
                let again = holds_plan(
                    repository.path,
                    repository.default_ref,
                    url.path,
                    expected,
                );
                let held = made_by_the_same_steps(again, local_made(expected), b, result);
                holds_by_one_run(
                    repository.path,
                    repository.default_ref,
                    url.path,
                    expected,
                    b,
                    held,
                );
                assert(steps[1] == b[0]);
            },
        }
    }
}

/// A link is current exactly when its lines stand, whole and one right after another, in its file
/// on the default branch; else the lines themselves come back. So it is wherever both files can
/// be read and the link names lines of its own.
pub proof fn local_checks_are_exact(
    repository: RepositoryView,
    url: SourceUrlView,
    referenced: Seq<u8>,
    current: Option<Seq<u8>>,
    steps: Seq<Step>,
    result: Result<Option<Seq<Seq<u8>>>, FailureView>,
)
    requires
        local_plan(repository, url).ran(steps, result),
        names_lines(url.start, url.end, blob_lines(referenced).len()),
        shown_file(repository.path, steps[0].answer->Reply_0) == Ok::<_, FailureView>(
            Some(referenced),
        ),
        shown_file(repository.path, steps[1].answer->Reply_0) == Ok::<_, FailureView>(current),
    ensures
        result == Ok::<_, FailureView>(
            if current is Some && holds_lines(
                current->0,
                line_range(referenced, url.start, url.end),
            ) {
                None
            } else {
                Some(line_range(referenced, url.start, url.end))
            },
        ),
{
    local_checks_look_twice(repository, url, steps, result);
}

/// A link to lines of a file that the default branch has just as the commit had it is current.
pub proof fn unchanged_files_are_current(
    repository: RepositoryView,
    url: SourceUrlView,
    blob: Seq<u8>,
    steps: Seq<Step>,
    result: Result<Option<Seq<Seq<u8>>>, FailureView>,
)
    requires
        local_plan(repository, url).ran(steps, result),
        names_lines(url.start, url.end, blob_lines(blob).len()),
        shown_file(repository.path, steps[0].answer->Reply_0) == Ok::<_, FailureView>(Some(blob)),
        shown_file(repository.path, steps[1].answer->Reply_0) == Ok::<_, FailureView>(Some(blob)),
    ensures
        result == Ok::<Option<Seq<Seq<u8>>>, FailureView>(None),
{
    local_checks_are_exact(repository, url, blob, Some(blob), steps, result);
    extracted_lines_are_found(blob, url.start, url.end);
}

/// Whether Git is asked for nothing but a file at a commit that a repository has.
pub open spec fn shows_a_file(repository: Seq<u8>, act: Act) -> bool {
    exists|commit: Seq<char>, path: Seq<char>|
        act == Act::Run(#[trigger] in_repository(repository, show_args(commit, path)))
}

/// The questions for files of a repository.
pub open spec fn file_questions(repository: Seq<u8>) -> spec_fn(Act) -> bool {
    |act: Act| shows_a_file(repository, act)
}

/// The local check of a link asks for nothing but files at commits, whatever the answers are.
pub proof fn local_checks_only_look_at_files(repository: RepositoryView, url: SourceUrlView)
    ensures
        local_plan(repository, url).only(file_questions(repository.path)),
{
    let such = file_questions(repository.path);
    if !(url.start == 0 || url.end < url.start) {
        let look = blob_plan(repository.path, url.commit, url.path);
        let next = local_next(repository, url);
        let asked = in_repository(repository.path, show_args(url.commit, url.path));
        assert(shows_a_file(repository.path, Act::Run(asked)));
        one_run_asks_only(asked, blob_made(repository.path), such);
        assert forall|blob: Result<Option<Seq<u8>>, FailureView>| (#[trigger] next(blob)).only(
            such,
        ) by {
            if let Ok(expected) = referenced_lines(url, blob) {
                let again = in_repository(
                    repository.path,
                    show_args(repository.default_ref, url.path),
                );
                assert(shows_a_file(repository.path, Act::Run(again)));
                one_run_asks_only(again, blob_made(repository.path), such);
                makings_ask_only(
                    blob_plan(repository.path, repository.default_ref, url.path),
                    holds_made(expected),
                    such,
                );
                makings_ask_only(
                    holds_plan(repository.path, repository.default_ref, url.path, expected),
                    local_made(expected),
                    such,
                );
            }
        }
        chains_ask_only(look, next, such);
    }
}

/// The lines that a link names in its file.
pub fn lines_of_link(url: &SourceUrl, blob: Result<Option<Vec<u8>>, Failure>) -> (result: Result<
    Vec<Vec<u8>>,
    Failure,
>)
    ensures
        match result {
            Ok(lines) => Ok(byte_views(lines@)),
            Err(failure) => Err(failure@),
        } == referenced_lines(url@, blob_view(blob)),
{
    match blob {
        Err(failure) => Err(failure),
        Ok(None) => Err(
            Failure::plain(url.path.clone().concat(" does not exist at the referenced commit")),
        ),
        Ok(Some(bytes)) => extract_lines(bytes.as_slice(), url.start, url.end),
    }
}

/// Whether the lines of a link stand on the default branch: nothing where they do, and else the
/// lines.
pub fn check_local<W: Outside>(
    repository: &Repository,
    world: &mut W,
    found: &FoundUrl,
) -> (result: Result<Option<Vec<Vec<u8>>>, Failure>)
    requires
        old(world).ready(),
    ensures
        did(
            *old(world),
            *final(world),
            local_plan(repository@, found@.url),
            lines_view(result),
        ),
{
    let ghost start = *world;
    let url = &found.url;
    let ghost whole = local_plan(repository@, url@);
    let ghost next = local_next(repository@, url@);
    if url.start == 0 || url.end < url.start {
        let first = to_decimal(url.start);
        let last = to_decimal(url.end);
        let message = "invalid line range L".to_owned().concat(first.as_str()).concat("-L").concat(
            last.as_str(),
        );
        proof {
            did_nothing(start, Err::<Option<Seq<Seq<u8>>>, FailureView>(bad_range(url@)));
        }
        return Err(Failure::plain(message));
    }
    let blob = repository.blob(world, url.commit.as_str(), url.path.as_str());
    let ghost shown = blob_view(blob);
    let ghost asked = *world;
    proof {
        begins(start, asked, blob_plan(repository@.path, url@.commit, url@.path), next, shown);
    }
    match lines_of_link(url, blob) {
        Err(failure) => {
            proof {
                ends(start, asked, whole, Err(failure@));
            }
            Err(failure)
        },
        Ok(expected) => {
            let held = repository.contains_at(
                world,
                repository.default_ref.as_str(),
                url.path.as_str(),
                expected.as_slice(),
            );
            let ghost lines = byte_views(expected@);
            let ghost answer = flag_view(held);
            let result = match held {
                Err(failure) => Err(failure),
                Ok(true) => Ok(None),
                Ok(false) => Ok(Some(expected)),
            };
            proof {
                let again = holds_plan(repository@.path, repository@.default_ref, url@.path, lines);
                makes(asked, *world, again, local_made(lines), answer);
                finishes(start, asked, *world, whole, next(shown), local_result(lines, answer));
            }
            assert(lines_view(result) == local_result(lines, answer));
            result
        },
    }
}

// ---------------------------------------------------------------------------------------------
// Along its history
// ---------------------------------------------------------------------------------------------

/// What the investigation of a link comes to: nothing where its lines still stand, and else a
/// report.
pub open spec fn report_view(result: Result<Option<StaleReport>, Failure>) -> Result<
    Option<StaleReportView>,
    FailureView,
> {
    match result {
        Ok(Some(report)) => Ok(Some(report@)),
        Ok(None) => Ok(None),
        Err(failure) => Err(failure@),
    }
}

/// What is said of a link to a commit that the default branch does not come from.
pub open spec fn not_an_ancestor(commit: Seq<char>) -> FailureView {
    plain_failure(
        "referenced commit "@ + commit + " is not an ancestor of the current default branch"@,
    )
}

/// The report on a link, once its two commits are read.
pub open spec fn report_on(
    found: FoundUrlView,
    change: CommitInfoView,
    merge: Result<CommitInfoView, FailureView>,
) -> Result<Option<StaleReportView>, FailureView> {
    match merge {
        Err(failure) => Err(failure),
        Ok(merge) => Ok(
            Some(StaleReportView { found, change_commit: change, merge_commit: merge }),
        ),
    }
}

/// What is made of what Git says of the second commit of a report.
pub open spec fn report_made(found: FoundUrlView, change: CommitInfoView) -> spec_fn(
    Result<CommitInfoView, FailureView>,
) -> Result<Option<StaleReportView>, FailureView> {
    |merge: Result<CommitInfoView, FailureView>| report_on(found, change, merge)
}

/// What follows once the change is read that a report names.
pub open spec fn report_next(
    repository: RepositoryView,
    found: FoundUrlView,
    integration: Seq<char>,
) -> spec_fn(CommitInfoView) -> Plan<Result<Option<StaleReportView>, FailureView>> {
    |change: CommitInfoView|
        info_plan(repository.path, integration).map_by(report_made(found, change))
}

/// The plan of the report on a link, once the commits are known that it names.
pub open spec fn report_plan(
    repository: RepositoryView,
    found: FoundUrlView,
    origin: Seq<char>,
    integration: Seq<char>,
) -> Plan<Result<Option<StaleReportView>, FailureView>> {
    info_plan(repository.path, origin).and_by(report_next(repository, found, integration))
}

/// What follows once the origin of a change is known.
pub open spec fn stale_next(
    repository: RepositoryView,
    found: FoundUrlView,
    integration: Seq<char>,
) -> spec_fn(Seq<char>) -> Plan<Result<Option<StaleReportView>, FailureView>> {
    |origin: Seq<char>| report_plan(repository, found, origin, integration)
}

/// The plan of the rest of an investigation, once the commit of the default branch is known that
/// took the lines away.
pub open spec fn stale_plan(
    repository: RepositoryView,
    found: FoundUrlView,
    expected: Seq<Seq<u8>>,
    integration: Seq<char>,
) -> Plan<Result<Option<StaleReportView>, FailureView>> {
    origin_plan(
        repository.path,
        integration,
        found.url.path,
        expected,
        merges_left(0),
    ).and_by(stale_next(repository, found, integration))
}

/// What follows by the commit at which the lines were lost, if they were.
pub open spec fn trace_next(
    repository: RepositoryView,
    found: FoundUrlView,
    expected: Seq<Seq<u8>>,
) -> spec_fn(Option<Seq<char>>) -> Plan<Result<Option<StaleReportView>, FailureView>> {
    |at: Option<Seq<char>>|
        match at {
            None => Plan::Done(Ok(None)),
            Some(integration) => stale_plan(repository, found, expected, integration),
        }
}

/// The plan of the investigation of a link whose commit the default branch comes from.
pub open spec fn trace_plan(
    repository: RepositoryView,
    found: FoundUrlView,
    expected: Seq<Seq<u8>>,
) -> Plan<Result<Option<StaleReportView>, FailureView>> {
    break_plan(
        repository.path,
        found.url.commit,
        repository.default_ref,
        found.url.path,
        expected,
    ).and_by(trace_next(repository, found, expected))
}

/// What follows by whether the default branch comes from the commit of a link.
pub open spec fn investigate_next(
    repository: RepositoryView,
    found: FoundUrlView,
    expected: Seq<Seq<u8>>,
) -> spec_fn(bool) -> Plan<Result<Option<StaleReportView>, FailureView>> {
    |related: bool|
        if related {
            trace_plan(repository, found, expected)
        } else {
            Plan::Done(Err(not_an_ancestor(found.url.commit)))
        }
}

/// The plan of the investigation of a link.
pub open spec fn investigate_plan(
    repository: RepositoryView,
    found: FoundUrlView,
    expected: Seq<Seq<u8>>,
) -> Plan<Result<Option<StaleReportView>, FailureView>> {
    ancestor_plan(repository.path, found.url.commit, repository.default_ref).and_by(
        investigate_next(repository, found, expected),
    )
}

/// The parts of an investigation that reports: the steps of each, and the two commits found.
pub struct Trail {
    pub ancestry: Seq<Step>,
    pub walk: Seq<Step>,
    pub integration: Seq<char>,
    pub search: Seq<Step>,
    pub origin: Seq<char>,
    pub change: Seq<Step>,
    pub merge: Seq<Step>,
}

/// Whether an investigation went this way to its report.
pub open spec fn reported(
    repository: RepositoryView,
    found: FoundUrlView,
    expected: Seq<Seq<u8>>,
    trail: Trail,
    report: StaleReportView,
) -> bool {
    &&& ancestor_plan(repository.path, found.url.commit, repository.default_ref).ran(
        trail.ancestry,
        Ok(true),
    )
    &&& break_plan(
        repository.path,
        found.url.commit,
        repository.default_ref,
        found.url.path,
        expected,
    ).ran(trail.walk, Ok(Some(trail.integration)))
    &&& origin_plan(
        repository.path,
        trail.integration,
        found.url.path,
        expected,
        merges_left(0),
    ).ran(trail.search, Ok(trail.origin))
    &&& info_plan(repository.path, trail.origin).ran(trail.change, Ok(report.change_commit))
    &&& info_plan(repository.path, trail.integration).ran(trail.merge, Ok(report.merge_commit))
    &&& report.found == found
}

/// A report is on the link that was investigated, and names as the merge commit what Git says of
/// the first commit of the default branch at which the lines no longer stand, and as the change
/// commit what Git says of the origin of that change. Nothing else is asked for.
pub proof fn reports_name_the_break(
    repository: RepositoryView,
    found: FoundUrlView,
    expected: Seq<Seq<u8>>,
    steps: Seq<Step>,
    report: StaleReportView,
) -> (trail: Trail)
    requires
        investigate_plan(repository, found, expected).ran(steps, Ok(Some(report))),
    ensures
        reported(repository, found, expected, trail, report),
        steps == trail.ancestry + trail.walk + trail.search + trail.change + trail.merge,
{
    let result = Ok::<Option<StaleReportView>, FailureView>(Some(report));
    let (ancestry, related, rest) = attempts_split(
        ancestor_plan(repository.path, found.url.commit, repository.default_ref),
        investigate_next(repository, found, expected),
        steps,
        result,
    );
    first_step(investigate_next(repository, found, expected)(related->Ok_0), rest, result);
    let (walk, at, later) = attempts_split(
        break_plan(
            repository.path,
            found.url.commit,
            repository.default_ref,
            found.url.path,
            expected,
        ),
        trace_next(repository, found, expected),
        rest,
        result,
    );
    first_step(trace_next(repository, found, expected)(at->Ok_0), later, result);
    let integration = at->Ok_0->0;
    let (search, origin, last) = attempts_split(
        origin_plan(repository.path, integration, found.url.path, expected, merges_left(0)),
        stale_next(repository, found, integration),
        later,
        result,
    );
    let (change, info, merge) = attempts_split(
        info_plan(repository.path, origin->Ok_0),
        report_next(repository, found, integration),
        last,
        result,
    );
    let other = made_by_the_same_steps(
        info_plan(repository.path, integration),
        report_made(found, info->Ok_0),
        merge,
        result,
    );
    let trail = Trail {
        ancestry,
        walk,
        integration,
        search,
        origin: origin->Ok_0,
        change,
        merge,
    };
    assert(steps =~= ancestry + walk + search + change + merge);
    trail
}

/// Whether the history from the commit of a link up to the default branch was walked by these
/// steps: it was listed first, and then each commit looked at until the lines were lost.
pub open spec fn walked_from(
    repository: RepositoryView,
    url: SourceUrlView,
    expected: Seq<Seq<u8>>,
    listing: Seq<Step>,
    commits: Seq<Seq<char>>,
    walk: Seq<Step>,
    at: Option<Seq<char>>,
) -> bool {
    &&& lines_plan(
        repository.path,
        range_args(url.commit, repository.default_ref),
        "walk default-branch history"@,
    ).ran(listing, Ok(commits))
    &&& match at {
        None => walk.len() == 2 * commits.len() && walked(
            repository.path,
            url.commit,
            commits,
            url.path,
            expected,
            walk,
            commits.len() as int,
        ),
        Some(commit) => exists|n: int| #[trigger]
            ends_at(
                repository.path,
                url.commit,
                commits,
                url.path,
                expected,
                walk,
                n,
                Ok(Some(commit)),
            ),
    }
}

proof fn breaks_were_walked_to(
    repository: RepositoryView,
    url: SourceUrlView,
    expected: Seq<Seq<u8>>,
    steps: Seq<Step>,
    at: Option<Seq<char>>,
)
    requires
        break_plan(
            repository.path,
            url.commit,
            repository.default_ref,
            url.path,
            expected,
        ).ran(steps, Ok(at)),
    ensures
        exists|listing: Seq<Step>, commits: Seq<Seq<char>>, walk: Seq<Step>|
            #![trigger walked_from(repository, url, expected, listing, commits, walk, at)]
            walked_from(repository, url, expected, listing, commits, walk, at) && steps == listing
                + walk,
{
    let (listing, listed, walk) = attempts_split(
        lines_plan(
            repository.path,
            range_args(url.commit, repository.default_ref),
            "walk default-branch history"@,
        ),
        break_next(repository.path, url.commit, url.path, expected),
        steps,
        Ok::<Option<Seq<char>>, FailureView>(at),
    );
    let commits = listed->Ok_0;
    assert(listed == Ok::<_, FailureView>(commits));
    the_break_is_the_first(repository.path, commits, url.commit, url.path, expected, walk, Ok(at));
    if at is None {
        assert(walked(
            repository.path,
            url.commit,
            commits,
            url.path,
            expected,
            walk,
            commits.len() as int,
        ));
    } else {
        let n = choose|n: int| #[trigger]
            ends_at(
                repository.path,
                url.commit,
                commits,
                url.path,
                expected,
                walk,
                n,
                Ok(at),
            );
        assert(at == Some(at->0));
        assert(ends_at(
            repository.path,
            url.commit,
            commits,
            url.path,
            expected,
            walk,
            n,
            Ok(Some(at->0)),
        ));
    }
    assert(walked_from(repository, url, expected, listing, commits, walk, at));
}

/// A link is stale exactly when its lines were lost on the way: an investigation that succeeds
/// walked the whole way from the commit of the link to the default branch, through every rename of
/// the file. Where it reports, the lines stood at each commit before the one that it names as the
/// merge commit, and not at that one; where it does not, they stood at every commit.
pub proof fn stale_links_lost_their_lines(
    repository: RepositoryView,
    found: FoundUrlView,
    expected: Seq<Seq<u8>>,
    steps: Seq<Step>,
    result: Option<StaleReportView>,
)
    requires
        investigate_plan(repository, found, expected).ran(steps, Ok(result)),
    ensures
        exists|
            listing: Seq<Step>,
            commits: Seq<Seq<char>>,
            walk: Seq<Step>,
            at: Option<Seq<char>>,
            later: Seq<Step>,
        |
            #![trigger
                walked_from(repository, found.url, expected, listing, commits, walk, at),
                listing + walk + later
            ]
            {
                &&& walked_from(repository, found.url, expected, listing, commits, walk, at)
                &&& steps == seq![steps[0]] + (listing + walk + later)
                &&& match result {
                    None => at is None && later.len() == 0,
                    Some(report) => at is Some && exists|merge: Seq<Step>| #[trigger]
                        info_plan(repository.path, at->0).ran(merge, Ok(report.merge_commit)),
                }
            },
{
    let next = investigate_next(repository, found, expected);
    let goal = Ok::<Option<StaleReportView>, FailureView>(result);
    let (ancestry, related, rest) = attempts_split(
        ancestor_plan(repository.path, found.url.commit, repository.default_ref),
        next,
        steps,
        goal,
    );
    first_step(
        ancestor_plan(repository.path, found.url.commit, repository.default_ref),
        ancestry,
        related,
    );
    one_run(
        in_repository(
            repository.path,
            ancestor_args(found.url.commit, repository.default_ref),
        ),
        ancestor_made(repository.path),
        ancestry,
        related,
    );
    assert(steps[0] == ancestry[0]);
    assert(ancestry == seq![steps[0]]);
    first_step(next(related->Ok_0), rest, goal);
    let look = break_plan(
        repository.path,
        found.url.commit,
        repository.default_ref,
        found.url.path,
        expected,
    );
    let (way, lost, later) = attempts_split(
        look,
        trace_next(repository, found, expected),
        rest,
        goal,
    );
    let at = lost->Ok_0;
    breaks_were_walked_to(repository, found.url, expected, way, at);
    let (listing, commits, walk) = choose|
        listing: Seq<Step>,
        commits: Seq<Seq<char>>,
        walk: Seq<Step>,
    |
        #![trigger walked_from(repository, found.url, expected, listing, commits, walk, at)]
        walked_from(repository, found.url, expected, listing, commits, walk, at) && way == listing
            + walk;
    first_step(trace_next(repository, found, expected)(at), later, goal);
    assert(steps =~= seq![steps[0]] + (listing + walk + later));
    if let Some(integration) = at {
        stale_results_are_reports(repository, found, expected, integration, later, result);
    }
}

proof fn stale_results_are_reports(
    repository: RepositoryView,
    found: FoundUrlView,
    expected: Seq<Seq<u8>>,
    integration: Seq<char>,
    steps: Seq<Step>,
    result: Option<StaleReportView>,
)
    requires
        stale_plan(repository, found, expected, integration).ran(steps, Ok(result)),
    ensures
        result is Some,
        exists|merge: Seq<Step>| #[trigger]
            info_plan(repository.path, integration).ran(merge, Ok(result->0.merge_commit)),
{
    let goal = Ok::<Option<StaleReportView>, FailureView>(result);
    let (search, origin, last) = attempts_split(
        origin_plan(repository.path, integration, found.url.path, expected, merges_left(0)),
        stale_next(repository, found, integration),
        steps,
        goal,
    );
    let (change, info, merge) = attempts_split(
        info_plan(repository.path, origin->Ok_0),
        report_next(repository, found, integration),
        last,
        goal,
    );
    let other = made_by_the_same_steps(
        info_plan(repository.path, integration),
        report_made(found, info->Ok_0),
        merge,
        goal,
    );
    assert(other == Ok::<_, FailureView>(result->0.merge_commit));
}

/// The report on a link, with what Git says of the two commits that it names.
fn report_commits<W: Outside>(
    repository: &Repository,
    world: &mut W,
    found: &FoundUrl,
    origin: &str,
    integration: &str,
) -> (result: Result<Option<StaleReport>, Failure>)
    requires
        old(world).ready(),
    ensures
        did(
            *old(world),
            *final(world),
            report_plan(repository@, found@, origin@, integration@),
            report_view(result),
        ),
{
    let ghost start = *world;
    let ghost whole = report_plan(repository@, found@, origin@, integration@);
    let ghost next = report_next(repository@, found@, integration@);
    let change = repository.commit_info(world, origin);
    let ghost asked = *world;
    proof {
        begins_trying(
            start,
            asked,
            info_plan(repository@.path, origin@),
            next,
            info_view(change),
        );
    }
    match change {
        Err(failure) => Err(failure),
        Ok(change_commit) => {
            let merge = repository.commit_info(world, integration);
            let ghost answer = info_view(merge);
            let ghost change_view = change_commit@;
            let result = match merge {
                Err(failure) => Err(failure),
                Ok(merge_commit) => Ok(
                    Some(StaleReport { found: found.clone(), change_commit, merge_commit }),
                ),
            };
            proof {
                let made = report_made(found@, change_view);
                makes(asked, *world, info_plan(repository@.path, integration@), made, answer);
                finishes(start, asked, *world, whole, next(change_view), made(answer));
            }
            assert(report_view(result) == report_on(found@, change_view, answer));
            result
        },
    }
}

/// The report on a link, with the change that its lines were lost by.
fn report_stale<W: Outside>(
    repository: &Repository,
    world: &mut W,
    found: &FoundUrl,
    expected: &[Vec<u8>],
    integration: &str,
) -> (result: Result<Option<StaleReport>, Failure>)
    requires
        old(world).ready(),
    ensures
        did(
            *old(world),
            *final(world),
            stale_plan(repository@, found@, byte_views(expected@), integration@),
            report_view(result),
        ),
{
    let ghost start = *world;
    let ghost lines = byte_views(expected@);
    let ghost whole = stale_plan(repository@, found@, lines, integration@);
    let ghost next = stale_next(repository@, found@, integration@);
    let origin = repository.find_original_change(
        world,
        integration,
        found.url.path.as_str(),
        expected,
        0,
    );
    let ghost asked = *world;
    proof {
        begins_trying(
            start,
            asked,
            origin_plan(
                repository@.path,
                integration@,
                found@.url.path,
                lines,
                merges_left(0),
            ),
            next,
            text_view(origin),
        );
    }
    match origin {
        Err(failure) => Err(failure),
        Ok(origin) => {
            let result = report_commits(repository, world, found, origin.as_str(), integration);
            proof {
                finishes(start, asked, *world, whole, next(origin@), report_view(result));
            }
            result
        },
    }
}

/// Follows the lines of a link along the history of the default branch.
fn trace<W: Outside>(
    repository: &Repository,
    world: &mut W,
    found: &FoundUrl,
    expected: &[Vec<u8>],
) -> (result: Result<Option<StaleReport>, Failure>)
    requires
        old(world).ready(),
    ensures
        did(
            *old(world),
            *final(world),
            trace_plan(repository@, found@, byte_views(expected@)),
            report_view(result),
        ),
{
    let ghost start = *world;
    let ghost lines = byte_views(expected@);
    let ghost whole = trace_plan(repository@, found@, lines);
    let ghost next = trace_next(repository@, found@, lines);
    let at = repository.find_break(
        world,
        found.url.commit.as_str(),
        repository.default_ref.as_str(),
        found.url.path.as_str(),
        expected,
    );
    let ghost asked = *world;
    proof {
        begins_trying(
            start,
            asked,
            break_plan(
                repository@.path,
                found@.url.commit,
                repository@.default_ref,
                found@.url.path,
                lines,
            ),
            next,
            commit_view(at),
        );
    }
    match at {
        Err(failure) => Err(failure),
        // The file may have been renamed: its lines then stand under its new name.
        Ok(None) => {
            proof {
                ends(start, asked, whole, Ok(None));
            }
            Ok(None)
        },
        Ok(Some(integration)) => {
            let result = report_stale(repository, world, found, expected, integration.as_str());
            proof {
                finishes(
                    start,
                    asked,
                    *world,
                    whole,
                    next(Some(integration@)),
                    report_view(result),
                );
            }
            result
        },
    }
}

/// Finds the commits that took the lines of a link away: nothing where the lines still stand, and
/// else a report.
pub fn investigate<W: Outside>(
    repository: &Repository,
    world: &mut W,
    found: &FoundUrl,
    expected: &[Vec<u8>],
) -> (result: Result<Option<StaleReport>, Failure>)
    requires
        old(world).ready(),
    ensures
        did(
            *old(world),
            *final(world),
            investigate_plan(repository@, found@, byte_views(expected@)),
            report_view(result),
        ),
{
    let ghost start = *world;
    let ghost lines = byte_views(expected@);
    let ghost whole = investigate_plan(repository@, found@, lines);
    let ghost next = investigate_next(repository@, found@, lines);
    let related = repository.is_ancestor(
        world,
        found.url.commit.as_str(),
        repository.default_ref.as_str(),
    );
    let ghost asked = *world;
    proof {
        begins_trying(
            start,
            asked,
            ancestor_plan(repository@.path, found@.url.commit, repository@.default_ref),
            next,
            flag_view(related),
        );
    }
    match related {
        Err(failure) => Err(failure),
        Ok(false) => {
            let message = "referenced commit ".to_owned().concat(found.url.commit.as_str()).concat(
                " is not an ancestor of the current default branch",
            );
            proof {
                ends(start, asked, whole, Err(not_an_ancestor(found@.url.commit)));
            }
            Err(Failure::plain(message))
        },
        Ok(true) => {
            let result = trace(repository, world, found, expected);
            proof {
                finishes(start, asked, *world, whole, next(true), report_view(result));
            }
            result
        },
    }
}

// ---------------------------------------------------------------------------------------------
// What is looked at, and what is made of it
// ---------------------------------------------------------------------------------------------

/// The local check of a link in full. Lines that are not in order, a file that its commit does not
/// have, and lines that the file does not have are failures, each of which says so. Else the file
/// is looked at on the default branch: the link is current exactly where it stands there and has
/// the lines, and in every other case the lines come back, to be looked for in the history.
pub proof fn local_checks_in_full(
    repository: RepositoryView,
    url: SourceUrlView,
    steps: Seq<Step>,
    result: Result<Option<Seq<Seq<u8>>>, FailureView>,
)
    requires
        local_plan(repository, url).ran(steps, result),
    ensures
        if url.start == 0 || url.end < url.start {
            &&& steps.len() == 0
            &&& result == Err::<Option<Seq<Seq<u8>>>, _>(
                FailureView {
                    message: "invalid line range L"@ + decimal(url.start) + "-L"@ + decimal(
                        url.end,
                    ),
                    cause: None,
                },
            )
        } else {
            &&& asked_git(
                steps.take(1),
                repository.path,
                seq!["show"@, url.commit + ":"@ + url.path],
            )
            &&& match steps[0].answer->Reply_0 {
                ReplyView::Unstarted(_) => steps.len() == 1 && result is Err,
                ReplyView::Finished(output) => {
                    let lines = blob_lines(output.stdout);
                    let expected = lines.subrange(url.start - 1, url.end as int);
                    if output.code != Some(0i32) {
                        &&& steps.len() == 1
                        &&& result == Err::<Option<Seq<Seq<u8>>>, _>(
                            FailureView {
                                message: url.path + " does not exist at the referenced commit"@,
                                cause: None,
                            },
                        )
                    } else if url.end > lines.len() {
                        &&& steps.len() == 1
                        &&& result == Err::<Option<Seq<Seq<u8>>>, _>(
                            FailureView {
                                message: "referenced range L"@ + decimal(url.start) + "-L"@
                                    + decimal(url.end) + " is outside a file containing "@
                                    + decimal(lines.len()) + " line(s)"@,
                                cause: None,
                            },
                        )
                    } else {
                        &&& asked_git(
                            steps.skip(1),
                            repository.path,
                            seq!["show"@, repository.default_ref + ":"@ + url.path],
                        )
                        &&& match steps[1].answer->Reply_0 {
                            ReplyView::Unstarted(_) => result is Err,
                            ReplyView::Finished(current) => result == Ok::<_, FailureView>(
                                if current.code == Some(0i32) && holds_lines(
                                    current.stdout,
                                    expected,
                                ) {
                                    None
                                } else {
                                    Some(expected)
                                },
                            ),
                        }
                    }
                },
            }
        },
{
    local_checks_look_twice(repository, url, steps, result);
}

/// The parts of an investigation: the walk along the default branch and what it came to, the search
/// for the origin and what it came to, and what Git said of the two commits.
pub struct Inquest {
    pub walk: Seq<Step>,
    pub at: Result<Option<Seq<char>>, FailureView>,
    pub search: Seq<Step>,
    pub origin: Result<Seq<char>, FailureView>,
    pub change: Seq<Step>,
    pub changed: Result<CommitInfoView, FailureView>,
    pub merge: Seq<Step>,
    pub merged: Result<CommitInfoView, FailureView>,
}

/// An investigation in full. A link to a commit that the default branch does not come from is a
/// failure that says so. Else the default branch is walked from the commit of the link: where no
/// commit took the lines away the link is not stale. Where one did, the origin of the change is
/// searched through at most sixteen merges, and the report names what Git says of that origin and
/// of the commit of the default branch. What fails on the way is what the investigation fails with.
pub proof fn investigations_in_full(
    repository: RepositoryView,
    found: FoundUrlView,
    expected: Seq<Seq<u8>>,
    steps: Seq<Step>,
    result: Result<Option<StaleReportView>, FailureView>,
) -> (parts: Inquest)
    requires
        investigate_plan(repository, found, expected).ran(steps, result),
    ensures
        asked_git(
            steps.take(1),
            repository.path,
            seq!["merge-base"@, "--is-ancestor"@, found.url.commit, repository.default_ref],
        ),
        match steps[0].answer->Reply_0 {
            ReplyView::Unstarted(_) => steps.len() == 1 && result is Err,
            ReplyView::Finished(output) => if output.code == Some(1i32) {
                &&& steps.len() == 1
                &&& result == Err::<Option<StaleReportView>, _>(
                    FailureView {
                        message: "referenced commit "@ + found.url.commit
                            + " is not an ancestor of the current default branch"@,
                        cause: None,
                    },
                )
            } else if output.code != Some(0i32) {
                steps.len() == 1 && result is Err
            } else {
                &&& steps == steps.take(1) + parts.walk + parts.search + parts.change + parts.merge
                &&& break_plan(
                    repository.path,
                    found.url.commit,
                    repository.default_ref,
                    found.url.path,
                    expected,
                ).ran(parts.walk, parts.at)
                &&& traced_to(repository, found, expected, parts, result)
            },
        },
{
    let nothing = Seq::<Step>::empty();
    let ask = ancestor_plan(repository.path, found.url.commit, repository.default_ref);
    let next = investigate_next(repository, found, expected);
    let (ancestry, related, rest) = attempts_split(ask, next, steps, result);
    ancestry_is_asked_for(
        repository.path,
        found.url.commit,
        repository.default_ref,
        ancestry,
        related,
    );
    assert(steps[0] == ancestry[0]);
    assert(steps.take(1) =~= ancestry);
    let none = Inquest {
        walk: nothing,
        at: Ok(None),
        search: nothing,
        origin: Ok(Seq::empty()),
        change: nothing,
        changed: Err(plain_failure(Seq::empty())),
        merge: nothing,
        merged: Err(plain_failure(Seq::empty())),
    };
    match related {
        Err(_) => none,
        Ok(false) => {
            first_step(next(false), rest, result);
            none
        },
        Ok(true) => {
            let parts = traces_in_full(repository, found, expected, rest, result);
            assert(steps =~= steps.take(1) + parts.walk + parts.search + parts.change
                + parts.merge);
            parts
        },
    }
}

/// Whether an investigation came to this by what its walk came to.
pub open spec fn traced_to(
    repository: RepositoryView,
    found: FoundUrlView,
    expected: Seq<Seq<u8>>,
    parts: Inquest,
    result: Result<Option<StaleReportView>, FailureView>,
) -> bool {
    match parts.at {
        Err(failure) => {
            &&& result == Err::<Option<StaleReportView>, _>(failure)
            &&& parts.search.len() == 0 && parts.change.len() == 0 && parts.merge.len() == 0
        },
        Ok(None) => {
            &&& result == Ok::<Option<StaleReportView>, FailureView>(None)
            &&& parts.search.len() == 0 && parts.change.len() == 0 && parts.merge.len() == 0
        },
        Ok(Some(integration)) => {
            &&& origin_plan(repository.path, integration, found.url.path, expected, 16).ran(
                parts.search,
                parts.origin,
            )
            &&& match parts.origin {
                Err(failure) => {
                    &&& result == Err::<Option<StaleReportView>, _>(failure)
                    &&& parts.change.len() == 0 && parts.merge.len() == 0
                },
                Ok(origin) => {
                    &&& info_plan(repository.path, origin).ran(parts.change, parts.changed)
                    &&& match parts.changed {
                        Err(failure) => {
                            &&& result == Err::<Option<StaleReportView>, _>(failure)
                            &&& parts.merge.len() == 0
                        },
                        Ok(change_commit) => {
                            &&& info_plan(repository.path, integration).ran(
                                parts.merge,
                                parts.merged,
                            )
                            &&& match parts.merged {
                                Err(failure) => result == Err::<Option<StaleReportView>, _>(
                                    failure,
                                ),
                                Ok(merge_commit) => result == Ok::<_, FailureView>(
                                    Some(StaleReportView { found, change_commit, merge_commit }),
                                ),
                            }
                        },
                    }
                },
            }
        },
    }
}

proof fn traces_in_full(
    repository: RepositoryView,
    found: FoundUrlView,
    expected: Seq<Seq<u8>>,
    steps: Seq<Step>,
    result: Result<Option<StaleReportView>, FailureView>,
) -> (parts: Inquest)
    requires
        trace_plan(repository, found, expected).ran(steps, result),
    ensures
        steps == parts.walk + parts.search + parts.change + parts.merge,
        break_plan(
            repository.path,
            found.url.commit,
            repository.default_ref,
            found.url.path,
            expected,
        ).ran(parts.walk, parts.at),
        traced_to(repository, found, expected, parts, result),
{
    let nothing = Seq::<Step>::empty();
    let next = trace_next(repository, found, expected);
    let (walk, at, rest) = attempts_split(
        break_plan(
            repository.path,
            found.url.commit,
            repository.default_ref,
            found.url.path,
            expected,
        ),
        next,
        steps,
        result,
    );
    let short = Inquest {
        walk,
        at,
        search: nothing,
        origin: Ok(Seq::empty()),
        change: nothing,
        changed: Err(plain_failure(Seq::empty())),
        merge: nothing,
        merged: Err(plain_failure(Seq::empty())),
    };
    match at {
        Err(_) => {
            assert(steps =~= walk + nothing + nothing + nothing);
            short
        },
        Ok(None) => {
            first_step(next(None), rest, result);
            assert(steps =~= walk + nothing + nothing + nothing);
            short
        },
        Ok(Some(integration)) => {
            let (search, origin, later) = attempts_split(
                origin_plan(
                    repository.path,
                    integration,
                    found.url.path,
                    expected,
                    merges_left(0),
                ),
                stale_next(repository, found, integration),
                rest,
                result,
            );
            let searched = Inquest { search, origin, ..short };
            match origin {
                Err(_) => {
                    assert(steps =~= walk + search + nothing + nothing);
                    searched
                },
                Ok(first) => {
                    let (change, changed, merge) = attempts_split(
                        info_plan(repository.path, first),
                        report_next(repository, found, integration),
                        later,
                        result,
                    );
                    match changed {
                        Err(_) => {
                            assert(steps =~= walk + search + change + nothing);
                            Inquest { change, changed, ..searched }
                        },
                        Ok(info) => {
                            let merged = made_by_the_same_steps(
                                info_plan(repository.path, integration),
                                report_made(found, info),
                                merge,
                                result,
                            );
                            assert(steps =~= walk + search + change + merge);
                            Inquest { change, changed, merge, merged, ..searched }
                        },
                    }
                },
            }
        },
    }
}

} // verus!
