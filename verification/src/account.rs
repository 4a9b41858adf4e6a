//! What holds of every check: that each link is accounted for once, and what stands behind its
//! outcome.

use crate::cache::{
    fetch_plan, open_plan, opened_repositories_belong_to_their_link, repository_path,
};
use crate::course::{
    at_hand, candidates, checking, checking_event, commits_of, course_plan, fetched_next,
    group_plan, groups_are_there, groups_of, investigated, investigating, investigating_event,
    links_plan, opened_next, out_of_reach, outcomes_made, preparation_errors, prepared, prepared_in,
    preparing, preparing_event, settled, singles_next, singles_plan, unopened, verdict_plan,
    CandidateView, Course, Histories, Local, PreparedView, Readiness, Verdict,
};
use crate::failure::FailureView;
use crate::group::{
    is_grouping, key_of, keys_are_comparable, members_belong, members_of, GroupView, Key,
};
use crate::index::FoundUrlView;
use crate::listener::ProgressView;
use crate::outcome::{failed, verdict_outcome, OutcomeView};
use crate::phases::{
    checked_parts, checks_are_logged, events_follow_the_course, first_of_repository,
    histories_are_made_whole_once, inquired, inquiry_parts, investigated_in, logs, prepared_parts,
    Log,
};
use crate::plan::{
    chained, chains_split, events, first_step, made_by_the_same_steps, part_of, parts_of_parts,
    pieces_are_parts, stands_between, Act, Piece, Step,
};
use crate::quiet::deepens;
use crate::report::StaleReportView;
use crate::repository::{
    deepen_args, deepen_plan, depth_args, only_shallow_histories_are_fetched, RepositoryView,
};
use crate::url::SourceUrlView;
use crate::verdict::{investigate_plan, local_plan, reports_name_the_break};
use vstd::prelude::*;

verus! {

/// The course that a check of links took.
pub proof fn checks_take_a_course(
    cache: Seq<u8>,
    urls: Seq<FoundUrlView>,
    steps: Seq<Step>,
    outcomes: Seq<OutcomeView>,
) -> (course: Course)
    requires
        links_plan(cache, urls).ran(steps, outcomes),
    ensures
        is_grouping(groups_of(urls), urls),
        course_plan(cache, groups_of(urls)).ran(steps, course),
        outcomes == course.outcomes(groups_of(urls)),
{
    groups_are_there(urls);
    made_by_the_same_steps(
        course_plan(cache, groups_of(urls)),
        outcomes_made(groups_of(urls)),
        steps,
        outcomes,
    )
}

// ---------------------------------------------------------------------------------------------
// The phases
// ---------------------------------------------------------------------------------------------

/// The phase that an event tells of.
pub open spec fn phase(event: ProgressView) -> int {
    match event {
        ProgressView::Preparing { .. } => 0,
        ProgressView::Checking { .. } => 1,
        ProgressView::InvestigationCount { .. } => 2,
        ProgressView::Investigating { .. } => 3,
    }
}

/// The number that an event has in its phase, counted from one.
pub open spec fn number(event: ProgressView) -> nat {
    match event {
        ProgressView::Preparing { index, .. } => index,
        ProgressView::Checking { index, .. } => index,
        ProgressView::InvestigationCount { .. } => 1,
        ProgressView::Investigating { index, .. } => index,
    }
}

/// How many events of its phase an event tells of. There is one count of the links that have to
/// be investigated.
pub open spec fn total(event: ProgressView) -> nat {
    match event {
        ProgressView::Preparing { total, .. } => total,
        ProgressView::Checking { total, .. } => total,
        ProgressView::InvestigationCount { .. } => 1,
        ProgressView::Investigating { total, .. } => total,
    }
}

/// Whether the events from `start` on, as many as the event at `i` says, are those of its phase,
/// with that event in the place that its number says.
pub open spec fn stands_in_phase(events: Seq<ProgressView>, i: int) -> bool {
    let start = i + 1 - number(events[i]);
    forall|j: int|
        #![trigger events[j]]
        0 <= j < events.len() ==> (phase(events[j]) == phase(events[i]) <==> start <= j < start
            + total(events[i]))
}

/// A check goes through its phases one after another: all repositories are made ready before the
/// first link is checked, all links are checked before any is investigated, and between the two
/// the number of links to investigate is told once, none as well as many. In each phase the
/// events are numbered without a gap, from one up to the number that every event names.
pub proof fn phases_follow_each_other(
    cache: Seq<u8>,
    urls: Seq<FoundUrlView>,
    steps: Seq<Step>,
    outcomes: Seq<OutcomeView>,
)
    requires
        links_plan(cache, urls).ran(steps, outcomes),
    ensures
        ({
            let events = events(steps);
            &&& forall|i: int, j: int|
                #![trigger events[i], events[j]]
                0 <= i <= j < events.len() ==> phase(events[i]) <= phase(events[j])
            &&& forall|i: int|
                #![trigger events[i]]
                0 <= i < events.len() ==> 1 <= number(events[i]) <= total(events[i])
                    && stands_in_phase(events, i)
            &&& exists|i: int| 0 <= i < events.len() && #[trigger] events[i] is InvestigationCount
            &&& forall|i: int, j: int|
                #![trigger events[i], events[j]]
                0 <= i < events.len() && 0 <= j < events.len() && events[i] is InvestigationCount
                    && events[j] is Investigating ==> events[i]->InvestigationCount_total
                    == events[j]->Investigating_total
        }),
{
    let course = checks_take_a_course(cache, urls, steps, outcomes);
    let groups = groups_of(urls);
    events_follow_the_course(cache, groups, steps, course);
    let events = course.events(groups);
    let a = preparing(groups);
    let b = checking(course.prepared(groups));
    let c = investigating(course.candidates(groups));
    let m = (a.len() + b.len()) as int;
    let count = ProgressView::InvestigationCount { total: course.candidates(groups).len() };
    assert(events == a + b + seq![count] + c);
    assert forall|i: int| #![trigger events[i]] 0 <= i < events.len() implies events[i] == (
    if i < a.len() {
        a[i]
    } else if i < m {
        b[i - a.len()]
    } else if i == m {
        count
    } else {
        c[i - m - 1]
    }) by {}
    assert(events[m] is InvestigationCount);
    assert forall|i: int| #![trigger events[i]] 0 <= i < events.len() implies phase(events[i]) == (
    if i < a.len() {
        0int
    } else if i < m {
        1
    } else if i == m {
        2
    } else {
        3
    }) by {
        if i < a.len() {
            assert(events[i] == preparing_event(groups, i));
        } else if i < m {
            assert(events[i] == checking_event(course.prepared(groups), i - a.len()));
        } else if i > m {
            assert(events[i] == investigating_event(course.candidates(groups), i - m - 1));
        }
    }
    assert forall|i: int| #![trigger events[i]] 0 <= i < events.len() implies 1 <= number(
        events[i],
    ) <= total(events[i]) && stands_in_phase(events, i) by {
        let start = i + 1 - number(events[i]);
        assert(start == if i < a.len() {
            0
        } else if i < m {
            a.len() as int
        } else if i == m {
            m
        } else {
            m + 1
        });
    }
}

// ---------------------------------------------------------------------------------------------
// The account
// ---------------------------------------------------------------------------------------------

/// How many items of a list are such.
pub open spec fn times<A>(list: Seq<A>, such: spec_fn(A) -> bool) -> nat
    decreases list.len(),
{
    if list.len() == 0 {
        0
    } else {
        times(list.drop_last(), such) + if such(list.last()) {
            1nat
        } else {
            0nat
        }
    }
}

/// The items that are this link.
pub open spec fn is_link(url: SourceUrlView) -> spec_fn(FoundUrlView) -> bool {
    |found: FoundUrlView| found.url == url
}

/// The outcomes that are about this link.
pub open spec fn is_about(url: SourceUrlView) -> spec_fn(OutcomeView) -> bool {
    |outcome: OutcomeView| outcome.url() == url
}

spec fn is_prepared(url: SourceUrlView) -> spec_fn(PreparedView) -> bool {
    |one: PreparedView| one.found.url == url
}

spec fn is_candidate(url: SourceUrlView) -> spec_fn(CandidateView) -> bool {
    |one: CandidateView| one.prepared.found.url == url
}

proof fn times_push<A>(list: Seq<A>, item: A, such: spec_fn(A) -> bool)
    ensures
        times(list.push(item), such) == times(list, such) + if such(item) {
            1nat
        } else {
            0nat
        },
{
    assert(list.push(item).drop_last() == list);
}

pub(crate) proof fn times_adds<A>(a: Seq<A>, b: Seq<A>, such: spec_fn(A) -> bool)
    ensures
        times(a + b, such) == times(a, such) + times(b, such),
    decreases b.len(),
{
    if b.len() == 0 {
        assert(a + b == a);
    } else {
        assert((a + b).drop_last() == a + b.drop_last());
        times_adds(a, b.drop_last(), such);
    }
}

proof fn times_agree<A, B>(
    a: Seq<A>,
    b: Seq<B>,
    first: spec_fn(A) -> bool,
    second: spec_fn(B) -> bool,
)
    requires
        a.len() == b.len(),
        forall|k: int|
            #![trigger a[k]]
            #![trigger b[k]]
            0 <= k < a.len() ==> first(a[k]) == second(b[k]),
    ensures
        times(a, first) == times(b, second),
    decreases a.len(),
{
    if a.len() > 0 {
        assert forall|k: int|
            #![trigger a.drop_last()[k]]
            #![trigger b.drop_last()[k]]
            0 <= k < a.len() - 1 implies first(a.drop_last()[k]) == second(b.drop_last()[k]) by {
            assert(a.drop_last()[k] == a[k]);
            assert(b.drop_last()[k] == b[k]);
        }
        times_agree(a.drop_last(), b.drop_last(), first, second);
        assert(first(a[a.len() - 1]) == second(b[b.len() - 1]));
    }
}

proof fn times_take<A>(list: Seq<A>, n: int, such: spec_fn(A) -> bool)
    requires
        0 <= n < list.len(),
    ensures
        times(list.take(n + 1), such) == times(list.take(n), such) + if such(list[n]) {
            1nat
        } else {
            0nat
        },
{
    assert(list.take(n + 1) == list.take(n).push(list[n]));
    times_push(list.take(n), list[n], such);
}

proof fn singles_account(
    members: Seq<FoundUrlView>,
    fetched: Seq<Result<(), FailureView>>,
    n: int,
    url: SourceUrlView,
)
    requires
        0 <= n <= members.len(),
    ensures
        times(at_hand(members, fetched, n), is_link(url)) + times(
            out_of_reach(members, fetched, n),
            is_about(url),
        ) == times(members.take(n), is_link(url)),
    decreases n,
{
    if n > 0 {
        singles_account(members, fetched, n - 1, url);
        times_take(members, n - 1, is_link(url));
        let one = members[n - 1];
        match fetched[n - 1] {
            Ok(_) => {
                times_push(at_hand(members, fetched, n - 1), one, is_link(url));
            },
            Err(failure) => {
                times_push(
                    out_of_reach(members, fetched, n - 1),
                    failed(one, failure),
                    is_about(url),
                );
            },
        }
    }
}

proof fn readiness_accounts(readiness: Readiness, members: Seq<FoundUrlView>, url: SourceUrlView)
    ensures
        times(readiness.checkable(members), is_link(url)) + times(
            readiness.errors(members),
            is_about(url),
        ) == times(members, is_link(url)),
{
    match readiness {
        Readiness::Unopened(failure) => {
            times_agree(unopened(members, failure), members, is_about(url), is_link(url));
        },
        Readiness::Fetched(_) => {},
        Readiness::OneByOne(_, fetched) => {
            singles_account(members, fetched, members.len() as int, url);
            assert(members.take(members.len() as int) == members);
        },
    }
}

/// The links of the first `n` groups.
spec fn links_of(groups: Seq<GroupView>, n: int) -> Seq<FoundUrlView>
    decreases n,
{
    if n <= 0 {
        Seq::empty()
    } else {
        links_of(groups, n - 1) + groups[n - 1].members
    }
}

proof fn preparation_accounts(
    groups: Seq<GroupView>,
    ready: Seq<Readiness>,
    n: int,
    url: SourceUrlView,
)
    requires
        0 <= n <= groups.len(),
    ensures
        times(prepared(groups, ready, n), is_prepared(url)) + times(
            preparation_errors(groups, ready, n),
            is_about(url),
        ) == times(links_of(groups, n), is_link(url)),
    decreases n,
{
    if n > 0 {
        preparation_accounts(groups, ready, n - 1, url);
        let members = groups[n - 1].members;
        let readiness = ready[n - 1];
        let added = prepared_in(groups, ready, n - 1);
        readiness_accounts(readiness, members, url);
        times_adds(prepared(groups, ready, n - 1), added, is_prepared(url));
        times_adds(
            preparation_errors(groups, ready, n - 1),
            readiness.errors(members),
            is_about(url),
        );
        times_adds(links_of(groups, n - 1), members, is_link(url));
        times_agree(added, readiness.checkable(members), is_prepared(url), is_link(url));
    }
}

proof fn checks_account(
    prepared: Seq<PreparedView>,
    local: Seq<Local>,
    n: int,
    url: SourceUrlView,
)
    requires
        0 <= n <= prepared.len(),
    ensures
        times(candidates(prepared, local, n), is_candidate(url)) + times(
            settled(prepared, local, n),
            is_about(url),
        ) == times(prepared.take(n), is_prepared(url)),
    decreases n,
{
    if n > 0 {
        checks_account(prepared, local, n - 1, url);
        times_take(prepared, n - 1, is_prepared(url));
        let one = prepared[n - 1];
        match local[n - 1] {
            Ok(Some(expected)) => {
                times_push(
                    candidates(prepared, local, n - 1),
                    CandidateView { prepared: one, expected },
                    is_candidate(url),
                );
            },
            Ok(None) => {
                times_push(
                    settled(prepared, local, n - 1),
                    OutcomeView::Current { url: one.found.url },
                    is_about(url),
                );
            },
            Err(failure) => {
                times_push(
                    settled(prepared, local, n - 1),
                    failed(one.found, failure),
                    is_about(url),
                );
            },
        }
    }
}

proof fn verdict_is_about_its_link(
    candidates: Seq<CandidateView>,
    histories: Histories,
    verdict: Verdict,
    k: int,
    steps: Seq<Step>,
)
    requires
        inquired(candidates, histories, verdict, k, steps),
    ensures
        verdict_outcome(candidates[k].prepared.found, verdict).url()
            == candidates[k].prepared.found.url,
{
    let one = candidates[k];
    let key = one.prepared.key;
    let search = searched(candidates, histories, verdict, k, steps);
    if verdict is Ok && verdict->Ok_0 is Some {
        first_step(verdict_plan(one, histories[key]), search, verdict);
        let trail = reports_name_the_break(
            one.prepared.repository,
            one.prepared.found,
            one.expected,
            search,
            verdict->Ok_0->0,
        );
    }
}

/// The steps of an investigation behind those that made the history whole.
proof fn searched(
    candidates: Seq<CandidateView>,
    histories: Histories,
    verdict: Verdict,
    k: int,
    steps: Seq<Step>,
) -> (search: Seq<Step>)
    requires
        inquired(candidates, histories, verdict, k, steps),
    ensures
        verdict_plan(candidates[k], histories[candidates[k].prepared.key]).ran(search, verdict),
        part_of(search, steps),
{
    let (deepening, search) = inquiry_parts(candidates, histories, verdict, k, steps);
    stands_between(deepening, search, Seq::empty());
    assert(deepening + search + Seq::<Step>::empty() == steps);
    search
}

proof fn verdicts_account(
    candidates: Seq<CandidateView>,
    histories: Histories,
    verdicts: Seq<Verdict>,
    pieces: Seq<Piece>,
    url: SourceUrlView,
)
    requires
        investigated_in(candidates, histories, verdicts, pieces),
    ensures
        times(investigated(candidates, verdicts), is_about(url)) == times(
            candidates,
            is_candidate(url),
        ),
{
    let said = investigated(candidates, verdicts);
    assert forall|k: int|
        #![trigger said[k]]
        #![trigger candidates[k]]
        0 <= k < said.len() implies is_about(url)(said[k]) == is_candidate(url)(candidates[k]) by {
        let piece = pieces[k];
        verdict_is_about_its_link(candidates, histories, verdicts[k], k, piece.steps);
        assert(said[k] == verdict_outcome(candidates[k].prepared.found, verdicts[k]));
    }
    times_agree(said, candidates, is_about(url), is_candidate(url));
}

/// What the repository of a link goes by.
pub open spec fn key_of_url(url: SourceUrlView) -> Key {
    Key { owner: url.owner, repo: url.repo }
}

proof fn members_account(urls: Seq<FoundUrlView>, key: Key, url: SourceUrlView)
    ensures
        times(members_of(urls, key), is_link(url)) == if key_of_url(url) == key {
            times(urls, is_link(url))
        } else {
            0
        },
    decreases urls.len(),
{
    if urls.len() > 0 {
        members_account(urls.drop_last(), key, url);
        if key_of(urls.last()) == key {
            times_push(members_of(urls.drop_last(), key), urls.last(), is_link(url));
        }
    }
}

proof fn groups_account(
    groups: Seq<GroupView>,
    urls: Seq<FoundUrlView>,
    n: int,
    url: SourceUrlView,
)
    requires
        is_grouping(groups, urls),
        0 <= n <= groups.len(),
    ensures
        (exists|i: int| #![trigger groups[i]] 0 <= i < n && groups[i].key == key_of_url(url))
            ==> times(links_of(groups, n), is_link(url)) == times(urls, is_link(url)),
        !(exists|i: int| #![trigger groups[i]] 0 <= i < n && groups[i].key == key_of_url(url))
            ==> times(links_of(groups, n), is_link(url)) == 0,
    decreases n,
{
    if n > 0 {
        groups_account(groups, urls, n - 1, url);
        let last = groups[n - 1];
        times_adds(links_of(groups, n - 1), last.members, is_link(url));
        members_account(urls, last.key, url);
        if last.key == key_of_url(url) {
            assert forall|i: int| #![trigger groups[i]] 0 <= i < n - 1 implies groups[i].key
                != key_of_url(url) by {
                keys_are_comparable(groups[i].key, groups[n - 1].key);
            }
        } else if exists|i: int|
            #![trigger groups[i]]
            0 <= i < n && groups[i].key == key_of_url(url) {
            let i = choose|i: int|
                #![trigger groups[i]]
                0 <= i < n && groups[i].key == key_of_url(url);
            assert(i < n - 1);
        }
    }
}

proof fn seen_times(urls: Seq<FoundUrlView>, url: SourceUrlView) -> (k: int)
    requires
        times(urls, is_link(url)) > 0,
    ensures
        0 <= k < urls.len(),
        urls[k].url == url,
    decreases urls.len(),
{
    if urls.last().url == url {
        urls.len() - 1
    } else {
        seen_times(urls.drop_last(), url)
    }
}

/// Every link is accounted for: among the outcomes of a check each link comes up as often as in
/// the list that was checked, and nothing else does.
pub proof fn each_link_has_its_outcome(
    cache: Seq<u8>,
    urls: Seq<FoundUrlView>,
    steps: Seq<Step>,
    outcomes: Seq<OutcomeView>,
    url: SourceUrlView,
)
    requires
        links_plan(cache, urls).ran(steps, outcomes),
    ensures
        times(outcomes, is_about(url)) == times(urls, is_link(url)),
{
    let course = checks_take_a_course(cache, urls, steps, outcomes);
    let groups = groups_of(urls);
    let log = checks_are_logged(cache, groups, steps, course);
    let n = groups.len() as int;
    let list = course.prepared(groups);
    let rest = course.candidates(groups);
    let first = preparation_errors(groups, course.ready, n);
    let second = settled(list, course.local, list.len() as int);
    let third = investigated(rest, course.verdicts);
    times_adds(first, second, is_about(url));
    times_adds(first + second, third, is_about(url));
    verdicts_account(rest, course.histories, course.verdicts, log.investigating, url);
    checks_account(list, course.local, list.len() as int, url);
    assert(list.take(list.len() as int) == list);
    preparation_accounts(groups, course.ready, n, url);
    groups_account(groups, urls, n, url);
    if times(urls, is_link(url)) > 0 {
        let k = seen_times(urls, url);
        let one = urls[k];
        assert(key_of(one) == key_of_url(url));
    }
}

proof fn times_remove<A>(list: Seq<A>, k: int, such: spec_fn(A) -> bool)
    requires
        0 <= k < list.len(),
    ensures
        times(list, such) == times(list.remove(k), such) + if such(list[k]) {
            1nat
        } else {
            0nat
        },
{
    let front = list.take(k);
    let back = list.skip(k + 1);
    assert(list == front.push(list[k]) + back);
    assert(list.remove(k) == front + back);
    times_adds(front.push(list[k]), back, such);
    times_adds(front, back, such);
    times_push(front, list[k], such);
}

proof fn told_of(outcomes: Seq<OutcomeView>, url: SourceUrlView) -> (k: int)
    requires
        times(outcomes, is_about(url)) > 0,
    ensures
        0 <= k < outcomes.len(),
        outcomes[k].url() == url,
    decreases outcomes.len(),
{
    if outcomes.last().url() == url {
        outcomes.len() - 1
    } else {
        told_of(outcomes.drop_last(), url)
    }
}

proof fn same_account_same_number(outcomes: Seq<OutcomeView>, urls: Seq<FoundUrlView>)
    requires
        forall|url: SourceUrlView| #[trigger]
            times(outcomes, is_about(url)) == times(urls, is_link(url)),
    ensures
        outcomes.len() == urls.len(),
    decreases urls.len(),
{
    if urls.len() == 0 {
        if outcomes.len() > 0 {
            let url = outcomes.last().url();
            assert(times(outcomes, is_about(url)) > 0);
        }
    } else {
        let last = urls.last().url;
        assert(times(urls, is_link(last)) > 0);
        assert(times(outcomes, is_about(last)) > 0);
        let k = told_of(outcomes, last);
        let rest = outcomes.remove(k);
        assert forall|url: SourceUrlView| #[trigger]
            times(rest, is_about(url)) == times(urls.drop_last(), is_link(url)) by {
            times_remove(outcomes, k, is_about(url));
            assert(times(outcomes, is_about(url)) == times(urls, is_link(url)));
        }
        same_account_same_number(rest, urls.drop_last());
    }
}

/// A check has as many outcomes as there are links.
pub proof fn outcomes_match_links_in_number(
    cache: Seq<u8>,
    urls: Seq<FoundUrlView>,
    steps: Seq<Step>,
    outcomes: Seq<OutcomeView>,
)
    requires
        links_plan(cache, urls).ran(steps, outcomes),
    ensures
        outcomes.len() == urls.len(),
{
    assert forall|url: SourceUrlView| #[trigger]
        times(outcomes, is_about(url)) == times(urls, is_link(url)) by {
        each_link_has_its_outcome(cache, urls, steps, outcomes, url);
    }
    same_account_same_number(outcomes, urls);
}

// ---------------------------------------------------------------------------------------------
// What stands behind an outcome
// ---------------------------------------------------------------------------------------------

/// A commit that is not to be had keeps no other link from being checked: where commits are
/// fetched one by one, every link can be checked whose own commit was fetched.
pub proof fn one_commit_holds_up_no_other(
    members: Seq<FoundUrlView>,
    fetched: Seq<Result<(), FailureView>>,
    k: int,
    n: int,
)
    requires
        0 <= k < n <= members.len(),
        fetched[k] is Ok,
    ensures
        at_hand(members, fetched, n).contains(members[k]),
    decreases n,
{
    let list = at_hand(members, fetched, n);
    if k == n - 1 {
        assert(list[list.len() - 1] == members[k]);
    } else {
        one_commit_holds_up_no_other(members, fetched, k, n - 1);
        let front = at_hand(members, fetched, n - 1);
        let i = front.index_of(members[k]);
        assert(list[i] == members[k]);
    }
}

/// Whether the lines of a link were found on a default branch.
pub open spec fn found_in_place(steps: Seq<Step>, url: SourceUrlView) -> bool {
    exists|repository: RepositoryView, part: Seq<Step>|
        #![trigger local_plan(repository, url).ran(part, Ok(None))]
        part_of(part, steps) && local_plan(repository, url).ran(part, Ok(None))
}

/// Whether the lines of a link were found through every commit of a history.
pub open spec fn found_in_history(steps: Seq<Step>, url: SourceUrlView) -> bool {
    exists|
        repository: RepositoryView,
        found: FoundUrlView,
        expected: Seq<Seq<u8>>,
        part: Seq<Step>,
    |
        #![trigger investigate_plan(repository, found, expected).ran(part, Ok(None))]
        found.url == url && part_of(part, steps) && investigate_plan(
            repository,
            found,
            expected,
        ).ran(part, Ok(None))
}

/// Whether an investigation came to a report.
pub open spec fn reported_in(steps: Seq<Step>, report: StaleReportView) -> bool {
    exists|repository: RepositoryView, expected: Seq<Seq<u8>>, part: Seq<Step>|
        #![trigger investigate_plan(repository, report.found, expected).ran(part, Ok(Some(report)))]
        part_of(part, steps) && investigate_plan(repository, report.found, expected).ran(
            part,
            Ok(Some(report)),
        )
}

/// Whether a check or an investigation among these steps stands behind an outcome.
pub open spec fn earned(steps: Seq<Step>, outcome: OutcomeView) -> bool {
    match outcome {
        OutcomeView::Stale(report) => reported_in(steps, report),
        OutcomeView::Current { url } => found_in_place(steps, url) || found_in_history(steps, url),
        OutcomeView::Error { .. } => true,
    }
}

proof fn out_of_reach_fails(
    members: Seq<FoundUrlView>,
    fetched: Seq<Result<(), FailureView>>,
    n: int,
)
    ensures
        forall|i: int|
            #![trigger out_of_reach(members, fetched, n)[i]]
            0 <= i < out_of_reach(members, fetched, n).len() ==> out_of_reach(
                members,
                fetched,
                n,
            )[i] is Error,
    decreases n,
{
    if n > 0 {
        let front = out_of_reach(members, fetched, n - 1);
        let list = out_of_reach(members, fetched, n);
        out_of_reach_fails(members, fetched, n - 1);
        assert forall|i: int| #![trigger list[i]] 0 <= i < list.len() implies list[i] is Error by {
            if i < front.len() {
                assert(list[i] == front[i]);
            }
        }
    }
}

proof fn preparation_fails(groups: Seq<GroupView>, ready: Seq<Readiness>, n: int)
    ensures
        forall|i: int|
            #![trigger preparation_errors(groups, ready, n)[i]]
            0 <= i < preparation_errors(groups, ready, n).len() ==> preparation_errors(
                groups,
                ready,
                n,
            )[i] is Error,
    decreases n,
{
    if n > 0 {
        let front = preparation_errors(groups, ready, n - 1);
        let members = groups[n - 1].members;
        let back = ready[n - 1].errors(members);
        let list = preparation_errors(groups, ready, n);
        preparation_fails(groups, ready, n - 1);
        if let Readiness::OneByOne(_, fetched) = ready[n - 1] {
            out_of_reach_fails(members, fetched, members.len() as int);
        }
        assert forall|i: int| #![trigger list[i]] 0 <= i < list.len() implies list[i] is Error by {
            if i < front.len() {
                assert(list[i] == front[i]);
            } else {
                assert(list[i] == back[i - front.len()]);
            }
        }
    }
}

proof fn verdict_earns(
    candidates: Seq<CandidateView>,
    histories: Histories,
    verdict: Verdict,
    k: int,
    piece: Seq<Step>,
    all: Seq<Step>,
)
    requires
        inquired(candidates, histories, verdict, k, piece),
        part_of(piece, all),
    ensures
        earned(all, verdict_outcome(candidates[k].prepared.found, verdict)),
{
    let one = candidates[k];
    let history = histories[one.prepared.key];
    let search = searched(candidates, histories, verdict, k, piece);
    let i = choose|i: int|
        0 <= i && i + piece.len() <= all.len() && #[trigger] all.subrange(i, i + piece.len())
            == piece;
    assert(all == all.take(i) + piece + all.skip(i + piece.len()));
    parts_of_parts(search, all.take(i), piece, all.skip(i + piece.len()));
    first_step(verdict_plan(one, history), search, verdict);
    if verdict is Ok {
        let repository = one.prepared.repository;
        let found = one.prepared.found;
        match verdict->Ok_0 {
            Some(report) => {
                let trail = reports_name_the_break(repository, found, one.expected, search, report);
                assert(investigate_plan(repository, report.found, one.expected).ran(
                    search,
                    Ok(Some(report)),
                ));
            },
            None => {
                assert(investigate_plan(repository, found, one.expected).ran(search, Ok(None)));
            },
        }
    }
}

proof fn settled_is_earned(
    prepared: Seq<PreparedView>,
    local: Seq<Local>,
    pieces: Seq<Piece>,
    steps: Seq<Step>,
    n: int,
)
    requires
        n <= prepared.len(),
        prepared.len() == pieces.len(),
        forall|k: int|
            #![trigger pieces[k]]
            0 <= k < pieces.len() ==> part_of(pieces[k].steps, steps) && local_plan(
                prepared[k].repository,
                prepared[k].found.url,
            ).ran(pieces[k].steps, local[k]),
    ensures
        forall|i: int|
            #![trigger settled(prepared, local, n)[i]]
            0 <= i < settled(prepared, local, n).len() ==> earned(
                steps,
                settled(prepared, local, n)[i],
            ),
    decreases n,
{
    if n > 0 {
        let front = settled(prepared, local, n - 1);
        let list = settled(prepared, local, n);
        settled_is_earned(prepared, local, pieces, steps, n - 1);
        assert forall|i: int| #![trigger list[i]] 0 <= i < list.len() implies earned(
            steps,
            list[i],
        ) by {
            if i < front.len() {
                assert(list[i] == front[i]);
            } else {
                let one = prepared[n - 1];
                let part = pieces[n - 1].steps;
                if local[n - 1] is Ok {
                    assert(local_plan(one.repository, one.found.url).ran(part, Ok(None)));
                }
            }
        }
    }
}

/// No link is called stale unless an investigation reported it so, and none is called current
/// unless its lines were found on the default branch or through every commit of its history.
pub proof fn outcomes_are_earned(
    cache: Seq<u8>,
    urls: Seq<FoundUrlView>,
    steps: Seq<Step>,
    outcomes: Seq<OutcomeView>,
)
    requires
        links_plan(cache, urls).ran(steps, outcomes),
    ensures
        forall|i: int|
            #![trigger outcomes[i]]
            0 <= i < outcomes.len() ==> earned(steps, outcomes[i]),
{
    let course = checks_take_a_course(cache, urls, steps, outcomes);
    let groups = groups_of(urls);
    let log = checks_are_logged(cache, groups, steps, course);
    let n = groups.len() as int;
    let list = course.prepared(groups);
    let rest = course.candidates(groups);
    let first = preparation_errors(groups, course.ready, n);
    let second = settled(list, course.local, list.len() as int);
    let third = investigated(rest, course.verdicts);
    preparation_fails(groups, course.ready, n);
    assert forall|k: int| #![trigger log.checking[k]] 0 <= k < log.checking.len() implies part_of(
        log.checking[k].steps,
        steps,
    ) && local_plan(list[k].repository, list[k].found.url).ran(
        log.checking[k].steps,
        course.local[k],
    ) by {
        checked_parts(cache, groups, course, log, k);
    }
    settled_is_earned(list, course.local, log.checking, steps, list.len() as int);
    assert forall|i: int| #![trigger outcomes[i]] 0 <= i < outcomes.len() implies earned(
        steps,
        outcomes[i],
    ) by {
        if i < first.len() {
            assert(outcomes[i] == first[i]);
        } else if i < first.len() + second.len() {
            assert(outcomes[i] == second[i - first.len()]);
        } else {
            let k = i - first.len() - second.len();
            let piece = log.investigating[k];
            assert(outcomes[i] == third[k]);
            pieces_are_parts(log.investigating, k);
            let before = chained(log.preparing) + chained(log.checking) + seq![log.count];
            parts_of_parts(
                piece.steps,
                before,
                chained(log.investigating),
                Seq::empty(),
            );
            assert(before + chained(log.investigating) + Seq::<Step>::empty() =~= steps);
            verdict_earns(
                rest,
                course.histories,
                course.verdicts[k],
                k,
                piece.steps,
                steps,
            );
        }
    }
}

proof fn at_hand_are_members(
    members: Seq<FoundUrlView>,
    fetched: Seq<Result<(), FailureView>>,
    n: int,
)
    requires
        n <= members.len(),
    ensures
        forall|i: int|
            #![trigger at_hand(members, fetched, n)[i]]
            0 <= i < at_hand(members, fetched, n).len() ==> members.contains(
                at_hand(members, fetched, n)[i],
            ),
    decreases n,
{
    if n > 0 {
        let front = at_hand(members, fetched, n - 1);
        let list = at_hand(members, fetched, n);
        at_hand_are_members(members, fetched, n - 1);
        assert forall|i: int| #![trigger list[i]] 0 <= i < list.len() implies members.contains(
            list[i],
        ) by {
            if i < front.len() {
                assert(list[i] == front[i]);
            } else {
                assert(list[i] == members[n - 1]);
            }
        }
    }
}

/// Whether a link that can be checked stands in a group of the first `n`, with its repository.
pub(crate) open spec fn comes_from(
    groups: Seq<GroupView>,
    ready: Seq<Readiness>,
    n: int,
    one: PreparedView,
    i: int,
) -> bool {
    &&& 0 <= i < n
    &&& one.key == groups[i].key
    &&& ready[i].repository() == Some(one.repository)
    &&& groups[i].members.contains(one.found)
}

pub(crate) proof fn prepared_links_come_from_groups(
    groups: Seq<GroupView>,
    ready: Seq<Readiness>,
    n: int,
    k: int,
) -> (i: int)
    requires
        0 <= k < prepared(groups, ready, n).len(),
    ensures
        comes_from(groups, ready, n, prepared(groups, ready, n)[k], i),
    decreases n,
{
    let front = prepared(groups, ready, n - 1);
    let back = prepared_in(groups, ready, n - 1);
    let list = prepared(groups, ready, n);
    if k < front.len() {
        assert(list[k] == front[k]);
        prepared_links_come_from_groups(groups, ready, n - 1, k)
    } else {
        let members = groups[n - 1].members;
        let found = ready[n - 1].checkable(members);
        let j = k - front.len();
        if let Readiness::OneByOne(_, fetched) = ready[n - 1] {
            at_hand_are_members(members, fetched, members.len() as int);
        }
        assert(list[k] == back[j]);
        assert(back[j].found == found[j]);
        assert(members.contains(found[j]));
        n - 1
    }
}

/// Every link is checked against its own repository: the one that is cached under the names of
/// the owner and the repository that the link itself names.
pub proof fn links_are_checked_in_their_repository(
    cache: Seq<u8>,
    urls: Seq<FoundUrlView>,
    groups: Seq<GroupView>,
    steps: Seq<Step>,
    course: Course,
    k: int,
)
    requires
        is_grouping(groups, urls),
        course_plan(cache, groups).ran(steps, course),
        0 <= k < course.prepared(groups).len(),
    ensures
        course.prepared(groups)[k].repository.path == repository_path(
            cache,
            course.prepared(groups)[k].found.url,
        ),
        course.prepared(groups)[k].key == key_of(course.prepared(groups)[k].found),
{
    let log = checks_are_logged(cache, groups, steps, course);
    let one = course.prepared(groups)[k];
    let n = groups.len() as int;
    let i = prepared_links_come_from_groups(groups, course.ready, n, k);
    let group = groups[i];
    let piece = log.preparing[i];
    members_belong(urls, group.key);
    let j = group.members.index_of(one.found);
    assert(key_of(members_of(urls, group.key)[j]) == group.key);
    assert(key_of(members_of(urls, group.key)[0]) == group.key);
    let (opening, opened, later) = chains_split(
        open_plan(cache, group.members[0].url),
        opened_next(group.members),
        piece.steps,
        course.ready[i],
    );
    ready_repositories_were_opened(group.members, opened, later, course.ready[i]);
    opened_repositories_belong_to_their_link(
        cache,
        group.members[0].url,
        opening,
        one.repository,
    );
}

proof fn singles_keep_the_repository(
    repository: RepositoryView,
    members: Seq<FoundUrlView>,
    at: int,
    fetched: Seq<Result<(), FailureView>>,
    steps: Seq<Step>,
    readiness: Readiness,
)
    requires
        singles_plan(repository, members, at, fetched).ran(steps, readiness),
    ensures
        readiness.repository() == Some(repository),
    decreases members.len() - at,
{
    first_step(singles_plan(repository, members, at, fetched), steps, readiness);
    if at < members.len() {
        let (a, result, b) = chains_split(
            fetch_plan(repository.path, seq![members[at].url.commit]),
            singles_next(repository, members, at, fetched),
            steps,
            readiness,
        );
        singles_keep_the_repository(
            repository,
            members,
            at + 1,
            fetched.push(result),
            b,
            readiness,
        );
    }
}

/// The repository of a group is the one that was opened, and it could not be made ready exactly
/// where it could not be opened.
pub(crate) proof fn ready_repositories_were_opened(
    members: Seq<FoundUrlView>,
    opened: Result<RepositoryView, FailureView>,
    steps: Seq<Step>,
    readiness: Readiness,
)
    requires
        opened_next(members)(opened).ran(steps, readiness),
    ensures
        match opened {
            Ok(repository) => readiness.repository() == Some(repository),
            Err(failure) => readiness == Readiness::Unopened(failure) && steps.len() == 0,
        },
{
    first_step(opened_next(members)(opened), steps, readiness);
    if let Ok(repository) = opened {
        let next = fetched_next(repository, members);
        let (a, fetched, b) = chains_split(
            fetch_plan(repository.path, commits_of(members)),
            next,
            steps,
            readiness,
        );
        first_step(next(fetched), b, readiness);
        if fetched is Err {
            singles_keep_the_repository(repository, members, 0, Seq::empty(), b, readiness);
        }
    }
}

// ---------------------------------------------------------------------------------------------
// How often histories are looked at
// ---------------------------------------------------------------------------------------------

/// The steps that ask for the depth of a history.
pub open spec fn asks_depth() -> spec_fn(Step) -> bool {
    |step: Step| step.act matches Act::Run(command) && command.args == depth_args()
}

/// How many repositories have links from `at` on of which none stands before.
pub open spec fn repositories_from(candidates: Seq<CandidateView>, at: int) -> nat
    decreases candidates.len() - at,
{
    if at >= candidates.len() {
        0
    } else if first_of_repository(candidates, at) {
        1 + repositories_from(candidates, at + 1)
    } else {
        repositories_from(candidates, at + 1)
    }
}

pub(crate) proof fn no_times<A>(list: Seq<A>, such: spec_fn(A) -> bool)
    requires
        forall|i: int| #![trigger list[i]] 0 <= i < list.len() ==> !such(list[i]),
    ensures
        times(list, such) == 0,
    decreases list.len(),
{
    if list.len() > 0 {
        let front = list.drop_last();
        assert forall|i: int| #![trigger front[i]] 0 <= i < front.len() implies !such(
            front[i],
        ) by {
            assert(front[i] == list[i]);
        }
        no_times(front, such);
        assert(!such(list[list.len() - 1]));
    }
}

proof fn depth_questions_deepen(step: Step)
    ensures
        asks_depth()(step) ==> deepens(step.act),
{
    if asks_depth()(step) {
        assert(depth_args()[0] == "rev-parse"@);
        assert(depth_args()[1] == "--is-shallow-repository"@);
    }
}

proof fn deepenings_ask_once(
    repository: RepositoryView,
    steps: Seq<Step>,
    result: Result<(), FailureView>,
)
    requires
        deepen_plan(repository).ran(steps, result),
    ensures
        times(steps, asks_depth()) == 1,
{
    let such = asks_depth();
    only_shallow_histories_are_fetched(repository, steps, result);
    let none = Seq::<Step>::empty();
    let first = none.push(steps[0]);
    times_push(none, steps[0], such);
    if steps.len() == 1 {
        assert(steps == first);
    } else {
        assert(deepen_args(repository.default_branch).len() != depth_args().len());
        times_push(first, steps[1], such);
        assert(steps == first.push(steps[1]));
    }
}

proof fn inquiries_ask_once(
    candidates: Seq<CandidateView>,
    histories: Histories,
    verdict: Verdict,
    k: int,
    steps: Seq<Step>,
)
    requires
        inquired(candidates, histories, verdict, k, steps),
    ensures
        times(steps, asks_depth()) == if first_of_repository(candidates, k) {
            1nat
        } else {
            0nat
        },
{
    let candidate = candidates[k];
    let key = candidate.prepared.key;
    let (deepening, search) = inquiry_parts(candidates, histories, verdict, k, steps);
    assert forall|i: int| #![trigger search[i]] 0 <= i < search.len() implies !asks_depth()(
        search[i],
    ) by {
        depth_questions_deepen(search[i]);
    }
    no_times(search, asks_depth());
    times_adds(deepening, search, asks_depth());
    if first_of_repository(candidates, k) {
        deepenings_ask_once(candidate.prepared.repository, deepening, histories[key]);
    }
}

proof fn investigations_ask_once(
    candidates: Seq<CandidateView>,
    histories: Histories,
    verdicts: Seq<Verdict>,
    pieces: Seq<Piece>,
    at: int,
)
    requires
        investigated_in(candidates, histories, verdicts, pieces),
        0 <= at <= pieces.len(),
    ensures
        times(chained(pieces.skip(at)), asks_depth()) == repositories_from(candidates, at),
    decreases pieces.len() - at,
{
    let such = asks_depth();
    let rest = pieces.skip(at);
    if at < pieces.len() {
        let piece = pieces[at];
        let one = seq![piece.told];
        assert(rest[0] == piece);
        assert(rest.skip(1) == pieces.skip(at + 1));
        investigations_ask_once(candidates, histories, verdicts, pieces, at + 1);
        inquiries_ask_once(candidates, histories, verdicts[at], at, piece.steps);
        assert(one == Seq::<Step>::empty().push(piece.told));
        times_push(Seq::<Step>::empty(), piece.told, such);
        times_adds(one, piece.steps, such);
        times_adds(one + piece.steps, chained(pieces.skip(at + 1)), such);
    }
}

/// The depth of a history is asked for exactly as often as there are repositories with a link to
/// investigate: once for each of those, and for no other.
pub proof fn histories_are_looked_at_once(
    cache: Seq<u8>,
    groups: Seq<GroupView>,
    steps: Seq<Step>,
    course: Course,
)
    requires
        course_plan(cache, groups).ran(steps, course),
    ensures
        times(steps, asks_depth()) == repositories_from(course.candidates(groups), 0),
{
    let log = histories_are_made_whole_once(cache, groups, steps, course);
    let front = chained(log.preparing) + chained(log.checking) + seq![log.count];
    assert forall|i: int| #![trigger front[i]] 0 <= i < front.len() implies !asks_depth()(
        front[i],
    ) by {
        assert(front[i] == steps[i]);
        depth_questions_deepen(steps[i]);
    }
    no_times(front, asks_depth());
    times_adds(front, chained(log.investigating), asks_depth());
    investigations_ask_once(
        course.candidates(groups),
        course.histories,
        course.verdicts,
        log.investigating,
        0,
    );
    assert(log.investigating.skip(0) == log.investigating);
}

// ---------------------------------------------------------------------------------------------
// The reason for each outcome
// ---------------------------------------------------------------------------------------------

/// What was done to make the repository of a group ready: it was opened, its commits were fetched
/// together, and, where that was refused, each by itself.
pub struct Readying {
    pub opening: Seq<Step>,
    pub together: Seq<Step>,
    pub refused: FailureView,
    pub singles: Seq<Seq<Step>>,
}

proof fn singles_are_tried(
    repository: RepositoryView,
    members: Seq<FoundUrlView>,
    at: int,
    fetched: Seq<Result<(), FailureView>>,
    steps: Seq<Step>,
    readiness: Readiness,
) -> (parts: (Seq<Seq<Step>>, Seq<Result<(), FailureView>>))
    requires
        0 <= at <= members.len(),
        fetched.len() == at,
        singles_plan(repository, members, at, fetched).ran(steps, readiness),
    ensures
        readiness == Readiness::OneByOne(repository, parts.1),
        parts.1.len() == members.len(),
        parts.1.take(at) == fetched,
        parts.0.len() == members.len() - at,
        steps == parts.0.flatten(),
        forall|i: int|
            #![trigger parts.0[i]]
            0 <= i < parts.0.len() ==> fetch_plan(
                repository.path,
                seq![members[at + i].url.commit],
            ).ran(parts.0[i], parts.1[at + i]),
    decreases members.len() - at,
{
    first_step(singles_plan(repository, members, at, fetched), steps, readiness);
    if at == members.len() {
        assert(fetched.take(at) =~= fetched);
        assert(steps =~= Seq::<Seq<Step>>::empty().flatten());
        (Seq::empty(), fetched)
    } else {
        let (a, result, b) = chains_split(
            fetch_plan(repository.path, seq![members[at].url.commit]),
            singles_next(repository, members, at, fetched),
            steps,
            readiness,
        );
        let (later, all) = singles_are_tried(
            repository,
            members,
            at + 1,
            fetched.push(result),
            b,
            readiness,
        );
        let singles = seq![a] + later;
        assert(singles.first() == a);
        assert(singles.drop_first() =~= later);
        assert(all.take(at) =~= all.take(at + 1).take(at));
        assert(all.take(at) =~= fetched);
        assert(all[at] == all.take(at + 1)[at]);
        assert forall|i: int| #![trigger singles[i]] 0 <= i < singles.len() implies fetch_plan(
            repository.path,
            seq![members[at + i].url.commit],
        ).ran(singles[i], all[at + i]) by {
            if i > 0 {
                assert(singles[i] == later[i - 1]);
            }
        }
        (singles, all)
    }
}

/// The repository of a group is opened for the first of its links. Where that fails, nothing else
/// is tried. Else all commits that the links name are fetched together, and only where that fails
/// each of them by itself, for every link, whatever came of the others.
pub proof fn commits_are_fetched_together_first(
    cache: Seq<u8>,
    group: GroupView,
    steps: Seq<Step>,
    readiness: Readiness,
) -> (parts: Readying)
    requires
        group_plan(cache, group).ran(steps, readiness),
    ensures
        steps == parts.opening + parts.together + parts.singles.flatten(),
        match readiness {
            Readiness::Unopened(failure) => {
                &&& open_plan(cache, group.members[0].url).ran(parts.opening, Err(failure))
                &&& steps == parts.opening
            },
            Readiness::Fetched(repository) => {
                &&& open_plan(cache, group.members[0].url).ran(parts.opening, Ok(repository))
                &&& fetch_plan(
                    repository.path,
                    Seq::new(group.members.len(), |i: int| group.members[i].url.commit),
                ).ran(parts.together, Ok(()))
                &&& steps == parts.opening + parts.together
            },
            Readiness::OneByOne(repository, fetched) => {
                &&& open_plan(cache, group.members[0].url).ran(parts.opening, Ok(repository))
                &&& fetch_plan(
                    repository.path,
                    Seq::new(group.members.len(), |i: int| group.members[i].url.commit),
                ).ran(parts.together, Err(parts.refused))
                &&& fetched.len() == group.members.len()
                &&& parts.singles.len() == group.members.len()
                &&& forall|i: int|
                    #![trigger parts.singles[i]]
                    0 <= i < parts.singles.len() ==> fetch_plan(
                        repository.path,
                        seq![group.members[i].url.commit],
                    ).ran(parts.singles[i], fetched[i])
            },
        },
{
    let members = group.members;
    let none = Seq::<Step>::empty();
    let no_singles = Seq::<Seq<Step>>::empty();
    let (opening, opened, later) = chains_split(
        open_plan(cache, members[0].url),
        opened_next(members),
        steps,
        readiness,
    );
    first_step(opened_next(members)(opened), later, readiness);
    match opened {
        Err(failure) => {
            assert(opened == Err::<RepositoryView, _>(failure));
            assert(readiness == Readiness::Unopened(failure));
            assert(steps =~= opening);
            assert(steps =~= opening + none + no_singles.flatten());
            Readying { opening, together: none, refused: failure, singles: no_singles }
        },
        Ok(repository) => {
            let next = fetched_next(repository, members);
            let (together, fetched, rest) = chains_split(
                fetch_plan(repository.path, commits_of(members)),
                next,
                later,
                readiness,
            );
            assert(commits_of(members) =~= Seq::new(
                members.len(),
                |i: int| members[i].url.commit,
            ));
            first_step(next(fetched), rest, readiness);
            match fetched {
                Ok(unit) => {
                    assert(unit == ());
                    assert(fetched == Ok::<(), FailureView>(unit));
                    assert(steps =~= opening + together);
                    assert(steps =~= opening + together + no_singles.flatten());
                    Readying { opening, together, refused: arbitrary(), singles: no_singles }
                },
                Err(failure) => {
                    let (singles, all) = singles_are_tried(
                        repository,
                        members,
                        0,
                        Seq::empty(),
                        rest,
                        readiness,
                    );
                    assert(steps =~= opening + together + singles.flatten());
                    assert(fetched == Err::<(), _>(failure));
                    Readying { opening, together, refused: failure, singles }
                },
            }
        },
    }
}

/// Whether a repository was opened, among these steps, under the names that a link has of its owner
/// and its repository.
pub open spec fn opened_for(
    cache: Seq<u8>,
    steps: Seq<Step>,
    url: SourceUrlView,
    repository: RepositoryView,
) -> bool {
    exists|other: SourceUrlView, part: Seq<Step>|
        #![trigger open_plan(cache, other).ran(part, Ok(repository))]
        other.owner == url.owner && other.repo == url.repo && part_of(part, steps) && open_plan(
            cache,
            other,
        ).ran(part, Ok(repository))
}

/// Whether the repository of a link could not be opened.
pub open spec fn could_not_open(
    cache: Seq<u8>,
    steps: Seq<Step>,
    url: SourceUrlView,
    failure: FailureView,
) -> bool {
    exists|other: SourceUrlView, part: Seq<Step>|
        #![trigger open_plan(cache, other).ran(part, Err(failure))]
        other.owner == url.owner && other.repo == url.repo && part_of(part, steps) && open_plan(
            cache,
            other,
        ).ran(part, Err(failure))
}

/// Whether the commit of a link could not be fetched, by itself.
pub open spec fn could_not_fetch(
    cache: Seq<u8>,
    steps: Seq<Step>,
    url: SourceUrlView,
    failure: FailureView,
) -> bool {
    exists|repository: RepositoryView, part: Seq<Step>|
        #![trigger fetch_plan(repository.path, seq![url.commit]).ran(part, Err(failure))]
        opened_for(cache, steps, url, repository) && part_of(part, steps) && fetch_plan(
            repository.path,
            seq![url.commit],
        ).ran(part, Err(failure))
}

/// Whether a link was checked on its default branch with this result.
pub open spec fn checked_with(
    cache: Seq<u8>,
    steps: Seq<Step>,
    url: SourceUrlView,
    repository: RepositoryView,
    local: Local,
) -> bool {
    opened_for(cache, steps, url, repository) && exists|part: Seq<Step>|
        part_of(part, steps) && #[trigger] local_plan(repository, url).ran(part, local)
}

/// Whether a link was investigated with this result, in its repository and by the lines that its
/// check asked for.
pub open spec fn investigated_with(
    cache: Seq<u8>,
    steps: Seq<Step>,
    found: FoundUrlView,
    verdict: Verdict,
) -> bool {
    exists|repository: RepositoryView, expected: Seq<Seq<u8>>, part: Seq<Step>|
        #![trigger investigate_plan(repository, found, expected).ran(part, verdict)]
        checked_with(cache, steps, found.url, repository, Ok(Some(expected))) && part_of(
            part,
            steps,
        ) && investigate_plan(repository, found, expected).ran(part, verdict)
}

/// Whether the history of the repository of a link could not be made whole.
pub open spec fn could_not_deepen(
    cache: Seq<u8>,
    steps: Seq<Step>,
    url: SourceUrlView,
    failure: FailureView,
) -> bool {
    exists|repository: RepositoryView, part: Seq<Step>|
        #![trigger deepen_plan(repository).ran(part, Err(failure))]
        opened_for(cache, steps, url, repository) && part_of(part, steps) && deepen_plan(
            repository,
        ).ran(part, Err(failure))
}

/// Whether something failed that the check of a link needs.
pub open spec fn failed_with(
    cache: Seq<u8>,
    steps: Seq<Step>,
    found: FoundUrlView,
    failure: FailureView,
) -> bool {
    ||| could_not_open(cache, steps, found.url, failure)
    ||| could_not_fetch(cache, steps, found.url, failure)
    ||| exists|repository: RepositoryView| #[trigger]
        checked_with(cache, steps, found.url, repository, Err(failure))
    ||| could_not_deepen(cache, steps, found.url, failure)
    ||| investigated_with(cache, steps, found, Err(failure))
}

/// Whether a link is rightly called current: its lines were found on the default branch, or its
/// investigation ran to the end and found them at every commit.
pub open spec fn rightly_current(cache: Seq<u8>, steps: Seq<Step>, url: SourceUrlView) -> bool {
    ||| exists|repository: RepositoryView| #[trigger]
        checked_with(cache, steps, url, repository, Ok(None))
    ||| exists|found: FoundUrlView|
        found.url == url && #[trigger] investigated_with(cache, steps, found, Ok(None))
}

/// Whether a link is rightly called an error: something failed that its check needs, and the error
/// tells what.
pub open spec fn rightly_failed(
    cache: Seq<u8>,
    steps: Seq<Step>,
    found: FoundUrlView,
    message: Seq<char>,
) -> bool {
    exists|failure: FailureView| #[trigger]
        failed_with(cache, steps, found, failure) && message == match failure.cause {
            Some(cause) => failure.message + ": "@ + cause,
            None => failure.message,
        }
}

/// Whether an outcome has its reason among these steps. A link is current only where its lines were
/// found, it is stale only where its investigation came to that report, and there is an error only
/// where something failed.
#[verifier::opaque]
pub open spec fn has_its_reason(cache: Seq<u8>, steps: Seq<Step>, outcome: OutcomeView) -> bool {
    match outcome {
        OutcomeView::Current { url } => rightly_current(cache, steps, url),
        OutcomeView::Stale(report) => investigated_with(
            cache,
            steps,
            report.found,
            Ok(Some(report)),
        ),
        OutcomeView::Error { found, message } => rightly_failed(cache, steps, found, message),
    }
}

proof fn checks_are_a_reason(
    cache: Seq<u8>,
    steps: Seq<Step>,
    url: SourceUrlView,
    repository: RepositoryView,
)
    requires
        checked_with(cache, steps, url, repository, Ok(None)),
    ensures
        has_its_reason(cache, steps, OutcomeView::Current { url }),
{
    reveal(has_its_reason);
    assert(rightly_current(cache, steps, url));
}

proof fn verdicts_are_a_reason(
    cache: Seq<u8>,
    steps: Seq<Step>,
    found: FoundUrlView,
    verdict: Verdict,
)
    requires
        investigated_with(cache, steps, found, verdict),
        verdict matches Ok(Some(report)) ==> report.found == found,
    ensures
        match verdict {
            Ok(None) => has_its_reason(cache, steps, OutcomeView::Current { url: found.url }),
            Ok(Some(report)) => has_its_reason(cache, steps, OutcomeView::Stale(report)),
            Err(_) => true,
        },
{
    reveal(has_its_reason);
    if verdict == Ok::<Option<StaleReportView>, FailureView>(None) {
        assert(rightly_current(cache, steps, found.url));
    }
}

proof fn failures_are_a_reason(
    cache: Seq<u8>,
    steps: Seq<Step>,
    found: FoundUrlView,
    failure: FailureView,
)
    requires
        failed_with(cache, steps, found, failure),
    ensures
        has_its_reason(
            cache,
            steps,
            OutcomeView::Error { found, message: failure.text() },
        ),
{
    reveal(has_its_reason);
    assert(rightly_failed(cache, steps, found, failure.text()));
}

proof fn parts_within(part: Seq<Step>, mid: Seq<Step>, steps: Seq<Step>)
    requires
        part_of(part, mid),
        part_of(mid, steps),
    ensures
        part_of(part, steps),
{
    let i = choose|i: int|
        0 <= i && i + mid.len() <= steps.len() && #[trigger] steps.subrange(i, i + mid.len())
            == mid;
    parts_of_parts(part, steps.take(i), mid, steps.skip(i + mid.len()));
    assert(steps =~= steps.take(i) + mid + steps.skip(i + mid.len()));
}

proof fn flattened_parts(list: Seq<Seq<Step>>, k: int)
    requires
        0 <= k < list.len(),
    ensures
        part_of(list[k], list.flatten()),
    decreases list.len(),
{
    let rest = list.drop_first();
    let none = Seq::<Step>::empty();
    assert(list.flatten() == list.first() + rest.flatten());
    if k == 0 {
        stands_between(none, list[0], rest.flatten());
        assert(none + list[0] + rest.flatten() =~= list.flatten());
    } else {
        flattened_parts(rest, k - 1);
        parts_of_parts(list[k], list[0], rest.flatten(), none);
        assert(list[0] + rest.flatten() + none =~= list.flatten());
    }
}

proof fn unfetched_members(
    members: Seq<FoundUrlView>,
    fetched: Seq<Result<(), FailureView>>,
    n: int,
    i: int,
) -> (k: int)
    requires
        0 <= i < out_of_reach(members, fetched, n).len(),
    ensures
        0 <= k < n,
        fetched[k] is Err,
        out_of_reach(members, fetched, n)[i] == (OutcomeView::Error {
            found: members[k],
            message: fetched[k]->Err_0.text(),
        }),
    decreases n,
{
    let front = out_of_reach(members, fetched, n - 1);
    if fetched[n - 1] is Err && i == front.len() {
        n - 1
    } else {
        unfetched_members(members, fetched, n - 1, i)
    }
}

proof fn group_members_share_their_names(
    groups: Seq<GroupView>,
    urls: Seq<FoundUrlView>,
    g: int,
    i: int,
)
    requires
        is_grouping(groups, urls),
        0 <= g < groups.len(),
        0 <= i < groups[g].members.len(),
    ensures
        groups[g].members.len() > 0,
        groups[g].members[i].url.owner == groups[g].members[0].url.owner,
        groups[g].members[i].url.repo == groups[g].members[0].url.repo,
        groups[g].members[i].url.owner == groups[g].key.owner,
        groups[g].members[i].url.repo == groups[g].key.repo,
{
    members_belong(urls, groups[g].key);
    assert(key_of(members_of(urls, groups[g].key)[i]) == groups[g].key);
    assert(key_of(members_of(urls, groups[g].key)[0]) == groups[g].key);
}

proof fn group_errors_have_their_reason(
    cache: Seq<u8>,
    urls: Seq<FoundUrlView>,
    groups: Seq<GroupView>,
    g: int,
    part: Seq<Step>,
    readiness: Readiness,
    steps: Seq<Step>,
    i: int,
)
    requires
        is_grouping(groups, urls),
        0 <= g < groups.len(),
        group_plan(cache, groups[g]).ran(part, readiness),
        part_of(part, steps),
        0 <= i < readiness.errors(groups[g].members).len(),
    ensures
        has_its_reason(cache, steps, readiness.errors(groups[g].members)[i]),
{
    let members = groups[g].members;
    let parts = commits_are_fetched_together_first(cache, groups[g], part, readiness);
    let outcome = readiness.errors(members)[i];
    let none = Seq::<Step>::empty();
    assert(members.len() > 0);
    stands_between(none, parts.opening, parts.together + parts.singles.flatten());
    assert(none + parts.opening + (parts.together + parts.singles.flatten()) =~= part);
    parts_within(parts.opening, part, steps);
    match readiness {
        Readiness::Unopened(failure) => {
            let found = members[i];
            group_members_share_their_names(groups, urls, g, i);
            assert(open_plan(cache, members[0].url).ran(parts.opening, Err(failure)));
            assert(could_not_open(cache, steps, found.url, failure));
            failures_are_a_reason(cache, steps, found, failure);
            assert(outcome == failed(found, failure));
        },
        Readiness::Fetched(_) => {},
        Readiness::OneByOne(repository, fetched) => {
            let k = unfetched_members(members, fetched, members.len() as int, i);
            let found = members[k];
            let failure = fetched[k]->Err_0;
            let single = parts.singles[k];
            group_members_share_their_names(groups, urls, g, k);
            flattened_parts(parts.singles, k);
            parts_of_parts(single, parts.opening + parts.together, parts.singles.flatten(), none);
            assert(parts.opening + parts.together + parts.singles.flatten() + none =~= part);
            parts_within(single, part, steps);
            assert(open_plan(cache, members[0].url).ran(parts.opening, Ok(repository)));
            assert(opened_for(cache, steps, found.url, repository));
            assert(fetched[k] == Err::<(), _>(failure));
            assert(fetch_plan(repository.path, seq![found.url.commit]).ran(
                single,
                Err(failure),
            ));
            assert(could_not_fetch(cache, steps, found.url, failure));
            failures_are_a_reason(cache, steps, found, failure);
        },
    }
}

proof fn errors_come_from_groups(
    groups: Seq<GroupView>,
    ready: Seq<Readiness>,
    n: int,
    i: int,
) -> (at: (int, int))
    requires
        0 <= n <= groups.len(),
        0 <= i < preparation_errors(groups, ready, n).len(),
    ensures
        0 <= at.0 < n,
        0 <= at.1 < ready[at.0].errors(groups[at.0].members).len(),
        preparation_errors(groups, ready, n)[i] == ready[at.0].errors(groups[at.0].members)[at.1],
    decreases n,
{
    let front = preparation_errors(groups, ready, n - 1);
    if i < front.len() {
        assert(preparation_errors(groups, ready, n)[i] == front[i]);
        errors_come_from_groups(groups, ready, n - 1, i)
    } else {
        (n - 1, i - front.len())
    }
}

proof fn prepared_links_were_opened(
    cache: Seq<u8>,
    urls: Seq<FoundUrlView>,
    groups: Seq<GroupView>,
    steps: Seq<Step>,
    course: Course,
    k: int,
)
    requires
        is_grouping(groups, urls),
        course_plan(cache, groups).ran(steps, course),
        0 <= k < course.prepared(groups).len(),
    ensures
        opened_for(
            cache,
            steps,
            course.prepared(groups)[k].found.url,
            course.prepared(groups)[k].repository,
        ),
        course.prepared(groups)[k].found.url.owner == course.prepared(groups)[k].key.owner,
        course.prepared(groups)[k].found.url.repo == course.prepared(groups)[k].key.repo,
{
    let log = checks_are_logged(cache, groups, steps, course);
    let one = course.prepared(groups)[k];
    let g = prepared_links_come_from_groups(groups, course.ready, groups.len() as int, k);
    let members = groups[g].members;
    let part = log.preparing[g].steps;
    let none = Seq::<Step>::empty();
    prepared_parts(log, g, steps);
    let j = members.index_of(one.found);
    group_members_share_their_names(groups, urls, g, j);
    let parts = commits_are_fetched_together_first(cache, groups[g], part, course.ready[g]);
    stands_between(none, parts.opening, parts.together + parts.singles.flatten());
    assert(none + parts.opening + (parts.together + parts.singles.flatten()) =~= part);
    parts_within(parts.opening, part, steps);
    assert(open_plan(cache, members[0].url).ran(parts.opening, Ok(one.repository)));
}

proof fn settled_links(
    prepared: Seq<PreparedView>,
    local: Seq<Local>,
    n: int,
    i: int,
) -> (k: int)
    requires
        0 <= i < settled(prepared, local, n).len(),
    ensures
        0 <= k < n,
        match local[k] {
            Ok(Some(_)) => false,
            Ok(None) => settled(prepared, local, n)[i] == (OutcomeView::Current {
                url: prepared[k].found.url,
            }),
            Err(failure) => settled(prepared, local, n)[i] == (OutcomeView::Error {
                found: prepared[k].found,
                message: failure.text(),
            }),
        },
    decreases n,
{
    let front = settled(prepared, local, n - 1);
    let list = settled(prepared, local, n);
    if i < front.len() {
        assert(list[i] == front[i]);
        settled_links(prepared, local, n - 1, i)
    } else {
        n - 1
    }
}

proof fn candidates_were_checked(
    prepared: Seq<PreparedView>,
    local: Seq<Local>,
    n: int,
    i: int,
) -> (k: int)
    requires
        0 <= i < candidates(prepared, local, n).len(),
    ensures
        0 <= k < n,
        local[k] == Ok::<_, FailureView>(Some(candidates(prepared, local, n)[i].expected)),
        candidates(prepared, local, n)[i].prepared == prepared[k],
    decreases n,
{
    let front = candidates(prepared, local, n - 1);
    let list = candidates(prepared, local, n);
    if i < front.len() {
        assert(list[i] == front[i]);
        candidates_were_checked(prepared, local, n - 1, i)
    } else {
        n - 1
    }
}

proof fn first_with_its_key(candidates: Seq<CandidateView>, k: int) -> (j: int)
    requires
        0 <= k < candidates.len(),
    ensures
        0 <= j <= k,
        candidates[j].prepared.key == candidates[k].prepared.key,
        first_of_repository(candidates, j),
    decreases k,
{
    if first_of_repository(candidates, k) {
        k
    } else {
        let i = choose|i: int|
            #![trigger candidates[i]]
            0 <= i < k && candidates[i].prepared.key == candidates[k].prepared.key;
        first_with_its_key(candidates, i)
    }
}

proof fn inquiries_stand_in_the_log(
    cache: Seq<u8>,
    groups: Seq<GroupView>,
    course: Course,
    log: Log,
    k: int,
)
    requires
        logs(cache, groups, course, log),
        0 <= k < log.investigating.len(),
    ensures
        part_of(log.investigating[k].steps, log.steps()),
{
    let before = chained(log.preparing) + chained(log.checking) + seq![log.count];
    pieces_are_parts(log.investigating, k);
    parts_of_parts(
        log.investigating[k].steps,
        before,
        chained(log.investigating),
        Seq::empty(),
    );
    assert(before + chained(log.investigating) + Seq::<Step>::empty() =~= log.steps());
}

proof fn candidates_were_checked_in_place(
    cache: Seq<u8>,
    urls: Seq<FoundUrlView>,
    groups: Seq<GroupView>,
    steps: Seq<Step>,
    course: Course,
    k: int,
)
    requires
        is_grouping(groups, urls),
        course_plan(cache, groups).ran(steps, course),
        0 <= k < course.candidates(groups).len(),
    ensures
        ({
            let one = course.candidates(groups)[k];
            let found = one.prepared.found;
            &&& checked_with(
                cache,
                steps,
                found.url,
                one.prepared.repository,
                Ok(Some(one.expected)),
            )
            &&& opened_for(cache, steps, found.url, one.prepared.repository)
            &&& found.url.owner == one.prepared.key.owner
            &&& found.url.repo == one.prepared.key.repo
        }),
{
    let log = checks_are_logged(cache, groups, steps, course);
    let list = course.prepared(groups);
    let one = course.candidates(groups)[k];
    let p = candidates_were_checked(list, course.local, list.len() as int, k);
    prepared_links_were_opened(cache, urls, groups, steps, course, p);
    checked_parts(cache, groups, course, log, p);
    let part = log.checking[p].steps;
    assert(local_plan(list[p].repository, list[p].found.url).ran(part, course.local[p]));
}

proof fn verdicts_have_their_reason(
    cache: Seq<u8>,
    urls: Seq<FoundUrlView>,
    groups: Seq<GroupView>,
    steps: Seq<Step>,
    course: Course,
    k: int,
)
    requires
        is_grouping(groups, urls),
        course_plan(cache, groups).ran(steps, course),
        0 <= k < course.candidates(groups).len(),
    ensures
        ({
            let found = course.candidates(groups)[k].prepared.found;
            match course.verdicts[k] {
                Ok(None) => investigated_with(cache, steps, found, Ok(None)),
                Ok(Some(report)) => report.found == found && investigated_with(
                    cache,
                    steps,
                    found,
                    Ok(Some(report)),
                ),
                Err(failure) => failed_with(cache, steps, found, failure),
            }
        }),
{
    let log = checks_are_logged(cache, groups, steps, course);
    let list = course.candidates(groups);
    let one = list[k];
    let found = one.prepared.found;
    let repository = one.prepared.repository;
    let verdict = course.verdicts[k];
    candidates_were_checked_in_place(cache, urls, groups, steps, course, k);
    let piece = log.investigating[k].steps;
    inquiries_stand_in_the_log(cache, groups, course, log, k);
    let (deepening, search) = inquiry_parts(list, course.histories, verdict, k, piece);
    let none = Seq::<Step>::empty();
    stands_between(deepening, search, none);
    assert(deepening + search + none =~= piece);
    parts_within(search, piece, steps);
    let history = course.histories[one.prepared.key];
    match history {
        Ok(_) => {
            assert(investigate_plan(repository, found, one.expected).ran(search, verdict));
            assert(investigated_with(cache, steps, found, verdict));
            if let Ok(Some(report)) = verdict {
                let trail = reports_name_the_break(repository, found, one.expected, search, report);
            }
        },
        Err(failure) => {
            first_step(verdict_plan(one, history), search, verdict);
            let j = first_with_its_key(list, k);
            let other = list[j];
            candidates_were_checked_in_place(cache, urls, groups, steps, course, j);
            let earlier = log.investigating[j].steps;
            inquiries_stand_in_the_log(cache, groups, course, log, j);
            let (first, rest) = inquiry_parts(
                list,
                course.histories,
                course.verdicts[j],
                j,
                earlier,
            );
            stands_between(none, first, rest);
            assert(none + first + rest =~= earlier);
            parts_within(first, earlier, steps);
            assert(deepen_plan(other.prepared.repository).ran(first, Err(failure)));
            let (name, part) = choose|name: SourceUrlView, part: Seq<Step>|
                #![trigger open_plan(cache, name).ran(part, Ok(other.prepared.repository))]
                name.owner == other.prepared.found.url.owner && name.repo
                    == other.prepared.found.url.repo && part_of(part, steps) && open_plan(
                    cache,
                    name,
                ).ran(part, Ok(other.prepared.repository));
            assert(opened_for(cache, steps, found.url, other.prepared.repository));
            assert(could_not_deepen(cache, steps, found.url, failure));
        },
    }
}

proof fn investigated_links_have_their_reason(
    cache: Seq<u8>,
    urls: Seq<FoundUrlView>,
    groups: Seq<GroupView>,
    steps: Seq<Step>,
    course: Course,
    k: int,
)
    requires
        is_grouping(groups, urls),
        course_plan(cache, groups).ran(steps, course),
        0 <= k < course.candidates(groups).len(),
    ensures
        has_its_reason(
            cache,
            steps,
            investigated(course.candidates(groups), course.verdicts)[k],
        ),
{
    let found = course.candidates(groups)[k].prepared.found;
    let verdict = course.verdicts[k];
    verdicts_have_their_reason(cache, urls, groups, steps, course, k);
    match verdict {
        Ok(_) => {
            verdicts_are_a_reason(cache, steps, found, verdict);
        },
        Err(failure) => {
            failures_are_a_reason(cache, steps, found, failure);
        },
    }
}

proof fn settled_links_have_their_reason(
    cache: Seq<u8>,
    urls: Seq<FoundUrlView>,
    groups: Seq<GroupView>,
    steps: Seq<Step>,
    course: Course,
    i: int,
)
    requires
        is_grouping(groups, urls),
        course_plan(cache, groups).ran(steps, course),
        0 <= i < settled(
            course.prepared(groups),
            course.local,
            course.prepared(groups).len() as int,
        ).len(),
    ensures
        has_its_reason(
            cache,
            steps,
            settled(
                course.prepared(groups),
                course.local,
                course.prepared(groups).len() as int,
            )[i],
        ),
{
    let log = checks_are_logged(cache, groups, steps, course);
    let list = course.prepared(groups);
    let k = settled_links(list, course.local, list.len() as int, i);
    let part = log.checking[k].steps;
    prepared_links_were_opened(cache, urls, groups, steps, course, k);
    checked_parts(cache, groups, course, log, k);
    assert(local_plan(list[k].repository, list[k].found.url).ran(part, course.local[k]));
    let (url, repository) = (list[k].found.url, list[k].repository);
    assert(checked_with(cache, steps, url, repository, course.local[k]));
    match course.local[k] {
        Ok(_) => {
            checks_are_a_reason(cache, steps, url, repository);
        },
        Err(failure) => {
            assert(failed_with(cache, steps, list[k].found, failure));
            failures_are_a_reason(cache, steps, list[k].found, failure);
        },
    }
}

proof fn unprepared_links_have_their_reason(
    cache: Seq<u8>,
    urls: Seq<FoundUrlView>,
    groups: Seq<GroupView>,
    steps: Seq<Step>,
    course: Course,
    i: int,
)
    requires
        is_grouping(groups, urls),
        course_plan(cache, groups).ran(steps, course),
        0 <= i < preparation_errors(groups, course.ready, groups.len() as int).len(),
    ensures
        has_its_reason(
            cache,
            steps,
            preparation_errors(groups, course.ready, groups.len() as int)[i],
        ),
{
    let log = checks_are_logged(cache, groups, steps, course);
    let (g, e) = errors_come_from_groups(groups, course.ready, groups.len() as int, i);
    prepared_parts(log, g, steps);
    group_errors_have_their_reason(
        cache,
        urls,
        groups,
        g,
        log.preparing[g].steps,
        course.ready[g],
        steps,
        e,
    );
}

/// Every outcome of a check has its reason. No link is called current unless its lines were found
/// on the default branch or at every commit of its history, none is called stale unless its
/// investigation reported it so, and none is called an error unless its repository could not be
/// opened, its commit not fetched, its check or its investigation not done, or the history not made
/// whole; and then the error tells that failure.
pub proof fn every_outcome_has_its_reason(
    cache: Seq<u8>,
    urls: Seq<FoundUrlView>,
    steps: Seq<Step>,
    outcomes: Seq<OutcomeView>,
)
    requires
        links_plan(cache, urls).ran(steps, outcomes),
    ensures
        forall|i: int|
            #![trigger outcomes[i]]
            0 <= i < outcomes.len() ==> has_its_reason(cache, steps, outcomes[i]),
{
    let course = checks_take_a_course(cache, urls, steps, outcomes);
    let groups = groups_of(urls);
    let n = groups.len() as int;
    let list = course.prepared(groups);
    let rest = course.candidates(groups);
    let first = preparation_errors(groups, course.ready, n);
    let second = settled(list, course.local, list.len() as int);
    let third = investigated(rest, course.verdicts);
    assert forall|i: int| #![trigger outcomes[i]] 0 <= i < outcomes.len() implies has_its_reason(
        cache,
        steps,
        outcomes[i],
    ) by {
        if i < first.len() {
            assert(outcomes[i] == first[i]);
            unprepared_links_have_their_reason(cache, urls, groups, steps, course, i);
        } else if i < first.len() + second.len() {
            let j = i - first.len();
            assert(outcomes[i] == second[j]);
            settled_links_have_their_reason(cache, urls, groups, steps, course, j);
        } else {
            let k = i - first.len() - second.len();
            assert(outcomes[i] == third[k]);
            investigated_links_have_their_reason(cache, urls, groups, steps, course, k);
        }
    }
}

/// The order of the outcomes: first the links that could not be prepared, repository by repository;
/// then those that were checked and need no investigation; then those that were investigated. Each
/// of the latter two stand in the order in which the links were told.
pub proof fn outcomes_stand_in_the_order_of_the_phases(
    cache: Seq<u8>,
    groups: Seq<GroupView>,
    steps: Seq<Step>,
    course: Course,
)
    requires
        course_plan(cache, groups).ran(steps, course),
    ensures
        ({
            let list = course.prepared(groups);
            let places = Seq::new(list.len(), |k: int| k);
            let asked = places.filter(|k: int| course.local[k] matches Ok(Some(_)));
            let done = places.filter(|k: int| !(course.local[k] matches Ok(Some(_))));
            &&& course.local.len() == list.len()
            &&& course.verdicts.len() == asked.len()
            &&& course.candidates(groups) == asked.map_values(
                |k: int| CandidateView { prepared: list[k], expected: course.local[k]->Ok_0->0 },
            )
            &&& course.outcomes(groups) == Seq::new(
                groups.len(),
                |g: int| course.ready[g].errors(groups[g].members),
            ).flatten() + done.map_values(
                |k: int|
                    match course.local[k] {
                        Ok(_) => OutcomeView::Current { url: list[k].found.url },
                        Err(failure) => OutcomeView::Error {
                            found: list[k].found,
                            message: failure.text(),
                        },
                    },
            ) + Seq::new(
                asked.len(),
                |i: int|
                    match course.verdicts[i] {
                        Ok(None) => OutcomeView::Current { url: list[asked[i]].found.url },
                        Ok(Some(report)) => OutcomeView::Stale(report),
                        Err(failure) => OutcomeView::Error {
                            found: list[asked[i]].found,
                            message: failure.text(),
                        },
                    },
            )
        }),
{
    let log = checks_are_logged(cache, groups, steps, course);
    let list = course.prepared(groups);
    let n = list.len() as int;
    let places = Seq::new(list.len(), |k: int| k);
    let asked = places.filter(|k: int| course.local[k] matches Ok(Some(_)));
    checks_sort_the_links(list, course.local, n);
    errors_are_flattened(groups, course.ready, groups.len() as int);
    assert(course.candidates(groups).len() == asked.len());
    assert(investigated(course.candidates(groups), course.verdicts) =~= Seq::new(
        asked.len(),
        |i: int|
            match course.verdicts[i] {
                Ok(None) => OutcomeView::Current { url: list[asked[i]].found.url },
                Ok(Some(report)) => OutcomeView::Stale(report),
                Err(failure) => OutcomeView::Error {
                    found: list[asked[i]].found,
                    message: failure.text(),
                },
            },
    ));
}

proof fn errors_are_flattened(groups: Seq<GroupView>, ready: Seq<Readiness>, n: int)
    requires
        0 <= n,
    ensures
        preparation_errors(groups, ready, n) == Seq::new(
            n as nat,
            |g: int| ready[g].errors(groups[g].members),
        ).flatten(),
    decreases n,
{
    let all = Seq::new(n as nat, |g: int| ready[g].errors(groups[g].members));
    if n == 0 {
        assert(all.flatten() =~= Seq::<OutcomeView>::empty());
    } else {
        let fewer = Seq::new((n - 1) as nat, |g: int| ready[g].errors(groups[g].members));
        let last = ready[n - 1].errors(groups[n - 1].members);
        errors_are_flattened(groups, ready, n - 1);
        assert(all =~= fewer.push(last));
        fewer.lemma_flatten_push(last);
    }
}

proof fn checks_sort_the_links(list: Seq<PreparedView>, local: Seq<Local>, n: int)
    requires
        0 <= n,
    ensures
        ({
            let places = Seq::new(n as nat, |k: int| k);
            let asked = places.filter(|k: int| local[k] matches Ok(Some(_)));
            let done = places.filter(|k: int| !(local[k] matches Ok(Some(_))));
            &&& candidates(list, local, n) == asked.map_values(
                |k: int| CandidateView { prepared: list[k], expected: local[k]->Ok_0->0 },
            )
            &&& settled(list, local, n) == done.map_values(
                |k: int|
                    match local[k] {
                        Ok(_) => OutcomeView::Current { url: list[k].found.url },
                        Err(failure) => OutcomeView::Error {
                            found: list[k].found,
                            message: failure.text(),
                        },
                    },
            )
        }),
    decreases n,
{
    let places = Seq::new(n as nat, |k: int| k);
    let wanting = |k: int| local[k] matches Ok(Some(_));
    let resting = |k: int| !(local[k] matches Ok(Some(_)));
    let candidate = |k: int|
        CandidateView { prepared: list[k], expected: local[k]->Ok_0->0 };
    let said = |k: int|
        match local[k] {
            Ok(_) => OutcomeView::Current { url: list[k].found.url },
            Err(failure) => OutcomeView::Error { found: list[k].found, message: failure.text() },
        };
    reveal(Seq::filter);
    if n == 0 {
        assert(places.filter(wanting).map_values(candidate) =~= Seq::<CandidateView>::empty());
        assert(places.filter(resting).map_values(said) =~= Seq::<OutcomeView>::empty());
    } else {
        let front = Seq::new((n - 1) as nat, |k: int| k);
        checks_sort_the_links(list, local, n - 1);
        assert(places =~= front.push(n - 1));
        front.lemma_filter_push(n - 1, wanting);
        front.lemma_filter_push(n - 1, resting);
        if wanting(n - 1) {
            assert(front.filter(wanting).push(n - 1).map_values(candidate) =~= front.filter(
                wanting,
            ).map_values(candidate).push(candidate(n - 1)));
        } else {
            assert(front.filter(resting).push(n - 1).map_values(said) =~= front.filter(
                resting,
            ).map_values(said).push(said(n - 1)));
        }
    }
}

/// The links of a group that can be checked are all of them, where all commits could be fetched
/// together; else those whose commit could be fetched by itself. Of each of the others it is said
/// why not, and where the repository could not be opened that is said of all of them.
pub proof fn links_with_their_commit_can_be_checked(
    members: Seq<FoundUrlView>,
    repository: RepositoryView,
    fetched: Seq<Result<(), FailureView>>,
    failure: FailureView,
)
    ensures
        Readiness::Fetched(repository).checkable(members) == members,
        Readiness::Fetched(repository).errors(members).len() == 0,
        Readiness::Unopened(failure).checkable(members).len() == 0,
        Readiness::Unopened(failure).errors(members) == Seq::new(
            members.len(),
            |k: int| OutcomeView::Error { found: members[k], message: failure.text() },
        ),
        ({
            let places = Seq::new(members.len(), |k: int| k);
            let readiness = Readiness::OneByOne(repository, fetched);
            &&& readiness.checkable(members) == places.filter(
                |k: int| fetched[k] is Ok,
            ).map_values(|k: int| members[k])
            &&& readiness.errors(members) == places.filter(|k: int| fetched[k] is Err).map_values(
                |k: int|
                    OutcomeView::Error { found: members[k], message: fetched[k]->Err_0.text() },
            )
        }),
{
    assert(Readiness::Unopened(failure).errors(members) =~= Seq::new(
        members.len(),
        |k: int| OutcomeView::Error { found: members[k], message: failure.text() },
    ));
    fetches_sort_the_links(members, fetched, members.len() as int);
}

proof fn fetches_sort_the_links(
    members: Seq<FoundUrlView>,
    fetched: Seq<Result<(), FailureView>>,
    n: int,
)
    requires
        0 <= n,
    ensures
        ({
            let places = Seq::new(n as nat, |k: int| k);
            &&& at_hand(members, fetched, n) == places.filter(
                |k: int| fetched[k] is Ok,
            ).map_values(|k: int| members[k])
            &&& out_of_reach(members, fetched, n) == places.filter(
                |k: int| fetched[k] is Err,
            ).map_values(
                |k: int|
                    OutcomeView::Error { found: members[k], message: fetched[k]->Err_0.text() },
            )
        }),
    decreases n,
{
    let places = Seq::new(n as nat, |k: int| k);
    let there = |k: int| fetched[k] is Ok;
    let missing = |k: int| fetched[k] is Err;
    let link = |k: int| members[k];
    let said = |k: int|
        OutcomeView::Error { found: members[k], message: fetched[k]->Err_0.text() };
    reveal(Seq::filter);
    if n == 0 {
        assert(places.filter(there).map_values(link) =~= Seq::<FoundUrlView>::empty());
        assert(places.filter(missing).map_values(said) =~= Seq::<OutcomeView>::empty());
    } else {
        let front = Seq::new((n - 1) as nat, |k: int| k);
        fetches_sort_the_links(members, fetched, n - 1);
        assert(places =~= front.push(n - 1));
        front.lemma_filter_push(n - 1, there);
        front.lemma_filter_push(n - 1, missing);
        if there(n - 1) {
            assert(front.filter(there).push(n - 1).map_values(link) =~= front.filter(
                there,
            ).map_values(link).push(link(n - 1)));
        } else {
            assert(front.filter(missing).push(n - 1).map_values(said) =~= front.filter(
                missing,
            ).map_values(said).push(said(n - 1)));
        }
    }
}

/// What is told in the course of a check: each repository by the names of its owner and its own,
/// each link that is checked, how many have to be investigated, and each of these; all with their
/// numbers, counted from one, and the number of all.
pub proof fn events_are_named_and_numbered(
    cache: Seq<u8>,
    groups: Seq<GroupView>,
    steps: Seq<Step>,
    course: Course,
)
    requires
        course_plan(cache, groups).ran(steps, course),
    ensures
        events(steps) == Seq::new(
            groups.len(),
            |i: int|
                ProgressView::Preparing {
                    repository: groups[i].key.owner + "/"@ + groups[i].key.repo,
                    index: (i + 1) as nat,
                    total: groups.len(),
                },
        ) + Seq::new(
            course.prepared(groups).len(),
            |i: int|
                ProgressView::Checking {
                    url: course.prepared(groups)[i].found.url,
                    index: (i + 1) as nat,
                    total: course.prepared(groups).len(),
                },
        ) + seq![ProgressView::InvestigationCount { total: course.candidates(groups).len() }]
            + Seq::new(
            course.candidates(groups).len(),
            |i: int|
                ProgressView::Investigating {
                    url: course.candidates(groups)[i].prepared.found.url,
                    index: (i + 1) as nat,
                    total: course.candidates(groups).len(),
                },
        ),
{
    events_follow_the_course(cache, groups, steps, course);
    assert(preparing(groups) =~= Seq::new(
        groups.len(),
        |i: int|
            ProgressView::Preparing {
                repository: groups[i].key.owner + "/"@ + groups[i].key.repo,
                index: (i + 1) as nat,
                total: groups.len(),
            },
    ));
    assert(checking(course.prepared(groups)) =~= Seq::new(
        course.prepared(groups).len(),
        |i: int|
            ProgressView::Checking {
                url: course.prepared(groups)[i].found.url,
                index: (i + 1) as nat,
                total: course.prepared(groups).len(),
            },
    ));
    assert(investigating(course.candidates(groups)) =~= Seq::new(
        course.candidates(groups).len(),
        |i: int|
            ProgressView::Investigating {
                url: course.candidates(groups)[i].prepared.found.url,
                index: (i + 1) as nat,
                total: course.candidates(groups).len(),
            },
    ));
}

/// The links that are checked are those of each repository that could be opened whose commit is
/// there, repository by repository, each with its repository and in the order of the links.
pub proof fn links_are_checked_repository_by_repository(groups: Seq<GroupView>, course: Course)
    ensures
        course.prepared(groups) == Seq::new(
            groups.len(),
            |g: int|
                match course.ready[g] {
                    Readiness::Unopened(_) => Seq::empty(),
                    Readiness::Fetched(repository) => groups[g].members.map_values(
                        |found: FoundUrlView|
                            PreparedView { key: groups[g].key, repository, found },
                    ),
                    Readiness::OneByOne(repository, _) => course.ready[g].checkable(
                        groups[g].members,
                    ).map_values(
                        |found: FoundUrlView|
                            PreparedView { key: groups[g].key, repository, found },
                    ),
                },
        ).flatten(),
{
    prepared_links_are_flattened(groups, course.ready, groups.len() as int);
}

proof fn prepared_links_are_flattened(groups: Seq<GroupView>, ready: Seq<Readiness>, n: int)
    requires
        0 <= n,
    ensures
        prepared(groups, ready, n) == Seq::new(
            n as nat,
            |g: int|
                match ready[g] {
                    Readiness::Unopened(_) => Seq::empty(),
                    Readiness::Fetched(repository) => groups[g].members.map_values(
                        |found: FoundUrlView|
                            PreparedView { key: groups[g].key, repository, found },
                    ),
                    Readiness::OneByOne(repository, _) => ready[g].checkable(
                        groups[g].members,
                    ).map_values(
                        |found: FoundUrlView|
                            PreparedView { key: groups[g].key, repository, found },
                    ),
                },
        ).flatten(),
    decreases n,
{
    let part = |g: int|
        match ready[g] {
            Readiness::Unopened(_) => Seq::empty(),
            Readiness::Fetched(repository) => groups[g].members.map_values(
                |found: FoundUrlView| PreparedView { key: groups[g].key, repository, found },
            ),
            Readiness::OneByOne(repository, _) => ready[g].checkable(
                groups[g].members,
            ).map_values(
                |found: FoundUrlView| PreparedView { key: groups[g].key, repository, found },
            ),
        };
    let all = Seq::new(n as nat, part);
    if n == 0 {
        assert(all.flatten() =~= Seq::<PreparedView>::empty());
    } else {
        let fewer = Seq::new((n - 1) as nat, part);
        let last = part(n - 1);
        prepared_links_are_flattened(groups, ready, n - 1);
        assert(all =~= fewer.push(last));
        fewer.lemma_flatten_push(last);
        assert(prepared_in(groups, ready, n - 1) =~= last);
    }
}

/// A link is investigated only where the history of its repository could be made whole. That is
/// tried for the first link of the repository that has to be investigated; where it fails, it fails
/// all of them with the same words, and none of them is investigated.
pub proof fn links_need_their_history(
    cache: Seq<u8>,
    groups: Seq<GroupView>,
    steps: Seq<Step>,
    course: Course,
    k: int,
) -> (parts: (int, Seq<Step>, Result<(), FailureView>, Seq<Step>))
    requires
        course_plan(cache, groups).ran(steps, course),
        0 <= k < course.candidates(groups).len(),
    ensures
        ({
            let list = course.candidates(groups);
            let (j, deepening, history, search) = parts;
            &&& 0 <= j <= k
            &&& list[j].prepared.key == list[k].prepared.key
            &&& deepen_plan(list[j].prepared.repository).ran(deepening, history)
            &&& part_of(deepening, steps)
            &&& part_of(search, steps)
            &&& match history {
                Err(failure) => course.verdicts[k] == Err::<Option<StaleReportView>, _>(failure)
                    && search.len() == 0,
                Ok(_) => investigate_plan(
                    list[k].prepared.repository,
                    list[k].prepared.found,
                    list[k].expected,
                ).ran(search, course.verdicts[k]),
            }
        }),
{
    let log = checks_are_logged(cache, groups, steps, course);
    let list = course.candidates(groups);
    let none = Seq::<Step>::empty();
    let j = first_with_its_key(list, k);
    let earlier = log.investigating[j].steps;
    inquiries_stand_in_the_log(cache, groups, course, log, j);
    let (deepening, rest) = inquiry_parts(
        list,
        course.histories,
        course.verdicts[j],
        j,
        earlier,
    );
    stands_between(none, deepening, rest);
    assert(none + deepening + rest =~= earlier);
    parts_within(deepening, earlier, steps);
    let piece = log.investigating[k].steps;
    inquiries_stand_in_the_log(cache, groups, course, log, k);
    let (before, search) = inquiry_parts(list, course.histories, course.verdicts[k], k, piece);
    stands_between(before, search, none);
    assert(before + search + none =~= piece);
    parts_within(search, piece, steps);
    let history = course.histories[list[k].prepared.key];
    if history is Err {
        first_step(verdict_plan(list[k], history), search, course.verdicts[k]);
    }
    (j, deepening, history, search)
}

} // verus!
