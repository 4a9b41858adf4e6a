//! The course of a check: the plan of what is asked of each repository and each link, in which
//! order, and what the answers come to.

use crate::cache::{fetch_plan, open_plan};
use crate::failure::FailureView;
use crate::group::{every_list_has_a_grouping, grouping_is_unique, is_grouping, GroupView, Key};
use crate::index::FoundUrlView;
use crate::listener::ProgressView;
use crate::outcome::{failed, verdict_outcome, OutcomeView};
use crate::plan::{tell, Plan};
use crate::report::StaleReportView;
use crate::repository::{deepen_plan, RepositoryView};
use crate::verdict::{investigate_plan, local_plan};
use vstd::prelude::*;

verus! {

// ---------------------------------------------------------------------------------------------
// Preparing
// ---------------------------------------------------------------------------------------------

/// What came of making a repository ready: it could not be opened; it was, and all commits that
/// its links name are there; or they could not be fetched together, and were fetched one by one.
pub enum Readiness {
    Unopened(FailureView),
    Fetched(RepositoryView),
    OneByOne(RepositoryView, Seq<Result<(), FailureView>>),
}

/// The commits that links name.
pub open spec fn commits_of(members: Seq<FoundUrlView>) -> Seq<Seq<char>> {
    members.map_values(|found: FoundUrlView| found.url.commit)
}

/// The plan to fetch the commits of the links from `at` on, each by itself.
pub open spec fn singles_plan(
    repository: RepositoryView,
    members: Seq<FoundUrlView>,
    at: int,
    fetched: Seq<Result<(), FailureView>>,
) -> Plan<Readiness>
    decreases members.len() - at, 1int,
{
    if at >= members.len() {
        Plan::Done(Readiness::OneByOne(repository, fetched))
    } else {
        fetch_plan(repository.path, seq![members[at].url.commit]).then_by(
            singles_next(repository, members, at, fetched),
        )
    }
}

/// What follows by whether the commit of one link could be fetched.
pub open spec fn singles_next(
    repository: RepositoryView,
    members: Seq<FoundUrlView>,
    at: int,
    fetched: Seq<Result<(), FailureView>>,
) -> spec_fn(Result<(), FailureView>) -> Plan<Readiness>
    decreases members.len() - at, 0int,
{
    |result: Result<(), FailureView>|
        if at >= members.len() {
            Plan::Done(Readiness::OneByOne(repository, fetched))
        } else {
            singles_plan(repository, members, at + 1, fetched.push(result))
        }
}

/// What follows by whether the commits could be fetched together: they are fetched one by one
/// only where they could not.
pub open spec fn fetched_next(repository: RepositoryView, members: Seq<FoundUrlView>) -> spec_fn(
    Result<(), FailureView>,
) -> Plan<Readiness> {
    |fetched: Result<(), FailureView>|
        match fetched {
            Ok(_) => Plan::Done(Readiness::Fetched(repository)),
            Err(_) => singles_plan(repository, members, 0, Seq::empty()),
        }
}

/// What follows by whether the repository could be opened.
pub open spec fn opened_next(members: Seq<FoundUrlView>) -> spec_fn(
    Result<RepositoryView, FailureView>,
) -> Plan<Readiness> {
    |opened: Result<RepositoryView, FailureView>|
        match opened {
            Err(failure) => Plan::Done(Readiness::Unopened(failure)),
            Ok(repository) => fetch_plan(repository.path, commits_of(members)).then_by(
                fetched_next(repository, members),
            ),
        }
}

/// The plan to make the repository of a group ready.
pub open spec fn group_plan(cache: Seq<u8>, group: GroupView) -> Plan<Readiness> {
    open_plan(cache, group.members[0].url).then_by(opened_next(group.members))
}

/// The links whose commits are there, of the first `n`.
pub open spec fn at_hand(
    members: Seq<FoundUrlView>,
    fetched: Seq<Result<(), FailureView>>,
    n: int,
) -> Seq<FoundUrlView>
    decreases n,
{
    if n <= 0 {
        Seq::empty()
    } else if fetched[n - 1] is Ok {
        at_hand(members, fetched, n - 1).push(members[n - 1])
    } else {
        at_hand(members, fetched, n - 1)
    }
}

/// What is said of the links whose commits are not there, of the first `n`.
pub open spec fn out_of_reach(
    members: Seq<FoundUrlView>,
    fetched: Seq<Result<(), FailureView>>,
    n: int,
) -> Seq<OutcomeView>
    decreases n,
{
    if n <= 0 {
        Seq::empty()
    } else {
        match fetched[n - 1] {
            Ok(_) => out_of_reach(members, fetched, n - 1),
            Err(failure) => out_of_reach(members, fetched, n - 1).push(
                failed(members[n - 1], failure),
            ),
        }
    }
}

/// What is said of links whose repository could not be opened.
pub open spec fn unopened(members: Seq<FoundUrlView>, failure: FailureView) -> Seq<OutcomeView> {
    members.map_values(|found: FoundUrlView| failed(found, failure))
}

impl Readiness {
    /// The repository, where it could be opened.
    pub open spec fn repository(self) -> Option<RepositoryView> {
        match self {
            Readiness::Unopened(_) => None,
            Readiness::Fetched(repository) => Some(repository),
            Readiness::OneByOne(repository, _) => Some(repository),
        }
    }

    /// The links that can be checked.
    pub open spec fn checkable(self, members: Seq<FoundUrlView>) -> Seq<FoundUrlView> {
        match self {
            Readiness::Unopened(_) => Seq::empty(),
            Readiness::Fetched(_) => members,
            Readiness::OneByOne(_, fetched) => at_hand(members, fetched, members.len() as int),
        }
    }

    /// What is said of the links that cannot be checked.
    pub open spec fn errors(self, members: Seq<FoundUrlView>) -> Seq<OutcomeView> {
        match self {
            Readiness::Unopened(failure) => unopened(members, failure),
            Readiness::Fetched(_) => Seq::empty(),
            Readiness::OneByOne(_, fetched) => out_of_reach(
                members,
                fetched,
                members.len() as int,
            ),
        }
    }
}

/// A link that can be checked: what its repository goes by, the repository, and the link.
pub struct PreparedView {
    pub key: Key,
    pub repository: RepositoryView,
    pub found: FoundUrlView,
}

/// Links of one group, each with its repository.
pub open spec fn of_group(
    key: Key,
    repository: RepositoryView,
    found: Seq<FoundUrlView>,
) -> Seq<PreparedView> {
    found.map_values(|found: FoundUrlView| PreparedView { key, repository, found })
}

/// The links of a group that can be checked.
pub open spec fn prepared_in(groups: Seq<GroupView>, ready: Seq<Readiness>, i: int) -> Seq<
    PreparedView,
> {
    match ready[i].repository() {
        None => Seq::empty(),
        Some(repository) => of_group(
            groups[i].key,
            repository,
            ready[i].checkable(groups[i].members),
        ),
    }
}

/// The links of the first `n` groups that can be checked.
pub open spec fn prepared(groups: Seq<GroupView>, ready: Seq<Readiness>, n: int) -> Seq<
    PreparedView,
>
    decreases n,
{
    if n <= 0 {
        Seq::empty()
    } else {
        prepared(groups, ready, n - 1) + prepared_in(groups, ready, n - 1)
    }
}

/// What is said of the links of the first `n` groups that cannot be checked.
pub open spec fn preparation_errors(groups: Seq<GroupView>, ready: Seq<Readiness>, n: int) -> Seq<
    OutcomeView,
>
    decreases n,
{
    if n <= 0 {
        Seq::empty()
    } else {
        preparation_errors(groups, ready, n - 1) + ready[n - 1].errors(groups[n - 1].members)
    }
}

/// What is told before the repository of a group is made ready.
pub open spec fn preparing_event(groups: Seq<GroupView>, i: int) -> ProgressView {
    ProgressView::Preparing {
        repository: full_name(groups[i].key),
        index: (i + 1) as nat,
        total: groups.len(),
    }
}

/// The plan to make the repositories of the groups from `at` on ready, one after another.
pub open spec fn prepare_plan(
    cache: Seq<u8>,
    groups: Seq<GroupView>,
    at: int,
    ready: Seq<Readiness>,
) -> Plan<Seq<Readiness>>
    decreases groups.len() - at, 1int,
{
    if at >= groups.len() {
        Plan::Done(ready)
    } else {
        tell(
            preparing_event(groups, at),
            group_plan(cache, groups[at]).then_by(prepare_next(cache, groups, at, ready)),
        )
    }
}

/// What follows once the repository of one group was made ready.
pub open spec fn prepare_next(
    cache: Seq<u8>,
    groups: Seq<GroupView>,
    at: int,
    ready: Seq<Readiness>,
) -> spec_fn(Readiness) -> Plan<Seq<Readiness>>
    decreases groups.len() - at, 0int,
{
    |readiness: Readiness|
        if at >= groups.len() {
            Plan::Done(ready)
        } else {
            prepare_plan(cache, groups, at + 1, ready.push(readiness))
        }
}

// ---------------------------------------------------------------------------------------------
// Checking
// ---------------------------------------------------------------------------------------------

/// A link that has to be investigated, with the lines that it names.
pub struct CandidateView {
    pub prepared: PreparedView,
    pub expected: Seq<Seq<u8>>,
}

/// The links that have to be investigated, of the first `n`.
pub open spec fn candidates(
    prepared: Seq<PreparedView>,
    local: Seq<Result<Option<Seq<Seq<u8>>>, FailureView>>,
    n: int,
) -> Seq<CandidateView>
    decreases n,
{
    if n <= 0 {
        Seq::empty()
    } else {
        match local[n - 1] {
            Ok(Some(expected)) => candidates(prepared, local, n - 1).push(
                CandidateView { prepared: prepared[n - 1], expected },
            ),
            _ => candidates(prepared, local, n - 1),
        }
    }
}

/// What is said of the links that need no investigation, of the first `n`.
pub open spec fn settled(
    prepared: Seq<PreparedView>,
    local: Seq<Result<Option<Seq<Seq<u8>>>, FailureView>>,
    n: int,
) -> Seq<OutcomeView>
    decreases n,
{
    if n <= 0 {
        Seq::empty()
    } else {
        match local[n - 1] {
            Ok(Some(_)) => settled(prepared, local, n - 1),
            Ok(None) => settled(prepared, local, n - 1).push(
                OutcomeView::Current { url: prepared[n - 1].found.url },
            ),
            Err(failure) => settled(prepared, local, n - 1).push(
                failed(prepared[n - 1].found, failure),
            ),
        }
    }
}

/// What a link comes to on the default branch as it is.
pub type Local = Result<Option<Seq<Seq<u8>>>, FailureView>;

/// What is told before a link is checked.
pub open spec fn checking_event(prepared: Seq<PreparedView>, i: int) -> ProgressView {
    ProgressView::Checking {
        url: prepared[i].found.url,
        index: (i + 1) as nat,
        total: prepared.len(),
    }
}

/// The plan to check the links from `at` on, one after another.
pub open spec fn check_all_plan(
    prepared: Seq<PreparedView>,
    at: int,
    local: Seq<Local>,
) -> Plan<Seq<Local>>
    decreases prepared.len() - at, 1int,
{
    if at >= prepared.len() {
        Plan::Done(local)
    } else {
        tell(
            checking_event(prepared, at),
            local_plan(prepared[at].repository, prepared[at].found.url).then_by(
                check_all_next(prepared, at, local),
            ),
        )
    }
}

/// What follows once one link was checked.
pub open spec fn check_all_next(
    prepared: Seq<PreparedView>,
    at: int,
    local: Seq<Local>,
) -> spec_fn(Local) -> Plan<Seq<Local>>
    decreases prepared.len() - at, 0int,
{
    |result: Local|
        if at >= prepared.len() {
            Plan::Done(local)
        } else {
            check_all_plan(prepared, at + 1, local.push(result))
        }
}

// ---------------------------------------------------------------------------------------------
// Investigating
// ---------------------------------------------------------------------------------------------

/// What an investigation comes to.
pub type Verdict = Result<Option<StaleReportView>, FailureView>;

/// What came of making the histories of repositories whole.
pub type Histories = Map<Key, Result<(), FailureView>>;

/// What is known of histories once one more was made whole.
pub open spec fn history_made(histories: Histories, key: Key) -> spec_fn(
    Result<(), FailureView>,
) -> Histories {
    |history: Result<(), FailureView>| histories.insert(key, history)
}

/// The plan to make the history of a repository whole, unless that was done before.
pub open spec fn history_plan(prepared: PreparedView, histories: Histories) -> Plan<Histories> {
    if histories.contains_key(prepared.key) {
        Plan::Done(histories)
    } else {
        deepen_plan(prepared.repository).map_by(history_made(histories, prepared.key))
    }
}

/// The plan of the investigation of a link, where it is known what came of the history of its
/// repository.
pub open spec fn verdict_plan(
    candidate: CandidateView,
    history: Result<(), FailureView>,
) -> Plan<Verdict> {
    match history {
        Err(failure) => Plan::Done(Err(failure)),
        Ok(_) => investigate_plan(
            candidate.prepared.repository,
            candidate.prepared.found,
            candidate.expected,
        ),
    }
}

/// A verdict, with what is known of histories.
pub open spec fn verdict_made(histories: Histories) -> spec_fn(Verdict) -> (Histories, Verdict) {
    |verdict: Verdict| (histories, verdict)
}

/// What follows once the history of the repository of a link is known.
pub open spec fn candidate_next(candidate: CandidateView) -> spec_fn(Histories) -> Plan<
    (Histories, Verdict),
> {
    |histories: Histories|
        verdict_plan(candidate, histories[candidate.prepared.key]).map_by(
            verdict_made(histories),
        )
}

/// The plan to investigate a link: the history of its repository is made whole first, unless that
/// was done for an earlier link.
pub open spec fn candidate_plan(candidate: CandidateView, histories: Histories) -> Plan<
    (Histories, Verdict),
> {
    history_plan(candidate.prepared, histories).then_by(candidate_next(candidate))
}

/// What is told before a link is investigated.
pub open spec fn investigating_event(candidates: Seq<CandidateView>, i: int) -> ProgressView {
    ProgressView::Investigating {
        url: candidates[i].prepared.found.url,
        index: (i + 1) as nat,
        total: candidates.len(),
    }
}

/// The plan to investigate the links from `at` on, one after another.
pub open spec fn investigate_all_plan(
    candidates: Seq<CandidateView>,
    at: int,
    histories: Histories,
    verdicts: Seq<Verdict>,
) -> Plan<(Histories, Seq<Verdict>)>
    decreases candidates.len() - at, 1int,
{
    if at >= candidates.len() {
        Plan::Done((histories, verdicts))
    } else {
        tell(
            investigating_event(candidates, at),
            candidate_plan(candidates[at], histories).then_by(
                investigate_all_next(candidates, at, histories, verdicts),
            ),
        )
    }
}

/// What follows once one link was investigated.
pub open spec fn investigate_all_next(
    candidates: Seq<CandidateView>,
    at: int,
    histories: Histories,
    verdicts: Seq<Verdict>,
) -> spec_fn((Histories, Verdict)) -> Plan<(Histories, Seq<Verdict>)>
    decreases candidates.len() - at, 0int,
{
    |known: (Histories, Verdict)|
        if at >= candidates.len() {
            Plan::Done((histories, verdicts))
        } else {
            investigate_all_plan(candidates, at + 1, known.0, verdicts.push(known.1))
        }
}

/// What is said of the links that were investigated.
pub open spec fn investigated(
    candidates: Seq<CandidateView>,
    verdicts: Seq<Verdict>,
) -> Seq<OutcomeView> {
    Seq::new(
        candidates.len(),
        |k: int| verdict_outcome(candidates[k].prepared.found, verdicts[k]),
    )
}

// ---------------------------------------------------------------------------------------------
// The whole course
// ---------------------------------------------------------------------------------------------

/// The answers in the course of a check: of each group its readiness, of each link that could be
/// checked what stands on the default branch, of each repository with links to investigate its
/// history, and of each such link what was found.
pub struct Course {
    pub ready: Seq<Readiness>,
    pub local: Seq<Local>,
    pub histories: Histories,
    pub verdicts: Seq<Verdict>,
}

impl Course {
    /// The links that can be checked.
    pub open spec fn prepared(self, groups: Seq<GroupView>) -> Seq<PreparedView> {
        prepared(groups, self.ready, groups.len() as int)
    }

    /// The links that have to be investigated.
    pub open spec fn candidates(self, groups: Seq<GroupView>) -> Seq<CandidateView> {
        candidates(self.prepared(groups), self.local, self.prepared(groups).len() as int)
    }

    /// What is said of every link: first of those that could not be checked, then of those that
    /// needed no investigation, then of the others.
    pub open spec fn outcomes(self, groups: Seq<GroupView>) -> Seq<OutcomeView> {
        preparation_errors(groups, self.ready, groups.len() as int) + settled(
            self.prepared(groups),
            self.local,
            self.prepared(groups).len() as int,
        ) + investigated(self.candidates(groups), self.verdicts)
    }

    /// What a listener is told, in this order.
    pub open spec fn events(self, groups: Seq<GroupView>) -> Seq<ProgressView> {
        preparing(groups) + checking(self.prepared(groups)) + seq![
            count_event(self.candidates(groups)),
        ] + investigating(self.candidates(groups))
    }
}

/// The name of a repository, with its owner.
pub open spec fn full_name(key: Key) -> Seq<char> {
    key.owner + "/"@ + key.repo
}

/// What is told while repositories are made ready.
pub open spec fn preparing(groups: Seq<GroupView>) -> Seq<ProgressView> {
    Seq::new(groups.len(), |i: int| preparing_event(groups, i))
}

/// What is told while links are checked.
pub open spec fn checking(prepared: Seq<PreparedView>) -> Seq<ProgressView> {
    Seq::new(prepared.len(), |i: int| checking_event(prepared, i))
}

/// What is told while links are investigated.
pub open spec fn investigating(candidates: Seq<CandidateView>) -> Seq<ProgressView> {
    Seq::new(candidates.len(), |i: int| investigating_event(candidates, i))
}

/// What is told between checking and investigating.
pub open spec fn count_event(candidates: Seq<CandidateView>) -> ProgressView {
    ProgressView::InvestigationCount { total: candidates.len() }
}

/// The whole course, with the last answers.
pub open spec fn course_made(ready: Seq<Readiness>, local: Seq<Local>) -> spec_fn(
    (Histories, Seq<Verdict>),
) -> Course {
    |known: (Histories, Seq<Verdict>)|
        Course { ready, local, histories: known.0, verdicts: known.1 }
}

/// What follows once all links were checked: their number is told, and the links are investigated
/// whose lines are not where they were.
pub open spec fn checked_next(groups: Seq<GroupView>, ready: Seq<Readiness>) -> spec_fn(
    Seq<Local>,
) -> Plan<Course> {
    |local: Seq<Local>|
        {
            let list = prepared(groups, ready, groups.len() as int);
            let rest = candidates(list, local, list.len() as int);
            tell(
                count_event(rest),
                investigate_all_plan(rest, 0, Map::empty(), Seq::empty()).map_by(
                    course_made(ready, local),
                ),
            )
        }
}

/// What follows once all repositories were made ready: all links are checked that can be.
pub open spec fn prepared_next(groups: Seq<GroupView>) -> spec_fn(Seq<Readiness>) -> Plan<Course> {
    |ready: Seq<Readiness>|
        check_all_plan(prepared(groups, ready, groups.len() as int), 0, Seq::empty()).then_by(
            checked_next(groups, ready),
        )
}

/// The plan of a check of groups of links.
pub open spec fn course_plan(cache: Seq<u8>, groups: Seq<GroupView>) -> Plan<Course> {
    prepare_plan(cache, groups, 0, Seq::empty()).then_by(prepared_next(groups))
}

/// The groups that links are sorted into. There is one way to sort them.
pub open spec fn groups_of(urls: Seq<FoundUrlView>) -> Seq<GroupView> {
    choose|groups: Seq<GroupView>| is_grouping(groups, urls)
}

/// Every list of links has its groups.
pub proof fn groups_are_there(urls: Seq<FoundUrlView>)
    ensures
        is_grouping(groups_of(urls), urls),
{
    every_list_has_a_grouping(urls);
}

/// The groups that links were sorted into are those that there are.
pub proof fn groups_are_known(groups: Seq<GroupView>, urls: Seq<FoundUrlView>)
    requires
        is_grouping(groups, urls),
    ensures
        groups == groups_of(urls),
        is_grouping(groups_of(urls), urls),
{
    grouping_is_unique(groups, groups_of(urls), urls);
}

/// What is said of every link, at the end of the course.
pub open spec fn outcomes_made(groups: Seq<GroupView>) -> spec_fn(Course) -> Seq<OutcomeView> {
    |course: Course| course.outcomes(groups)
}

/// The plan of a check of links.
pub open spec fn links_plan(cache: Seq<u8>, urls: Seq<FoundUrlView>) -> Plan<Seq<OutcomeView>> {
    course_plan(cache, groups_of(urls)).map_by(outcomes_made(groups_of(urls)))
}

} // verus!
