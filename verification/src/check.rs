//! The check of links against the default branches of their repositories.

use crate::cache::{can_prepare, fetch_plan, open_plan, repository_view, CachePlace, PlaceFacts};
use crate::course::{
    at_hand, candidate_next, candidate_plan, candidates, check_all_next, check_all_plan,
    checked_next, checking_event, commits_of, count_event, course_made, course_plan, fetched_next,
    full_name, group_plan, groups_are_known, history_made, history_plan, investigate_all_next,
    investigate_all_plan, investigated, investigating_event, links_plan, of_group, opened_next,
    out_of_reach, outcomes_made, preparation_errors, prepare_next, prepare_plan, prepared,
    prepared_next, preparing_event, settled, singles_next, singles_plan, unopened, verdict_made,
    verdict_plan, CandidateView, Histories, Local, PreparedView, Readiness, Verdict,
};
use crate::failure::{Failure, FailureView};
use crate::git::{unit_view, Command, Reply};
use crate::group::{group_urls, group_views, keys_are_comparable, Group, GroupView};
use crate::index::{found_views, FoundUrl, FoundUrlView};
use crate::listener::{
    all_events, can_count, can_follow, checked_links, counted_by, followed_by, no_events,
    CheckProgress, CheckedLinks, Everything, Nobody,
};
use crate::outcome::{
    failed_outcome, outcome_of_verdict, outcome_views, verdict_outcome, CheckOutcome, OutcomeView,
};
use crate::plan::{allowed, first_step, tell, Act, Answer, Answers, Plan, Step};
use crate::report::StaleReportView;
use crate::repository::{deepen_plan, Repository, RepositoryView};
use crate::service::can_run;
use crate::text::{byte_views, string_views};
use crate::url::SourceUrl;
use crate::verdict::{check_local, investigate, lines_view, local_plan, report_view};
use crate::world::{
    begins, continues, did, did_nothing, ends, finishes, makes, on_course, starts, steps_on,
    world_of, Outside, World,
};
use vstd::prelude::*;

verus! {

// ---------------------------------------------------------------------------------------------
// Preparing
// ---------------------------------------------------------------------------------------------

/// The commits that links name.
fn commits_in(members: &Vec<FoundUrl>) -> (commits: Vec<String>)
    ensures
        string_views(commits@) == commits_of(found_views(members@)),
{
    let mut commits: Vec<String> = Vec::new();
    for i in 0..members.len()
        invariant
            string_views(commits@) == commits_of(found_views(members@)).take(i as int),
    {
        let ghost before = string_views(commits@);
        let commit = members[i].url.commit.clone();
        let ghost named = commit@;
        commits.push(commit);
        assert(string_views(commits@) == before.push(named));
        assert(commits_of(found_views(members@)).take(i + 1) == before.push(named));
    }
    assert(commits_of(found_views(members@)).take(members@.len() as int) == commits_of(
        found_views(members@),
    ));
    commits
}

/// Says of each link that its repository could not be opened.
fn report_unopened(
    members: Vec<FoundUrl>,
    failure: &Failure,
    outcomes: &mut Vec<CheckOutcome>,
)
    ensures
        outcome_views(final(outcomes)@) == outcome_views(old(outcomes)@) + unopened(
            found_views(members@),
            failure@,
        ),
{
    let ghost all = unopened(found_views(members@), failure@);
    let ghost before = outcome_views(outcomes@);
    for found in each: members
        invariant
            all == unopened(found_views(each.seq()), failure@),
            outcome_views(outcomes@) == before + all.take(each.index() as int),
    {
        let ghost at = each.index() as int;
        let ghost listed = outcome_views(outcomes@);
        let outcome = failed_outcome(found, failure);
        let ghost added = outcome@;
        outcomes.push(outcome);
        assert(outcome_views(outcomes@) == listed.push(added));
        assert(all.take(at + 1) == all.take(at).push(added));
    }
    assert(all.take(all.len() as int) == all);
}

/// Fetches the commit of each link by itself, and keeps the links whose commits are there.
fn fetch_one_by_one<W: Outside>(
    repository: &Repository,
    world: &mut W,
    members: Vec<FoundUrl>,
    outcomes: &mut Vec<CheckOutcome>,
) -> (result: (Vec<FoundUrl>, Ghost<Seq<Result<(), FailureView>>>))
    requires
        old(world).ready(),
    ensures
        did(
            *old(world),
            *final(world),
            singles_plan(repository@, found_views(members@), 0, Seq::empty()),
            Readiness::OneByOne(repository@, result.1@),
        ),
        found_views(result.0@) == at_hand(
            found_views(members@),
            result.1@,
            members@.len() as int,
        ),
        outcome_views(final(outcomes)@) == outcome_views(old(outcomes)@) + out_of_reach(
            found_views(members@),
            result.1@,
            members@.len() as int,
        ),
{
    let ghost start = *world;
    let ghost all = found_views(members@);
    let ghost whole = singles_plan(repository@, all, 0, Seq::empty());
    let ghost before = outcome_views(outcomes@);
    let mut kept: Vec<FoundUrl> = Vec::new();
    let ghost mut fetched: Seq<Result<(), FailureView>> = Seq::empty();
    proof {
        starts(start, whole);
    }
    for found in each: members
        invariant
            start == *old(world),
            world.ready(),
            whole == singles_plan(repository@, all, 0, Seq::empty()),
            on_course(
                start,
                *world,
                whole,
                singles_plan(repository@, all, each.index() as int, fetched),
            ),
            all == found_views(each.seq()),
            fetched.len() == each.index(),
            found_views(kept@) == at_hand(all, fetched, fetched.len() as int),
            outcome_views(outcomes@) == before + out_of_reach(all, fetched, fetched.len() as int),
    {
        let ghost at = each.index() as int;
        let ghost known = fetched;
        let ghost listed = outcome_views(outcomes@);
        let ghost held = found_views(kept@);
        let ghost view = found@;
        let ghost earlier = *world;
        assert(all[at] == view);
        let result = repository.fetch_commit(world, found.url.commit.as_str());
        proof {
            continues(
                start,
                earlier,
                *world,
                whole,
                fetch_plan(repository@.path, seq![view.url.commit]),
                singles_next(repository@, all, at, known),
                unit_view(result),
            );
            fetched = known.push(unit_view(result));
            at_hand_keeps(all, known, fetched, at);
        }
        match result {
            Ok(()) => {
                kept.push(found);
                assert(found_views(kept@) == held.push(view));
            },
            Err(failure) => {
                let outcome = failed_outcome(found, &failure);
                let ghost added = outcome@;
                outcomes.push(outcome);
                assert(outcome_views(outcomes@) == listed.push(added));
            },
        }
    }
    proof {
        ends(start, *world, whole, Readiness::OneByOne(repository@, fetched));
    }
    (kept, Ghost(fetched))
}

proof fn at_hand_keeps(
    members: Seq<FoundUrlView>,
    a: Seq<Result<(), FailureView>>,
    b: Seq<Result<(), FailureView>>,
    n: int,
)
    requires
        n <= a.len(),
        n <= b.len(),
        forall|k: int| #![trigger b[k]] 0 <= k < n ==> a[k] == b[k],
    ensures
        at_hand(members, a, n) == at_hand(members, b, n),
        out_of_reach(members, a, n) == out_of_reach(members, b, n),
    decreases n,
{
    if n > 0 {
        at_hand_keeps(members, a, b, n - 1);
        assert(a[n - 1] == b[n - 1]);
    }
}

/// Makes the repository of a group ready: opens it, and fetches the commits that its links name,
/// one by one where they cannot be fetched together, so that a single commit that is not to be
/// had keeps no other link from being checked.
fn prepare_group<W: Outside>(
    cache: &[u8],
    world: &mut W,
    group: Group,
    outcomes: &mut Vec<CheckOutcome>,
) -> (result: (Option<Repository>, Vec<FoundUrl>, Ghost<Readiness>))
    requires
        old(world).ready(),
        group@.members.len() > 0,
    ensures
        did(*old(world), *final(world), group_plan(cache@, group@), result.2@),
        result.2@.repository() == match result.0 {
            Some(repository) => Some(repository@),
            None => None,
        },
        found_views(result.1@) == result.2@.checkable(group@.members),
        outcome_views(final(outcomes)@) == outcome_views(old(outcomes)@) + result.2@.errors(
            group@.members,
        ),
{
    let ghost start = *world;
    let ghost members = group@.members;
    let ghost whole = group_plan(cache@, group@);
    let ghost next = opened_next(members);
    let opened = Repository::open_or_update(world, cache, &group.members[0].url);
    let ghost view = repository_view(opened);
    assert(members[0].url == group.members@[0].url@);
    proof {
        begins(start, *world, open_plan(cache@, members[0].url), next, view);
    }
    match opened {
        Err(failure) => {
            proof {
                ends(start, *world, whole, Readiness::Unopened(failure@));
            }
            report_unopened(group.members, &failure, outcomes);
            let none: Vec<FoundUrl> = Vec::new();
            assert(found_views(none@) == Seq::<FoundUrlView>::empty());
            (None, none, Ghost(Readiness::Unopened(failure@)))
        },
        Ok(repository) => {
            let ghost asked = *world;
            let ghost then_next = fetched_next(repository@, members);
            let commits = commits_in(&group.members);
            let fetched = repository.fetch_commits(world, commits.as_slice());
            let ghost tried = *world;
            proof {
                continues(
                    start,
                    asked,
                    tried,
                    whole,
                    fetch_plan(repository@.path, commits_of(members)),
                    then_next,
                    unit_view(fetched),
                );
            }
            match fetched {
                Ok(()) => {
                    let ghost readiness = Readiness::Fetched(repository@);
                    proof {
                        ends(start, tried, whole, readiness);
                    }
                    assert(outcome_views(outcomes@) == outcome_views(old(outcomes)@)
                        + readiness.errors(members));
                    (Some(repository), group.members, Ghost(readiness))
                },
                Err(_) => {
                    let (kept, Ghost(singly)) = fetch_one_by_one(
                        &repository,
                        world,
                        group.members,
                        outcomes,
                    );
                    let ghost readiness = Readiness::OneByOne(repository@, singly);
                    proof {
                        finishes(
                            start,
                            tried,
                            *world,
                            whole,
                            then_next(unit_view(fetched)),
                            readiness,
                        );
                    }
                    (Some(repository), kept, Ghost(readiness))
                },
            }
        },
    }
}

/// A link that can be checked, and the group that it stands in.
struct Prepared {
    group: usize,
    found: FoundUrl,
}

/// Whether a link stands for one that is known with its repository.
spec fn stands_for(
    one: Prepared,
    groups: Seq<GroupView>,
    repositories: Seq<Option<Repository>>,
    view: PreparedView,
) -> bool {
    &&& one.group < repositories.len() <= groups.len()
    &&& view.key == groups[one.group as int].key
    &&& one.found@ == view.found
    &&& repositories[one.group as int] matches Some(repository) && repository@ == view.repository
}

/// Whether links stand for others that are known with their repositories.
spec fn lists_prepared(
    list: Seq<Prepared>,
    groups: Seq<GroupView>,
    repositories: Seq<Option<Repository>>,
    views: Seq<PreparedView>,
) -> bool {
    &&& list.len() == views.len()
    &&& forall|k: int|
        #![trigger list[k]]
        #![trigger views[k]]
        0 <= k < list.len() ==> stands_for(list[k], groups, repositories, views[k])
}

/// Puts the links of a group behind others.
fn add_prepared(
    list: &mut Vec<Prepared>,
    group: usize,
    found: Vec<FoundUrl>,
    Ghost(groups): Ghost<Seq<GroupView>>,
    Ghost(repositories): Ghost<Seq<Option<Repository>>>,
    Ghost(repository): Ghost<RepositoryView>,
    Ghost(views): Ghost<Seq<PreparedView>>,
)
    requires
        lists_prepared(old(list)@, groups, repositories, views),
        found@.len() > 0 ==> group < repositories.len() <= groups.len() && (
        repositories[group as int] matches Some(known) && known@ == repository),
    ensures
        lists_prepared(
            final(list)@,
            groups,
            repositories,
            views + of_group(groups[group as int].key, repository, found_views(found@)),
        ),
{
    let ghost key = groups[group as int].key;
    let ghost all = of_group(key, repository, found_views(found@));
    assert(views + all.take(0) == views);
    for one in each: found
        invariant
            key == groups[group as int].key,
            all == of_group(key, repository, found_views(each.seq())),
            each.seq().len() > 0 ==> group < repositories.len() <= groups.len() && (
            repositories[group as int] matches Some(known) && known@ == repository),
            lists_prepared(list@, groups, repositories, views + all.take(each.index() as int)),
    {
        let ghost at = each.index() as int;
        let ghost before = list@;
        let ghost listed = views + all.take(at);
        list.push(Prepared { group, found: one });
        proof {
            assert(all.take(at + 1) == all.take(at).push(all[at]));
            let more = views + all.take(at + 1);
            assert(more == listed.push(all[at]));
            assert forall|k: int|
                #![trigger list@[k]]
                #![trigger more[k]]
                0 <= k < list@.len() implies stands_for(
                list@[k],
                groups,
                repositories,
                more[k],
            ) by {
                if k < before.len() {
                    assert(list@[k] == before[k]);
                    assert(more[k] == listed[k]);
                }
            }
        }
    }
    assert(all.take(all.len() as int) == all);
}

proof fn prepared_lists_keep(
    list: Seq<Prepared>,
    groups: Seq<GroupView>,
    repositories: Seq<Option<Repository>>,
    views: Seq<PreparedView>,
    next: Option<Repository>,
)
    requires
        lists_prepared(list, groups, repositories, views),
        repositories.len() < groups.len(),
    ensures
        lists_prepared(list, groups, repositories.push(next), views),
{
    let more = repositories.push(next);
    assert forall|k: int|
        #![trigger list[k]]
        #![trigger views[k]]
        0 <= k < list.len() implies stands_for(list[k], groups, more, views[k]) by {
        assert(stands_for(list[k], groups, repositories, views[k]));
        assert(more[list[k].group as int] == repositories[list[k].group as int]);
    }
}

proof fn preparation_keeps(groups: Seq<GroupView>, a: Seq<Readiness>, b: Seq<Readiness>, n: int)
    requires
        n <= a.len(),
        n <= b.len(),
        forall|k: int| #![trigger b[k]] 0 <= k < n ==> a[k] == b[k],
    ensures
        prepared(groups, a, n) == prepared(groups, b, n),
        preparation_errors(groups, a, n) == preparation_errors(groups, b, n),
    decreases n,
{
    if n > 0 {
        preparation_keeps(groups, a, b, n - 1);
        assert(a[n - 1] == b[n - 1]);
    }
}

/// Makes the repositories of all groups ready.
fn prepare_all<W: Outside>(
    cache: &[u8],
    world: &mut W,
    groups: Vec<Group>,
    outcomes: &mut Vec<CheckOutcome>,
) -> (result: (Vec<Option<Repository>>, Vec<Prepared>, Ghost<Seq<Readiness>>))
    requires
        old(world).ready(),
        forall|i: int|
            #![trigger groups@[i]]
            0 <= i < groups@.len() ==> groups@[i]@.members.len() > 0,
    ensures
        did(
            *old(world),
            *final(world),
            prepare_plan(cache@, group_views(groups@), 0, Seq::empty()),
            result.2@,
        ),
        result.0@.len() == groups@.len(),
        lists_prepared(
            result.1@,
            group_views(groups@),
            result.0@,
            prepared(group_views(groups@), result.2@, groups@.len() as int),
        ),
        outcome_views(final(outcomes)@) == outcome_views(old(outcomes)@) + preparation_errors(
            group_views(groups@),
            result.2@,
            groups@.len() as int,
        ),
{
    let ghost start = *world;
    let ghost all = group_views(groups@);
    let ghost whole = prepare_plan(cache@, all, 0, Seq::empty());
    let ghost before = outcome_views(outcomes@);
    let total = groups.len();
    let mut repositories: Vec<Option<Repository>> = Vec::new();
    let mut list: Vec<Prepared> = Vec::new();
    let ghost mut known: Seq<Readiness> = Seq::empty();
    let mut index: usize = 0;
    assert(preparation_errors(all, known, 0) == Seq::<OutcomeView>::empty());
    assert(before + Seq::<OutcomeView>::empty() == before);
    proof {
        starts(start, whole);
    }
    for group in each: groups
        invariant
            start == *old(world),
            world.ready(),
            whole == prepare_plan(cache@, all, 0, Seq::empty()),
            on_course(start, *world, whole, prepare_plan(cache@, all, index as int, known)),
            all == group_views(each.seq()),
            total == each.seq().len(),
            forall|i: int|
                #![trigger each.seq()[i]]
                0 <= i < each.seq().len() ==> each.seq()[i]@.members.len() > 0,
            index == each.index(),
            known.len() == index,
            repositories@.len() == index,
            lists_prepared(list@, all, repositories@, prepared(all, known, index as int)),
            outcome_views(outcomes@) == before + preparation_errors(all, known, index as int),
    {
        let ghost at = index as int;
        let ghost had = known;
        let ghost listed = outcome_views(outcomes@);
        let ghost view = group@;
        let ghost next = prepare_next(cache@, all, at, had);
        let ghost rest = group_plan(cache@, view).then_by(next);
        let ghost earlier = *world;
        assert(each.seq()[at] == group);
        assert(all[at] == view);
        let name = group.owner.clone().concat("/").concat(group.repo.as_str());
        assert(name@ == full_name(view.key));
        world.tell(
            CheckProgress::Preparing { repository: name.as_str(), index: index + 1, total },
        );
        let ghost told = *world;
        proof {
            let event = preparing_event(all, at);
            let plan = tell(event, rest);
            steps_on(
                start,
                earlier,
                told,
                whole,
                Act::Tell(event),
                plan->Do_1,
                Answer::Nothing,
            );
        }
        let (repository, found, Ghost(readiness)) = prepare_group(cache, world, group, outcomes);
        proof {
            continues(start, told, *world, whole, group_plan(cache@, view), next, readiness);
            known = had.push(readiness);
            preparation_keeps(all, had, known, at);
            prepared_lists_keep(list@, all, repositories@, prepared(all, had, at), repository);
            assert(preparation_errors(all, known, at + 1) == preparation_errors(all, known, at)
                + readiness.errors(view.members));
            assert(before + preparation_errors(all, known, at + 1) == listed + readiness.errors(
                view.members,
            ));
        }
        let ghost opened = readiness.repository();
        assert(found_views(found@).len() == found@.len());
        repositories.push(repository);
        add_prepared(
            &mut list,
            index,
            found,
            Ghost(all),
            Ghost(repositories@),
            Ghost(opened->0),
            Ghost(prepared(all, known, at)),
        );
        proof {
            if opened is None {
                assert(prepared(all, known, at) + of_group(
                    all[at].key,
                    opened->0,
                    found_views(found@),
                ) == prepared(all, known, at + 1));
            }
        }
        index = index + 1;
    }
    proof {
        ends(start, *world, whole, known);
    }
    (repositories, list, Ghost(known))
}

// ---------------------------------------------------------------------------------------------
// Checking
// ---------------------------------------------------------------------------------------------

/// A link that has to be investigated, with the lines that it names.
struct Candidate {
    prepared: Prepared,
    expected: Vec<Vec<u8>>,
}

/// Whether links stand for others that are known with their repositories and lines.
spec fn lists_candidates(
    list: Seq<Candidate>,
    groups: Seq<GroupView>,
    repositories: Seq<Option<Repository>>,
    views: Seq<CandidateView>,
) -> bool {
    &&& list.len() == views.len()
    &&& forall|k: int|
        #![trigger list[k]]
        #![trigger views[k]]
        0 <= k < list.len() ==> {
            &&& stands_for(list[k].prepared, groups, repositories, views[k].prepared)
            &&& byte_views(list[k].expected@) == views[k].expected
        }
}

proof fn checks_keep(
    prepared: Seq<PreparedView>,
    a: Seq<Local>,
    b: Seq<Local>,
    n: int,
)
    requires
        n <= a.len(),
        n <= b.len(),
        forall|k: int| #![trigger b[k]] 0 <= k < n ==> a[k] == b[k],
    ensures
        candidates(prepared, a, n) == candidates(prepared, b, n),
        settled(prepared, a, n) == settled(prepared, b, n),
    decreases n,
{
    if n > 0 {
        checks_keep(prepared, a, b, n - 1);
        assert(a[n - 1] == b[n - 1]);
    }
}

/// Sorts a link by what the check on its default branch came to.
fn sort_out(
    one: Prepared,
    local: Result<Option<Vec<Vec<u8>>>, Failure>,
    list: &mut Vec<Candidate>,
    outcomes: &mut Vec<CheckOutcome>,
    Ghost(groups): Ghost<Seq<GroupView>>,
    Ghost(repositories): Ghost<Seq<Option<Repository>>>,
    Ghost(prepared): Ghost<Seq<PreparedView>>,
    Ghost(known): Ghost<Seq<Local>>,
)
    requires
        known.len() > 0,
        known.len() <= prepared.len(),
        known.last() == lines_view(local),
        stands_for(one, groups, repositories, prepared[known.len() - 1]),
        lists_candidates(
            old(list)@,
            groups,
            repositories,
            candidates(prepared, known, known.len() - 1),
        ),
    ensures
        lists_candidates(
            final(list)@,
            groups,
            repositories,
            candidates(prepared, known, known.len() as int),
        ),
        exists|added: Seq<OutcomeView>|
            {
                &&& #[trigger] (outcome_views(old(outcomes)@) + added) == outcome_views(
                    final(outcomes)@,
                )
                &&& settled(prepared, known, known.len() - 1) + added == settled(
                    prepared,
                    known,
                    known.len() as int,
                )
            },
{
    let ghost n = known.len() as int;
    let ghost listed = outcome_views(outcomes@);
    let ghost before = list@;
    let ghost views = candidates(prepared, known, n - 1);
    match local {
        Ok(Some(expected)) => {
            let ghost lines = byte_views(expected@);
            list.push(Candidate { prepared: one, expected });
            proof {
                let more = candidates(prepared, known, n);
                assert(more == views.push(
                    CandidateView { prepared: prepared[n - 1], expected: lines },
                ));
                assert forall|k: int|
                    #![trigger list@[k]]
                    #![trigger more[k]]
                    0 <= k < list@.len() implies {
                    &&& stands_for(list@[k].prepared, groups, repositories, more[k].prepared)
                    &&& byte_views(list@[k].expected@) == more[k].expected
                } by {
                    if k < before.len() {
                        assert(list@[k] == before[k]);
                        assert(more[k] == views[k]);
                    }
                }
                assert(listed + Seq::<OutcomeView>::empty() == listed);
                assert(settled(prepared, known, n - 1) + Seq::<OutcomeView>::empty() == settled(
                    prepared,
                    known,
                    n,
                ));
            }
        },
        Ok(None) => {
            let outcome = CheckOutcome::Current { url: one.found.url };
            let ghost added = outcome@;
            outcomes.push(outcome);
            assert(outcome_views(outcomes@) == listed + seq![added]);
            assert(settled(prepared, known, n - 1) + seq![added] == settled(prepared, known, n));
        },
        Err(failure) => {
            let outcome = failed_outcome(one.found, &failure);
            let ghost added = outcome@;
            outcomes.push(outcome);
            assert(outcome_views(outcomes@) == listed + seq![added]);
            assert(settled(prepared, known, n - 1) + seq![added] == settled(prepared, known, n));
        },
    }
}

/// Checks all links against what the repositories have at hand.
fn check_all<W: Outside>(
    world: &mut W,
    repositories: &Vec<Option<Repository>>,
    prepared: Vec<Prepared>,
    outcomes: &mut Vec<CheckOutcome>,
    Ghost(groups): Ghost<Seq<GroupView>>,
    Ghost(views): Ghost<Seq<PreparedView>>,
) -> (result: (Vec<Candidate>, Ghost<Seq<Local>>))
    requires
        old(world).ready(),
        lists_prepared(prepared@, groups, repositories@, views),
    ensures
        did(
            *old(world),
            *final(world),
            check_all_plan(views, 0, Seq::empty()),
            result.1@,
        ),
        lists_candidates(
            result.0@,
            groups,
            repositories@,
            candidates(views, result.1@, views.len() as int),
        ),
        outcome_views(final(outcomes)@) == outcome_views(old(outcomes)@) + settled(
            views,
            result.1@,
            views.len() as int,
        ),
{
    let ghost start = *world;
    let ghost whole = check_all_plan(views, 0, Seq::empty());
    let ghost before = outcome_views(outcomes@);
    let total = prepared.len();
    let mut list: Vec<Candidate> = Vec::new();
    let ghost mut known: Seq<Local> = Seq::empty();
    let mut index: usize = 0;
    assert(before + Seq::<OutcomeView>::empty() == before);
    proof {
        starts(start, whole);
    }
    for one in each: prepared
        invariant
            start == *old(world),
            world.ready(),
            whole == check_all_plan(views, 0, Seq::empty()),
            on_course(start, *world, whole, check_all_plan(views, index as int, known)),
            lists_prepared(each.seq(), groups, repositories@, views),
            total == views.len(),
            index == each.index(),
            known.len() == index,
            lists_candidates(list@, groups, repositories@, candidates(views, known, index as int)),
            outcome_views(outcomes@) == before + settled(views, known, index as int),
    {
        let ghost at = index as int;
        let ghost had = known;
        let ghost view = views[at];
        let ghost part = local_plan(view.repository, view.found.url);
        let ghost next = check_all_next(views, at, had);
        let ghost earlier = *world;
        assert(each.seq()[at] == one);
        assert(stands_for(one, groups, repositories@, view));
        world.tell(CheckProgress::Checking { url: &one.found.url, index: index + 1, total });
        let ghost told = *world;
        proof {
            let event = checking_event(views, at);
            let plan = tell(event, part.then_by(next));
            steps_on(
                start,
                earlier,
                told,
                whole,
                Act::Tell(event),
                plan->Do_1,
                Answer::Nothing,
            );
        }
        let local = match &repositories[one.group] {
            Some(repository) => check_local(repository, world, &one.found),
            None => {
                assert(false);
                Ok(None)
            },
        };
        let ghost listed = outcome_views(outcomes@);
        proof {
            continues(start, told, *world, whole, part, next, lines_view(local));
            known = had.push(lines_view(local));
            checks_keep(views, had, known, at);
        }
        sort_out(
            one,
            local,
            &mut list,
            outcomes,
            Ghost(groups),
            Ghost(repositories@),
            Ghost(views),
            Ghost(known),
        );
        proof {
            let added = choose|added: Seq<OutcomeView>|
                {
                    &&& #[trigger] (listed + added) == outcome_views(outcomes@)
                    &&& settled(views, known, at) + added == settled(views, known, at + 1)
                };
            assert(before + settled(views, known, at + 1) == listed + added);
        }
        index = index + 1;
    }
    proof {
        ends(start, *world, whole, known);
    }
    (list, Ghost(known))
}

// ---------------------------------------------------------------------------------------------
// Investigating
// ---------------------------------------------------------------------------------------------

/// Whether a list says of each repository what came of making its history whole, where that was
/// asked.
spec fn lists_histories(
    list: Seq<Option<Result<(), Failure>>>,
    groups: Seq<GroupView>,
    histories: Histories,
) -> bool {
    &&& list.len() == groups.len()
    &&& forall|i: int|
        #![trigger groups[i]]
        #![trigger list[i]]
        0 <= i < list.len() ==> {
            &&& histories.contains_key(groups[i].key) <==> list[i] is Some
            &&& list[i] is Some ==> histories[groups[i].key] == unit_view(list[i]->0)
        }
}

/// Whether each repository has one group.
spec fn keys_differ(groups: Seq<GroupView>) -> bool {
    forall|i: int, j: int|
        #![trigger groups[i], groups[j]]
        0 <= i < groups.len() && 0 <= j < groups.len() && groups[i].key == groups[j].key ==> i
            == j
}

/// Makes the history of a repository whole, if that was not asked before.
fn deepen_once<W: Outside>(
    world: &mut W,
    repository: &Repository,
    list: &mut Vec<Option<Result<(), Failure>>>,
    group: usize,
    Ghost(groups): Ghost<Seq<GroupView>>,
    Ghost(view): Ghost<PreparedView>,
    Ghost(histories): Ghost<Histories>,
) -> (result: Ghost<Histories>)
    requires
        old(world).ready(),
        group < groups.len(),
        view.key == groups[group as int].key,
        repository@ == view.repository,
        keys_differ(groups),
        lists_histories(old(list)@, groups, histories),
    ensures
        did(*old(world), *final(world), history_plan(view, histories), result@),
        lists_histories(final(list)@, groups, result@),
        final(list)@[group as int] is Some,
{
    let ghost start = *world;
    let ghost had = list@;
    if list[group].is_some() {
        proof {
            did_nothing(start, histories);
        }
        return Ghost(histories);
    }
    let history = repository.ensure_full_default_history(world);
    let ghost answer = unit_view(history);
    list.set(group, Some(history));
    let ghost more = histories.insert(view.key, answer);
    proof {
        assert(had[group as int] is None);
        makes(
            start,
            *world,
            deepen_plan(repository@),
            history_made(histories, view.key),
            answer,
        );
        assert forall|i: int|
            #![trigger groups[i]]
            #![trigger list@[i]]
            0 <= i < list@.len() implies {
            &&& more.contains_key(groups[i].key) <==> list@[i] is Some
            &&& list@[i] is Some ==> more[groups[i].key] == unit_view(list@[i]->0)
        } by {
            if i != group {
                assert(list@[i] == had[i]);
                assert(groups[i].key != groups[group as int].key);
            }
        }
    }
    Ghost(more)
}

/// What the investigation of a link comes to, where the history of its repository is known.
fn investigate_one<W: Outside>(
    world: &mut W,
    repository: &Repository,
    one: Candidate,
    history: &Result<(), Failure>,
    Ghost(view): Ghost<CandidateView>,
) -> (result: (CheckOutcome, Ghost<Verdict>))
    requires
        old(world).ready(),
        repository@ == view.prepared.repository,
        one.prepared.found@ == view.prepared.found,
        byte_views(one.expected@) == view.expected,
    ensures
        did(
            *old(world),
            *final(world),
            verdict_plan(view, unit_view(*history)),
            result.1@,
        ),
        result.0@ == verdict_outcome(view.prepared.found, result.1@),
{
    match history {
        Err(failure) => {
            proof {
                did_nothing(*world, Err::<Option<StaleReportView>, FailureView>(failure@));
            }
            (failed_outcome(one.prepared.found, failure), Ghost(Err(failure@)))
        },
        Ok(_) => {
            let verdict = investigate(
                repository,
                world,
                &one.prepared.found,
                one.expected.as_slice(),
            );
            let ghost answer = report_view(verdict);
            (outcome_of_verdict(one.prepared.found, verdict), Ghost(answer))
        },
    }
}

/// Investigates a link whose lines are not where they were.
fn investigate_candidate<W: Outside>(
    world: &mut W,
    repositories: &Vec<Option<Repository>>,
    one: Candidate,
    list: &mut Vec<Option<Result<(), Failure>>>,
    Ghost(groups): Ghost<Seq<GroupView>>,
    Ghost(view): Ghost<CandidateView>,
    Ghost(histories): Ghost<Histories>,
) -> (result: (CheckOutcome, Ghost<(Histories, Verdict)>))
    requires
        old(world).ready(),
        stands_for(one.prepared, groups, repositories@, view.prepared),
        byte_views(one.expected@) == view.expected,
        keys_differ(groups),
        lists_histories(old(list)@, groups, histories),
    ensures
        did(*old(world), *final(world), candidate_plan(view, histories), result.1@),
        lists_histories(final(list)@, groups, result.1@.0),
        result.0@ == verdict_outcome(view.prepared.found, result.1@.1),
{
    let ghost start = *world;
    let ghost whole = candidate_plan(view, histories);
    let ghost next = candidate_next(view);
    let group = one.prepared.group;
    match &repositories[group] {
        None => {
            assert(false);
            (CheckOutcome::Current { url: one.prepared.found.url }, Ghost(arbitrary()))
        },
        Some(repository) => {
            let Ghost(more) = deepen_once(
                world,
                repository,
                list,
                group,
                Ghost(groups),
                Ghost(view.prepared),
                Ghost(histories),
            );
            let ghost whole_history = *world;
            proof {
                begins(start, *world, history_plan(view.prepared, histories), next, more);
            }
            match &list[group] {
                None => {
                    assert(false);
                    (CheckOutcome::Current { url: one.prepared.found.url }, Ghost(arbitrary()))
                },
                Some(history) => {
                    let ghost known = unit_view(*history);
                    assert(more[groups[group as int].key] == known);
                    let (outcome, Ghost(verdict)) = investigate_one(
                        world,
                        repository,
                        one,
                        history,
                        Ghost(view),
                    );
                    proof {
                        let part = verdict_plan(view, known);
                        makes(whole_history, *world, part, verdict_made(more), verdict);
                        finishes(
                            start,
                            whole_history,
                            *world,
                            whole,
                            next(more),
                            (more, verdict),
                        );
                    }
                    (outcome, Ghost((more, verdict)))
                },
            }
        },
    }
}

/// Investigates all links whose lines are not where they were.
fn investigate_all<W: Outside>(
    world: &mut W,
    repositories: &Vec<Option<Repository>>,
    list: Vec<Candidate>,
    outcomes: &mut Vec<CheckOutcome>,
    Ghost(groups): Ghost<Seq<GroupView>>,
    Ghost(views): Ghost<Seq<CandidateView>>,
) -> (result: Ghost<(Histories, Seq<Verdict>)>)
    requires
        old(world).ready(),
        repositories@.len() == groups.len(),
        keys_differ(groups),
        lists_candidates(list@, groups, repositories@, views),
    ensures
        did(
            *old(world),
            *final(world),
            investigate_all_plan(views, 0, Map::empty(), Seq::empty()),
            result@,
        ),
        outcome_views(final(outcomes)@) == outcome_views(old(outcomes)@) + investigated(
            views,
            result@.1,
        ),
{
    let ghost start = *world;
    let ghost whole = investigate_all_plan(views, 0, Map::empty(), Seq::empty());
    let ghost before = outcome_views(outcomes@);
    let total = list.len();
    let mut asked: Vec<Option<Result<(), Failure>>> = Vec::new();
    for i in 0..repositories.len()
        invariant
            asked@.len() == i,
            forall|g: int| 0 <= g < asked@.len() ==> (#[trigger] asked@[g]) is None,
    {
        asked.push(None);
    }
    let ghost mut histories: Histories = Map::empty();
    let ghost mut verdicts: Seq<Verdict> = Seq::empty();
    let mut index: usize = 0;
    proof {
        starts(start, whole);
    }
    for one in each: list
        invariant
            start == *old(world),
            world.ready(),
            whole == investigate_all_plan(views, 0, Map::empty(), Seq::empty()),
            on_course(
                start,
                *world,
                whole,
                investigate_all_plan(views, index as int, histories, verdicts),
            ),
            lists_candidates(each.seq(), groups, repositories@, views),
            keys_differ(groups),
            total == views.len(),
            index == each.index(),
            lists_histories(asked@, groups, histories),
            verdicts.len() == index,
            outcome_views(outcomes@) == before + Seq::new(
                index as nat,
                |k: int| verdict_outcome(views[k].prepared.found, verdicts[k]),
            ),
    {
        let ghost at = index as int;
        let ghost had = verdicts;
        let ghost known = histories;
        let ghost view = views[at];
        let ghost part = candidate_plan(view, known);
        let ghost next = investigate_all_next(views, at, known, had);
        let ghost listed = outcome_views(outcomes@);
        let ghost earlier = *world;
        assert(each.seq()[at] == one);
        assert(stands_for(one.prepared, groups, repositories@, view.prepared));
        world.tell(
            CheckProgress::Investigating { url: &one.prepared.found.url, index: index + 1, total },
        );
        let ghost told = *world;
        proof {
            let event = investigating_event(views, at);
            let plan = tell(event, part.then_by(next));
            steps_on(
                start,
                earlier,
                told,
                whole,
                Act::Tell(event),
                plan->Do_1,
                Answer::Nothing,
            );
        }
        let (outcome, Ghost(answer)) = investigate_candidate(
            world,
            repositories,
            one,
            &mut asked,
            Ghost(groups),
            Ghost(view),
            Ghost(known),
        );
        let ghost added = outcome@;
        outcomes.push(outcome);
        proof {
            continues(start, told, *world, whole, part, next, answer);
            assert(outcome_views(outcomes@) == listed.push(added));
            histories = answer.0;
            verdicts = had.push(answer.1);
            assert(outcome_views(outcomes@) =~= before + Seq::new(
                (at + 1) as nat,
                |k: int| verdict_outcome(views[k].prepared.found, verdicts[k]),
            ));
        }
        index = index + 1;
    }
    proof {
        ends(start, *world, whole, (histories, verdicts));
    }
    Ghost((histories, verdicts))
}

// ---------------------------------------------------------------------------------------------
// The whole check
// ---------------------------------------------------------------------------------------------

/// Checks links, in three phases: the repositories are made ready, then all links are checked
/// against what is at hand, then those are investigated whose lines are not where they were.
pub fn check_links<W: Outside>(cache: &[u8], urls: Vec<FoundUrl>, world: &mut W) -> (outcomes: Vec<
    CheckOutcome,
>)
    requires
        old(world).ready(),
    ensures
        did(
            *old(world),
            *final(world),
            links_plan(cache@, found_views(urls@)),
            outcome_views(outcomes@),
        ),
{
    let ghost start = *world;
    let ghost all = found_views(urls@);
    let groups = group_urls(urls);
    let ghost sorted = group_views(groups@);
    let ghost whole = course_plan(cache@, sorted);
    proof {
        groups_are_known(sorted, all);
        assert forall|i: int, j: int|
            #![trigger sorted[i], sorted[j]]
            0 <= i < sorted.len() && 0 <= j < sorted.len() && sorted[i].key
                == sorted[j].key implies i == j by {
            keys_are_comparable(sorted[i].key, sorted[j].key);
        }
        assert forall|i: int| #![trigger groups@[i]] 0 <= i < groups@.len() implies
            groups@[i]@.members.len() > 0 by {
            assert(sorted[i] == groups@[i]@);
        }
    }
    let mut outcomes: Vec<CheckOutcome> = Vec::new();
    assert(outcome_views(outcomes@) == Seq::<OutcomeView>::empty());
    let (repositories, list, Ghost(known)) = prepare_all(cache, world, groups, &mut outcomes);
    let ghost at_hand = prepared(sorted, known, sorted.len() as int);
    let ghost readied = *world;
    proof {
        begins(
            start,
            readied,
            prepare_plan(cache@, sorted, 0, Seq::empty()),
            prepared_next(sorted),
            known,
        );
    }
    let (rest, Ghost(local)) = check_all(
        world,
        &repositories,
        list,
        &mut outcomes,
        Ghost(sorted),
        Ghost(at_hand),
    );
    let ghost open = candidates(at_hand, local, at_hand.len() as int);
    let ghost part = investigate_all_plan(open, 0, Map::empty(), Seq::empty());
    let ghost last = part.map_by(course_made(known, local));
    let ghost looked = *world;
    proof {
        continues(
            start,
            readied,
            looked,
            whole,
            check_all_plan(at_hand, 0, Seq::empty()),
            checked_next(sorted, known),
            local,
        );
    }
    world.tell(CheckProgress::InvestigationCount { total: rest.len() });
    let ghost told = *world;
    proof {
        let event = count_event(open);
        let plan = tell(event, last);
        steps_on(start, looked, told, whole, Act::Tell(event), plan->Do_1, Answer::Nothing);
    }
    let Ghost(found) = investigate_all(
        world,
        &repositories,
        rest,
        &mut outcomes,
        Ghost(sorted),
        Ghost(open),
    );
    proof {
        let course = course_made(known, local)(found);
        makes(told, *world, part, course_made(known, local), found);
        finishes(start, told, *world, whole, last, course);
        assert(course.prepared(sorted) == at_hand);
        assert(course.candidates(sorted) == open);
        assert(outcome_views(outcomes@) == course.outcomes(sorted));
        makes(start, *world, whole, outcomes_made(sorted), course);
    }
    outcomes
}

/// What is said of links where there is no cache.
pub open spec fn uncached(urls: Seq<FoundUrlView>, failure: FailureView) -> Seq<OutcomeView> {
    urls.map_values(
        |found: FoundUrlView|
            OutcomeView::Error {
                found,
                message: "could not initialize the user cache: "@ + failure.text(),
            },
    )
}

/// Says of each link that there is no cache.
pub fn without_cache(urls: Vec<FoundUrl>, failure: &Failure) -> (outcomes: Vec<CheckOutcome>)
    ensures
        outcome_views(outcomes@) == uncached(found_views(urls@), failure@),
{
    let ghost all = uncached(found_views(urls@), failure@);
    let message = "could not initialize the user cache: ".to_owned().concat(
        failure.to_string().as_str(),
    );
    let mut outcomes: Vec<CheckOutcome> = Vec::new();
    for found in each: urls
        invariant
            all == uncached(found_views(each.seq()), failure@),
            message@ == "could not initialize the user cache: "@ + failure@.text(),
            outcome_views(outcomes@) == all.take(each.index() as int),
    {
        let ghost at = each.index() as int;
        let ghost listed = outcome_views(outcomes@);
        let outcome = CheckOutcome::Error { found, message: message.clone() };
        let ghost added = outcome@;
        outcomes.push(outcome);
        assert(outcome_views(outcomes@) == listed.push(added));
        assert(all.take(at + 1) == all.take(at).push(added));
    }
    assert(all.take(all.len() as int) == all);
    outcomes
}

/// The plan of a check of links, with a cache or without: without one, nothing is asked or told.
pub open spec fn checks_plan(
    cache: Result<Seq<u8>, FailureView>,
    urls: Seq<FoundUrlView>,
) -> Plan<Seq<OutcomeView>> {
    match cache {
        Err(failure) => Plan::Done(uncached(urls, failure)),
        Ok(path) => links_plan(path, urls),
    }
}

/// A cache as its bytes, or why there is none.
pub open spec fn cache_view(cache: Result<Vec<u8>, Failure>) -> Result<Seq<u8>, FailureView> {
    match cache {
        Ok(path) => Ok(path@),
        Err(failure) => Err(failure@),
    }
}

/// Checks links in a cache, if there is one.
pub fn check_links_in<W: Outside>(
    cache: Result<Vec<u8>, Failure>,
    urls: Vec<FoundUrl>,
    world: &mut W,
) -> (outcomes: Vec<CheckOutcome>)
    requires
        old(world).ready(),
    ensures
        did(
            *old(world),
            *final(world),
            checks_plan(cache_view(cache), found_views(urls@)),
            outcome_views(outcomes@),
        ),
{
    match cache {
        Err(failure) => {
            proof {
                did_nothing(*world, uncached(found_views(urls@), failure@));
            }
            without_cache(urls, &failure)
        },
        Ok(path) => check_links(path.as_slice(), urls, world),
    }
}

/// Whether a check may have come to these outcomes: some steps carry out its plan, and every answer
/// is one that the world may give. The log that fixes which steps were taken is that of
/// [`check_links`] and [`check_links_in`].
pub open spec fn checked(
    may: Answers,
    cache: Result<Seq<u8>, FailureView>,
    urls: Seq<FoundUrlView>,
    outcomes: Seq<OutcomeView>,
) -> bool {
    exists|steps: Seq<Step>| #[trigger]
        checks_plan(cache, urls).ran(steps, outcomes) && allowed(may, steps)
}

/// Checks links in a cache, if there is one, and tells of every phase.
pub fn check_urls_with_phases<
    G: FnMut(&Command) -> Reply,
    D: FnMut(&CachePlace) -> PlaceFacts,
    P: FnMut(CheckProgress<'_>),
>(
    urls: Vec<FoundUrl>,
    cache: Result<Vec<u8>, Failure>,
    git: G,
    prepare: D,
    on_progress: P,
) -> (outcomes: Vec<CheckOutcome>)
    requires
        can_run(git),
        can_prepare(prepare),
        can_follow(on_progress),
    ensures
        checked(
            world_of(git, prepare, all_events(), followed_by(on_progress)),
            cache_view(cache),
            found_views(urls@),
            outcome_views(outcomes@),
        ),
{
    let mut world = World::new(git, prepare, Everything::new(on_progress));
    check_links_in(cache, urls, &mut world)
}

/// Checks links against the repositories in a cache.
pub fn check_urls_in_cache<
    G: FnMut(&Command) -> Reply,
    D: FnMut(&CachePlace) -> PlaceFacts,
    P: FnMut(CheckProgress<'_>),
>(
    cache: &[u8],
    urls: Vec<FoundUrl>,
    git: G,
    prepare: D,
    on_progress: P,
) -> (outcomes: Vec<CheckOutcome>)
    requires
        can_run(git),
        can_prepare(prepare),
        can_follow(on_progress),
    ensures
        checked(
            world_of(git, prepare, all_events(), followed_by(on_progress)),
            Ok(cache@),
            found_views(urls@),
            outcome_views(outcomes@),
        ),
{
    let mut world = World::new(git, prepare, Everything::new(on_progress));
    let outcomes = check_links(cache, urls, &mut world);
    assert(checks_plan(Ok(cache@), found_views(urls@)) == links_plan(cache@, found_views(urls@)));
    outcomes
}

/// Checks links in a cache, if there is one, and tells of each link that is checked.
pub fn check_urls_with<
    G: FnMut(&Command) -> Reply,
    D: FnMut(&CachePlace) -> PlaceFacts,
    P: FnMut(&SourceUrl, usize, usize),
>(
    urls: Vec<FoundUrl>,
    cache: Result<Vec<u8>, Failure>,
    git: G,
    prepare: D,
    on_url: P,
) -> (outcomes: Vec<CheckOutcome>)
    requires
        can_run(git),
        can_prepare(prepare),
        can_count(on_url),
    ensures
        checked(
            world_of(git, prepare, checked_links(), counted_by(on_url)),
            cache_view(cache),
            found_views(urls@),
            outcome_views(outcomes@),
        ),
{
    let mut world = World::new(git, prepare, CheckedLinks::new(on_url));
    check_links_in(cache, urls, &mut world)
}

/// Checks links in a cache, if there is one.
pub fn check_urls<G: FnMut(&Command) -> Reply, D: FnMut(&CachePlace) -> PlaceFacts>(
    urls: Vec<FoundUrl>,
    cache: Result<Vec<u8>, Failure>,
    git: G,
    prepare: D,
) -> (outcomes: Vec<CheckOutcome>)
    requires
        can_run(git),
        can_prepare(prepare),
    ensures
        checked(
            world_of(git, prepare, no_events(), no_events()),
            cache_view(cache),
            found_views(urls@),
            outcome_views(outcomes@),
        ),
{
    let mut world = World::new(git, prepare, Nobody);
    check_links_in(cache, urls, &mut world)
}

/// Without a cache every link is an error that says so, with the reason; none is left out, and
/// nothing is asked.
pub proof fn without_a_cache_every_link_fails(
    failure: FailureView,
    urls: Seq<FoundUrlView>,
    steps: Seq<Step>,
    outcomes: Seq<OutcomeView>,
)
    requires
        checks_plan(Err(failure), urls).ran(steps, outcomes),
    ensures
        steps.len() == 0,
        outcomes.len() == urls.len(),
        forall|i: int|
            #![trigger outcomes[i]]
            0 <= i < urls.len() ==> outcomes[i] == (OutcomeView::Error {
                found: urls[i],
                message: "could not initialize the user cache: "@ + match failure.cause {
                    Some(cause) => failure.message + ": "@ + cause,
                    None => failure.message,
                },
            }),
{
    first_step(checks_plan(Err(failure), urls), steps, outcomes);
}

} // verus!
