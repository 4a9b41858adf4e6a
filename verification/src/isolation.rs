//! A repository that cannot be opened: what becomes of its links, and of the others.

use crate::account::{
    checks_take_a_course, key_of_url, links_are_checked_in_their_repository,
    prepared_links_come_from_groups, ready_repositories_were_opened,
};
use crate::cache::open_plan;
use crate::course::{
    candidates, check_all_plan, checking, course_plan, group_plan, groups_are_known,
    groups_are_there, groups_of, investigate_all_plan, investigated, investigating, links_plan,
    opened_next, preparation_errors, prepared, prepared_in, preparing, settled, unopened, Course,
    Local, PreparedView, Readiness,
};
use crate::failure::FailureView;
use crate::group::{
    groups_without_one, is_grouping, key_of, keys_are_comparable, without, GroupView,
};
use crate::index::FoundUrlView;
use crate::listener::ProgressView;
use crate::outcome::{failed, OutcomeView};
use crate::phases::{
    checks_are_logged, checks_have_three_phases, events_follow_the_course, prepared_parts,
};
use crate::plan::{
    answered, chained, chains_split, events, fixed_worlds_fix_the_course, part_of,
    parts_are_answered, parts_of_parts, pieces_are_parts, stands_between, Act, Answer, Step,
};
use crate::repository::RepositoryView;
use vstd::prelude::*;

verus! {

proof fn errors_of_a_group(groups: Seq<GroupView>, ready: Seq<Readiness>, g: int, n: int) -> (at:
    int)
    requires
        0 <= g < n,
    ensures
        0 <= at,
        at + ready[g].errors(groups[g].members).len() <= preparation_errors(
            groups,
            ready,
            n,
        ).len(),
        preparation_errors(groups, ready, n).subrange(
            at,
            at + ready[g].errors(groups[g].members).len(),
        ) == ready[g].errors(groups[g].members),
    decreases n,
{
    let front = preparation_errors(groups, ready, n - 1);
    let list = preparation_errors(groups, ready, n);
    let errors = ready[g].errors(groups[g].members);
    if g == n - 1 {
        let at = front.len() as int;
        assert(list.subrange(at, at + errors.len()) == errors);
        at
    } else {
        let at = errors_of_a_group(groups, ready, g, n - 1);
        assert(list.subrange(at, at + errors.len()) == front.subrange(at, at + errors.len()));
        at
    }
}

/// Where a repository could not be opened, that was tried once and nothing else was asked of it;
/// every link of it yields an error that says why it could not; and none of its links is named
/// among those that are checked or investigated.
pub proof fn unopened_repositories_fail_their_links(
    cache: Seq<u8>,
    urls: Seq<FoundUrlView>,
    groups: Seq<GroupView>,
    g: int,
    steps: Seq<Step>,
    course: Course,
    failure: FailureView,
)
    requires
        is_grouping(groups, urls),
        course_plan(cache, groups).ran(steps, course),
        0 <= g < groups.len(),
        course.ready[g] == Readiness::Unopened(failure),
    ensures
        exists|part: Seq<Step>| #[trigger]
            open_plan(cache, groups[g].members[0].url).ran(part, Err(failure)) && part_of(
                part,
                steps,
            ),
        forall|m: int|
            #![trigger groups[g].members[m]]
            0 <= m < groups[g].members.len() ==> course.outcomes(groups).contains(
                failed(groups[g].members[m], failure),
            ),
        forall|i: int|
            #![trigger events(steps)[i]]
            0 <= i < events(steps).len() ==> match events(steps)[i] {
                ProgressView::Checking { url, .. } => key_of_url(url) != groups[g].key,
                ProgressView::Investigating { url, .. } => key_of_url(url) != groups[g].key,
                _ => true,
            },
{
    let n = groups.len() as int;
    let members = groups[g].members;
    let log = checks_are_logged(cache, groups, steps, course);
    let piece = log.preparing[g];
    let (a, opened, b) = chains_split(
        open_plan(cache, members[0].url),
        opened_next(members),
        piece.steps,
        course.ready[g],
    );
    ready_repositories_were_opened(members, opened, b, course.ready[g]);
    assert(a =~= piece.steps);
    pieces_are_parts(log.preparing, g);
    let behind = chained(log.checking) + seq![log.count] + chained(log.investigating);
    parts_of_parts(a, Seq::empty(), chained(log.preparing), behind);
    assert(Seq::<Step>::empty() + chained(log.preparing) + behind =~= steps);
    assert(opened == Err::<RepositoryView, _>(failure));
    let first = preparation_errors(groups, course.ready, n);
    let at = errors_of_a_group(groups, course.ready, g, n);
    assert forall|m: int| #![trigger groups[g].members[m]] 0 <= m
        < groups[g].members.len() implies course.outcomes(groups).contains(
        failed(groups[g].members[m], failure),
    ) by {
        let said = unopened(members, failure);
        assert(first.subrange(at, at + said.len())[m] == first[at + m]);
        assert(said[m] == failed(members[m], failure));
        assert(course.outcomes(groups)[at + m] == first[at + m]);
    }
    events_follow_the_course(cache, groups, steps, course);
    assert forall|i: int| #![trigger events(steps)[i]] 0 <= i < events(steps).len() implies (
    match events(steps)[i] {
        ProgressView::Checking { url, .. } => key_of_url(url) != groups[g].key,
        ProgressView::Investigating { url, .. } => key_of_url(url) != groups[g].key,
        _ => true,
    }) by {
        let list = course.prepared(groups);
        let rest = course.candidates(groups);
        let x = preparing(groups).len();
        let y = checking(list).len();
        let event = events(steps)[i];
        if i < x {
            assert(event == preparing(groups)[i]);
        } else if i < x + y {
            let k = i - x;
            assert(event == checking(list)[k]);
            prepared_links_are_of_other_groups(cache, urls, groups, g, steps, course, k);
        } else if i > x + y {
            let k = i - x - y - 1;
            assert(event == investigating(rest)[k]);
            let j = candidates_were_prepared(list, course.local, list.len() as int, k);
            prepared_links_are_of_other_groups(cache, urls, groups, g, steps, course, j);
        }
    }
}

proof fn candidates_were_prepared(
    prepared: Seq<PreparedView>,
    local: Seq<Local>,
    n: int,
    k: int,
) -> (j: int)
    requires
        0 <= k < candidates(prepared, local, n).len(),
    ensures
        0 <= j < n,
        candidates(prepared, local, n)[k].prepared == prepared[j],
    decreases n,
{
    let front = candidates(prepared, local, n - 1);
    if k < front.len() {
        assert(candidates(prepared, local, n)[k] == front[k]);
        candidates_were_prepared(prepared, local, n - 1, k)
    } else {
        n - 1
    }
}

proof fn prepared_links_are_of_other_groups(
    cache: Seq<u8>,
    urls: Seq<FoundUrlView>,
    groups: Seq<GroupView>,
    g: int,
    steps: Seq<Step>,
    course: Course,
    k: int,
)
    requires
        is_grouping(groups, urls),
        course_plan(cache, groups).ran(steps, course),
        0 <= g < groups.len(),
        course.ready[g] is Unopened,
        0 <= k < course.prepared(groups).len(),
    ensures
        key_of_url(course.prepared(groups)[k].found.url) != groups[g].key,
{
    let one = course.prepared(groups)[k];
    let n = groups.len() as int;
    let i = prepared_links_come_from_groups(groups, course.ready, n, k);
    keys_are_comparable(groups[i].key, groups[g].key);
    links_are_checked_in_their_repository(cache, urls, groups, steps, course, k);
    assert(i != g);
    assert(key_of(one.found) == key_of_url(one.found.url));
    if i < g {
        assert(groups[i].key.before(groups[g].key));
    } else {
        keys_are_comparable(groups[g].key, groups[i].key);
        assert(groups[g].key.before(groups[i].key));
    }
}

/// What is said of the links of the first `n` groups, with and without one that could not be
/// opened: the same before it, and the same behind it.
proof fn errors_without_one(groups: Seq<GroupView>, ready: Seq<Readiness>, g: int, n: int) -> (tail:
    Seq<OutcomeView>)
    requires
        0 <= g < n <= groups.len(),
        ready.len() == groups.len(),
        ready[g] is Unopened,
    ensures
        preparation_errors(groups, ready, n) == preparation_errors(groups, ready, g)
            + ready[g].errors(groups[g].members) + tail,
        preparation_errors(groups.remove(g), ready.remove(g), n - 1) == preparation_errors(
            groups,
            ready,
            g,
        ) + tail,
        prepared(groups.remove(g), ready.remove(g), n - 1) == prepared(groups, ready, n),
    decreases n,
{
    let fewer = groups.remove(g);
    let rest = ready.remove(g);
    if n == g + 1 {
        same_beginnings(groups, ready, fewer, rest, g);
        let none = Seq::<OutcomeView>::empty();
        let all = preparation_errors(groups, ready, g) + ready[g].errors(groups[g].members);
        assert(preparation_errors(groups, ready, n) == all + none);
        assert(preparation_errors(fewer, rest, g) == preparation_errors(groups, ready, g) + none);
        assert(prepared(groups, ready, n) == prepared(groups, ready, g));
        none
    } else {
        let front = errors_without_one(groups, ready, g, n - 1);
        assert(fewer[n - 2] == groups[n - 1]);
        assert(rest[n - 2] == ready[n - 1]);
        let added = ready[n - 1].errors(groups[n - 1].members);
        let tail = front + added;
        let start = preparation_errors(groups, ready, g);
        let middle = ready[g].errors(groups[g].members);
        assert(preparation_errors(groups, ready, n) =~= start + middle + tail);
        assert(preparation_errors(fewer, rest, n - 1) =~= start + tail);
        assert(prepared_in(fewer, rest, n - 2) == prepared_in(groups, ready, n - 1));
        tail
    }
}

proof fn same_beginnings(
    groups: Seq<GroupView>,
    ready: Seq<Readiness>,
    fewer: Seq<GroupView>,
    rest: Seq<Readiness>,
    n: int,
)
    requires
        0 <= n <= groups.len(),
        n <= ready.len(),
        n <= fewer.len(),
        n <= rest.len(),
        forall|k: int| #![trigger groups[k]] 0 <= k < n ==> groups[k] == fewer[k],
        forall|k: int| #![trigger ready[k]] 0 <= k < n ==> ready[k] == rest[k],
    ensures
        preparation_errors(groups, ready, n) == preparation_errors(fewer, rest, n),
        prepared(groups, ready, n) == prepared(fewer, rest, n),
    decreases n,
{
    if n > 0 {
        same_beginnings(groups, ready, fewer, rest, n - 1);
        assert(groups[n - 1] == fewer[n - 1]);
        assert(ready[n - 1] == rest[n - 1]);
        assert(prepared_in(groups, ready, n - 1) == prepared_in(fewer, rest, n - 1));
    }
}

proof fn same_readiness(
    cache: Seq<u8>,
    groups: Seq<GroupView>,
    fewer: Seq<GroupView>,
    world: spec_fn(Act) -> Answer,
    steps: Seq<Step>,
    course: Course,
    others: Seq<Step>,
    other: Course,
    i: int,
    j: int,
)
    requires
        course_plan(cache, groups).ran(steps, course),
        course_plan(cache, fewer).ran(others, other),
        answered(world, steps),
        answered(world, others),
        0 <= i < groups.len(),
        0 <= j < fewer.len(),
        groups[i] == fewer[j],
    ensures
        course.ready[i] == other.ready[j],
{
    let a = checks_are_logged(cache, groups, steps, course);
    let b = checks_are_logged(cache, fewer, others, other);
    let first = a.preparing[i];
    let second = b.preparing[j];
    prepared_parts(a, i, steps);
    prepared_parts(b, j, others);
    parts_are_answered(world, first.steps, steps);
    parts_are_answered(world, second.steps, others);
    fixed_worlds_fix_the_course(
        group_plan(cache, groups[i]),
        world,
        first.steps,
        course.ready[i],
        second.steps,
        other.ready[j],
    );
}

proof fn later_phases(
    cache: Seq<u8>,
    groups: Seq<GroupView>,
    world: spec_fn(Act) -> Answer,
    steps: Seq<Step>,
    course: Course,
) -> (parts: (Seq<Step>, Seq<Step>))
    requires
        course_plan(cache, groups).ran(steps, course),
        answered(world, steps),
    ensures
        check_all_plan(course.prepared(groups), 0, Seq::empty()).ran(parts.0, course.local),
        answered(world, parts.0),
        investigate_all_plan(course.candidates(groups), 0, Map::empty(), Seq::empty()).ran(
            parts.1,
            (course.histories, course.verdicts),
        ),
        answered(world, parts.1),
{
    let (a, b, c, d) = checks_have_three_phases(cache, groups, steps, course);
    let none = Seq::<Step>::empty();
    stands_between(a, b, seq![c] + d);
    stands_between(a + b + seq![c], d, none);
    assert(steps =~= a + b + (seq![c] + d));
    assert(steps =~= (a + b + seq![c]) + d + none);
    parts_are_answered(world, b, steps);
    parts_are_answered(world, d, steps);
    (b, d)
}

proof fn same_later_phases(
    cache: Seq<u8>,
    groups: Seq<GroupView>,
    fewer: Seq<GroupView>,
    world: spec_fn(Act) -> Answer,
    steps: Seq<Step>,
    course: Course,
    others: Seq<Step>,
    other: Course,
)
    requires
        course_plan(cache, groups).ran(steps, course),
        course_plan(cache, fewer).ran(others, other),
        answered(world, steps),
        answered(world, others),
        course.prepared(groups) == other.prepared(fewer),
    ensures
        course.local == other.local,
        course.candidates(groups) == other.candidates(fewer),
        course.verdicts == other.verdicts,
{
    let (a, b) = later_phases(cache, groups, world, steps, course);
    let (c, d) = later_phases(cache, fewer, world, others, other);
    fixed_worlds_fix_the_course(
        check_all_plan(course.prepared(groups), 0, Seq::empty()),
        world,
        a,
        course.local,
        c,
        other.local,
    );
    fixed_worlds_fix_the_course(
        investigate_all_plan(course.candidates(groups), 0, Map::empty(), Seq::empty()),
        world,
        b,
        (course.histories, course.verdicts),
        d,
        (other.histories, other.verdicts),
    );
}

proof fn each_group_is_readied(
    cache: Seq<u8>,
    groups: Seq<GroupView>,
    steps: Seq<Step>,
    course: Course,
)
    requires
        course_plan(cache, groups).ran(steps, course),
    ensures
        course.ready.len() == groups.len(),
{
    let log = checks_are_logged(cache, groups, steps, course);
}

proof fn ready_without_one(
    cache: Seq<u8>,
    groups: Seq<GroupView>,
    g: int,
    world: spec_fn(Act) -> Answer,
    steps: Seq<Step>,
    course: Course,
    others: Seq<Step>,
    other: Course,
)
    requires
        0 <= g < groups.len(),
        course_plan(cache, groups).ran(steps, course),
        course_plan(cache, groups.remove(g)).ran(others, other),
        answered(world, steps),
        answered(world, others),
    ensures
        course.ready.len() == groups.len(),
        other.ready == course.ready.remove(g),
{
    let fewer = groups.remove(g);
    each_group_is_readied(cache, groups, steps, course);
    each_group_is_readied(cache, fewer, others, other);
    assert forall|j: int| 0 <= j < fewer.len() implies other.ready[j] == course.ready.remove(
        g,
    )[j] by {
        let i = if j < g {
            j
        } else {
            j + 1
        };
        same_readiness(cache, groups, fewer, world, steps, course, others, other, i, j);
    }
    assert(other.ready =~= course.ready.remove(g));
}

proof fn outcomes_without_one(
    cache: Seq<u8>,
    groups: Seq<GroupView>,
    g: int,
    world: spec_fn(Act) -> Answer,
    steps: Seq<Step>,
    course: Course,
    others: Seq<Step>,
    other: Course,
) -> (parts: (Seq<OutcomeView>, Seq<OutcomeView>))
    requires
        0 <= g < groups.len(),
        course_plan(cache, groups).ran(steps, course),
        course.ready[g] is Unopened,
        course_plan(cache, groups.remove(g)).ran(others, other),
        answered(world, steps),
        answered(world, others),
    ensures
        course.outcomes(groups) == parts.0 + course.ready[g].errors(groups[g].members) + parts.1,
        other.outcomes(groups.remove(g)) == parts.0 + parts.1,
{
    let fewer = groups.remove(g);
    ready_without_one(cache, groups, g, world, steps, course, others, other);
    let tail = errors_without_one(groups, course.ready, g, groups.len() as int);
    same_later_phases(cache, groups, fewer, world, steps, course, others, other);
    let list = course.prepared(groups);
    let before = preparation_errors(groups, course.ready, g);
    let second = settled(list, course.local, list.len() as int);
    let third = investigated(course.candidates(groups), course.verdicts);
    let behind = tail + second + third;
    let said = course.ready[g].errors(groups[g].members);
    assert(course.outcomes(groups) == before + said + tail + second + third);
    assert(other.outcomes(fewer) == before + tail + second + third);
    assert(before + said + tail + second + third =~= before + said + behind);
    assert(before + tail + second + third =~= before + behind);
    (before, behind)
}

/// A repository that cannot be opened holds up no other: where each question has one answer, the
/// outcomes of the other links are those of a check without its links, in the same order.
pub proof fn unopened_repositories_hold_up_no_other(
    cache: Seq<u8>,
    urls: Seq<FoundUrlView>,
    g: int,
    world: spec_fn(Act) -> Answer,
    steps: Seq<Step>,
    course: Course,
    failure: FailureView,
    others: Seq<Step>,
    rest: Seq<OutcomeView>,
)
    requires
        0 <= g < groups_of(urls).len(),
        course_plan(cache, groups_of(urls)).ran(steps, course),
        course.ready[g] == Readiness::Unopened(failure),
        links_plan(cache, without(urls, groups_of(urls)[g].key)).ran(others, rest),
        answered(world, steps),
        answered(world, others),
    ensures
        exists|before: Seq<OutcomeView>, behind: Seq<OutcomeView>|
            {
                &&& course.outcomes(groups_of(urls)) == before + unopened(
                    groups_of(urls)[g].members,
                    failure,
                ) + behind
                &&& rest == #[trigger] (before + behind)
            },
{
    let groups = groups_of(urls);
    let fewer = groups.remove(g);
    let links = without(urls, groups[g].key);
    groups_are_there(urls);
    groups_without_one(groups, urls, g);
    groups_are_known(fewer, links);
    let other = checks_take_a_course(cache, links, others, rest);
    let (before, behind) = outcomes_without_one(
        cache,
        groups,
        g,
        world,
        steps,
        course,
        others,
        other,
    );
    assert(rest == before + behind);
}

} // verus!
