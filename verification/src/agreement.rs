//! On what the outcomes of a check depend, and who hears of it.

use crate::account::{checks_take_a_course, outcomes_match_links_in_number};
use crate::cache::{facts, CachePlace, FactsView, PlaceFacts};
use crate::check::{checked, checks_plan};
use crate::course::{
    checking, count_event, course_plan, groups_of, investigating, links_plan, preparing, Course,
};
use crate::failure::FailureView;
use crate::git::{Command, Reply, ReplyView};
use crate::group::GroupView;
use crate::index::FoundUrlView;
use crate::listener::{all_events, checked_links, no_events, Listener, ProgressView};
use crate::outcome::OutcomeView;
use crate::phases::events_follow_the_course;
use crate::plan::{
    allowed, answered, events, first_step, fixed_worlds_fix_the_course, Act, Answer, Step,
};
use crate::service::{replies, replies_once};
use crate::world::{did, world_of, Logged, World};
use vstd::prelude::*;

verus! {

// ---------------------------------------------------------------------------------------------
// One answer to each question
// ---------------------------------------------------------------------------------------------

/// Whether the same is found at each place of the cache.
pub open spec fn finds_once<D: FnMut(&CachePlace) -> PlaceFacts>(place: D) -> bool {
    forall|owner_directory: Seq<u8>, path: Seq<u8>, a: FactsView, b: FactsView| #[trigger]
        facts(place, owner_directory, path, a) && #[trigger] facts(
            place,
            owner_directory,
            path,
            b,
        ) ==> a == b
}

/// The world in which each question has the answer that these functions give.
pub open spec fn only_world<
    G: FnMut(&Command) -> Reply,
    D: FnMut(&CachePlace) -> PlaceFacts,
>(git: G, place: D) -> spec_fn(Act) -> Answer {
    |act: Act|
        match act {
            Act::Run(command) => Answer::Reply(
                choose|reply: ReplyView| #[trigger] replies(git, command, reply),
            ),
            Act::Prepare { owner_directory, path } => Answer::Facts(
                choose|known: FactsView| #[trigger] facts(place, owner_directory, path, known),
            ),
            _ => Answer::Nothing,
        }
}

proof fn single_answers_fix_the_world<
    G: FnMut(&Command) -> Reply,
    D: FnMut(&CachePlace) -> PlaceFacts,
>(
    git: G,
    place: D,
    passes: spec_fn(ProgressView) -> bool,
    hears: spec_fn(ProgressView) -> bool,
    steps: Seq<Step>,
)
    requires
        replies_once(git),
        finds_once(place),
        allowed(world_of(git, place, passes, hears), steps),
    ensures
        answered(only_world(git, place), steps),
{
    let may = world_of(git, place, passes, hears);
    let world = only_world(git, place);
    assert forall|i: int| #![trigger steps[i]] 0 <= i < steps.len() implies steps[i].answer
        == world(steps[i].act) by {
        let step = steps[i];
        assert(may(step.act, step.answer));
        match step.act {
            Act::Run(command) => {
                let reply = step.answer->Reply_0;
                assert(replies(git, command, reply));
            },
            Act::Prepare { owner_directory, path } => {
                let known = step.answer->Facts_0;
                assert(facts(place, owner_directory, path, known));
            },
            _ => {},
        }
    }
}

/// What a listener is told changes nothing: checks of the same links in the same cache, with the
/// same Git that has one reply to each command, come to the same outcomes, whoever listens. There
/// are as many as there are links, with a cache or without.
pub proof fn checks_agree<G: FnMut(&Command) -> Reply, D: FnMut(&CachePlace) -> PlaceFacts>(
    git: G,
    place: D,
    passes: spec_fn(ProgressView) -> bool,
    hears: spec_fn(ProgressView) -> bool,
    other_passes: spec_fn(ProgressView) -> bool,
    other_hears: spec_fn(ProgressView) -> bool,
    cache: Result<Seq<u8>, FailureView>,
    urls: Seq<FoundUrlView>,
    outcomes: Seq<OutcomeView>,
    others: Seq<OutcomeView>,
)
    requires
        replies_once(git),
        finds_once(place),
        checked(world_of(git, place, passes, hears), cache, urls, outcomes),
        checked(world_of(git, place, other_passes, other_hears), cache, urls, others),
    ensures
        outcomes == others,
        outcomes.len() == urls.len(),
{
    let plan = checks_plan(cache, urls);
    let first = world_of(git, place, passes, hears);
    let second = world_of(git, place, other_passes, other_hears);
    let a = choose|steps: Seq<Step>| #[trigger] plan.ran(steps, outcomes) && allowed(first, steps);
    let b = choose|steps: Seq<Step>| #[trigger] plan.ran(steps, others) && allowed(second, steps);
    single_answers_fix_the_world(git, place, passes, hears, a);
    single_answers_fix_the_world(git, place, other_passes, other_hears, b);
    fixed_worlds_fix_the_course(plan, only_world(git, place), a, outcomes, b, others);
    match cache {
        Err(failure) => {
            first_step(plan, a, outcomes);
        },
        Ok(path) => {
            outcomes_match_links_in_number(path, urls, a, outcomes);
        },
    }
}

// ---------------------------------------------------------------------------------------------
// Who hears what
// ---------------------------------------------------------------------------------------------

proof fn all_pass<A>(list: Seq<A>, such: spec_fn(A) -> bool)
    requires
        forall|i: int| #![trigger list[i]] 0 <= i < list.len() ==> such(list[i]),
    ensures
        list.filter(such) == list,
    decreases list.len(),
{
    reveal(Seq::filter);
    if list.len() > 0 {
        let front = list.drop_last();
        assert forall|i: int| #![trigger front[i]] 0 <= i < front.len() implies such(front[i]) by {
            assert(front[i] == list[i]);
        }
        all_pass(front, such);
        assert(such(list[list.len() - 1]));
        assert(front.push(list.last()) == list);
    } else {
        assert(list.filter(such) == list);
    }
}

proof fn none_pass<A>(list: Seq<A>, such: spec_fn(A) -> bool)
    requires
        forall|i: int| #![trigger list[i]] 0 <= i < list.len() ==> !such(list[i]),
    ensures
        list.filter(such) == Seq::<A>::empty(),
    decreases list.len(),
{
    reveal(Seq::filter);
    if list.len() > 0 {
        let front = list.drop_last();
        assert forall|i: int| #![trigger front[i]] 0 <= i < front.len() implies !such(
            front[i],
        ) by {
            assert(front[i] == list[i]);
        }
        none_pass(front, such);
        assert(!such(list[list.len() - 1]));
    }
}

proof fn checked_links_of_a_course(groups: Seq<GroupView>, course: Course)
    ensures
        course.events(groups).filter(checked_links()) == checking(course.prepared(groups)),
{
    let such = checked_links();
    let a = preparing(groups);
    let b = checking(course.prepared(groups));
    let c = seq![count_event(course.candidates(groups))];
    let d = investigating(course.candidates(groups));
    none_pass(a, such);
    all_pass(b, such);
    none_pass(c, such);
    none_pass(d, such);
    Seq::filter_distributes_over_add(a, b, such);
    Seq::filter_distributes_over_add(a + b, c, such);
    Seq::filter_distributes_over_add(a + b + c, d, such);
    assert(course.events(groups).filter(such) =~= b);
}

/// One who listens to everything hears every event of a check once, in its order; one who listens
/// to the links that are checked hears exactly those, once each and in their order; and who
/// listens to nothing hears nothing.
pub proof fn listeners_hear_the_course<
    G: FnMut(&Command) -> Reply,
    D: FnMut(&CachePlace) -> PlaceFacts,
    L: Listener,
>(
    cache: Seq<u8>,
    urls: Seq<FoundUrlView>,
    before: World<G, D, L>,
    after: World<G, D, L>,
    outcomes: Seq<OutcomeView>,
) -> (course: Course)
    requires
        before.log() == Seq::<Step>::empty(),
        did(before, after, links_plan(cache, urls), outcomes),
    ensures
        outcomes == course.outcomes(groups_of(urls)),
        course_plan(cache, groups_of(urls)).ran(after.log(), course),
        after.listener().passes() == all_events() ==> after.listener().heard() == course.events(
            groups_of(urls),
        ),
        after.listener().passes() == checked_links() ==> after.listener().heard() == checking(
            course.prepared(groups_of(urls)),
        ),
        after.listener().passes() == no_events() ==> after.listener().heard() == Seq::<
            ProgressView,
        >::empty(),
{
    let plan = links_plan(cache, urls);
    let steps = choose|steps: Seq<Step>| #[trigger]
        plan.ran(steps, outcomes) && after.log() == before.log() + steps && allowed(
            before.may(),
            steps,
        );
    assert(before.log() + steps == steps);
    let course = checks_take_a_course(cache, urls, steps, outcomes);
    let groups = groups_of(urls);
    events_follow_the_course(cache, groups, steps, course);
    after.listener_heard_the_log();
    let told = course.events(groups);
    let such = after.listener().passes();
    if such == all_events() {
        all_pass(told, such);
    }
    if such == no_events() {
        none_pass(told, such);
    }
    if such == checked_links() {
        checked_links_of_a_course(groups, course);
    }
    course
}

} // verus!
