//! The log of a check: how its phases follow each other, and what is asked in each.

use crate::course::{
    candidate_next, candidate_plan, candidates, check_all_next, check_all_plan, checked_next,
    checking, checking_event, count_event, course_made, course_plan, group_plan, history_made,
    history_plan, investigate_all_next, investigate_all_plan, investigating, investigating_event,
    prepare_next, prepare_plan, prepared, prepared_next, preparing, preparing_event, verdict_made,
    verdict_plan, CandidateView, Course, Histories, Local, PreparedView, Readiness, Verdict,
};
use crate::failure::FailureView;
use crate::git::in_repository;
use crate::group::{GroupView, Key};
use crate::listener::ProgressView;
use crate::plan::{
    chained, chained_are_such, chains_split, events, events_add, first_step, made_by_the_same_steps,
    only_such_steps, part_of, parts_of_parts, pieces_are_parts, Act, Piece, Plan, Step,
};
use crate::quiet::{
    deepenings_are_silent, deepens, investigations_are_ordinary, local_checks_are_ordinary,
    ordinary, preparations_are_ordinary, silent,
};
use crate::repository::{deepen_plan, show_args};
use crate::verdict::{file_questions, local_checks_only_look_at_files, local_plan, shows_a_file};
use vstd::prelude::*;

verus! {

// ---------------------------------------------------------------------------------------------
// The parts of a log
// ---------------------------------------------------------------------------------------------

/// The parts of the log of a check: one for each group, one for each link that can be checked,
/// the number of links to investigate, and one for each of those.
pub struct Log {
    pub preparing: Seq<Piece>,
    pub checking: Seq<Piece>,
    pub count: Step,
    pub investigating: Seq<Piece>,
}

impl Log {
    /// All steps, in this order.
    pub open spec fn steps(self) -> Seq<Step> {
        chained(self.preparing) + chained(self.checking) + seq![self.count] + chained(
            self.investigating,
        )
    }
}

/// Whether the repositories of groups were made ready in these parts of a log, each told of first.
pub open spec fn readied_in(
    cache: Seq<u8>,
    groups: Seq<GroupView>,
    ready: Seq<Readiness>,
    pieces: Seq<Piece>,
) -> bool {
    &&& ready.len() == groups.len()
    &&& pieces.len() == groups.len()
    &&& forall|k: int|
        #![trigger pieces[k]]
        0 <= k < pieces.len() ==> pieces[k].told.act == Act::Tell(preparing_event(groups, k))
            && group_plan(cache, groups[k]).ran(pieces[k].steps, ready[k])
}

/// Whether links were checked in these parts of a log, each told of first.
pub open spec fn checked_in(
    prepared: Seq<PreparedView>,
    local: Seq<Local>,
    pieces: Seq<Piece>,
) -> bool {
    &&& local.len() == prepared.len()
    &&& pieces.len() == prepared.len()
    &&& forall|k: int|
        #![trigger pieces[k]]
        0 <= k < pieces.len() ==> pieces[k].told.act == Act::Tell(checking_event(prepared, k))
            && local_plan(prepared[k].repository, prepared[k].found.url).ran(
            pieces[k].steps,
            local[k],
        )
}

/// Whether a link is the first of its repository.
pub open spec fn first_of_repository(candidates: Seq<CandidateView>, k: int) -> bool {
    forall|j: int|
        #![trigger candidates[j]]
        0 <= j < k ==> candidates[j].prepared.key != candidates[k].prepared.key
}

/// Whether a link was investigated by these steps, one part after the other: the history of its
/// repository was made whole first, if the link is the first of its repository, and was left alone
/// if it is not; the search asks for no history.
pub open spec fn inquired_by(
    candidates: Seq<CandidateView>,
    histories: Histories,
    verdict: Verdict,
    k: int,
    deepening: Seq<Step>,
    search: Seq<Step>,
) -> bool {
    let candidate = candidates[k];
    let history = histories[candidate.prepared.key];
    &&& if first_of_repository(candidates, k) {
        deepen_plan(candidate.prepared.repository).ran(deepening, history)
    } else {
        deepening.len() == 0
    }
    &&& verdict_plan(candidate, history).ran(search, verdict)
    &&& forall|i: int|
        #![trigger search[i]]
        0 <= i < search.len() ==> !deepens(search[i].act)
}

/// Whether a link was investigated by these steps.
pub open spec fn inquired(
    candidates: Seq<CandidateView>,
    histories: Histories,
    verdict: Verdict,
    k: int,
    steps: Seq<Step>,
) -> bool {
    exists|deepening: Seq<Step>, search: Seq<Step>|
        #![trigger inquired_by(candidates, histories, verdict, k, deepening, search)]
        inquired_by(candidates, histories, verdict, k, deepening, search) && steps == deepening
            + search
}

/// The two parts of an investigation: what made the history whole, and the search.
pub(crate) proof fn inquiry_parts(
    candidates: Seq<CandidateView>,
    histories: Histories,
    verdict: Verdict,
    k: int,
    steps: Seq<Step>,
) -> (parts: (Seq<Step>, Seq<Step>))
    requires
        inquired(candidates, histories, verdict, k, steps),
    ensures
        inquired_by(candidates, histories, verdict, k, parts.0, parts.1),
        steps == parts.0 + parts.1,
{
    choose|deepening: Seq<Step>, search: Seq<Step>|
        #![trigger inquired_by(candidates, histories, verdict, k, deepening, search)]
        inquired_by(candidates, histories, verdict, k, deepening, search) && steps == deepening
            + search
}

/// Whether links were investigated in these parts of a log, each told of first.
pub open spec fn investigated_in(
    candidates: Seq<CandidateView>,
    histories: Histories,
    verdicts: Seq<Verdict>,
    pieces: Seq<Piece>,
) -> bool {
    &&& verdicts.len() == candidates.len()
    &&& pieces.len() == candidates.len()
    &&& forall|k: int|
        #![trigger pieces[k]]
        0 <= k < pieces.len() ==> pieces[k].told.act == Act::Tell(
            investigating_event(candidates, k),
        ) && inquired(candidates, histories, verdicts[k], k, pieces[k].steps)
}

/// Whether this is the log of a check.
pub open spec fn logs(cache: Seq<u8>, groups: Seq<GroupView>, course: Course, log: Log) -> bool {
    &&& readied_in(cache, groups, course.ready, log.preparing)
    &&& checked_in(course.prepared(groups), course.local, log.checking)
    &&& log.count.act == Act::Tell(count_event(course.candidates(groups)))
    &&& investigated_in(
        course.candidates(groups),
        course.histories,
        course.verdicts,
        log.investigating,
    )
}

proof fn preparations_split(
    cache: Seq<u8>,
    groups: Seq<GroupView>,
    at: int,
    ready: Seq<Readiness>,
    steps: Seq<Step>,
    result: Seq<Readiness>,
) -> (pieces: Seq<Piece>)
    requires
        0 <= at <= groups.len(),
        ready.len() == at,
        prepare_plan(cache, groups, at, ready).ran(steps, result),
    ensures
        steps == chained(pieces),
        result.len() == groups.len(),
        result.take(at) == ready,
        pieces.len() == groups.len() - at,
        forall|k: int|
            #![trigger pieces[k]]
            0 <= k < pieces.len() ==> pieces[k].told.act == Act::Tell(
                preparing_event(groups, at + k),
            ) && group_plan(cache, groups[at + k]).ran(pieces[k].steps, result[at + k]),
    decreases groups.len() - at,
{
    let plan = prepare_plan(cache, groups, at, ready);
    first_step(plan, steps, result);
    if at == groups.len() {
        assert(result.take(at) == ready);
        Seq::empty()
    } else {
        let part = group_plan(cache, groups[at]);
        let next = prepare_next(cache, groups, at, ready);
        let (a, readiness, b) = chains_split(part, next, steps.skip(1), result);
        let more = preparations_split(
            cache,
            groups,
            at + 1,
            ready.push(readiness),
            b,
            result,
        );
        let piece = Piece { told: steps[0], steps: a };
        let pieces = seq![piece] + more;
        assert(pieces.skip(1) == more);
        assert(steps == seq![steps[0]] + steps.skip(1));
        assert(steps == seq![steps[0]] + a + chained(more));
        assert(result.take(at) == result.take(at + 1).take(at));
        assert(result.take(at) == ready);
        assert(result[at] == result.take(at + 1)[at]);
        assert forall|k: int| #![trigger pieces[k]] 0 <= k < pieces.len() implies
            pieces[k].told.act == Act::Tell(preparing_event(groups, at + k)) && group_plan(
            cache,
            groups[at + k],
        ).ran(pieces[k].steps, result[at + k]) by {
            if k > 0 {
                assert(pieces[k] == more[k - 1]);
            }
        }
        pieces
    }
}

proof fn checks_split(
    prepared: Seq<PreparedView>,
    at: int,
    local: Seq<Local>,
    steps: Seq<Step>,
    result: Seq<Local>,
) -> (pieces: Seq<Piece>)
    requires
        0 <= at <= prepared.len(),
        local.len() == at,
        check_all_plan(prepared, at, local).ran(steps, result),
    ensures
        steps == chained(pieces),
        result.len() == prepared.len(),
        result.take(at) == local,
        pieces.len() == prepared.len() - at,
        forall|k: int|
            #![trigger pieces[k]]
            0 <= k < pieces.len() ==> pieces[k].told.act == Act::Tell(
                checking_event(prepared, at + k),
            ) && local_plan(prepared[at + k].repository, prepared[at + k].found.url).ran(
                pieces[k].steps,
                result[at + k],
            ),
    decreases prepared.len() - at,
{
    let plan = check_all_plan(prepared, at, local);
    first_step(plan, steps, result);
    if at == prepared.len() {
        assert(result.take(at) == local);
        Seq::empty()
    } else {
        let part = local_plan(prepared[at].repository, prepared[at].found.url);
        let next = check_all_next(prepared, at, local);
        let (a, answer, b) = chains_split(part, next, steps.skip(1), result);
        let more = checks_split(prepared, at + 1, local.push(answer), b, result);
        let piece = Piece { told: steps[0], steps: a };
        let pieces = seq![piece] + more;
        assert(pieces.skip(1) == more);
        assert(steps == seq![steps[0]] + steps.skip(1));
        assert(steps == seq![steps[0]] + a + chained(more));
        assert(result.take(at) == result.take(at + 1).take(at));
        assert(result.take(at) == local);
        assert(result[at] == result.take(at + 1)[at]);
        assert forall|k: int| #![trigger pieces[k]] 0 <= k < pieces.len() implies
            pieces[k].told.act == Act::Tell(checking_event(prepared, at + k)) && local_plan(
            prepared[at + k].repository,
            prepared[at + k].found.url,
        ).ran(pieces[k].steps, result[at + k]) by {
            if k > 0 {
                assert(pieces[k] == more[k - 1]);
            }
        }
        pieces
    }
}

/// Whether it is known of the repositories of the first `n` links, and of no others, what came of
/// their histories.
spec fn knows(candidates: Seq<CandidateView>, n: int, histories: Histories) -> bool {
    &&& forall|j: int|
        #![trigger candidates[j]]
        0 <= j < n ==> histories.contains_key(candidates[j].prepared.key)
    &&& forall|key: Key| #[trigger]
        histories.contains_key(key) ==> exists|j: int|
            #![trigger candidates[j]]
            0 <= j < n && candidates[j].prepared.key == key
}

proof fn verdicts_are_ordinary(candidate: CandidateView, history: Result<(), FailureView>)
    ensures
        verdict_plan(candidate, history).only(ordinary()),
{
    investigations_are_ordinary(
        candidate.prepared.repository,
        candidate.prepared.found,
        candidate.expected,
    );
}

proof fn inquiry_splits(
    candidates: Seq<CandidateView>,
    at: int,
    histories: Histories,
    steps: Seq<Step>,
    known: (Histories, Verdict),
    later: Histories,
)
    requires
        0 <= at < candidates.len(),
        knows(candidates, at, histories),
        candidate_plan(candidates[at], histories).ran(steps, known),
        later[candidates[at].prepared.key] == known.0[candidates[at].prepared.key],
    ensures
        inquired(candidates, later, known.1, at, steps),
{
    let candidate = candidates[at];
    let key = candidate.prepared.key;
    let first = history_plan(candidate.prepared, histories);
    let (a, more, b) = chains_split(first, candidate_next(candidate), steps, known);
    let search = verdict_plan(candidate, more[key]);
    let verdict = made_by_the_same_steps(search, verdict_made(more), b, known);
    verdicts_are_ordinary(candidate, more[key]);
    only_such_steps(search, ordinary(), b, verdict);
    if histories.contains_key(key) {
        first_step(first, a, more);
        let j = choose|j: int|
            #![trigger candidates[j]]
            0 <= j < at && candidates[j].prepared.key == key;
        assert(!first_of_repository(candidates, at));
    } else {
        let deepening = deepen_plan(candidate.prepared.repository);
        let history = made_by_the_same_steps(
            deepening,
            history_made(histories, key),
            a,
            more,
        );
        assert forall|j: int| #![trigger candidates[j]] 0 <= j < at implies
            candidates[j].prepared.key != candidates[at].prepared.key by {}
        assert(first_of_repository(candidates, at));
    }
    assert(inquired_by(candidates, later, known.1, at, a, b));
}

proof fn histories_grow(
    candidates: Seq<CandidateView>,
    at: int,
    histories: Histories,
    steps: Seq<Step>,
    known: (Histories, Verdict),
)
    requires
        0 <= at < candidates.len(),
        knows(candidates, at, histories),
        candidate_plan(candidates[at], histories).ran(steps, known),
    ensures
        knows(candidates, at + 1, known.0),
        forall|key: Key| #[trigger]
            histories.contains_key(key) ==> known.0.contains_key(key) && known.0[key]
                == histories[key],
{
    let candidate = candidates[at];
    let key = candidate.prepared.key;
    let first = history_plan(candidate.prepared, histories);
    let (a, more, b) = chains_split(first, candidate_next(candidate), steps, known);
    let search = verdict_plan(candidate, more[key]);
    let verdict = made_by_the_same_steps(search, verdict_made(more), b, known);
    if histories.contains_key(key) {
        first_step(first, a, more);
    } else {
        let deepening = deepen_plan(candidate.prepared.repository);
        let history = made_by_the_same_steps(
            deepening,
            history_made(histories, key),
            a,
            more,
        );
    }
    assert forall|other: Key| #[trigger] known.0.contains_key(other) implies exists|j: int|
        #![trigger candidates[j]]
        0 <= j < at + 1 && candidates[j].prepared.key == other by {
        if other == key {
            assert(candidates[at].prepared.key == other);
        } else {
            assert(histories.contains_key(other));
            let j = choose|j: int|
                #![trigger candidates[j]]
                0 <= j < at && candidates[j].prepared.key == other;
            assert(candidates[j].prepared.key == other);
        }
    }
}

proof fn investigations_split(
    candidates: Seq<CandidateView>,
    at: int,
    histories: Histories,
    verdicts: Seq<Verdict>,
    steps: Seq<Step>,
    result: (Histories, Seq<Verdict>),
) -> (pieces: Seq<Piece>)
    requires
        0 <= at <= candidates.len(),
        verdicts.len() == at,
        knows(candidates, at, histories),
        investigate_all_plan(candidates, at, histories, verdicts).ran(steps, result),
    ensures
        steps == chained(pieces),
        result.1.len() == candidates.len(),
        result.1.take(at) == verdicts,
        forall|key: Key| #[trigger]
            histories.contains_key(key) ==> result.0.contains_key(key) && result.0[key]
                == histories[key],
        pieces.len() == candidates.len() - at,
        forall|k: int|
            #![trigger pieces[k]]
            0 <= k < pieces.len() ==> pieces[k].told.act == Act::Tell(
                investigating_event(candidates, at + k),
            ) && inquired(candidates, result.0, result.1[at + k], at + k, pieces[k].steps),
    decreases candidates.len() - at,
{
    let plan = investigate_all_plan(candidates, at, histories, verdicts);
    first_step(plan, steps, result);
    if at == candidates.len() {
        assert(result.1.take(at) == verdicts);
        Seq::empty()
    } else {
        let part = candidate_plan(candidates[at], histories);
        let next = investigate_all_next(candidates, at, histories, verdicts);
        let (a, known, b) = chains_split(part, next, steps.skip(1), result);
        histories_grow(candidates, at, histories, a, known);
        let more = investigations_split(
            candidates,
            at + 1,
            known.0,
            verdicts.push(known.1),
            b,
            result,
        );
        assert(known.0.contains_key(candidates[at].prepared.key));
        inquiry_splits(candidates, at, histories, a, known, result.0);
        let piece = Piece { told: steps[0], steps: a };
        let pieces = seq![piece] + more;
        assert(pieces.skip(1) == more);
        assert(steps == seq![steps[0]] + steps.skip(1));
        assert(steps == seq![steps[0]] + a + chained(more));
        assert(result.1.take(at) == result.1.take(at + 1).take(at));
        assert(result.1.take(at) == verdicts);
        assert(result.1[at] == result.1.take(at + 1)[at]);
        assert forall|k: int| #![trigger pieces[k]] 0 <= k < pieces.len() implies
            pieces[k].told.act == Act::Tell(investigating_event(candidates, at + k)) && inquired(
            candidates,
            result.0,
            result.1[at + k],
            at + k,
            pieces[k].steps,
        ) by {
            if k > 0 {
                assert(pieces[k] == more[k - 1]);
            }
        }
        pieces
    }
}

/// The steps of a check are those of its three phases, with one between the last two that tells of
/// the number of links to investigate.
pub proof fn checks_have_three_phases(
    cache: Seq<u8>,
    groups: Seq<GroupView>,
    steps: Seq<Step>,
    course: Course,
) -> (parts: (Seq<Step>, Seq<Step>, Step, Seq<Step>))
    requires
        course_plan(cache, groups).ran(steps, course),
    ensures
        steps == parts.0 + parts.1 + seq![parts.2] + parts.3,
        prepare_plan(cache, groups, 0, Seq::empty()).ran(parts.0, course.ready),
        check_all_plan(course.prepared(groups), 0, Seq::empty()).ran(parts.1, course.local),
        parts.2.act == Act::Tell(count_event(course.candidates(groups))),
        investigate_all_plan(course.candidates(groups), 0, Map::empty(), Seq::empty()).ran(
            parts.3,
            (course.histories, course.verdicts),
        ),
{
    let (a, ready, b) = chains_split(
        prepare_plan(cache, groups, 0, Seq::empty()),
        prepared_next(groups),
        steps,
        course,
    );
    let list = prepared(groups, ready, groups.len() as int);
    let (c, local, d) = chains_split(
        check_all_plan(list, 0, Seq::empty()),
        checked_next(groups, ready),
        b,
        course,
    );
    let rest = candidates(list, local, list.len() as int);
    first_step(checked_next(groups, ready)(local), d, course);
    let part = investigate_all_plan(rest, 0, Map::empty(), Seq::empty());
    let known = made_by_the_same_steps(part, course_made(ready, local), d.skip(1), course);
    assert(known == (course.histories, course.verdicts));
    assert(d == seq![d[0]] + d.skip(1));
    assert(steps =~= a + c + seq![d[0]] + d.skip(1));
    (a, c, d[0], d.skip(1))
}

/// The log of a check has a part for each group, then one for each link that can be checked, then
/// the number of links to investigate, then a part for each of those; and nothing else. Each part
/// begins with what is told, and then carries out the plan of its group or link.
pub proof fn checks_are_logged(
    cache: Seq<u8>,
    groups: Seq<GroupView>,
    steps: Seq<Step>,
    course: Course,
) -> (log: Log)
    requires
        course_plan(cache, groups).ran(steps, course),
    ensures
        logs(cache, groups, course, log),
        steps == log.steps(),
{
    let (a, b, count, c) = checks_have_three_phases(cache, groups, steps, course);
    let list = course.prepared(groups);
    let rest = course.candidates(groups);
    let preparing = preparations_split(cache, groups, 0, Seq::empty(), a, course.ready);
    let checking = checks_split(list, 0, Seq::empty(), b, course.local);
    assert(knows(rest, 0, Map::empty()));
    let investigating = investigations_split(
        rest,
        0,
        Map::empty(),
        Seq::empty(),
        c,
        (course.histories, course.verdicts),
    );
    Log { preparing, checking, count, investigating }
}

/// The steps that make a repository ready stand in the log.
pub(crate) proof fn prepared_parts(log: Log, k: int, steps: Seq<Step>)
    requires
        steps == log.steps(),
        0 <= k < log.preparing.len(),
    ensures
        part_of(log.preparing[k].steps, steps),
{
    pieces_are_parts(log.preparing, k);
    let behind = chained(log.checking) + seq![log.count] + chained(log.investigating);
    parts_of_parts(log.preparing[k].steps, Seq::empty(), chained(log.preparing), behind);
    assert(Seq::<Step>::empty() + chained(log.preparing) + behind =~= steps);
}

/// The steps that check a link stand in the log.
pub(crate) proof fn checked_parts(
    cache: Seq<u8>,
    groups: Seq<GroupView>,
    course: Course,
    log: Log,
    k: int,
)
    requires
        logs(cache, groups, course, log),
        0 <= k < log.checking.len(),
    ensures
        part_of(log.checking[k].steps, log.steps()),
{
    pieces_are_parts(log.checking, k);
    let behind = seq![log.count] + chained(log.investigating);
    parts_of_parts(
        log.checking[k].steps,
        chained(log.preparing),
        chained(log.checking),
        behind,
    );
    assert(chained(log.preparing) + chained(log.checking) + behind =~= log.steps());
}

// ---------------------------------------------------------------------------------------------
// What is told
// ---------------------------------------------------------------------------------------------

proof fn silence(steps: Seq<Step>)
    requires
        forall|i: int| #![trigger steps[i]] 0 <= i < steps.len() ==> !(steps[i].act is Tell),
    ensures
        events(steps) == Seq::<ProgressView>::empty(),
    decreases steps.len(),
{
    if steps.len() > 0 {
        let front = steps.drop_last();
        assert forall|i: int| #![trigger front[i]] 0 <= i < front.len() implies !(
        front[i].act is Tell) by {
            assert(front[i] == steps[i]);
        }
        silence(front);
        assert(!(steps[steps.len() - 1].act is Tell));
    }
}

/// Whether every part tells of something first, and of nothing else.
spec fn tells_once(pieces: Seq<Piece>) -> bool {
    forall|k: int|
        #![trigger pieces[k]]
        0 <= k < pieces.len() ==> pieces[k].told.act is Tell && events(pieces[k].steps).len() == 0
}

proof fn told_in(pieces: Seq<Piece>)
    requires
        tells_once(pieces),
    ensures
        events(chained(pieces)) == Seq::new(pieces.len(), |k: int| pieces[k].told.act->Tell_0),
    decreases pieces.len(),
{
    let all = Seq::new(pieces.len(), |k: int| pieces[k].told.act->Tell_0);
    if pieces.len() == 0 {
        assert(events(chained(pieces)) == all);
    } else {
        let first = pieces[0];
        let rest = pieces.skip(1);
        assert forall|k: int| #![trigger rest[k]] 0 <= k < rest.len() implies
            rest[k].told.act is Tell && events(rest[k].steps).len() == 0 by {
            assert(rest[k] == pieces[k + 1]);
        }
        told_in(rest);
        let one = seq![first.told];
        events_add(one + first.steps, chained(rest));
        events_add(one, first.steps);
        assert(one.drop_last() == Seq::<Step>::empty());
        assert(events(one.drop_last()) == Seq::<ProgressView>::empty());
        assert(events(one) == seq![first.told.act->Tell_0]);
        assert(events(chained(pieces)) =~= all);
    }
}

proof fn ordinary_steps<T>(plan: Plan<T>, steps: Seq<Step>, result: T)
    requires
        plan.only(ordinary()),
        plan.ran(steps, result),
    ensures
        events(steps) == Seq::<ProgressView>::empty(),
        forall|i: int|
            #![trigger steps[i]]
            0 <= i < steps.len() ==> !(steps[i].act is Tell) && !deepens(steps[i].act),
{
    only_such_steps(plan, ordinary(), steps, result);
    silence(steps);
}

proof fn inquiries_are_silent(
    candidates: Seq<CandidateView>,
    histories: Histories,
    verdict: Verdict,
    k: int,
    steps: Seq<Step>,
)
    requires
        inquired(candidates, histories, verdict, k, steps),
    ensures
        events(steps) == Seq::<ProgressView>::empty(),
        forall|i: int| #![trigger steps[i]] 0 <= i < steps.len() ==> !(steps[i].act is Tell),
{
    let candidate = candidates[k];
    let key = candidate.prepared.key;
    let (deepening, search) = inquiry_parts(candidates, histories, verdict, k, steps);
    verdicts_are_ordinary(candidate, histories[key]);
    ordinary_steps(verdict_plan(candidate, histories[key]), search, verdict);
    if first_of_repository(candidates, k) {
        deepenings_are_silent(candidate.prepared.repository);
        only_such_steps(
            deepen_plan(candidate.prepared.repository),
            silent(),
            deepening,
            histories[key],
        );
    }
    assert forall|i: int| #![trigger steps[i]] 0 <= i < steps.len() implies !(
    steps[i].act is Tell) by {
        if i < deepening.len() {
            assert(steps[i] == deepening[i]);
        } else {
            assert(steps[i] == search[i - deepening.len()]);
        }
    }
    silence(steps);
}

/// The events of a check are those of its course, in this order: what is told while repositories
/// are made ready, while links are checked, of the number of links to investigate, and while those
/// are investigated.
pub proof fn events_follow_the_course(
    cache: Seq<u8>,
    groups: Seq<GroupView>,
    steps: Seq<Step>,
    course: Course,
)
    requires
        course_plan(cache, groups).ran(steps, course),
    ensures
        events(steps) == course.events(groups),
{
    let log = checks_are_logged(cache, groups, steps, course);
    let list = course.prepared(groups);
    let rest = course.candidates(groups);
    assert forall|k: int| #![trigger log.preparing[k]] 0 <= k < log.preparing.len() implies
        log.preparing[k].told.act is Tell && events(log.preparing[k].steps).len() == 0 by {
        preparations_are_ordinary(cache, groups[k]);
        ordinary_steps(group_plan(cache, groups[k]), log.preparing[k].steps, course.ready[k]);
    }
    assert forall|k: int| #![trigger log.checking[k]] 0 <= k < log.checking.len() implies
        log.checking[k].told.act is Tell && events(log.checking[k].steps).len() == 0 by {
        local_checks_are_ordinary(list[k].repository, list[k].found.url);
        ordinary_steps(
            local_plan(list[k].repository, list[k].found.url),
            log.checking[k].steps,
            course.local[k],
        );
    }
    assert forall|k: int| #![trigger log.investigating[k]] 0 <= k
        < log.investigating.len() implies log.investigating[k].told.act is Tell && events(
        log.investigating[k].steps,
    ).len() == 0 by {
        inquiries_are_silent(
            rest,
            course.histories,
            course.verdicts[k],
            k,
            log.investigating[k].steps,
        );
    }
    told_in(log.preparing);
    told_in(log.checking);
    told_in(log.investigating);
    let a = chained(log.preparing);
    let b = chained(log.checking);
    let c = seq![log.count];
    let d = chained(log.investigating);
    events_add(a + b + c, d);
    events_add(a + b, c);
    events_add(a, b);
    assert(c.drop_last() == Seq::<Step>::empty());
    assert(events(c.drop_last()) == Seq::<ProgressView>::empty());
    assert(events(c) == seq![log.count.act->Tell_0]);
    assert(events(a) =~= preparing(groups));
    assert(events(b) =~= checking(list));
    assert(events(d) =~= investigating(rest));
}

// ---------------------------------------------------------------------------------------------
// What is asked in which phase
// ---------------------------------------------------------------------------------------------

/// Whether a run of Git reaches out to the network.
pub open spec fn reaches_out(act: Act) -> bool {
    act matches Act::Run(command) && command.args.len() > 0 && (command.args[0] == "clone"@
        || command.args[0] == "fetch"@ || command.args[0] == "ls-remote"@)
}

proof fn files_are_at_hand(repository: Seq<u8>, act: Act)
    requires
        shows_a_file(repository, act),
    ensures
        !reaches_out(act),
{
    reveal_strlit("clone");
    reveal_strlit("fetch");
    reveal_strlit("ls-remote");
    reveal_strlit("show");
    assert("show"@.len() == 4 && "clone"@.len() == 5 && "fetch"@.len() == 5);
    assert("ls-remote"@.len() == 9);
    let (commit, path) = choose|commit: Seq<char>, path: Seq<char>|
        act == Act::Run(#[trigger] in_repository(repository, show_args(commit, path)));
    assert(show_args(commit, path)[0] == "show"@);
}

/// What is told of, or asked for, while repositories are made ready.
spec fn while_preparing() -> spec_fn(Act) -> bool {
    |act: Act| !deepens(act) && (act matches Act::Tell(progress) ==> progress is Preparing)
}

/// What is told of, or asked for, while links are checked.
spec fn while_checking() -> spec_fn(Act) -> bool {
    |act: Act|
        {
            ||| act matches Act::Tell(progress) && progress is Checking
            ||| exists|repository: Seq<u8>| #[trigger] shows_a_file(repository, act)
        }
}

/// What is told of while links are investigated.
spec fn while_investigating() -> spec_fn(Act) -> bool {
    |act: Act| act matches Act::Tell(progress) ==> progress is Investigating
}

proof fn phases_keep_apart(cache: Seq<u8>, groups: Seq<GroupView>, course: Course, log: Log)
    requires
        logs(cache, groups, course, log),
    ensures
        forall|i: int|
            #![trigger chained(log.preparing)[i]]
            0 <= i < chained(log.preparing).len() ==> while_preparing()(
                chained(log.preparing)[i].act,
            ),
        forall|i: int|
            #![trigger chained(log.checking)[i]]
            0 <= i < chained(log.checking).len() ==> while_checking()(chained(log.checking)[i].act),
        forall|i: int|
            #![trigger chained(log.investigating)[i]]
            0 <= i < chained(log.investigating).len() ==> while_investigating()(
                chained(log.investigating)[i].act,
            ),
{
    let list = course.prepared(groups);
    let rest = course.candidates(groups);
    let first = while_preparing();
    let second = while_checking();
    let third = while_investigating();
    assert forall|k: int| #![trigger log.preparing[k]] 0 <= k < log.preparing.len() implies first(
        log.preparing[k].told.act,
    ) && forall|i: int|
        #![trigger log.preparing[k].steps[i]]
        0 <= i < log.preparing[k].steps.len() ==> first(log.preparing[k].steps[i].act) by {
        preparations_are_ordinary(cache, groups[k]);
        ordinary_steps(group_plan(cache, groups[k]), log.preparing[k].steps, course.ready[k]);
    }
    chained_are_such(log.preparing, first);
    assert forall|k: int| #![trigger log.checking[k]] 0 <= k < log.checking.len() implies second(
        log.checking[k].told.act,
    ) && forall|i: int|
        #![trigger log.checking[k].steps[i]]
        0 <= i < log.checking[k].steps.len() ==> second(log.checking[k].steps[i].act) by {
        let one = list[k];
        let such = file_questions(one.repository.path);
        local_checks_only_look_at_files(one.repository, one.found.url);
        only_such_steps(
            local_plan(one.repository, one.found.url),
            such,
            log.checking[k].steps,
            course.local[k],
        );
        assert forall|i: int|
            #![trigger log.checking[k].steps[i]]
            0 <= i < log.checking[k].steps.len() implies second(log.checking[k].steps[i].act) by {
            assert(shows_a_file(one.repository.path, log.checking[k].steps[i].act));
        }
    }
    chained_are_such(log.checking, second);
    assert forall|k: int| #![trigger log.investigating[k]] 0 <= k
        < log.investigating.len() implies third(log.investigating[k].told.act) && forall|i: int|
        #![trigger log.investigating[k].steps[i]]
        0 <= i < log.investigating[k].steps.len() ==> third(
            log.investigating[k].steps[i].act,
        ) by {
        inquiries_are_silent(
            rest,
            course.histories,
            course.verdicts[k],
            k,
            log.investigating[k].steps,
        );
    }
    chained_are_such(log.investigating, third);
}

/// Checking needs no network: between the first link that is checked and the number of links to
/// investigate, nothing is cloned or fetched and no remote is asked. Git is only asked for files at
/// commits that are at hand.
pub proof fn checking_needs_no_network(
    cache: Seq<u8>,
    groups: Seq<GroupView>,
    steps: Seq<Step>,
    course: Course,
    from: int,
    at: int,
    to: int,
)
    requires
        course_plan(cache, groups).ran(steps, course),
        0 <= from < at < to < steps.len(),
        steps[from].act matches Act::Tell(progress) && progress is Checking,
        steps[to].act matches Act::Tell(progress) && progress is InvestigationCount,
    ensures
        !reaches_out(steps[at].act),
        steps[at].act is Tell || exists|repository: Seq<u8>| #[trigger]
            shows_a_file(repository, steps[at].act),
{
    let log = checks_are_logged(cache, groups, steps, course);
    phases_keep_apart(cache, groups, course, log);
    let a = chained(log.preparing);
    let b = chained(log.checking);
    let d = chained(log.investigating);
    if from < a.len() {
        assert(steps[from] == a[from]);
    }
    if to < a.len() {
        assert(steps[to] == a[to]);
    } else if to < a.len() + b.len() {
        assert(steps[to] == b[to - a.len()]);
        let act = steps[to].act;
        assert(while_checking()(act));
    } else if to > a.len() + b.len() {
        assert(steps[to] == d[to - a.len() - b.len() - 1]);
    }
    let act = steps[at].act;
    assert(steps[at] == b[at - a.len()]);
    assert(while_checking()(act));
    if !(act is Tell) {
        let repository = choose|repository: Seq<u8>| #[trigger] shows_a_file(repository, act);
        files_are_at_hand(repository, act);
    }
}

/// The history of a repository is made whole at most once, right before the first link of it is
/// investigated, and only where a link of it is. Before the investigations no history is looked at
/// or made whole; in the part of a link that is the first of its repository to be investigated,
/// its history comes first; and nowhere else is that asked for.
pub proof fn histories_are_made_whole_once(
    cache: Seq<u8>,
    groups: Seq<GroupView>,
    steps: Seq<Step>,
    course: Course,
) -> (log: Log)
    requires
        course_plan(cache, groups).ran(steps, course),
    ensures
        steps == log.steps(),
        forall|i: int|
            #![trigger steps[i]]
            0 <= i <= chained(log.preparing).len() + chained(log.checking).len() ==> !deepens(
                steps[i].act,
            ),
        investigated_in(
            course.candidates(groups),
            course.histories,
            course.verdicts,
            log.investigating,
        ),
{
    let log = checks_are_logged(cache, groups, steps, course);
    phases_keep_apart(cache, groups, course, log);
    let a = chained(log.preparing);
    let b = chained(log.checking);
    assert forall|i: int| #![trigger steps[i]] 0 <= i <= a.len() + b.len() implies !deepens(
        steps[i].act,
    ) by {
        let act = steps[i].act;
        if i < a.len() {
            assert(steps[i] == a[i]);
        } else if i < a.len() + b.len() {
            assert(steps[i] == b[i - a.len()]);
            assert(while_checking()(act));
            if !(act is Tell) {
                let repository = choose|repository: Seq<u8>| #[trigger]
                    shows_a_file(repository, act);
                files_make_nothing_whole(repository, act);
            }
        } else {
            assert(steps[i] == log.count);
        }
    }
    log
}

proof fn files_make_nothing_whole(repository: Seq<u8>, act: Act)
    requires
        shows_a_file(repository, act),
    ensures
        !deepens(act),
{
    reveal_strlit("fetch");
    reveal_strlit("rev-parse");
    reveal_strlit("show");
    assert("show"@.len() == 4 && "rev-parse"@.len() == 9 && "fetch"@.len() == 5);
    let (commit, path) = choose|commit: Seq<char>, path: Seq<char>|
        act == Act::Run(#[trigger] in_repository(repository, show_args(commit, path)));
    assert(show_args(commit, path)[0] == "show"@);
}

} // verus!
