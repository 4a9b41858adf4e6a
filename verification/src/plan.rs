//! Plans of what is asked of the world, and the steps that carry them out.
//!
//! A plan says what is asked first, and by the answer what is asked next, until it comes to a
//! result. It fixes every question, how often it is asked, and the order of all of them; only the
//! answers are left to the world.

use crate::cache::FactsView;
use crate::failure::FailureView;
use crate::git::{CommandView, ReplyView};
use crate::listener::ProgressView;
use crate::service::ContentsView;
use vstd::prelude::*;

verus! {

// ---------------------------------------------------------------------------------------------
// Steps
// ---------------------------------------------------------------------------------------------

/// Something that is asked of the world, or told to it: a run of Git, the preparation of a place
/// in the cache, the progress of a check, the number of a file, whether a path is a symbolic link,
/// the value that a link stores, or the contents of a file.
pub enum Act {
    Run(CommandView),
    Prepare { owner_directory: Seq<u8>, path: Seq<u8> },
    Tell(ProgressView),
    Name { path: Seq<u8>, index: nat, total: nat },
    Kind(Seq<u8>),
    ReadLink(Seq<u8>),
    ReadFile(Seq<u8>),
}

/// What the world answers. To what it is told it answers nothing.
pub enum Answer {
    Reply(ReplyView),
    Facts(FactsView),
    Kind(Result<bool, Seq<char>>),
    Contents(ContentsView),
    Nothing,
}

/// Something that was asked or told, and the answer.
pub struct Step {
    pub act: Act,
    pub answer: Answer,
}

/// What the world may answer to what.
pub type Answers = spec_fn(Act, Answer) -> bool;

/// Whether every answer is one that the world may give.
pub open spec fn allowed(may: Answers, steps: Seq<Step>) -> bool {
    forall|i: int| #![trigger steps[i]] 0 <= i < steps.len() ==> may(steps[i].act, steps[i].answer)
}

/// Whether every answer is that of a fixed world, in which each question has one answer.
pub open spec fn answered(world: spec_fn(Act) -> Answer, steps: Seq<Step>) -> bool {
    forall|i: int|
        #![trigger steps[i]]
        0 <= i < steps.len() ==> steps[i].answer == world(steps[i].act)
}

/// What was told of the progress of a check, in this order.
pub open spec fn events(steps: Seq<Step>) -> Seq<ProgressView>
    decreases steps.len(),
{
    if steps.len() == 0 {
        Seq::empty()
    } else {
        match steps.last().act {
            Act::Tell(progress) => events(steps.drop_last()).push(progress),
            _ => events(steps.drop_last()),
        }
    }
}

/// The events of steps one after another are those of the earlier and then those of the later.
pub proof fn events_add(a: Seq<Step>, b: Seq<Step>)
    ensures
        events(a + b) == events(a) + events(b),
    decreases b.len(),
{
    if b.len() == 0 {
        assert(a + b == a);
        assert(events(a) + events(b) == events(a));
    } else {
        assert((a + b).drop_last() == a + b.drop_last());
        assert((a + b).last() == b.last());
        events_add(a, b.drop_last());
        assert(events(a + b) =~= events(a) + events(b));
    }
}

/// One more step adds its event, if it tells of one.
pub proof fn events_of_one_more(steps: Seq<Step>, step: Step)
    ensures
        events(steps.push(step)) == match step.act {
            Act::Tell(progress) => events(steps).push(progress),
            _ => events(steps),
        },
{
    assert(steps.push(step).drop_last() == steps);
}

// ---------------------------------------------------------------------------------------------
// Plans
// ---------------------------------------------------------------------------------------------

/// What is asked, one thing after another, each by the answers so far, and what it comes to.
#[verifier::reject_recursive_types(T)]
pub enum Plan<T> {
    Done(T),
    Do(Act, spec_fn(Answer) -> Plan<T>),
}

impl<T> Plan<T> {
    /// What is left of a plan once these steps were taken, if they are steps of the plan.
    pub open spec fn after(self, steps: Seq<Step>) -> Option<Plan<T>>
        decreases steps.len(),
    {
        if steps.len() == 0 {
            Some(self)
        } else {
            match self.after(steps.drop_last()) {
                Some(Plan::Do(act, next)) => if act == steps.last().act {
                    Some(next(steps.last().answer))
                } else {
                    None
                },
                _ => None,
            }
        }
    }

    /// Whether exactly these steps carry out a plan, with this result.
    pub open spec fn ran(self, steps: Seq<Step>, result: T) -> bool {
        self.after(steps) == Some(Plan::Done(result))
    }

    /// The plan, and then the one that follows by its result.
    pub open spec fn then_by<U>(self, next: spec_fn(T) -> Plan<U>) -> Plan<U>
        decreases self,
    {
        match self {
            Plan::Done(result) => next(result),
            Plan::Do(act, more) => Plan::Do(act, |answer: Answer| more(answer).then_by(next)),
        }
    }

    /// The plan, with something made of its result.
    pub open spec fn map_by<U>(self, made: spec_fn(T) -> U) -> Plan<U> {
        self.then_by(made_of(made))
    }

    /// Whether everything that the plan may ever ask is such.
    pub open spec fn only(self, such: spec_fn(Act) -> bool) -> bool
        decreases self,
    {
        match self {
            Plan::Done(_) => true,
            Plan::Do(act, more) => such(act) && forall|answer: Answer| (#[trigger] more(
                answer,
            )).only(such),
        }
    }
}

impl<T> Plan<Result<T, FailureView>> {
    /// The plan, and then the one that follows by its result, unless it fails.
    pub open spec fn and_by<U>(self, next: spec_fn(T) -> Plan<Result<U, FailureView>>) -> Plan<
        Result<U, FailureView>,
    > {
        self.then_by(unless_failed(next))
    }
}

/// What is made of a result, as the end of a plan.
pub open spec fn made_of<T, U>(made: spec_fn(T) -> U) -> spec_fn(T) -> Plan<U> {
    |result: T| Plan::Done(made(result))
}

/// What follows by a result, unless it is a failure, which is then the end.
pub open spec fn unless_failed<T, U>(
    next: spec_fn(T) -> Plan<Result<U, FailureView>>,
) -> spec_fn(Result<T, FailureView>) -> Plan<Result<U, FailureView>> {
    |result: Result<T, FailureView>|
        match result {
            Ok(value) => next(value),
            Err(failure) => Plan::Done(Err(failure)),
        }
}

/// The plan to run Git once, and make something of the reply.
pub open spec fn ask_once<T>(command: CommandView, made: spec_fn(ReplyView) -> T) -> Plan<T> {
    Plan::Do(Act::Run(command), |answer: Answer| Plan::Done(made(answer->Reply_0)))
}

/// The plan to tell how far a check has come, and then another.
pub open spec fn tell<T>(progress: ProgressView, rest: Plan<T>) -> Plan<T> {
    Plan::Do(Act::Tell(progress), |answer: Answer| rest)
}

// ---------------------------------------------------------------------------------------------
// How plans are carried out
// ---------------------------------------------------------------------------------------------

/// Steps one after another leave of a plan what the later ones leave of what the earlier ones
/// left.
pub proof fn steps_add<T>(plan: Plan<T>, a: Seq<Step>, b: Seq<Step>)
    ensures
        plan.after(a + b) == match plan.after(a) {
            Some(rest) => rest.after(b),
            None => None,
        },
    decreases b.len(),
{
    if b.len() == 0 {
        assert(a + b == a);
    } else {
        assert((a + b).drop_last() == a + b.drop_last());
        assert((a + b).last() == b.last());
        steps_add(plan, a, b.drop_last());
    }
}

/// One more step of a plan.
pub proof fn one_step<T>(plan: Plan<T>, steps: Seq<Step>, step: Step)
    ensures
        plan.after(steps.push(step)) == match plan.after(steps) {
            Some(Plan::Do(act, next)) => if act == step.act {
                Some(next(step.answer))
            } else {
                None
            },
            _ => None,
        },
{
    assert(steps.push(step).drop_last() == steps);
}

/// Steps of a plan are steps of the plan with another behind it.
pub proof fn steps_before_another<T, U>(
    plan: Plan<T>,
    next: spec_fn(T) -> Plan<U>,
    steps: Seq<Step>,
)
    requires
        plan.after(steps) is Some,
    ensures
        plan.then_by(next).after(steps) == Some((plan.after(steps)->0).then_by(next)),
    decreases steps.len(),
{
    if steps.len() > 0 {
        steps_before_another(plan, next, steps.drop_last());
    }
}

/// The steps that carry out two plans one after another are those of the one and then those of
/// the other.
pub proof fn chains_split<T, U>(
    plan: Plan<T>,
    next: spec_fn(T) -> Plan<U>,
    steps: Seq<Step>,
    result: U,
) -> (parts: (Seq<Step>, T, Seq<Step>))
    requires
        plan.then_by(next).ran(steps, result),
    ensures
        steps == parts.0 + parts.2,
        plan.ran(parts.0, parts.1),
        next(parts.1).ran(parts.2, result),
    decreases steps.len(),
{
    match plan {
        Plan::Done(x) => {
            assert(Seq::<Step>::empty() + steps == steps);
            (Seq::empty(), x, steps)
        },
        Plan::Do(act, more) => {
            let whole = plan.then_by(next);
            first_step(whole, steps, result);
            let step = steps[0];
            let rest = steps.skip(1);
            let (a, x, b) = chains_split(more(step.answer), next, rest, result);
            let front = seq![step] + a;
            assert(steps == seq![step] + rest);
            assert(steps =~= front + b);
            steps_add(plan, seq![step], a);
            assert(seq![step].drop_last() == Seq::<Step>::empty());
            assert(plan.after(seq![step].drop_last()) == Some(plan));
            (front, x, b)
        },
    }
}

/// A plan that asks something is carried out by a step that asks it, and then by steps that carry
/// out what follows by the answer.
pub proof fn first_step<T>(plan: Plan<T>, steps: Seq<Step>, result: T)
    requires
        plan.ran(steps, result),
    ensures
        plan matches Plan::Do(act, next) ==> steps.len() > 0 && steps[0].act == act && next(
            steps[0].answer,
        ).ran(steps.skip(1), result),
        plan matches Plan::Done(done) ==> steps.len() == 0 && done == result,
{
    if steps.len() > 0 {
        let one = steps.take(1);
        assert(steps == one + steps.skip(1));
        steps_add(plan, one, steps.skip(1));
        assert(one.drop_last() == Seq::<Step>::empty());
        assert(plan.after(one.drop_last()) == Some(plan));
        assert(one.last() == steps[0]);
    }
}

/// A plan of one run is carried out by that run alone.
pub proof fn one_run<T>(
    command: CommandView,
    made: spec_fn(ReplyView) -> T,
    steps: Seq<Step>,
    result: T,
)
    requires
        ask_once(command, made).ran(steps, result),
    ensures
        steps.len() == 1,
        steps[0].act == Act::Run(command),
        result == made(steps[0].answer->Reply_0),
{
    first_step(ask_once(command, made), steps, result);
    first_step(Plan::Done(made(steps[0].answer->Reply_0)), steps.skip(1), result);
}

/// A plan with something made of its result takes the steps of the plan.
pub proof fn made_by_the_same_steps<T, U>(
    plan: Plan<T>,
    made: spec_fn(T) -> U,
    steps: Seq<Step>,
    result: U,
) -> (x: T)
    requires
        plan.map_by(made).ran(steps, result),
    ensures
        plan.ran(steps, x),
        result == made(x),
{
    let (a, x, b) = chains_split(plan, made_of(made), steps, result);
    first_step(Plan::Done(made(x)), b, result);
    assert(a + b == a);
    x
}

/// The steps of two plans one after another, the other unless the first fails: those of the
/// first, and, where it did not fail, those of the other.
pub proof fn attempts_split<T, U>(
    plan: Plan<Result<T, FailureView>>,
    next: spec_fn(T) -> Plan<Result<U, FailureView>>,
    steps: Seq<Step>,
    result: Result<U, FailureView>,
) -> (parts: (Seq<Step>, Result<T, FailureView>, Seq<Step>))
    requires
        plan.and_by(next).ran(steps, result),
    ensures
        steps == parts.0 + parts.2,
        plan.ran(parts.0, parts.1),
        match parts.1 {
            Ok(value) => next(value).ran(parts.2, result),
            Err(failure) => parts.2.len() == 0 && result == Err::<U, _>(failure),
        },
{
    let parts = chains_split(plan, unless_failed(next), steps, result);
    if let Err(failure) = parts.1 {
        first_step(Plan::Done(Err::<U, _>(failure)), parts.2, result);
    }
    parts
}

/// In a fixed world a plan takes one course: the steps and the result are always the same.
pub proof fn fixed_worlds_fix_the_course<T>(
    plan: Plan<T>,
    world: spec_fn(Act) -> Answer,
    a: Seq<Step>,
    x: T,
    b: Seq<Step>,
    y: T,
)
    requires
        plan.ran(a, x),
        plan.ran(b, y),
        answered(world, a),
        answered(world, b),
    ensures
        a == b,
        x == y,
    decreases a.len(),
{
    first_step(plan, a, x);
    first_step(plan, b, y);
    if let Plan::Do(act, next) = plan {
        let answer = world(act);
        assert(a[0].answer == answer);
        assert(b[0].answer == answer);
        assert forall|i: int| #![trigger a.skip(1)[i]] 0 <= i < a.skip(1).len() implies a.skip(
            1,
        )[i].answer == world(a.skip(1)[i].act) by {
            assert(a.skip(1)[i] == a[i + 1]);
        }
        assert forall|i: int| #![trigger b.skip(1)[i]] 0 <= i < b.skip(1).len() implies b.skip(
            1,
        )[i].answer == world(b.skip(1)[i].act) by {
            assert(b.skip(1)[i] == b[i + 1]);
        }
        fixed_worlds_fix_the_course(next(answer), world, a.skip(1), x, b.skip(1), y);
        assert(a == seq![a[0]] + a.skip(1));
        assert(b == seq![b[0]] + b.skip(1));
        assert(a[0] == b[0]);
    } else {
        assert(a == b);
    }
}

/// A plan that only asks such things is carried out by steps that ask only such things.
pub proof fn only_such_steps<T>(
    plan: Plan<T>,
    such: spec_fn(Act) -> bool,
    steps: Seq<Step>,
    result: T,
)
    requires
        plan.only(such),
        plan.ran(steps, result),
    ensures
        forall|i: int| #![trigger steps[i]] 0 <= i < steps.len() ==> such(steps[i].act),
    decreases steps.len(),
{
    first_step(plan, steps, result);
    if let Plan::Do(act, next) = plan {
        let rest = steps.skip(1);
        only_such_steps(next(steps[0].answer), such, rest, result);
        assert forall|i: int| #![trigger steps[i]] 0 <= i < steps.len() implies such(
            steps[i].act,
        ) by {
            if i > 0 {
                assert(steps[i] == rest[i - 1]);
            }
        }
    }
}

/// A plan that asks only such things asks only things of any wider sort.
pub proof fn wider_sorts_hold<T>(
    plan: Plan<T>,
    such: spec_fn(Act) -> bool,
    wider: spec_fn(Act) -> bool,
)
    requires
        plan.only(such),
        forall|act: Act| #[trigger] such(act) ==> wider(act),
    ensures
        plan.only(wider),
    decreases plan,
{
    if let Plan::Do(act, more) = plan {
        assert forall|answer: Answer| (#[trigger] more(answer)).only(wider) by {
            wider_sorts_hold(more(answer), such, wider);
        }
    }
}

/// A plan of one run asks only such things if the run is such.
pub proof fn one_run_asks_only<T>(
    command: CommandView,
    made: spec_fn(ReplyView) -> T,
    such: spec_fn(Act) -> bool,
)
    requires
        such(Act::Run(command)),
    ensures
        ask_once(command, made).only(such),
{
    let next = ask_once(command, made)->Do_1;
    assert forall|answer: Answer| (#[trigger] next(answer)).only(such) by {
        assert(next(answer) == Plan::Done(made(answer->Reply_0)));
    }
}

/// A plan with something made of its result asks only such things as the plan does.
pub proof fn makings_ask_only<T, U>(
    plan: Plan<T>,
    made: spec_fn(T) -> U,
    such: spec_fn(Act) -> bool,
)
    requires
        plan.only(such),
    ensures
        plan.map_by(made).only(such),
{
    let next = made_of(made);
    assert forall|x: T| (#[trigger] next(x)).only(such) by {
        assert(next(x) == Plan::Done(made(x)));
    }
    chains_ask_only(plan, next, such);
}

/// Two plans one after another ask only such things as each of them does.
pub proof fn chains_ask_only<T, U>(
    plan: Plan<T>,
    next: spec_fn(T) -> Plan<U>,
    such: spec_fn(Act) -> bool,
)
    requires
        plan.only(such),
        forall|x: T| (#[trigger] next(x)).only(such),
    ensures
        plan.then_by(next).only(such),
    decreases plan,
{
    if let Plan::Do(act, more) = plan {
        let whole = plan.then_by(next)->Do_1;
        assert forall|answer: Answer| (#[trigger] whole(answer)).only(such) by {
            assert(more(answer).only(such));
            chains_ask_only(more(answer), next, such);
        }
    }
}

/// Two plans one after another, the other unless the first fails, ask only such things as each of
/// them does.
pub proof fn attempts_ask_only<T, U>(
    plan: Plan<Result<T, FailureView>>,
    next: spec_fn(T) -> Plan<Result<U, FailureView>>,
    such: spec_fn(Act) -> bool,
)
    requires
        plan.only(such),
        forall|x: T| (#[trigger] next(x)).only(such),
    ensures
        plan.and_by(next).only(such),
{
    let follow = unless_failed(next);
    assert forall|x: Result<T, FailureView>| (#[trigger] follow(x)).only(such) by {
        if let Ok(value) = x {
            assert(next(value).only(such));
        }
    }
    chains_ask_only(plan, follow, such);
}

// ---------------------------------------------------------------------------------------------
// Parts of steps
// ---------------------------------------------------------------------------------------------

/// Whether steps stand, one right after another, among others.
pub open spec fn part_of(part: Seq<Step>, steps: Seq<Step>) -> bool {
    exists|i: int|
        0 <= i && i + part.len() <= steps.len() && #[trigger] steps.subrange(i, i + part.len())
            == part
}

/// Steps stand among those that they stand between.
pub proof fn stands_between(a: Seq<Step>, part: Seq<Step>, b: Seq<Step>)
    ensures
        part_of(part, a + part + b),
{
    let from = a.len() as int;
    assert((a + part + b).subrange(from, from + part.len()) == part);
}

/// What stands among steps stands among those and others.
pub proof fn parts_of_parts(part: Seq<Step>, a: Seq<Step>, mid: Seq<Step>, b: Seq<Step>)
    requires
        part_of(part, mid),
    ensures
        part_of(part, a + mid + b),
{
    let i = choose|i: int|
        0 <= i && i + part.len() <= mid.len() && #[trigger] mid.subrange(i, i + part.len())
            == part;
    let all = a + mid + b;
    let at = a.len() + i;
    assert(all.subrange(at, at + part.len()) == mid.subrange(i, i + part.len()));
}

/// In a fixed world every part of the steps is answered by that world.
pub proof fn parts_are_answered(world: spec_fn(Act) -> Answer, part: Seq<Step>, steps: Seq<Step>)
    requires
        part_of(part, steps),
        answered(world, steps),
    ensures
        answered(world, part),
{
    let i = choose|i: int|
        0 <= i && i + part.len() <= steps.len() && #[trigger] steps.subrange(i, i + part.len())
            == part;
    assert forall|k: int| #![trigger part[k]] 0 <= k < part.len() implies part[k].answer == world(
        part[k].act,
    ) by {
        assert(steps.subrange(i, i + part.len())[k] == steps[i + k]);
    }
}

/// A part of a log: something that was told, and the steps right behind it.
pub struct Piece {
    pub told: Step,
    pub steps: Seq<Step>,
}

/// Parts of a log, one right behind another.
pub open spec fn chained(pieces: Seq<Piece>) -> Seq<Step>
    decreases pieces.len(),
{
    if pieces.len() == 0 {
        Seq::empty()
    } else {
        seq![pieces[0].told] + pieces[0].steps + chained(pieces.skip(1))
    }
}

/// The steps of a part stand among those of all parts.
pub proof fn pieces_are_parts(pieces: Seq<Piece>, k: int)
    requires
        0 <= k < pieces.len(),
    ensures
        part_of(pieces[k].steps, chained(pieces)),
    decreases pieces.len(),
{
    let first = pieces[0];
    let rest = pieces.skip(1);
    let one = seq![first.told];
    if k == 0 {
        stands_between(one, first.steps, chained(rest));
    } else {
        pieces_are_parts(rest, k - 1);
        assert(rest[k - 1] == pieces[k]);
        parts_of_parts(pieces[k].steps, one + first.steps, chained(rest), Seq::empty());
        assert(one + first.steps + chained(rest) + Seq::<Step>::empty() == chained(pieces));
    }
}

/// Where every step of each part is such, every step of the parts together is.
pub proof fn chained_are_such(pieces: Seq<Piece>, such: spec_fn(Act) -> bool)
    requires
        forall|k: int|
            #![trigger pieces[k]]
            0 <= k < pieces.len() ==> such(pieces[k].told.act) && forall|i: int|
                #![trigger pieces[k].steps[i]]
                0 <= i < pieces[k].steps.len() ==> such(pieces[k].steps[i].act),
    ensures
        forall|i: int|
            #![trigger chained(pieces)[i]]
            0 <= i < chained(pieces).len() ==> such(chained(pieces)[i].act),
    decreases pieces.len(),
{
    if pieces.len() > 0 {
        let first = pieces[0];
        let rest = pieces.skip(1);
        let all = chained(pieces);
        assert forall|k: int| #![trigger rest[k]] 0 <= k < rest.len() implies such(
            rest[k].told.act,
        ) && forall|i: int|
            #![trigger rest[k].steps[i]]
            0 <= i < rest[k].steps.len() ==> such(rest[k].steps[i].act) by {
            assert(rest[k] == pieces[k + 1]);
        }
        chained_are_such(rest, such);
        assert forall|i: int| #![trigger all[i]] 0 <= i < all.len() implies such(all[i].act) by {
            let n = first.steps.len();
            if i == 0 {
                assert(all[i] == first.told);
            } else if i <= n {
                assert(all[i] == first.steps[i - 1]);
            } else {
                assert(all[i] == chained(rest)[i - 1 - n]);
            }
        }
    }
}

} // verus!
