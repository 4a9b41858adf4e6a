//! The world around the library, as one that is asked and told things one after another.
//!
//! Git, the file system and the listener are reached through an [`Outside`], which logs everything
//! that is asked of them or told to them, with the answers. A contract says by a
//! [`Plan`](crate::plan::Plan) what a function adds to that log, and what it returns by the answers.
//! The functions behind it are private to the value that calls them, and each is called in one
//! place, right where the entry for that call is made.

use crate::cache::{can_prepare, facts, CachePlace, PlaceFacts};
use crate::failure::FailureView;
use crate::git::{Command, CommandView, Reply, ReplyView};
use crate::listener::{CheckProgress, Listener, ProgressView};
use crate::plan::{
    allowed, ask_once, events, events_of_one_more, made_of, one_step, steps_add,
    steps_before_another, unless_failed, Act, Answer, Answers, Plan, Step,
};
use crate::service::{can_run, replies};
use vstd::prelude::*;

verus! {

/// Something that keeps a log of what was asked of the world.
pub trait Logged: Sized {
    /// Whether anything can be asked.
    spec fn ready(&self) -> bool;

    /// What may be answered to what.
    spec fn may(&self) -> Answers;

    /// What was asked so far, with the answers.
    spec fn log(&self) -> Seq<Step>;
}

/// Whether one step was logged, and nothing else happened.
pub open spec fn stepped<W: Logged>(before: W, after: W, act: Act, answer: Answer) -> bool {
    &&& after.ready()
    &&& after.may() == before.may()
    &&& after.log() == before.log().push(Step { act, answer })
    &&& (before.may())(act, answer)
}

/// The world: Git, the places of the cache, and a listener.
pub trait Outside: Logged {
    /// Runs Git.
    fn run(&mut self, command: Command) -> (reply: Reply)
        requires
            old(self).ready(),
        ensures
            stepped(*old(self), *final(self), Act::Run(command@), Answer::Reply(reply@)),
    ;

    /// Makes the directory of an owner in the cache, and looks at the place of a repository.
    fn prepare(&mut self, place: &CachePlace) -> (known: PlaceFacts)
        requires
            old(self).ready(),
        ensures
            stepped(
                *old(self),
                *final(self),
                Act::Prepare { owner_directory: place.owner_directory@, path: place.path@ },
                Answer::Facts(known@),
            ),
    ;

    /// Tells the listener how far a check has come.
    fn tell(&mut self, progress: CheckProgress<'_>)
        requires
            old(self).ready(),
        ensures
            stepped(*old(self), *final(self), Act::Tell(progress@), Answer::Nothing),
    ;
}

// ---------------------------------------------------------------------------------------------
// Plans that are carried out
// ---------------------------------------------------------------------------------------------

/// Whether a plan was carried out, with this result: its steps were added to the log, and nothing
/// else was.
pub open spec fn did<W: Logged, T>(before: W, after: W, plan: Plan<T>, result: T) -> bool {
    &&& after.ready()
    &&& after.may() == before.may()
    &&& exists|steps: Seq<Step>| #[trigger]
        plan.ran(steps, result) && after.log() == before.log() + steps && allowed(
            before.may(),
            steps,
        )
}

/// Whether a plan was carried out up to where `rest` is left of it.
#[verifier::opaque]
pub open spec fn on_course<W: Logged, T>(start: W, now: W, whole: Plan<T>, rest: Plan<T>) -> bool {
    &&& now.ready()
    &&& now.may() == start.may()
    &&& exists|steps: Seq<Step>| #[trigger]
        whole.after(steps) == Some(rest) && now.log() == start.log() + steps && allowed(
            start.may(),
            steps,
        )
}

proof fn allowed_adds(may: Answers, a: Seq<Step>, b: Seq<Step>)
    requires
        allowed(may, a),
        allowed(may, b),
    ensures
        allowed(may, a + b),
{
    let all = a + b;
    assert forall|i: int| #![trigger all[i]] 0 <= i < all.len() implies may(
        all[i].act,
        all[i].answer,
    ) by {
        if i < a.len() {
            assert(all[i] == a[i]);
        } else {
            assert(all[i] == b[i - a.len()]);
        }
    }
}

/// Before the first step the whole plan is left.
pub(crate) proof fn starts<W: Logged, T>(start: W, plan: Plan<T>)
    requires
        start.ready(),
    ensures
        on_course(start, start, plan, plan),
{
    reveal(on_course);
    let none = Seq::<Step>::empty();
    assert(plan.after(none) == Some(plan));
    assert(start.log() + none == start.log());
}

/// One step further.
pub(crate) proof fn steps_on<W: Logged, T>(
    start: W,
    before: W,
    now: W,
    whole: Plan<T>,
    act: Act,
    next: spec_fn(Answer) -> Plan<T>,
    answer: Answer,
)
    requires
        on_course(start, before, whole, Plan::Do(act, next)),
        stepped(before, now, act, answer),
    ensures
        on_course(start, now, whole, next(answer)),
{
    reveal(on_course);
    let steps = choose|steps: Seq<Step>| #[trigger]
        whole.after(steps) == Some(Plan::Do(act, next)) && before.log() == start.log() + steps
            && allowed(start.may(), steps);
    let step = Step { act, answer };
    one_step(whole, steps, step);
    assert(now.log() == start.log() + steps.push(step));
    assert(steps.push(step) == steps + seq![step]);
    allowed_adds(start.may(), steps, seq![step]);
}

/// What is left was carried out: so is the whole plan.
pub(crate) proof fn finishes<W: Logged, T>(
    start: W,
    before: W,
    now: W,
    whole: Plan<T>,
    rest: Plan<T>,
    result: T,
)
    requires
        on_course(start, before, whole, rest),
        did(before, now, rest, result),
    ensures
        did(start, now, whole, result),
{
    reveal(on_course);
    let a = choose|steps: Seq<Step>| #[trigger]
        whole.after(steps) == Some(rest) && before.log() == start.log() + steps && allowed(
            start.may(),
            steps,
        );
    let b = choose|steps: Seq<Step>| #[trigger]
        rest.ran(steps, result) && now.log() == before.log() + steps && allowed(
            before.may(),
            steps,
        );
    steps_add(whole, a, b);
    assert(whole.ran(a + b, result));
    assert(now.log() == start.log() + (a + b));
    allowed_adds(start.may(), a, b);
}

/// Nothing is left but a result: the plan is carried out.
pub(crate) proof fn ends<W: Logged, T>(start: W, now: W, whole: Plan<T>, result: T)
    requires
        on_course(start, now, whole, Plan::Done(result)),
    ensures
        did(start, now, whole, result),
{
    reveal(on_course);
    let steps = choose|steps: Seq<Step>| #[trigger]
        whole.after(steps) == Some(Plan::Done(result)) && now.log() == start.log() + steps
            && allowed(start.may(), steps);
    assert(whole.ran(steps, result));
}

/// A part of a plan was carried out: what follows by its result is left.
pub(crate) proof fn continues<W: Logged, T, U>(
    start: W,
    before: W,
    now: W,
    whole: Plan<U>,
    part: Plan<T>,
    next: spec_fn(T) -> Plan<U>,
    result: T,
)
    requires
        on_course(start, before, whole, part.then_by(next)),
        did(before, now, part, result),
    ensures
        on_course(start, now, whole, next(result)),
{
    reveal(on_course);
    let a = choose|steps: Seq<Step>| #[trigger]
        whole.after(steps) == Some(part.then_by(next)) && before.log() == start.log() + steps
            && allowed(start.may(), steps);
    let b = choose|steps: Seq<Step>| #[trigger]
        part.ran(steps, result) && now.log() == before.log() + steps && allowed(
            before.may(),
            steps,
        );
    steps_add(whole, a, b);
    steps_before_another(part, next, b);
    assert(whole.after(a + b) == Some(next(result)));
    assert(now.log() == start.log() + (a + b));
    allowed_adds(start.may(), a, b);
}

/// The first part of a plan was carried out.
pub(crate) proof fn begins<W: Logged, T, U>(
    start: W,
    now: W,
    part: Plan<T>,
    next: spec_fn(T) -> Plan<U>,
    result: T,
)
    requires
        start.ready(),
        did(start, now, part, result),
    ensures
        on_course(start, now, part.then_by(next), next(result)),
{
    starts(start, part.then_by(next));
    continues(start, start, now, part.then_by(next), part, next, result);
}

/// A part of a plan was tried: where it failed, the plan ends so; else what follows is left.
pub(crate) proof fn tries<W: Logged, T, U>(
    start: W,
    before: W,
    now: W,
    whole: Plan<Result<U, FailureView>>,
    part: Plan<Result<T, FailureView>>,
    next: spec_fn(T) -> Plan<Result<U, FailureView>>,
    result: Result<T, FailureView>,
)
    requires
        on_course(start, before, whole, part.and_by(next)),
        did(before, now, part, result),
    ensures
        match result {
            Ok(value) => on_course(start, now, whole, next(value)),
            Err(failure) => did(start, now, whole, Err(failure)),
        },
{
    continues(start, before, now, whole, part, unless_failed(next), result);
    if let Err(failure) = result {
        ends(start, now, whole, Err(failure));
    }
}

/// The first part of a plan was tried.
pub(crate) proof fn begins_trying<W: Logged, T, U>(
    start: W,
    now: W,
    part: Plan<Result<T, FailureView>>,
    next: spec_fn(T) -> Plan<Result<U, FailureView>>,
    result: Result<T, FailureView>,
)
    requires
        start.ready(),
        did(start, now, part, result),
    ensures
        match result {
            Ok(value) => on_course(start, now, part.and_by(next), next(value)),
            Err(failure) => did(start, now, part.and_by(next), Err(failure)),
        },
{
    starts(start, part.and_by(next));
    tries(start, start, now, part.and_by(next), part, next, result);
}

/// A plan of one run was carried out.
pub(crate) proof fn ran_once<W: Logged, T>(
    start: W,
    now: W,
    command: CommandView,
    made: spec_fn(ReplyView) -> T,
    reply: ReplyView,
)
    requires
        start.ready(),
        stepped(start, now, Act::Run(command), Answer::Reply(reply)),
    ensures
        did(start, now, ask_once(command, made), made(reply)),
{
    let plan = ask_once(command, made);
    starts(start, plan);
    let next = plan->Do_1;
    steps_on(start, start, now, plan, Act::Run(command), next, Answer::Reply(reply));
    ends(start, now, plan, made(reply));
}

/// A plan was carried out, and something made of its result.
pub(crate) proof fn makes<W: Logged, T, U>(
    start: W,
    now: W,
    plan: Plan<T>,
    made: spec_fn(T) -> U,
    result: T,
)
    requires
        start.ready(),
        did(start, now, plan, result),
    ensures
        did(start, now, plan.map_by(made), made(result)),
{
    begins(start, now, plan, made_of(made), result);
    ends(start, now, plan.map_by(made), made(result));
}

/// A plan without a step is carried out by nothing.
pub(crate) proof fn did_nothing<W: Logged, T>(world: W, result: T)
    requires
        world.ready(),
    ensures
        did(world, world, Plan::Done(result), result),
{
    starts(world, Plan::Done(result));
    ends(world, world, Plan::Done(result), result);
}

// ---------------------------------------------------------------------------------------------
// The world that is made of functions
// ---------------------------------------------------------------------------------------------

/// The world that is made of a function to run Git, one to prepare places, and a listener.
pub struct World<G, D, L> {
    git: G,
    place: D,
    listener: L,
    log: Ghost<Seq<Step>>,
}

/// What may be answered by a function that runs Git, one that prepares places, and a listener
/// who passes on what `passes` says to one who may hear what `hears` says.
pub open spec fn world_of<G: FnMut(&Command) -> Reply, D: FnMut(&CachePlace) -> PlaceFacts>(
    git: G,
    place: D,
    passes: spec_fn(ProgressView) -> bool,
    hears: spec_fn(ProgressView) -> bool,
) -> Answers {
    |act: Act, answer: Answer|
        match act {
            Act::Run(command) => answer matches Answer::Reply(reply) && replies(
                git,
                command,
                reply,
            ),
            Act::Prepare { owner_directory, path } => answer matches Answer::Facts(known)
                && facts(place, owner_directory, path, known),
            Act::Tell(progress) => answer is Nothing && (passes(progress) ==> hears(progress)),
            _ => false,
        }
}

impl<
    G: FnMut(&Command) -> Reply,
    D: FnMut(&CachePlace) -> PlaceFacts,
    L: Listener,
> World<G, D, L> {
    /// The listener, with what was passed on to it.
    pub closed spec fn listener(&self) -> L {
        self.listener
    }

    /// A world of which nothing was asked yet.
    pub fn new(git: G, place: D, listener: L) -> (world: World<G, D, L>)
        requires
            listener.heard() == Seq::<ProgressView>::empty(),
        ensures
            can_run(git) && can_prepare(place) && listener.listens() ==> world.ready(),
            world.may() == world_of(git, place, listener.passes(), listener.hears()),
            world.log() == Seq::<Step>::empty(),
            world.listener() == listener,
    {
        let world = World { git, place, listener, log: Ghost(Seq::empty()) };
        proof {
            reveal(Seq::filter);
            assert(events(world.log()).filter(listener.passes()) == Seq::<ProgressView>::empty());
        }
        world
    }

    /// To the listener was passed on exactly what it passes on of the events in the log, in their
    /// order.
    pub proof fn listener_heard_the_log(&self)
        requires
            self.ready(),
        ensures
            self.listener().heard() == events(self.log()).filter(self.listener().passes()),
    {
    }
}

impl<
    G: FnMut(&Command) -> Reply,
    D: FnMut(&CachePlace) -> PlaceFacts,
    L: Listener,
> Logged for World<G, D, L> {
    closed spec fn ready(&self) -> bool {
        &&& can_run(self.git)
        &&& can_prepare(self.place)
        &&& self.listener.listens()
        &&& self.listener.heard() == events(self.log@).filter(self.listener.passes())
    }

    closed spec fn may(&self) -> Answers {
        world_of(self.git, self.place, self.listener.passes(), self.listener.hears())
    }

    closed spec fn log(&self) -> Seq<Step> {
        self.log@
    }
}

impl<
    G: FnMut(&Command) -> Reply,
    D: FnMut(&CachePlace) -> PlaceFacts,
    L: Listener,
> Outside for World<G, D, L> {
    fn run(&mut self, command: Command) -> (reply: Reply) {
        let reply = (self.git)(&command);
        proof {
            events_of_one_more(
                self.log@,
                Step { act: Act::Run(command@), answer: Answer::Reply(reply@) },
            );
        }
        self.log =
        Ghost(
            self.log@.push(Step { act: Act::Run(command@), answer: Answer::Reply(reply@) }),
        );
        reply
    }

    fn prepare(&mut self, place: &CachePlace) -> (known: PlaceFacts) {
        let known = (self.place)(place);
        let ghost act = Act::Prepare {
            owner_directory: place.owner_directory@,
            path: place.path@,
        };
        proof {
            events_of_one_more(self.log@, Step { act, answer: Answer::Facts(known@) });
        }
        self.log = Ghost(self.log@.push(Step { act, answer: Answer::Facts(known@) }));
        known
    }

    fn tell(&mut self, progress: CheckProgress<'_>) {
        let ghost view = progress@;
        let ghost passes = self.listener.passes();
        self.listener.hear(progress);
        proof {
            let step = Step { act: Act::Tell(view), answer: Answer::Nothing };
            events_of_one_more(self.log@, step);
            events(self.log@).lemma_filter_push(view, passes);
        }
        self.log =
        Ghost(self.log@.push(Step { act: Act::Tell(view), answer: Answer::Nothing }));
    }
}

} // verus!
