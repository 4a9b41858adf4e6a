//! The cache of repositories: opening them, and fetching the commits that links name.

use crate::failure::{plain_failure, Failure, FailureView};
use crate::git::{
    carried_out, completed, display_path, flag_view, in_repository, object_found, printed_text,
    shown_path, text_view, unit_view, unstarted, Command, CommandView, ReplyView,
};
use crate::lines::copy_bytes;
use crate::order::{rank_texts, text_before, text_before_chains, texts_are_comparable, Rank};
use crate::plan::{
    attempts_ask_only, attempts_split, first_step, made_by_the_same_steps, makings_ask_only,
    one_run, one_run_asks_only, only_such_steps, Act, Answer, Plan, Step,
};
use crate::repository::{
    asked_git, branch_args, branch_made, branch_plan, command_made, command_ok, command_plan,
    commit_object, exists_made, exists_plan, git_ok, git_text, lookup_args, remote_default_branch,
    text_made, text_plan, the_default_branch_is_asked_for, work_made, work_plan, Repository,
    RepositoryView,
};
use crate::service::{join_path, joined};
use crate::text::{same_text, string_views, trim, trimmed};
use crate::url::{SourceUrl, SourceUrlView};
use crate::world::{
    begins_trying, did, ends, finishes, makes, on_course, starts, steps_on, tries, Outside,
};
use crate::porcelain::default_branch;
use vstd::prelude::*;
use vstd::utf8::encode_utf8;

verus! {

// ---------------------------------------------------------------------------------------------
// Sets of commits
// ---------------------------------------------------------------------------------------------

/// Whether a list stands in order and holds nothing twice.
pub open spec fn is_sorted_set(list: Seq<Seq<char>>) -> bool {
    forall|i: int, j: int|
        #![trigger list[i], list[j]]
        0 <= i < j < list.len() ==> text_before(list[i], list[j])
}

/// Whether `batch` holds what `list` holds, in order and each once.
pub open spec fn is_batch_of(batch: Seq<Seq<char>>, list: Seq<Seq<char>>) -> bool {
    &&& is_sorted_set(batch)
    &&& forall|item: Seq<char>| #[trigger] batch.contains(item) <==> list.contains(item)
}

proof fn sorted_front(a: Seq<Seq<char>>)
    requires
        a.len() > 0,
        is_sorted_set(a),
    ensures
        is_sorted_set(a.drop_last()),
        forall|item: Seq<char>| #[trigger]
            a.drop_last().contains(item) <==> a.contains(item) && item != a.last(),
{
    let front = a.drop_last();
    assert forall|item: Seq<char>| #[trigger] front.contains(item) <==> a.contains(item) && item
        != a.last() by {
        if front.contains(item) {
            let i = front.index_of(item);
            assert(a[i] == item);
            texts_are_comparable(a[i], a[a.len() - 1]);
        }
        if a.contains(item) && item != a.last() {
            let i = a.index_of(item);
            assert(front[i] == item);
        }
    }
}

/// Two sorted sets that hold the same are the same.
pub proof fn sorted_sets_are_determined(a: Seq<Seq<char>>, b: Seq<Seq<char>>)
    requires
        is_sorted_set(a),
        is_sorted_set(b),
        forall|item: Seq<char>| #[trigger] a.contains(item) <==> b.contains(item),
    ensures
        a == b,
    decreases a.len(),
{
    if a.len() == 0 {
        if b.len() > 0 {
            assert(b.contains(b[0]));
            assert(a.contains(b[0]));
        }
        assert(a =~= b);
    } else {
        assert(a.contains(a[a.len() - 1]));
        let i = b.index_of(a.last());
        assert(b.contains(b[b.len() - 1]));
        assert(a.contains(b[b.len() - 1]));
        let j = a.index_of(b.last());
        texts_are_comparable(a.last(), b.last());
        if i < b.len() - 1 && j < a.len() - 1 {
            assert(text_before(b[i], b[b.len() - 1]));
            assert(text_before(a[j], a[a.len() - 1]));
        }
        assert(a.last() == b.last());
        sorted_front(a);
        sorted_front(b);
        sorted_sets_are_determined(a.drop_last(), b.drop_last());
        assert(a == a.drop_last().push(a.last()));
        assert(b == b.drop_last().push(b.last()));
    }
}

/// There is only one batch of a list.
pub proof fn batch_is_unique(a: Seq<Seq<char>>, b: Seq<Seq<char>>, list: Seq<Seq<char>>)
    requires
        is_batch_of(a, list),
        is_batch_of(b, list),
    ensures
        a == b,
{
    assert forall|item: Seq<char>| #[trigger] a.contains(item) <==> b.contains(item) by {
        assert(a.contains(item) <==> list.contains(item));
        assert(b.contains(item) <==> list.contains(item));
    }
    sorted_sets_are_determined(a, b);
}

/// Puts an item into a sorted set, unless it is there.
fn insert_sorted(list: &mut Vec<String>, item: String)
    requires
        is_sorted_set(string_views(old(list)@)),
    ensures
        is_sorted_set(string_views(final(list)@)),
        forall|other: Seq<char>| #[trigger]
            string_views(final(list)@).contains(other) <==> string_views(
                old(list)@,
            ).contains(other) || other == item@,
{
    let ghost before = string_views(list@);
    let ghost added = item@;
    let mut low: usize = 0;
    while low < list.len()
        invariant
            before == string_views(list@),
            is_sorted_set(before),
            added == item@,
            low <= list@.len(),
            forall|k: int| #![trigger before[k]] 0 <= k < low ==> text_before(before[k], added),
        ensures
            low <= list@.len(),
            forall|k: int| #![trigger before[k]] 0 <= k < low ==> text_before(before[k], added),
            low < list@.len() ==> text_before(added, before[low as int]),
        decreases list.len() - low,
    {
        assert(before[low as int] == list@[low as int]@);
        match rank_texts(list[low].as_str(), item.as_str()) {
            Rank::Before => {
                low = low + 1;
            },
            Rank::Same => {
                assert(before.contains(added)) by {
                    assert(before[low as int] == added);
                }
                return ;
            },
            Rank::After => {
                proof {
                    texts_are_comparable(before[low as int], added);
                }
                break ;
            },
        }
    }
    list.insert(low, item);
    proof {
        assert(string_views(list@) == before.insert(low as int, added));
        insertion_keeps_order(before, low as int, added);
    }
}

proof fn insertion_keeps_order(before: Seq<Seq<char>>, at: int, added: Seq<char>)
    requires
        is_sorted_set(before),
        0 <= at <= before.len(),
        forall|k: int| #![trigger before[k]] 0 <= k < at ==> text_before(before[k], added),
        at < before.len() ==> text_before(added, before[at]),
    ensures
        is_sorted_set(before.insert(at, added)),
        forall|other: Seq<char>| #[trigger]
            before.insert(at, added).contains(other) <==> before.contains(other) || other == added,
{
    let after = before.insert(at, added);
    assert forall|k: int| #![trigger before[k]] at <= k < before.len() implies text_before(
        added,
        before[k],
    ) by {
        if at < k {
            text_before_chains(added, before[at], before[k]);
        }
    }
    assert forall|i: int, j: int|
        #![trigger after[i], after[j]]
        0 <= i < j < after.len() implies text_before(after[i], after[j]) by {
        let bi = if i < at {
            before[i]
        } else {
            before[i - 1]
        };
        let bj = if j < at {
            before[j]
        } else {
            before[j - 1]
        };
    }
    assert forall|other: Seq<char>| #[trigger] after.contains(other) <==> before.contains(
        other,
    ) || other == added by {
        if after.contains(other) {
            let k = after.index_of(other);
            if k < at {
                assert(before[k] == other);
            } else if k > at {
                assert(before[k - 1] == other);
            }
        }
        if before.contains(other) {
            let k = before.index_of(other);
            if k < at {
                assert(after[k] == other);
            } else {
                assert(after[k + 1] == other);
            }
        }
        if other == added {
            assert(after[at] == other);
        }
    }
}

/// Where an item stands in a sorted set, or where it would have to stand.
proof fn place_in_set(list: Seq<Seq<char>>, item: Seq<char>, n: int) -> (at: int)
    requires
        is_sorted_set(list),
        0 <= n <= list.len(),
        forall|k: int| #![trigger list[k]] 0 <= k < n ==> text_before(list[k], item),
    ensures
        0 <= at <= list.len(),
        forall|k: int| #![trigger list[k]] 0 <= k < at ==> text_before(list[k], item),
        at < list.len() ==> list[at] == item || text_before(item, list[at]),
    decreases list.len() - n,
{
    if n == list.len() || list[n] == item {
        n
    } else {
        texts_are_comparable(list[n], item);
        if text_before(list[n], item) {
            place_in_set(list, item, n + 1)
        } else {
            n
        }
    }
}

/// Every list has a batch: what it holds, in order and each once.
pub proof fn every_list_has_a_batch(list: Seq<Seq<char>>)
    ensures
        exists|batch: Seq<Seq<char>>| is_batch_of(batch, list),
    decreases list.len(),
{
    if list.len() == 0 {
        assert(is_batch_of(Seq::empty(), list));
    } else {
        let front = list.drop_last();
        let added = list.last();
        every_list_has_a_batch(front);
        let before = choose|batch: Seq<Seq<char>>| is_batch_of(batch, front);
        let at = place_in_set(before, added, 0);
        assert(front.push(added) == list);
        if at < before.len() && before[at] == added {
            batch_of_one_more(before, before, front, added);
            assert(is_batch_of(before, list));
        } else {
            let after = before.insert(at, added);
            insertion_keeps_order(before, at, added);
            batch_of_one_more(before, after, front, added);
            assert(is_batch_of(after, list));
        }
    }
}

// ---------------------------------------------------------------------------------------------
// Fetching commits
// ---------------------------------------------------------------------------------------------

/// The plan to look for commits from `at` on: it comes to those that are missing, behind those of
/// `missing`.
pub open spec fn sift_plan(
    repository: Seq<u8>,
    commits: Seq<Seq<char>>,
    at: int,
    missing: Seq<Seq<char>>,
) -> Plan<Result<Seq<Seq<char>>, FailureView>>
    decreases commits.len() - at, 1int,
{
    if at >= commits.len() {
        Plan::Done(Ok(missing))
    } else {
        exists_plan(repository, commit_object(commits[at])).and_by(
            sift_next(repository, commits, at, missing),
        )
    }
}

/// What follows by whether the commit at `at` was found.
pub open spec fn sift_next(
    repository: Seq<u8>,
    commits: Seq<Seq<char>>,
    at: int,
    missing: Seq<Seq<char>>,
) -> spec_fn(bool) -> Plan<Result<Seq<Seq<char>>, FailureView>>
    decreases commits.len() - at, 0int,
{
    |found: bool|
        if at >= commits.len() {
            Plan::Done(Ok(missing))
        } else if found {
            sift_plan(repository, commits, at + 1, missing)
        } else {
            sift_plan(repository, commits, at + 1, missing.push(commits[at]))
        }
}

/// How a batch of commits is fetched.
pub open spec fn fetch_args(batch: Seq<Seq<char>>) -> Seq<Seq<char>> {
    seq!["fetch"@, "--quiet"@, "--depth=1"@, "--no-tags"@, "origin"@] + batch
}

/// What a list holds, in order and each once.
pub open spec fn batch_of(list: Seq<Seq<char>>) -> Seq<Seq<char>> {
    choose|batch: Seq<Seq<char>>| is_batch_of(batch, list)
}

/// What follows once it is known which commits are missing: they are fetched together, each once
/// and in order; where none is missing, nothing is fetched.
pub open spec fn fetch_next(repository: Seq<u8>) -> spec_fn(Seq<Seq<char>>) -> Plan<
    Result<(), FailureView>,
> {
    |missing: Seq<Seq<char>>|
        if missing.len() == 0 {
            Plan::Done(Ok(()))
        } else {
            command_plan(
                in_repository(repository, fetch_args(batch_of(missing))),
                "fetch referenced commit"@,
            )
        }
}

/// The plan to fetch those of some commits that are missing.
pub open spec fn fetch_plan(repository: Seq<u8>, commits: Seq<Seq<char>>) -> Plan<
    Result<(), FailureView>,
> {
    sift_plan(repository, commits, 0, Seq::empty()).and_by(fetch_next(repository))
}

/// Whether steps look for commits one after another, and find these missing: the ones for which
/// Git says that there is no such object.
pub open spec fn looks_for(
    repository: Seq<u8>,
    commits: Seq<Seq<char>>,
    steps: Seq<Step>,
    missing: Seq<Seq<char>>,
) -> bool {
    &&& steps.len() == commits.len()
    &&& forall|k: int|
        #![trigger steps[k]]
        0 <= k < commits.len() ==> {
            &&& steps[k].act == Act::Run(
                in_repository(repository, lookup_args(commit_object(commits[k]))),
            )
            &&& object_found(repository, steps[k].answer->Reply_0) is Ok
        }
    &&& missing == missing_of(repository, commits, steps, commits.len() as int)
}

/// The commits, of the first `n`, that were not found.
pub open spec fn missing_of(
    repository: Seq<u8>,
    commits: Seq<Seq<char>>,
    steps: Seq<Step>,
    n: int,
) -> Seq<Seq<char>>
    decreases n,
{
    if n <= 0 {
        Seq::empty()
    } else if object_found(repository, steps[n - 1].answer->Reply_0) == Ok::<bool, FailureView>(
        true,
    ) {
        missing_of(repository, commits, steps, n - 1)
    } else {
        missing_of(repository, commits, steps, n - 1).push(commits[n - 1])
    }
}

proof fn missing_of_keeps(
    repository: Seq<u8>,
    commits: Seq<Seq<char>>,
    a: Seq<Step>,
    b: Seq<Step>,
    n: int,
)
    requires
        n <= a.len(),
        n <= b.len(),
        forall|k: int| #![trigger b[k]] 0 <= k < n ==> a[k] == b[k],
    ensures
        missing_of(repository, commits, a, n) == missing_of(repository, commits, b, n),
    decreases n,
{
    if n > 0 {
        missing_of_keeps(repository, commits, a, b, n - 1);
        assert(a[n - 1] == b[n - 1]);
    }
}

proof fn sifted(
    repository: Seq<u8>,
    commits: Seq<Seq<char>>,
    at: int,
    missing: Seq<Seq<char>>,
    done: Seq<Step>,
    steps: Seq<Step>,
    found: Seq<Seq<char>>,
)
    requires
        0 <= at <= commits.len(),
        done.len() == at,
        missing == missing_of(repository, commits, done, at),
        forall|k: int|
            #![trigger done[k]]
            0 <= k < at ==> {
                &&& done[k].act == Act::Run(
                    in_repository(repository, lookup_args(commit_object(commits[k]))),
                )
                &&& object_found(repository, done[k].answer->Reply_0) is Ok
            },
        sift_plan(repository, commits, at, missing).ran(steps, Ok(found)),
    ensures
        looks_for(repository, commits, done + steps, found),
    decreases commits.len() - at,
{
    if at >= commits.len() {
        first_step(sift_plan(repository, commits, at, missing), steps, Ok(found));
        assert(done + steps == done);
    } else {
        let look = exists_plan(repository, commit_object(commits[at]));
        let next = sift_next(repository, commits, at, missing);
        let (a, answer, b) = attempts_split(look, next, steps, Ok(found));
        one_run(
            in_repository(repository, lookup_args(commit_object(commits[at]))),
            exists_made(repository),
            a,
            answer,
        );
        let more = done + a;
        assert(more[at] == a[0]);
        assert forall|k: int| #![trigger more[k]] 0 <= k < at + 1 implies {
            &&& more[k].act == Act::Run(
                in_repository(repository, lookup_args(commit_object(commits[k]))),
            )
            &&& object_found(repository, more[k].answer->Reply_0) is Ok
        } by {
            if k < at {
                assert(more[k] == done[k]);
            }
        }
        missing_of_keeps(repository, commits, done, more, at);
        let after = missing_of(repository, commits, more, at + 1);
        assert(next(answer->Ok_0) == sift_plan(repository, commits, at + 1, after));
        sifted(repository, commits, at + 1, after, more, b, found);
        assert(done + steps == more + b);
    }
}

proof fn missing_of_holds(
    repository: Seq<u8>,
    commits: Seq<Seq<char>>,
    steps: Seq<Step>,
    n: int,
)
    requires
        0 <= n <= commits.len(),
    ensures
        forall|commit: Seq<char>| #[trigger]
            missing_of(repository, commits, steps, n).contains(commit) ==> commits.contains(commit),
    decreases n,
{
    if n > 0 {
        missing_of_holds(repository, commits, steps, n - 1);
        let front = missing_of(repository, commits, steps, n - 1);
        let list = missing_of(repository, commits, steps, n);
        assert forall|commit: Seq<char>| #[trigger] list.contains(commit) implies commits.contains(
            commit,
        ) by {
            let k = list.index_of(commit);
            if k < front.len() {
                assert(front[k] == commit);
                assert(front.contains(commit));
            } else {
                assert(commits[n - 1] == commit);
            }
        }
    }
}

/// Commits are fetched by looking for each of them, one after another, and then, if some are
/// missing, by one fetch that names exactly those, each once and in order. Where none is missing,
/// or the look for one fails, nothing is fetched.
pub proof fn missing_commits_are_fetched_together(
    repository: Seq<u8>,
    commits: Seq<Seq<char>>,
    steps: Seq<Step>,
    result: Result<(), FailureView>,
)
    requires
        fetch_plan(repository, commits).ran(steps, result),
    ensures
        exists|looks: Seq<Step>, missing: Result<Seq<Seq<char>>, FailureView>|
            {
                &&& #[trigger] sift_plan(repository, commits, 0, Seq::empty()).ran(looks, missing)
                &&& match missing {
                    Err(failure) => steps == looks && result == Err::<(), _>(failure),
                    Ok(missing) => {
                        &&& looks_for(repository, commits, looks, missing)
                        &&& forall|commit: Seq<char>| #[trigger]
                            missing.contains(commit) ==> commits.contains(commit)
                        &&& if missing.len() == 0 {
                            steps == looks && result == Ok::<(), FailureView>(())
                        } else {
                            &&& steps.len() == looks.len() + 1
                            &&& steps.drop_last() == looks
                            &&& is_batch_of(batch_of(missing), missing)
                            &&& steps.last().act == Act::Run(
                                in_repository(repository, fetch_args(batch_of(missing))),
                            )
                            &&& result == completed(
                                "fetch referenced commit"@,
                                steps.last().answer->Reply_0,
                            )
                        }
                    },
                }
            },
{
    let sift = sift_plan(repository, commits, 0, Seq::empty());
    let (a, missing, b) = attempts_split(sift, fetch_next(repository), steps, result);
    match missing {
        Err(_) => {
            assert(a + b == a);
        },
        Ok(list) => {
            let none = Seq::<Step>::empty();
            sifted(repository, commits, 0, Seq::empty(), none, a, list);
            assert(none + a == a);
            missing_of_holds(repository, commits, a, commits.len() as int);
            if list.len() == 0 {
                first_step(fetch_next(repository)(list), b, result);
                assert(a + b == a);
            } else {
                one_run(
                    in_repository(repository, fetch_args(batch_of(list))),
                    command_made("fetch referenced commit"@),
                    b,
                    result,
                );
                assert(steps.last() == b[0]);
                assert(steps.drop_last() == a);
                every_list_has_a_batch(list);
            }
        },
    }
    assert(sift.ran(a, missing));
}

proof fn batch_of_one_more(
    before: Seq<Seq<char>>,
    after: Seq<Seq<char>>,
    missing: Seq<Seq<char>>,
    added: Seq<char>,
)
    requires
        is_batch_of(before, missing),
        is_sorted_set(after),
        forall|item: Seq<char>| #[trigger]
            after.contains(item) <==> before.contains(item) || item == added,
    ensures
        is_batch_of(after, missing.push(added)),
{
    let more = missing.push(added);
    assert forall|item: Seq<char>| #[trigger] after.contains(item) <==> more.contains(item) by {
        if missing.contains(item) {
            let k = missing.index_of(item);
            assert(more[k] == item);
        }
        assert(more[missing.len() as int] == added);
        if more.contains(item) && item != added {
            let k = more.index_of(item);
            assert(missing[k] == item);
        }
        assert(before.contains(item) <==> missing.contains(item));
    }
}

impl Repository {
    /// Looks for commits one after another; those that are missing come back in order and each
    /// once.
    fn missing_commits<W: Outside>(&self, world: &mut W, commits: &[String]) -> (result: (
        Result<Vec<String>, Failure>,
        Ghost<Result<Seq<Seq<char>>, FailureView>>,
    ))
        requires
            old(world).ready(),
        ensures
            did(
                *old(world),
                *final(world),
                sift_plan(self@.path, string_views(commits@), 0, Seq::empty()),
                result.1@,
            ),
            match result.0 {
                Ok(batch) => result.1@ matches Ok(missing) && is_batch_of(
                    string_views(batch@),
                    missing,
                ),
                Err(failure) => result.1@ == Err::<Seq<Seq<char>>, _>(failure@),
            },
    {
        let ghost start = *world;
        let ghost all = string_views(commits@);
        let ghost whole = sift_plan(self@.path, all, 0, Seq::empty());
        let ghost mut missing: Seq<Seq<char>> = Seq::empty();
        let mut batch: Vec<String> = Vec::new();
        proof {
            starts(start, whole);
            assert(string_views(batch@) == missing);
        }
        for i in 0..commits.len()
            invariant
                start == *old(world),
                world.ready(),
                all == string_views(commits@),
                whole == sift_plan(self@.path, all, 0, Seq::empty()),
                is_batch_of(string_views(batch@), missing),
                on_course(start, *world, whole, sift_plan(self@.path, all, i as int, missing)),
        {
            let ghost before = *world;
            let ghost next = sift_next(self@.path, all, i as int, missing);
            let object = commits[i].clone().concat("^{commit}");
            assert(all[i as int] == commits@[i as int]@);
            let found = self.object_exists(world, object.as_str());
            proof {
                tries(
                    start,
                    before,
                    *world,
                    whole,
                    exists_plan(self@.path, commit_object(all[i as int])),
                    next,
                    flag_view(found),
                );
            }
            match found {
                Err(failure) => {
                    let ghost told = failure@;
                    return (Err(failure), Ghost(Err(told)));
                },
                Ok(true) => {},
                Ok(false) => {
                    let ghost held = string_views(batch@);
                    insert_sorted(&mut batch, commits[i].clone());
                    proof {
                        batch_of_one_more(held, string_views(batch@), missing, all[i as int]);
                        missing = missing.push(all[i as int]);
                    }
                },
            }
        }
        proof {
            ends(start, *world, whole, Ok(missing));
        }
        (Ok(batch), Ghost(Ok(missing)))
    }

    /// Fetches the commits that the repository lacks, all of them together.
    pub fn fetch_commits<W: Outside>(&self, world: &mut W, commits: &[String]) -> (result:
        Result<(), Failure>)
        requires
            old(world).ready(),
        ensures
            did(
                *old(world),
                *final(world),
                fetch_plan(self@.path, string_views(commits@)),
                unit_view(result),
            ),
    {
        let ghost start = *world;
        let ghost all = string_views(commits@);
        let ghost sift = sift_plan(self@.path, all, 0, Seq::empty());
        let ghost whole = fetch_plan(self@.path, all);
        let (looked, Ghost(sifted)) = self.missing_commits(world, commits);
        let ghost asked = *world;
        proof {
            begins_trying(start, asked, sift, fetch_next(self@.path), sifted);
        }
        let mut batch = match looked {
            Err(failure) => {
                return Err(failure);
            },
            Ok(batch) => batch,
        };
        let ghost missing = sifted->Ok_0;
        let ghost wanted = string_views(batch@);
        if batch.len() == 0 {
            proof {
                if missing.len() > 0 {
                    assert(missing.contains(missing[0]));
                    assert(wanted.contains(missing[0]));
                }
                ends(start, asked, whole, Ok(()));
            }
            return Ok(());
        }
        proof {
            assert(wanted.contains(wanted[0]));
            batch_is_unique(wanted, batch_of(missing), missing);
        }
        let mut args = vec![
            "fetch".to_owned(),
            "--quiet".to_owned(),
            "--depth=1".to_owned(),
            "--no-tags".to_owned(),
            "origin".to_owned(),
        ];
        let ghost front = args@;
        assert(string_views(front) == seq![
            "fetch"@,
            "--quiet"@,
            "--depth=1"@,
            "--no-tags"@,
            "origin"@,
        ]);
        let ghost tail = batch@;
        args.append(&mut batch);
        assert(args@ == front + tail);
        assert(string_views(args@) == fetch_args(wanted));
        let command = Command {
            repository: Some(copy_bytes(self.path.as_slice())),
            args,
            target: None,
        };
        let result = command_ok(world, command, "fetch referenced commit");
        proof {
            finishes(
                start,
                asked,
                *world,
                whole,
                fetch_next(self@.path)(missing),
                unit_view(result),
            );
        }
        result
    }

    /// Fetches a commit, if the repository lacks it.
    pub fn fetch_commit<W: Outside>(&self, world: &mut W, commit: &str) -> (result:
        Result<(), Failure>)
        requires
            old(world).ready(),
        ensures
            did(
                *old(world),
                *final(world),
                fetch_plan(self@.path, seq![commit@]),
                unit_view(result),
            ),
    {
        let commits = vec![commit.to_owned()];
        assert(string_views(commits@) == seq![commit@]);
        self.fetch_commits(world, commits.as_slice())
    }
}

// ---------------------------------------------------------------------------------------------
// Opening a repository
// ---------------------------------------------------------------------------------------------

/// A place in the cache: the directory of an owner, and a repository in it.
#[derive(Debug)]
pub struct CachePlace {
    pub owner_directory: Vec<u8>,
    pub path: Vec<u8>,
}

/// What the file system says of a place in the cache, once the directory of the owner was made:
/// whether that failed, whether the path exists, and whether it holds a directory `.git`.
#[derive(Debug)]
pub struct PlaceFacts {
    pub created: Result<(), String>,
    pub exists: bool,
    pub is_repository: bool,
}

/// A [`PlaceFacts`] as its characters and flags.
pub struct FactsView {
    pub created: Result<(), Seq<char>>,
    pub exists: bool,
    pub is_repository: bool,
}

impl View for PlaceFacts {
    type V = FactsView;

    open spec fn view(&self) -> FactsView {
        FactsView {
            created: match self.created {
                Ok(()) => Ok(()),
                Err(reason) => Err(reason@),
            },
            exists: self.exists,
            is_repository: self.is_repository,
        }
    }
}

/// Whether a function can be asked about any place.
pub open spec fn can_prepare<D: FnMut(&CachePlace) -> PlaceFacts>(prepare: D) -> bool {
    forall|place: CachePlace| #[trigger] call_requires(prepare, (&place,))
}

/// Whether a function may say this of a place.
pub open spec fn facts<D: FnMut(&CachePlace) -> PlaceFacts>(
    prepare: D,
    owner_directory: Seq<u8>,
    path: Seq<u8>,
    said: FactsView,
) -> bool {
    exists|place: CachePlace, given: PlaceFacts|
        place.owner_directory@ == owner_directory && place.path@ == path && given@ == said
            && #[trigger] call_ensures(prepare, (&place,), given)
}

/// The directory of the owner of a link.
pub open spec fn owner_directory(cache: Seq<u8>, url: SourceUrlView) -> Seq<u8> {
    joined(cache, encode_utf8(url.owner))
}

/// Where the repository of a link is cached.
pub open spec fn repository_path(cache: Seq<u8>, url: SourceUrlView) -> Seq<u8> {
    joined(owner_directory(cache, url), encode_utf8(url.repo))
}

/// How the repository of a link is cloned.
pub open spec fn clone_command(url: SourceUrlView, path: Seq<u8>) -> CommandView {
    CommandView {
        repository: None,
        args: seq![
            "clone"@,
            "--depth"@,
            "1"@,
            "--no-tags"@,
            "--quiet"@,
            "https://github.com/"@ + url.owner + "/"@ + url.repo + ".git"@,
        ],
        target: Some(path),
    }
}

/// The reference under which a branch of the remote is kept.
pub open spec fn remote_ref(branch: Seq<char>) -> Seq<char> {
    "refs/remotes/origin/"@ + branch
}

/// How the default branch is brought up to date.
pub open spec fn refresh_args(branch: Seq<char>) -> Seq<Seq<char>> {
    seq![
        "fetch"@,
        "--quiet"@,
        "--prune"@,
        "origin"@,
        "+refs/heads/"@ + branch + ":"@ + remote_ref(branch),
    ]
}

/// How the branch that is checked out is asked for.
pub open spec fn current_args() -> Seq<Seq<char>> {
    seq!["branch"@, "--show-current"@]
}

/// How the branch that is checked out is moved forward.
pub open spec fn merge_args(branch: Seq<char>) -> Seq<Seq<char>> {
    seq!["merge"@, "--quiet"@, "--ff-only"@, remote_ref(branch)]
}

/// How the default branch is checked out in place of another.
pub open spec fn checkout_args(branch: Seq<char>) -> Seq<Seq<char>> {
    seq!["checkout"@, "--quiet"@, "-B"@, branch, remote_ref(branch)]
}

/// A repository or a failure, as bytes and characters.
pub open spec fn repository_view(result: Result<Repository, Failure>) -> Result<
    RepositoryView,
    FailureView,
> {
    match result {
        Ok(repository) => Ok(repository@),
        Err(failure) => Err(failure@),
    }
}

/// How a branch is settled on, by the branch that is checked out: moved forward where it is that
/// one, and else checked out.
pub open spec fn settle_args(branch: Seq<char>, current: Seq<char>) -> Seq<Seq<char>> {
    if trimmed(current) == branch {
        merge_args(branch)
    } else {
        checkout_args(branch)
    }
}

/// What the settling on a branch is called.
pub open spec fn settle_operation(branch: Seq<char>, current: Seq<char>) -> Seq<char> {
    if trimmed(current) == branch {
        "fast-forward cached default branch"@
    } else {
        "check out the repository's default branch"@
    }
}

/// What is made of the last step of an update.
pub open spec fn settle_made(path: Seq<u8>, branch: Seq<char>) -> spec_fn(
    Result<(), FailureView>,
) -> Result<RepositoryView, FailureView> {
    |settled: Result<(), FailureView>|
        match settled {
            Err(failure) => Err(failure),
            Ok(()) => Ok(
                RepositoryView { path, default_branch: branch, default_ref: remote_ref(branch) },
            ),
        }
}

/// The plan of the last step of an update.
pub open spec fn settle_plan(path: Seq<u8>, branch: Seq<char>, current: Seq<char>) -> Plan<
    Result<RepositoryView, FailureView>,
> {
    work_plan(path, settle_args(branch, current), settle_operation(branch, current)).map_by(
        settle_made(path, branch),
    )
}

/// What follows by the branch that is checked out.
pub open spec fn current_next(path: Seq<u8>, branch: Seq<char>) -> spec_fn(Seq<char>) -> Plan<
    Result<RepositoryView, FailureView>,
> {
    |current: Seq<char>| settle_plan(path, branch, current)
}

/// The plan of an update from the look at the branch that is checked out on.
pub open spec fn current_plan(path: Seq<u8>, branch: Seq<char>) -> Plan<
    Result<RepositoryView, FailureView>,
> {
    text_plan(path, current_args(), "read branch"@).and_by(current_next(path, branch))
}

/// What follows once the branch was refreshed.
pub open spec fn refresh_next(path: Seq<u8>, branch: Seq<char>) -> spec_fn(()) -> Plan<
    Result<RepositoryView, FailureView>,
> {
    |done: ()| current_plan(path, branch)
}

/// The plan of an update from the refresh of the branch on.
pub open spec fn refresh_plan(path: Seq<u8>, branch: Seq<char>) -> Plan<
    Result<RepositoryView, FailureView>,
> {
    work_plan(path, refresh_args(branch), "update cached default branch"@).and_by(
        refresh_next(path, branch),
    )
}

/// What follows once the default branch is known.
pub open spec fn update_next(path: Seq<u8>) -> spec_fn(Seq<char>) -> Plan<
    Result<RepositoryView, FailureView>,
> {
    |branch: Seq<char>| refresh_plan(path, branch)
}

/// The plan to update a cached repository: its default branch is determined, then fetched, and
/// only then moved forward or checked out.
pub open spec fn update_plan(path: Seq<u8>) -> Plan<Result<RepositoryView, FailureView>> {
    branch_plan(path).and_by(update_next(path))
}

/// What follows once a repository was cloned.
pub open spec fn clone_next(path: Seq<u8>) -> spec_fn(()) -> Plan<
    Result<RepositoryView, FailureView>,
> {
    |done: ()| update_plan(path)
}

/// The plan to clone a repository and bring it up to date.
pub open spec fn clone_plan(url: SourceUrlView, path: Seq<u8>) -> Plan<
    Result<RepositoryView, FailureView>,
> {
    command_plan(clone_command(url, path), "shallow-clone repository"@).and_by(clone_next(path))
}

/// What follows by what is known of the place of a repository: it is cloned only where there is
/// nothing, refused where there is something else, and updated where it is.
pub open spec fn open_next(cache: Seq<u8>, url: SourceUrlView) -> spec_fn(Answer) -> Plan<
    Result<RepositoryView, FailureView>,
> {
    |answer: Answer|
        match (answer->Facts_0).created {
            Err(reason) => Plan::Done(
                Err(
                    FailureView {
                        message: "could not create "@ + shown_path(owner_directory(cache, url)),
                        cause: Some(reason),
                    },
                ),
            ),
            Ok(()) => if !(answer->Facts_0).exists {
                clone_plan(url, repository_path(cache, url))
            } else if (answer->Facts_0).is_repository {
                update_plan(repository_path(cache, url))
            } else {
                Plan::Done(
                    Err(
                        plain_failure(
                            "cache path "@ + shown_path(repository_path(cache, url))
                                + " is not a Git repository"@,
                        ),
                    ),
                )
            },
        }
}

/// The plan to open the repository of a link.
pub open spec fn open_plan(cache: Seq<u8>, url: SourceUrlView) -> Plan<
    Result<RepositoryView, FailureView>,
> {
    Plan::Do(
        Act::Prepare {
            owner_directory: owner_directory(cache, url),
            path: repository_path(cache, url),
        },
        open_next(cache, url),
    )
}

proof fn updates_keep_the_path(
    path: Seq<u8>,
    steps: Seq<Step>,
    repository: RepositoryView,
)
    requires
        update_plan(path).ran(steps, Ok(repository)),
    ensures
        repository.path == path,
        repository.default_ref == remote_ref(repository.default_branch),
{
    let (a, branch, b) = attempts_split(
        branch_plan(path),
        update_next(path),
        steps,
        Ok(repository),
    );
    let name = branch->Ok_0;
    let refresh = work_plan(path, refresh_args(name), "update cached default branch"@);
    let (c, _, d) = attempts_split(refresh, refresh_next(path, name), b, Ok(repository));
    let look = text_plan(path, current_args(), "read branch"@);
    let (e, current, f) = attempts_split(look, current_next(path, name), d, Ok(repository));
    let settle = work_plan(
        path,
        settle_args(name, current->Ok_0),
        settle_operation(name, current->Ok_0),
    );
    let settled = made_by_the_same_steps(settle, settle_made(path, name), f, Ok(repository));
}

/// An opened repository is the one that the link names: it lies at the place of the link in the
/// cache, and its default reference is that of its default branch.
pub proof fn opened_repositories_belong_to_their_link(
    cache: Seq<u8>,
    url: SourceUrlView,
    steps: Seq<Step>,
    repository: RepositoryView,
)
    requires
        open_plan(cache, url).ran(steps, Ok(repository)),
    ensures
        repository.path == repository_path(cache, url),
        repository.default_ref == remote_ref(repository.default_branch),
{
    let path = repository_path(cache, url);
    first_step(open_plan(cache, url), steps, Ok(repository));
    let answer = steps[0].answer;
    let rest = steps.skip(1);
    first_step(open_next(cache, url)(answer), rest, Ok(repository));
    if !(answer->Facts_0).exists {
        let clone = command_plan(clone_command(url, path), "shallow-clone repository"@);
        let (a, _, b) = attempts_split(clone, clone_next(path), rest, Ok(repository));
        updates_keep_the_path(path, b, repository);
    } else {
        updates_keep_the_path(path, rest, repository);
    }
}

/// Whether a run of Git clones a repository.
pub open spec fn is_clone(act: Act) -> bool {
    act matches Act::Run(command) && command.args.len() > 0 && command.args[0] == "clone"@
}

/// Something that is no clone.
pub open spec fn no_clone() -> spec_fn(Act) -> bool {
    |act: Act| !is_clone(act)
}

proof fn updates_do_not_clone(path: Seq<u8>)
    ensures
        update_plan(path).only(no_clone()),
{
    reveal_strlit("clone");
    reveal_strlit("ls-remote");
    reveal_strlit("fetch");
    reveal_strlit("branch");
    reveal_strlit("merge");
    reveal_strlit("checkout");
    assert("ls-remote"@.len() == 9 && "branch"@.len() == 6 && "checkout"@.len() == 8);
    assert("fetch"@[0] == 'f' && "merge"@[0] == 'm' && "clone"@[0] == 'c' && "clone"@.len() == 5);
    assert forall|branch: Seq<char>| (#[trigger] update_next(path)(branch)).only(no_clone()) by {
        assert forall|done: ()| (#[trigger] refresh_next(path, branch)(done)).only(no_clone()) by {
            assert forall|current: Seq<char>|
                (#[trigger] current_next(path, branch)(current)).only(no_clone()) by {
                let args = settle_args(branch, current);
                let operation = settle_operation(branch, current);
                assert(args[0] == "merge"@ || args[0] == "checkout"@);
                one_run_asks_only(
                    in_repository(path, args),
                    work_made(path, operation),
                    no_clone(),
                );
                makings_ask_only(
                    work_plan(path, args, operation),
                    settle_made(path, branch),
                    no_clone(),
                );
            }
            one_run_asks_only(
                in_repository(path, current_args()),
                text_made(path, "read branch"@),
                no_clone(),
            );
            attempts_ask_only(
                text_plan(path, current_args(), "read branch"@),
                current_next(path, branch),
                no_clone(),
            );
        }
        one_run_asks_only(
            in_repository(path, refresh_args(branch)),
            work_made(path, "update cached default branch"@),
            no_clone(),
        );
        attempts_ask_only(
            work_plan(path, refresh_args(branch), "update cached default branch"@),
            refresh_next(path, branch),
            no_clone(),
        );
    }
    one_run_asks_only(
        in_repository(path, branch_args()),
        text_made(path, "determine remote default branch"@),
        no_clone(),
    );
    makings_ask_only(
        text_plan(path, branch_args(), "determine remote default branch"@),
        branch_made(),
        no_clone(),
    );
    attempts_ask_only(branch_plan(path), update_next(path), no_clone());
}

/// A repository is cloned exactly where its place is made and holds nothing: then the clone is
/// the first run of Git, and the only clone. Where the place holds something else, Git is not run
/// at all.
pub proof fn only_missing_repositories_are_cloned(
    cache: Seq<u8>,
    url: SourceUrlView,
    steps: Seq<Step>,
    result: Result<RepositoryView, FailureView>,
)
    requires
        open_plan(cache, url).ran(steps, result),
    ensures
        steps.len() > 0,
        steps[0].act == (Act::Prepare {
            owner_directory: owner_directory(cache, url),
            path: repository_path(cache, url),
        }),
        ({
            let known = steps[0].answer->Facts_0;
            if known.created is Ok && !known.exists {
                &&& steps.len() > 1
                &&& steps[1].act == Act::Run(clone_command(url, repository_path(cache, url)))
                &&& forall|i: int|
                    #![trigger steps[i]]
                    2 <= i < steps.len() ==> !is_clone(steps[i].act)
            } else {
                &&& forall|i: int|
                    #![trigger steps[i]]
                    0 <= i < steps.len() ==> !is_clone(steps[i].act)
                &&& known.created is Err || !known.is_repository ==> steps.len() == 1
            }
        }),
{
    let path = repository_path(cache, url);
    first_step(open_plan(cache, url), steps, result);
    let known = steps[0].answer->Facts_0;
    let rest = steps.skip(1);
    first_step(open_next(cache, url)(steps[0].answer), rest, result);
    updates_do_not_clone(path);
    if known.created is Ok && !known.exists {
        let clone = command_plan(clone_command(url, path), "shallow-clone repository"@);
        let (a, cloned, b) = attempts_split(clone, clone_next(path), rest, result);
        one_run(
            clone_command(url, path),
            command_made("shallow-clone repository"@),
            a,
            cloned,
        );
        assert(rest[0] == a[0]);
        if cloned is Ok {
            only_such_steps(update_plan(path), no_clone(), b, result);
        }
        assert forall|i: int| #![trigger steps[i]] 2 <= i < steps.len() implies !is_clone(
            steps[i].act,
        ) by {
            assert(steps[i] == rest[i - 1]);
            assert(rest[i - 1] == b[i - 2]);
        }
    } else if known.created is Ok && known.is_repository {
        only_such_steps(update_plan(path), no_clone(), rest, result);
        assert forall|i: int| #![trigger steps[i]] 0 <= i < steps.len() implies !is_clone(
            steps[i].act,
        ) by {
            if i > 0 {
                assert(steps[i] == rest[i - 1]);
            }
        }
    }
}

impl Repository {
    fn settle<W: Outside>(
        world: &mut W,
        path: Vec<u8>,
        default_branch: String,
        current: &str,
    ) -> (result: Result<Repository, Failure>)
        requires
            old(world).ready(),
        ensures
            did(
                *old(world),
                *final(world),
                settle_plan(path@, default_branch@, current@),
                repository_view(result),
            ),
    {
        let ghost start = *world;
        let default_ref = "refs/remotes/origin/".to_owned().concat(default_branch.as_str());
        let name = trim(current);
        let settled;
        if same_text(name.as_str(), default_branch.as_str()) {
            let args = vec![
                "merge".to_owned(),
                "--quiet".to_owned(),
                "--ff-only".to_owned(),
                default_ref.clone(),
            ];
            assert(string_views(args@) == settle_args(default_branch@, current@));
            settled = git_ok(world, path.as_slice(), args, "fast-forward cached default branch");
        } else {
            let args = vec![
                "checkout".to_owned(),
                "--quiet".to_owned(),
                "-B".to_owned(),
                default_branch.clone(),
                default_ref.clone(),
            ];
            assert(string_views(args@) == settle_args(default_branch@, current@));
            settled =
            git_ok(world, path.as_slice(), args, "check out the repository's default branch");
        }
        proof {
            makes(
                start,
                *world,
                work_plan(
                    path@,
                    settle_args(default_branch@, current@),
                    settle_operation(default_branch@, current@),
                ),
                settle_made(path@, default_branch@),
                unit_view(settled),
            );
        }
        match settled {
            Ok(()) => Ok(Repository { path, default_branch, default_ref }),
            Err(failure) => Err(failure),
        }
    }

    fn settle_on_current<W: Outside>(
        world: &mut W,
        path: Vec<u8>,
        default_branch: String,
    ) -> (result: Result<Repository, Failure>)
        requires
            old(world).ready(),
        ensures
            did(
                *old(world),
                *final(world),
                current_plan(path@, default_branch@),
                repository_view(result),
            ),
    {
        let ghost start = *world;
        let ghost whole = current_plan(path@, default_branch@);
        let ghost next = current_next(path@, default_branch@);
        let args = vec!["branch".to_owned(), "--show-current".to_owned()];
        assert(string_views(args@) == current_args());
        let shown = git_text(world, path.as_slice(), args, "read branch");
        let ghost asked = *world;
        proof {
            begins_trying(
                start,
                asked,
                text_plan(path@, current_args(), "read branch"@),
                next,
                text_view(shown),
            );
        }
        match shown {
            Ok(current) => {
                let result = Repository::settle(world, path, default_branch, current.as_str());
                proof {
                    finishes(start, asked, *world, whole, next(current@), repository_view(result));
                }
                result
            },
            Err(failure) => Err(failure),
        }
    }

    fn refresh<W: Outside>(
        world: &mut W,
        path: Vec<u8>,
        default_branch: String,
    ) -> (result: Result<Repository, Failure>)
        requires
            old(world).ready(),
        ensures
            did(
                *old(world),
                *final(world),
                refresh_plan(path@, default_branch@),
                repository_view(result),
            ),
    {
        let ghost start = *world;
        let ghost whole = refresh_plan(path@, default_branch@);
        let ghost next = refresh_next(path@, default_branch@);
        let refspec = "+refs/heads/".to_owned().concat(default_branch.as_str()).concat(":").concat(
            "refs/remotes/origin/".to_owned().concat(default_branch.as_str()).as_str(),
        );
        let args = vec![
            "fetch".to_owned(),
            "--quiet".to_owned(),
            "--prune".to_owned(),
            "origin".to_owned(),
            refspec,
        ];
        assert(string_views(args@) == refresh_args(default_branch@));
        let refreshed = git_ok(world, path.as_slice(), args, "update cached default branch");
        let ghost asked = *world;
        proof {
            begins_trying(
                start,
                asked,
                work_plan(path@, refresh_args(default_branch@), "update cached default branch"@),
                next,
                unit_view(refreshed),
            );
        }
        match refreshed {
            Ok(()) => {
                let result = Repository::settle_on_current(world, path, default_branch);
                proof {
                    finishes(start, asked, *world, whole, next(()), repository_view(result));
                }
                result
            },
            Err(failure) => Err(failure),
        }
    }

    fn update<W: Outside>(world: &mut W, path: Vec<u8>) -> (result: Result<
        Repository,
        Failure,
    >)
        requires
            old(world).ready(),
        ensures
            did(*old(world), *final(world), update_plan(path@), repository_view(result)),
    {
        let ghost start = *world;
        let ghost whole = update_plan(path@);
        let ghost next = update_next(path@);
        let determined = remote_default_branch(world, path.as_slice());
        let ghost asked = *world;
        proof {
            begins_trying(start, asked, branch_plan(path@), next, text_view(determined));
        }
        match determined {
            Ok(branch) => {
                let ghost name = branch@;
                let result = Repository::refresh(world, path, branch);
                proof {
                    finishes(start, asked, *world, whole, next(name), repository_view(result));
                }
                result
            },
            Err(failure) => Err(failure),
        }
    }

    fn clone_and_update<W: Outside>(world: &mut W, url: &SourceUrl, path: Vec<u8>) -> (result:
        Result<Repository, Failure>)
        requires
            old(world).ready(),
        ensures
            did(*old(world), *final(world), clone_plan(url@, path@), repository_view(result)),
    {
        let ghost start = *world;
        let ghost whole = clone_plan(url@, path@);
        let ghost next = clone_next(path@);
        let remote = "https://github.com/".to_owned().concat(url.owner.as_str()).concat(
            "/",
        ).concat(url.repo.as_str()).concat(".git");
        let command = Command {
            repository: None,
            args: vec![
                "clone".to_owned(),
                "--depth".to_owned(),
                "1".to_owned(),
                "--no-tags".to_owned(),
                "--quiet".to_owned(),
                remote,
            ],
            target: Some(copy_bytes(path.as_slice())),
        };
        assert(command@.args == clone_command(url@, path@).args);
        let cloned = command_ok(world, command, "shallow-clone repository");
        let ghost asked = *world;
        proof {
            begins_trying(
                start,
                asked,
                command_plan(clone_command(url@, path@), "shallow-clone repository"@),
                next,
                unit_view(cloned),
            );
        }
        match cloned {
            Ok(()) => {
                let result = Repository::update(world, path);
                proof {
                    finishes(start, asked, *world, whole, next(()), repository_view(result));
                }
                result
            },
            Err(failure) => Err(failure),
        }
    }

    /// Opens the cached repository of a link, or clones it, and brings it up to date.
    pub fn open_or_update<W: Outside>(world: &mut W, cache: &[u8], url: &SourceUrl) -> (result: Result<
        Repository,
        Failure,
    >)
        requires
            old(world).ready(),
        ensures
            did(*old(world), *final(world), open_plan(cache@, url@), repository_view(result)),
    {
        let ghost start = *world;
        let ghost whole = open_plan(cache@, url@);
        let ghost next = open_next(cache@, url@);
        let owner_path = join_path(cache, url.owner.as_str().as_bytes());
        let path = join_path(owner_path.as_slice(), url.repo.as_str().as_bytes());
        let place = CachePlace {
            owner_directory: owner_path,
            path: copy_bytes(path.as_slice()),
        };
        proof {
            starts(start, whole);
        }
        let known = world.prepare(&place);
        let ghost asked = *world;
        let ghost answer = Answer::Facts(known@);
        proof {
            let act = Act::Prepare {
                owner_directory: owner_directory(cache@, url@),
                path: repository_path(cache@, url@),
            };
            steps_on(start, start, asked, whole, act, next, answer);
        }
        match known.created {
            Err(reason) => {
                let message = "could not create ".to_owned().concat(
                    display_path(place.owner_directory.as_slice()).as_str(),
                );
                let failure = Failure::caused(message, reason);
                proof {
                    ends(start, asked, whole, Err(failure@));
                }
                return Err(failure);
            },
            Ok(()) => {},
        }
        if !known.exists {
            let result = Repository::clone_and_update(world, url, path);
            proof {
                finishes(start, asked, *world, whole, next(answer), repository_view(result));
            }
            result
        } else if known.is_repository {
            let result = Repository::update(world, path);
            proof {
                finishes(start, asked, *world, whole, next(answer), repository_view(result));
            }
            result
        } else {
            let message = "cache path ".to_owned().concat(
                display_path(path.as_slice()).as_str(),
            ).concat(" is not a Git repository");
            let failure = Failure::plain(message);
            proof {
                ends(start, asked, whole, Err(failure@));
            }
            Err(failure)
        }
    }
}

// ---------------------------------------------------------------------------------------------
// What is done to a cached repository
// ---------------------------------------------------------------------------------------------

/// The update of a cached repository in full: the default branch is asked for and fetched from the
/// origin, whatever became of it there; the branch that is checked out is asked for; and the
/// default branch is merged, where it is that branch, and else checked out. What fails on the way
/// is what the update fails with, and nothing comes behind it.
pub proof fn updates_in_full(
    path: Seq<u8>,
    steps: Seq<Step>,
    result: Result<RepositoryView, FailureView>,
)
    requires
        update_plan(path).ran(steps, result),
    ensures
        asked_git(steps.take(1), path, seq!["ls-remote"@, "--symref"@, "origin"@, "HEAD"@]),
        match printed_text(
            path,
            "determine remote default branch"@,
            steps[0].answer->Reply_0,
        ) {
            Err(failure) => steps.len() == 1 && result == Err::<RepositoryView, _>(failure),
            Ok(text) => match default_branch(text) {
                Err(failure) => steps.len() == 1 && result == Err::<RepositoryView, _>(failure),
                Ok(branch) => refreshed(path, branch, steps.skip(1), result),
            },
        },
{
    let next = update_next(path);
    let (a, branch, b) = attempts_split(branch_plan(path), next, steps, result);
    the_default_branch_is_asked_for(path, a, branch);
    assert(steps[0] == a[0]);
    assert(steps.take(1) =~= a);
    if let Ok(name) = branch {
        assert(steps.skip(1) =~= b);
        refreshes_in_full(path, name, b, result);
    }
}

/// Whether a branch was fetched and checked out by these steps, with this result.
pub open spec fn refreshed(
    path: Seq<u8>,
    branch: Seq<char>,
    steps: Seq<Step>,
    result: Result<RepositoryView, FailureView>,
) -> bool {
    let remote = "refs/remotes/origin/"@ + branch;
    &&& asked_git(
        steps.take(1),
        path,
        seq![
            "fetch"@,
            "--quiet"@,
            "--prune"@,
            "origin"@,
            "+refs/heads/"@ + branch + ":"@ + remote,
        ],
    )
    &&& match carried_out(path, "update cached default branch"@, steps[0].answer->Reply_0) {
        Err(failure) => steps.len() == 1 && result == Err::<RepositoryView, _>(failure),
        Ok(_) => {
            &&& asked_git(steps.subrange(1, 2), path, seq!["branch"@, "--show-current"@])
            &&& match printed_text(path, "read branch"@, steps[1].answer->Reply_0) {
                Err(failure) => steps.len() == 2 && result == Err::<RepositoryView, _>(failure),
                Ok(current) => {
                    &&& asked_git(
                        steps.skip(2),
                        path,
                        if trimmed(current) == branch {
                            seq!["merge"@, "--quiet"@, "--ff-only"@, remote]
                        } else {
                            seq!["checkout"@, "--quiet"@, "-B"@, branch, remote]
                        },
                    )
                    &&& match carried_out(
                        path,
                        if trimmed(current) == branch {
                            "fast-forward cached default branch"@
                        } else {
                            "check out the repository's default branch"@
                        },
                        steps[2].answer->Reply_0,
                    ) {
                        Err(failure) => result == Err::<RepositoryView, _>(failure),
                        Ok(_) => result == Ok::<_, FailureView>(
                            RepositoryView { path, default_branch: branch, default_ref: remote },
                        ),
                    }
                },
            }
        },
    }
}

proof fn refreshes_in_full(
    path: Seq<u8>,
    branch: Seq<char>,
    steps: Seq<Step>,
    result: Result<RepositoryView, FailureView>,
)
    requires
        refresh_plan(path, branch).ran(steps, result),
    ensures
        refreshed(path, branch, steps, result),
{
    let (a, fetched, b) = attempts_split(
        work_plan(path, refresh_args(branch), "update cached default branch"@),
        refresh_next(path, branch),
        steps,
        result,
    );
    one_run(
        in_repository(path, refresh_args(branch)),
        work_made(path, "update cached default branch"@),
        a,
        fetched,
    );
    assert(steps[0] == a[0]);
    assert(steps.take(1) =~= a);
    if fetched is Ok {
        let (c, current, d) = attempts_split(
            text_plan(path, current_args(), "read branch"@),
            current_next(path, branch),
            b,
            result,
        );
        one_run(
            in_repository(path, current_args()),
            text_made(path, "read branch"@),
            c,
            current,
        );
        assert(steps[1] == c[0]);
        assert(steps.subrange(1, 2) =~= c);
        if let Ok(said) = current {
            let args = settle_args(branch, said);
            let operation = settle_operation(branch, said);
            let settled = made_by_the_same_steps(
                work_plan(path, args, operation),
                settle_made(path, branch),
                d,
                result,
            );
            one_run(in_repository(path, args), work_made(path, operation), d, settled);
            assert(steps[2] == d[0]);
            assert(steps.skip(2) =~= d);
        }
    }
}

/// The opening of a repository in full. Its place is asked for first, below the directory of its
/// owner in the cache. Where that directory cannot be made, or something else stands at the place,
/// that is what is said, and nothing else is tried. A repository that is there is updated; one that
/// is not is cloned first, from the page of its owner and its name, without history.
pub proof fn openings_in_full(
    cache: Seq<u8>,
    url: SourceUrlView,
    steps: Seq<Step>,
    result: Result<RepositoryView, FailureView>,
)
    requires
        open_plan(cache, url).ran(steps, result),
    ensures
        ({
            let directory = joined(cache, encode_utf8(url.owner));
            let path = joined(directory, encode_utf8(url.repo));
            let known = steps[0].answer->Facts_0;
            &&& steps.len() > 0
            &&& steps[0].act == Act::Prepare { owner_directory: directory, path }
            &&& match known.created {
                Err(reason) => {
                    &&& steps.len() == 1
                    &&& result == Err::<RepositoryView, _>(
                        FailureView {
                            message: "could not create "@ + shown_path(directory),
                            cause: Some(reason),
                        },
                    )
                },
                Ok(_) => if known.exists && !known.is_repository {
                    &&& steps.len() == 1
                    &&& result == Err::<RepositoryView, _>(
                        FailureView {
                            message: "cache path "@ + shown_path(path)
                                + " is not a Git repository"@,
                            cause: None,
                        },
                    )
                } else if known.exists {
                    update_plan(path).ran(steps.skip(1), result)
                } else {
                    &&& steps.len() > 1
                    &&& steps[1].act == Act::Run(
                        CommandView {
                            repository: None,
                            args: seq![
                                "clone"@,
                                "--depth"@,
                                "1"@,
                                "--no-tags"@,
                                "--quiet"@,
                                "https://github.com/"@ + url.owner + "/"@ + url.repo + ".git"@,
                            ],
                            target: Some(path),
                        },
                    )
                    &&& match completed("shallow-clone repository"@, steps[1].answer->Reply_0) {
                        Err(failure) => steps.len() == 2 && result == Err::<RepositoryView, _>(
                            failure,
                        ),
                        Ok(_) => update_plan(path).ran(steps.skip(2), result),
                    }
                },
            }
        }),
{
    let path = repository_path(cache, url);
    first_step(open_plan(cache, url), steps, result);
    let rest = steps.skip(1);
    let known = steps[0].answer->Facts_0;
    let plan = open_next(cache, url)(steps[0].answer);
    if known.created is Ok && !known.exists {
        let (a, cloned, b) = attempts_split(
            command_plan(clone_command(url, path), "shallow-clone repository"@),
            clone_next(path),
            rest,
            result,
        );
        one_run(
            clone_command(url, path),
            command_made("shallow-clone repository"@),
            a,
            cloned,
        );
        assert(rest[0] == a[0]);
        assert(steps[1] == rest[0]);
        if cloned is Ok {
            assert(rest.skip(1) =~= b);
            assert(steps.skip(2) =~= rest.skip(1));
        }
    } else if known.created is Err || !known.is_repository {
        first_step(plan, rest, result);
    }
}

proof fn missing_commits_were_not_found(
    repository: Seq<u8>,
    commits: Seq<Seq<char>>,
    steps: Seq<Step>,
    n: int,
    commit: Seq<char>,
)
    requires
        0 <= n <= commits.len(),
    ensures
        missing_of(repository, commits, steps, n).contains(commit) <==> exists|k: int|
            0 <= k < n && #[trigger] commits[k] == commit && object_found(
                repository,
                steps[k].answer->Reply_0,
            ) != Ok::<bool, FailureView>(true),
    decreases n,
{
    if n > 0 {
        missing_commits_were_not_found(repository, commits, steps, n - 1, commit);
        let before = missing_of(repository, commits, steps, n - 1);
        let after = missing_of(repository, commits, steps, n);
        let last = object_found(repository, steps[n - 1].answer->Reply_0) != Ok::<
            bool,
            FailureView,
        >(true);
        if last {
            if after.contains(commit) {
                let i = after.index_of(commit);
                if i < before.len() {
                    assert(before[i] == commit);
                } else {
                    assert(commits[n - 1] == commit);
                }
            }
            if before.contains(commit) {
                let i = before.index_of(commit);
                assert(after[i] == commit);
            }
            if commits[n - 1] == commit {
                assert(after[before.len() as int] == commit);
            }
        }
    }
}

/// Whether a commit was looked up and not found.
pub open spec fn is_missing(commits: Seq<Seq<char>>, steps: Seq<Step>, commit: Seq<char>) -> bool {
    exists|k: int|
        0 <= k < commits.len() && #[trigger] commits[k] == commit && !(
        steps[k].answer->Reply_0 matches ReplyView::Finished(output) && output.code == Some(0i32))
}

/// Every commit is looked up, once for each link, and those that are missing, and only those, are
/// fetched together: each once, in their order, by one run. Where none is missing nothing is
/// fetched.
pub proof fn missing_commits_are_fetched_once(
    repository: Seq<u8>,
    commits: Seq<Seq<char>>,
    steps: Seq<Step>,
    result: Result<(), FailureView>,
)
    requires
        fetch_plan(repository, commits).ran(steps, result),
        forall|k: int|
            #![trigger steps[k]]
            0 <= k < commits.len() ==> steps[k].answer->Reply_0 is Finished,
    ensures
        commits.len() <= steps.len() <= commits.len() + 1,
        forall|k: int|
            #![trigger steps[k]]
            0 <= k < commits.len() ==> steps[k].act == Act::Run(
                CommandView {
                    repository: Some(repository),
                    args: seq!["cat-file"@, "-e"@, commits[k] + "^{commit}"@],
                    target: None,
                },
            ),
        steps.len() == commits.len() <==> forall|commit: Seq<char>|
            !#[trigger] is_missing(commits, steps, commit),
        steps.len() == commits.len() ==> result == Ok::<(), FailureView>(()),
        steps.len() > commits.len() ==> {
            let batch = batch_of(
                missing_of(repository, commits, steps, commits.len() as int),
            );
            &&& steps.last().act == Act::Run(
                CommandView {
                    repository: Some(repository),
                    args: seq!["fetch"@, "--quiet"@, "--depth=1"@, "--no-tags"@, "origin"@]
                        + batch,
                    target: None,
                },
            )
            &&& forall|i: int, j: int|
                #![trigger batch[i], batch[j]]
                0 <= i < j < batch.len() ==> text_before(batch[i], batch[j])
            &&& forall|commit: Seq<char>| #[trigger]
                batch.contains(commit) <==> is_missing(commits, steps, commit)
            &&& result == completed("fetch referenced commit"@, steps.last().answer->Reply_0)
        },
{
    let n = commits.len() as int;
    let (looks, found, rest) = attempts_split(
        sift_plan(repository, commits, 0, Seq::empty()),
        fetch_next(repository),
        steps,
        result,
    );
    let none = Seq::<Seq<char>>::empty();
    assert(steps.skip(0) =~= looks + rest);
    lookups_cannot_fail(repository, commits, 0, none, steps, looks, rest, found);
    let missing = found->Ok_0;
    let nothing = Seq::<Step>::empty();
    sifted(repository, commits, 0, none, nothing, looks, missing);
    assert(nothing + looks =~= looks);
    missing_of_keeps(repository, commits, looks, steps, n);
    assert forall|k: int| #![trigger steps[k]] 0 <= k < n implies steps[k].act == Act::Run(
        CommandView {
            repository: Some(repository),
            args: seq!["cat-file"@, "-e"@, commits[k] + "^{commit}"@],
            target: None,
        },
    ) by {
        assert(steps[k] == looks[k]);
    }
    assert forall|commit: Seq<char>| missing.contains(commit) <==> #[trigger] is_missing(
        commits,
        steps,
        commit,
    ) by {
        missing_commits_were_not_found(repository, commits, steps, n, commit);
        if is_missing(commits, steps, commit) {
            let k = choose|k: int|
                0 <= k < commits.len() && #[trigger] commits[k] == commit && !(
                steps[k].answer->Reply_0 matches ReplyView::Finished(output) && output.code
                    == Some(0i32));
            assert(steps[k].answer->Reply_0 is Finished);
            assert(commits[k] == commit && object_found(repository, steps[k].answer->Reply_0)
                != Ok::<bool, FailureView>(true));
        }
        if missing.contains(commit) {
            let k = choose|k: int|
                0 <= k < n && #[trigger] commits[k] == commit && object_found(
                    repository,
                    steps[k].answer->Reply_0,
                ) != Ok::<bool, FailureView>(true);
            assert(steps[k].answer->Reply_0 is Finished);
            assert(commits[k] == commit && !(
            steps[k].answer->Reply_0 matches ReplyView::Finished(output) && output.code == Some(
                0i32,
            )));
        }
    }
    if missing.len() == 0 {
        first_step(fetch_next(repository)(missing), rest, result);
        assert forall|commit: Seq<char>| !#[trigger] is_missing(commits, steps, commit) by {
            assert(!missing.contains(commit));
        }
    } else {
        let batch = batch_of(missing);
        every_list_has_a_batch(missing);
        one_run(
            in_repository(repository, fetch_args(batch)),
            command_made("fetch referenced commit"@),
            rest,
            result,
        );
        assert(steps.last() == rest[0]);
        assert(missing.contains(missing[0]));
        assert(is_missing(commits, steps, missing[0]));
    }
}

proof fn lookups_cannot_fail(
    repository: Seq<u8>,
    commits: Seq<Seq<char>>,
    at: int,
    missing: Seq<Seq<char>>,
    all: Seq<Step>,
    steps: Seq<Step>,
    rest: Seq<Step>,
    found: Result<Seq<Seq<char>>, FailureView>,
)
    requires
        0 <= at <= commits.len(),
        sift_plan(repository, commits, at, missing).ran(steps, found),
        at + steps.len() + rest.len() == all.len(),
        all.skip(at) == steps + rest,
        forall|k: int|
            #![trigger all[k]]
            0 <= k < commits.len() ==> all[k].answer->Reply_0 is Finished,
    ensures
        found is Ok,
    decreases commits.len() - at,
{
    first_step(sift_plan(repository, commits, at, missing), steps, found);
    if at < commits.len() {
        let next = sift_next(repository, commits, at, missing);
        let (a, there, b) = attempts_split(
            exists_plan(repository, commit_object(commits[at])),
            next,
            steps,
            found,
        );
        one_run(
            in_repository(repository, lookup_args(commit_object(commits[at]))),
            exists_made(repository),
            a,
            there,
        );
        assert(all.skip(at)[0] == a[0]);
        assert(all[at] == a[0]);
        assert(there is Ok);
        assert(all.skip(at + 1) =~= b + rest) by {
            assert(all.skip(at + 1) =~= all.skip(at).skip(1));
            assert((steps + rest).skip(1) =~= b + rest);
        }
        lookups_cannot_fail(
            repository,
            commits,
            at + 1,
            if there->Ok_0 {
                missing
            } else {
                missing.push(commits[at])
            },
            all,
            b,
            rest,
            found,
        );
    }
}

/// Where a commit cannot be looked up, nothing more is looked up, nothing is fetched, and that is
/// what is said.
pub proof fn lookups_that_cannot_be_made_end_the_fetch(
    repository: Seq<u8>,
    commits: Seq<Seq<char>>,
    steps: Seq<Step>,
    result: Result<(), FailureView>,
    k: int,
)
    requires
        fetch_plan(repository, commits).ran(steps, result),
        0 <= k < commits.len(),
        k < steps.len(),
        steps[k].answer->Reply_0 is Unstarted,
    ensures
        steps.len() == k + 1,
        result == Err::<(), _>(
            FailureView {
                message: "could not run Git in "@ + shown_path(repository),
                cause: Some((steps[k].answer->Reply_0)->Unstarted_0),
            },
        ),
{
    let (looks, found, rest) = attempts_split(
        sift_plan(repository, commits, 0, Seq::empty()),
        fetch_next(repository),
        steps,
        result,
    );
    failed_lookups_end(repository, commits, 0, Seq::empty(), looks, found);
    if found is Ok {
        let nothing = Seq::<Step>::empty();
        sifted(repository, commits, 0, Seq::empty(), nothing, looks, found->Ok_0);
        assert(nothing + looks =~= looks);
        assert(looks[k] == steps[k]);
        assert(object_found(repository, looks[k].answer->Reply_0) is Ok);
    } else {
        assert(steps =~= looks);
    }
}

proof fn failed_lookups_end(
    repository: Seq<u8>,
    commits: Seq<Seq<char>>,
    at: int,
    missing: Seq<Seq<char>>,
    steps: Seq<Step>,
    found: Result<Seq<Seq<char>>, FailureView>,
)
    requires
        0 <= at <= commits.len(),
        sift_plan(repository, commits, at, missing).ran(steps, found),
    ensures
        found matches Err(failure) ==> {
            &&& steps.len() > 0
            &&& steps.last().answer->Reply_0 matches ReplyView::Unstarted(reason) && failure
                == unstarted(repository, reason)
            &&& forall|i: int|
                #![trigger steps[i]]
                0 <= i < steps.len() - 1 ==> steps[i].answer->Reply_0 is Finished
        },
    decreases commits.len() - at,
{
    first_step(sift_plan(repository, commits, at, missing), steps, found);
    if at < commits.len() {
        let (a, there, b) = attempts_split(
            exists_plan(repository, commit_object(commits[at])),
            sift_next(repository, commits, at, missing),
            steps,
            found,
        );
        one_run(
            in_repository(repository, lookup_args(commit_object(commits[at]))),
            exists_made(repository),
            a,
            there,
        );
        assert(steps[0] == a[0]);
        if there is Ok {
            failed_lookups_end(
                repository,
                commits,
                at + 1,
                if there->Ok_0 {
                    missing
                } else {
                    missing.push(commits[at])
                },
                b,
                found,
            );
            if found is Err {
                assert(steps.last() == b.last());
                assert forall|i: int| #![trigger steps[i]] 0 <= i < steps.len() - 1 implies
                    steps[i].answer->Reply_0 is Finished by {
                    if i > 0 {
                        assert(steps[i] == b[i - 1]);
                    }
                }
            }
        } else {
            assert(steps =~= a);
        }
    }
}

} // verus!
