//! When lines left a file: along the history of a branch, and on the side branches it merged.

use crate::failure::{Failure, FailureView};
use crate::git::{
    flag_view, in_repository, list_view, printed_lines, printed_text, shown_file, text_view,
    CommandView, ReplyView,
};
use crate::plan::{attempts_split, first_step, made_by_the_same_steps, one_run, Act, Plan, Step};
use crate::porcelain::{parent_words, renamed_by};
use crate::repository::{
    asked_git, blob_holds, blob_made, blob_plan, diff_args, git_lines, git_text, holds_made,
    holds_plan, lines_made, lines_plan, lines_stand_where_the_file_has_them, parents_are_asked_for,
    parents_args, parents_made, parents_plan, renamed_made, renamed_plan, show_args, text_made,
    text_plan, Repository,
};
use crate::text::{byte_views, string_views, trim, trimmed};
use crate::world::{
    begins_trying, did, did_nothing, ends, finishes, on_course, starts, tries, Outside,
};
use crate::account::{no_times, times, times_adds};
use crate::lines::holds_lines;
use vstd::prelude::*;

verus! {

// ---------------------------------------------------------------------------------------------
// Along a branch
// ---------------------------------------------------------------------------------------------

/// A commit that may be missing, or a failure, as characters.
pub open spec fn commit_view(result: Result<Option<String>, Failure>) -> Result<
    Option<Seq<char>>,
    FailureView,
> {
    match result {
        Ok(Some(commit)) => Ok(Some(commit@)),
        Ok(None) => Ok(None),
        Err(failure) => Err(failure@),
    }
}

/// The plan to walk along `commits` from `at` on. At each commit the file is followed under the
/// name that it has there; the first commit at which the lines do not stand in it ends the walk.
pub open spec fn walk_plan(
    repository: Seq<u8>,
    commits: Seq<Seq<char>>,
    at: int,
    previous: Seq<char>,
    path: Seq<char>,
    expected: Seq<Seq<u8>>,
) -> Plan<Result<Option<Seq<char>>, FailureView>>
    decreases commits.len() - at, 2int,
{
    if at >= commits.len() {
        Plan::Done(Ok(None))
    } else {
        renamed_plan(repository, previous, commits[at], path, true).and_by(
            walk_named(repository, commits, at, expected),
        )
    }
}

/// What follows by the name that the file has at a commit.
pub open spec fn walk_named(
    repository: Seq<u8>,
    commits: Seq<Seq<char>>,
    at: int,
    expected: Seq<Seq<u8>>,
) -> spec_fn(Seq<char>) -> Plan<Result<Option<Seq<char>>, FailureView>>
    decreases commits.len() - at, 1int,
{
    |name: Seq<char>|
        if at >= commits.len() {
            Plan::Done(Ok(None))
        } else {
            holds_plan(repository, commits[at], name, expected).and_by(
                walk_held(repository, commits, at, name, expected),
            )
        }
}

/// What follows by whether the lines stand in the file at a commit.
pub open spec fn walk_held(
    repository: Seq<u8>,
    commits: Seq<Seq<char>>,
    at: int,
    name: Seq<char>,
    expected: Seq<Seq<u8>>,
) -> spec_fn(bool) -> Plan<Result<Option<Seq<char>>, FailureView>>
    decreases commits.len() - at, 0int,
{
    |held: bool|
        if held && at < commits.len() {
            walk_plan(repository, commits, at + 1, commits[at], name, expected)
        } else {
            Plan::Done(Ok(Some(commits[at])))
        }
}

/// How the commits behind `start` up to `end`, along the first parents, are asked for.
pub open spec fn range_args(start: Seq<char>, end: Seq<char>) -> Seq<Seq<char>> {
    seq!["rev-list"@, "--first-parent"@, "--reverse"@, start + ".."@ + end]
}

/// What follows once the commits are known.
pub open spec fn break_next(
    repository: Seq<u8>,
    start: Seq<char>,
    path: Seq<char>,
    expected: Seq<Seq<u8>>,
) -> spec_fn(Seq<Seq<char>>) -> Plan<Result<Option<Seq<char>>, FailureView>> {
    |commits: Seq<Seq<char>>| walk_plan(repository, commits, 0, start, path, expected)
}

/// The plan to find the commit that took lines away.
pub open spec fn break_plan(
    repository: Seq<u8>,
    start: Seq<char>,
    end: Seq<char>,
    path: Seq<char>,
    expected: Seq<Seq<u8>>,
) -> Plan<Result<Option<Seq<char>>, FailureView>> {
    lines_plan(repository, range_args(start, end), "walk default-branch history"@).and_by(
        break_next(repository, start, path, expected),
    )
}

/// The commit that a walk comes from at its `k`th commit.
pub open spec fn walk_start(start: Seq<char>, commits: Seq<Seq<char>>, k: int) -> Seq<char> {
    if k <= 0 {
        start
    } else {
        commits[k - 1]
    }
}

/// What the renames that Git was asked for say of the file at the `k`th commit of a walk.
pub open spec fn walk_rename(
    repository: Seq<u8>,
    path: Seq<char>,
    steps: Seq<Step>,
    k: int,
) -> Result<Seq<char>, FailureView>
    decreases k,
{
    renamed_by(
        repository,
        steps[2 * k].answer->Reply_0,
        if k <= 0 {
            path
        } else {
            walk_rename(repository, path, steps, k - 1)->Ok_0
        },
        true,
    )
}

/// The name of the file before the `k`th commit of a walk.
pub open spec fn walk_name(
    repository: Seq<u8>,
    path: Seq<char>,
    steps: Seq<Step>,
    k: int,
) -> Seq<char> {
    if k <= 0 {
        path
    } else {
        walk_rename(repository, path, steps, k - 1)->Ok_0
    }
}

/// Whether the lines stand in the file that was shown at the `k`th commit of a walk.
pub open spec fn walk_holds(
    repository: Seq<u8>,
    expected: Seq<Seq<u8>>,
    steps: Seq<Step>,
    k: int,
) -> Result<bool, FailureView> {
    blob_holds(shown_file(repository, steps[2 * k + 1].answer->Reply_0), expected)
}

/// Whether at the `k`th commit of a walk Git was asked for the renames since the commit before.
pub open spec fn asks_renames(
    repository: Seq<u8>,
    start: Seq<char>,
    commits: Seq<Seq<char>>,
    steps: Seq<Step>,
    k: int,
) -> bool {
    steps[2 * k].act == Act::Run(
        in_repository(repository, diff_args(walk_start(start, commits, k), commits[k])),
    )
}

/// Whether at the `k`th commit of a walk the file was followed, and shown under its name there.
pub open spec fn asks_file(
    repository: Seq<u8>,
    commits: Seq<Seq<char>>,
    path: Seq<char>,
    steps: Seq<Step>,
    k: int,
) -> bool {
    &&& walk_rename(repository, path, steps, k) is Ok
    &&& steps[2 * k + 1].act == Act::Run(
        in_repository(
            repository,
            show_args(commits[k], walk_rename(repository, path, steps, k)->Ok_0),
        ),
    )
}

/// Whether the first `n` commits were walked, with the lines standing at each.
pub open spec fn walked(
    repository: Seq<u8>,
    start: Seq<char>,
    commits: Seq<Seq<char>>,
    path: Seq<char>,
    expected: Seq<Seq<u8>>,
    steps: Seq<Step>,
    n: int,
) -> bool {
    &&& 0 <= n <= commits.len()
    &&& 2 * n <= steps.len()
    &&& forall|k: int|
        0 <= k < n ==> #[trigger] asks_renames(repository, start, commits, steps, k) && asks_file(
            repository,
            commits,
            path,
            steps,
            k,
        ) && walk_holds(repository, expected, steps, k) == Ok::<bool, FailureView>(true)
}

/// Whether a walk ended at its `n`th commit, with this result.
pub open spec fn ends_at(
    repository: Seq<u8>,
    start: Seq<char>,
    commits: Seq<Seq<char>>,
    path: Seq<char>,
    expected: Seq<Seq<u8>>,
    steps: Seq<Step>,
    n: int,
    result: Result<Option<Seq<char>>, FailureView>,
) -> bool {
    &&& n < commits.len()
    &&& walked(repository, start, commits, path, expected, steps, n)
    &&& steps.len() > 2 * n
    &&& asks_renames(repository, start, commits, steps, n)
    &&& if walk_rename(repository, path, steps, n) is Err {
        &&& steps.len() == 2 * n + 1
        &&& result == Err::<Option<Seq<char>>, _>(
            walk_rename(repository, path, steps, n)->Err_0,
        )
    } else {
        &&& steps.len() == 2 * n + 2
        &&& asks_file(repository, commits, path, steps, n)
        &&& match walk_holds(repository, expected, steps, n) {
            Err(failure) => result == Err::<Option<Seq<char>>, _>(failure),
            Ok(held) => !held && result == Ok::<_, FailureView>(Some(commits[n])),
        }
    }
}

proof fn renames_keep(repository: Seq<u8>, path: Seq<char>, a: Seq<Step>, b: Seq<Step>, k: int)
    requires
        2 * k < a.len(),
        2 * k < b.len(),
        forall|i: int| #![trigger b[i]] 0 <= i <= 2 * k ==> a[i] == b[i],
        0 <= k,
    ensures
        walk_rename(repository, path, a, k) == walk_rename(repository, path, b, k),
    decreases k,
{
    assert(a[2 * k] == b[2 * k]);
    if k > 0 {
        renames_keep(repository, path, a, b, k - 1);
    }
}

proof fn walked_keeps(
    repository: Seq<u8>,
    start: Seq<char>,
    commits: Seq<Seq<char>>,
    path: Seq<char>,
    expected: Seq<Seq<u8>>,
    steps: Seq<Step>,
    more: Seq<Step>,
    n: int,
)
    requires
        walked(repository, start, commits, path, expected, steps, n),
    ensures
        walked(repository, start, commits, path, expected, steps + more, n),
        n > 0 ==> walk_rename(repository, path, steps + more, n - 1) == walk_rename(
            repository,
            path,
            steps,
            n - 1,
        ),
{
    let all = steps + more;
    assert forall|k: int| 0 <= k < n implies #[trigger] asks_renames(
        repository,
        start,
        commits,
        all,
        k,
    ) && asks_file(repository, commits, path, all, k) && walk_holds(repository, expected, all, k)
        == Ok::<bool, FailureView>(true) by {
        assert(asks_renames(repository, start, commits, steps, k));
        assert(all[2 * k] == steps[2 * k]);
        assert(all[2 * k + 1] == steps[2 * k + 1]);
        renames_keep(repository, path, steps, all, k);
    }
    if n > 0 {
        renames_keep(repository, path, steps, all, n - 1);
    }
}

proof fn walked_one_more(
    repository: Seq<u8>,
    start: Seq<char>,
    commits: Seq<Seq<char>>,
    path: Seq<char>,
    expected: Seq<Seq<u8>>,
    steps: Seq<Step>,
    at: int,
)
    requires
        at < commits.len(),
        2 * at + 2 <= steps.len(),
        walked(repository, start, commits, path, expected, steps, at),
        asks_renames(repository, start, commits, steps, at),
        asks_file(repository, commits, path, steps, at),
        walk_holds(repository, expected, steps, at) == Ok::<bool, FailureView>(true),
    ensures
        walked(repository, start, commits, path, expected, steps, at + 1),
{
    assert forall|k: int| 0 <= k < at + 1 implies #[trigger] asks_renames(
        repository,
        start,
        commits,
        steps,
        k,
    ) && asks_file(repository, commits, path, steps, k) && walk_holds(
        repository,
        expected,
        steps,
        k,
    ) == Ok::<bool, FailureView>(true) by {
        if k < at {
            assert(asks_renames(repository, start, commits, steps, k));
        } else {
            assert(k == at);
        }
    }
}

proof fn walk_from(
    repository: Seq<u8>,
    start: Seq<char>,
    commits: Seq<Seq<char>>,
    path: Seq<char>,
    expected: Seq<Seq<u8>>,
    done: Seq<Step>,
    at: int,
    steps: Seq<Step>,
    result: Result<Option<Seq<char>>, FailureView>,
)
    requires
        walked(repository, start, commits, path, expected, done, at),
        done.len() == 2 * at,
        walk_plan(
            repository,
            commits,
            at,
            walk_start(start, commits, at),
            walk_name(repository, path, done, at),
            expected,
        ).ran(steps, result),
    ensures
        result == Ok::<Option<Seq<char>>, FailureView>(None) && (done + steps).len() == 2
            * commits.len() && walked(
            repository,
            start,
            commits,
            path,
            expected,
            done + steps,
            commits.len() as int,
        ) || exists|n: int| #[trigger]
            ends_at(repository, start, commits, path, expected, done + steps, n, result),
    decreases commits.len() - at,
{
    let previous = walk_start(start, commits, at);
    let known = walk_name(repository, path, done, at);
    let plan = walk_plan(repository, commits, at, previous, known, expected);
    let all = done + steps;
    walked_keeps(repository, start, commits, path, expected, done, steps, at);
    if at >= commits.len() {
        first_step(plan, steps, result);
        assert(all == done);
    } else {
        let follow = renamed_plan(repository, previous, commits[at], known, true);
        let named = walk_named(repository, commits, at, expected);
        let (a, name, b) = attempts_split(follow, named, steps, result);
        one_run(
            in_repository(repository, diff_args(previous, commits[at])),
            renamed_made(repository, known, true),
            a,
            name,
        );
        assert(all[2 * at] == a[0]);
        assert(walk_rename(repository, path, all, at) == name);
        assert(asks_renames(repository, start, commits, all, at));
        if name is Err {
            assert(ends_at(repository, start, commits, path, expected, all, at, result));
        } else {
            let look = holds_plan(repository, commits[at], name->Ok_0, expected);
            let held_next = walk_held(repository, commits, at, name->Ok_0, expected);
            let (c, held, d) = attempts_split(look, held_next, b, result);
            holds_by_one_run(repository, commits[at], name->Ok_0, expected, c, held);
            assert(all[2 * at + 1] == c[0]);
            assert(walk_holds(repository, expected, all, at) == held);
            assert(asks_file(repository, commits, path, all, at));
            if held == Ok::<bool, FailureView>(true) {
                let more = done + a + c;
                assert(all == more + d);
                assert(more[2 * at] == a[0]);
                assert(more[2 * at + 1] == c[0]);
                walked_keeps(repository, start, commits, path, expected, done, a + c, at);
                assert(done + (a + c) == more);
                assert(walk_rename(repository, path, more, at) == name);
                assert(asks_renames(repository, start, commits, more, at));
                assert(asks_file(repository, commits, path, more, at));
                assert(walk_holds(repository, expected, more, at) == held);
                walked_one_more(repository, start, commits, path, expected, more, at);
                walk_from(
                    repository,
                    start,
                    commits,
                    path,
                    expected,
                    more,
                    at + 1,
                    d,
                    result,
                );
            } else {
                if held is Ok {
                    first_step(held_next(false), d, result);
                }
                assert(ends_at(repository, start, commits, path, expected, all, at, result));
            }
        }
    }
}

/// Lines are looked for by one run of Git, which shows the file.
pub proof fn holds_by_one_run(
    repository: Seq<u8>,
    commit: Seq<char>,
    path: Seq<char>,
    expected: Seq<Seq<u8>>,
    steps: Seq<Step>,
    result: Result<bool, FailureView>,
)
    requires
        holds_plan(repository, commit, path, expected).ran(steps, result),
    ensures
        steps.len() == 1,
        steps[0].act == Act::Run(in_repository(repository, show_args(commit, path))),
        result == blob_holds(shown_file(repository, steps[0].answer->Reply_0), expected),
{
    let blob = made_by_the_same_steps(
        blob_plan(repository, commit, path),
        holds_made(expected),
        steps,
        result,
    );
    one_run(
        in_repository(repository, show_args(commit, path)),
        blob_made(repository),
        steps,
        blob,
    );
}

/// The commit that a walk ends at is the first that took the lines away. The file is followed from
/// commit to commit through every rename, and looked at once at each; the lines stood in it at
/// each commit before, and at this commit they do not. A walk that ends at none found the lines at
/// every commit, and one that fails fails at the first question without an answer.
pub proof fn the_break_is_the_first(
    repository: Seq<u8>,
    commits: Seq<Seq<char>>,
    start: Seq<char>,
    path: Seq<char>,
    expected: Seq<Seq<u8>>,
    steps: Seq<Step>,
    result: Result<Option<Seq<char>>, FailureView>,
)
    requires
        walk_plan(repository, commits, 0, start, path, expected).ran(steps, result),
    ensures
        result == Ok::<Option<Seq<char>>, FailureView>(None) && steps.len() == 2 * commits.len()
            && walked(
            repository,
            start,
            commits,
            path,
            expected,
            steps,
            commits.len() as int,
        ) || exists|n: int| #[trigger]
            ends_at(repository, start, commits, path, expected, steps, n, result),
{
    let none = Seq::<Step>::empty();
    walk_from(repository, start, commits, path, expected, none, 0, steps, result);
    assert(none + steps == steps);
}

impl Repository {
    /// The first commit behind `start` up to `end` at which lines no longer stand in a file,
    /// along the first parents and under whatever name the file has.
    pub fn find_break<W: Outside>(
        &self,
        world: &mut W,
        start: &str,
        end: &str,
        initial_path: &str,
        expected: &[Vec<u8>],
    ) -> (result: Result<Option<String>, Failure>)
        requires
            old(world).ready(),
        ensures
            did(
                *old(world),
                *final(world),
                break_plan(
                    self@.path,
                    start@,
                    end@,
                    initial_path@,
                    byte_views(expected@),
                ),
                commit_view(result),
            ),
    {
        let ghost begun = *world;
        let ghost next = break_next(self@.path, start@, initial_path@, byte_views(expected@));
        let ghost whole = break_plan(
            self@.path,
            start@,
            end@,
            initial_path@,
            byte_views(expected@),
        );
        let range = start.to_owned().concat("..").concat(end);
        let args = vec![
            "rev-list".to_owned(),
            "--first-parent".to_owned(),
            "--reverse".to_owned(),
            range,
        ];
        assert(string_views(args@) == range_args(start@, end@));
        let listed = git_lines(world, self.path.as_slice(), args, "walk default-branch history");
        let ghost asked = *world;
        proof {
            begins_trying(
                begun,
                asked,
                lines_plan(
                    self@.path,
                    range_args(start@, end@),
                    "walk default-branch history"@,
                ),
                next,
                list_view(listed),
            );
        }
        match listed {
            Err(failure) => Err(failure),
            Ok(commits) => {
                let ghost all = string_views(commits@);
                let result = self.walk(world, start, initial_path, expected, commits);
                proof {
                    finishes(begun, asked, *world, whole, next(all), commit_view(result));
                }
                result
            },
        }
    }

    fn walk<W: Outside>(
        &self,
        world: &mut W,
        start: &str,
        initial_path: &str,
        expected: &[Vec<u8>],
        commits: Vec<String>,
    ) -> (result: Result<Option<String>, Failure>)
        requires
            old(world).ready(),
        ensures
            did(
                *old(world),
                *final(world),
                walk_plan(
                    self@.path,
                    string_views(commits@),
                    0,
                    start@,
                    initial_path@,
                    byte_views(expected@),
                ),
                commit_view(result),
            ),
    {
        let ghost begun = *world;
        let ghost all = string_views(commits@);
        let ghost lines = byte_views(expected@);
        let ghost whole = walk_plan(self@.path, all, 0, start@, initial_path@, lines);
        let mut previous = start.to_owned();
        let mut path = initial_path.to_owned();
        proof {
            starts(begun, whole);
        }
        for i in 0..commits.len()
            invariant
                begun == *old(world),
                world.ready(),
                all == string_views(commits@),
                lines == byte_views(expected@),
                whole == walk_plan(self@.path, all, 0, start@, initial_path@, lines),
                on_course(
                    begun,
                    *world,
                    whole,
                    walk_plan(self@.path, all, i as int, previous@, path@, lines),
                ),
        {
            assert(all[i as int] == commits@[i as int]@);
            let ghost before = *world;
            let ghost named = walk_named(self@.path, all, i as int, lines);
            let renamed = self.renamed_path(
                world,
                previous.as_str(),
                commits[i].as_str(),
                path.as_str(),
                true,
            );
            let ghost followed = *world;
            proof {
                tries(
                    begun,
                    before,
                    followed,
                    whole,
                    renamed_plan(self@.path, previous@, all[i as int], path@, true),
                    named,
                    text_view(renamed),
                );
            }
            let name = match renamed {
                Err(failure) => {
                    return Err(failure);
                },
                Ok(name) => name,
            };
            let held = self.contains_at(world, commits[i].as_str(), name.as_str(), expected);
            proof {
                tries(
                    begun,
                    followed,
                    *world,
                    whole,
                    holds_plan(self@.path, all[i as int], name@, lines),
                    walk_held(self@.path, all, i as int, name@, lines),
                    flag_view(held),
                );
            }
            match held {
                Err(failure) => {
                    return Err(failure);
                },
                Ok(false) => {
                    proof {
                        ends(begun, *world, whole, Ok(Some(all[i as int])));
                    }
                    return Ok(Some(commits[i].clone()));
                },
                Ok(true) => {},
            }
            previous = commits[i].clone();
            path = name;
        }
        proof {
            ends(begun, *world, whole, Ok(None));
        }
        Ok(None)
    }
}

// ---------------------------------------------------------------------------------------------
// On the branches that were merged
// ---------------------------------------------------------------------------------------------

/// How many merges, one inside another, are looked into.
pub const MERGE_DEPTH: usize = 16;

/// How the commit is asked for that two commits both come from.
pub open spec fn base_args(first: Seq<char>, side: Seq<char>) -> Seq<Seq<char>> {
    seq!["merge-base"@, first, side]
}

/// What follows by whether the lines stood where a branch set out: nothing if they did not, else
/// the search for the commit of the branch that took them away.
pub open spec fn branch_break_next(
    repository: Seq<u8>,
    base: Seq<char>,
    side: Seq<char>,
    path: Seq<char>,
    expected: Seq<Seq<u8>>,
) -> spec_fn(bool) -> Plan<Result<Option<Seq<char>>, FailureView>> {
    |held: bool|
        if held {
            break_plan(repository, base, side, path, expected)
        } else {
            Plan::Done(Ok(None))
        }
}

/// The plan to look at a merged branch, once it is known where it set out from.
pub open spec fn branch_break_plan(
    repository: Seq<u8>,
    base: Seq<char>,
    side: Seq<char>,
    path: Seq<char>,
    expected: Seq<Seq<u8>>,
) -> Plan<Result<Option<Seq<char>>, FailureView>> {
    holds_plan(repository, base, path, expected).and_by(
        branch_break_next(repository, base, side, path, expected),
    )
}

/// What follows by where a branch set out from.
pub open spec fn side_next(
    repository: Seq<u8>,
    side: Seq<char>,
    path: Seq<char>,
    expected: Seq<Seq<u8>>,
) -> spec_fn(Seq<char>) -> Plan<Result<Option<Seq<char>>, FailureView>> {
    |base: Seq<char>| branch_break_plan(repository, trimmed(base), side, path, expected)
}

/// The plan to look at a merged branch.
pub open spec fn side_plan(
    repository: Seq<u8>,
    first: Seq<char>,
    side: Seq<char>,
    path: Seq<char>,
    expected: Seq<Seq<u8>>,
) -> Plan<Result<Option<Seq<char>>, FailureView>> {
    text_plan(repository, base_args(first, side), "find merge base"@).and_by(
        side_next(repository, side, path, expected),
    )
}

/// The plan to find the commit that first made a change. A commit that merges nothing is that
/// commit itself. In a merge the first branch that took the lines away is searched in turn,
/// through at most `left` merges; where no branch did, it is the merge itself.
pub open spec fn origin_plan(
    repository: Seq<u8>,
    integration: Seq<char>,
    path: Seq<char>,
    expected: Seq<Seq<u8>>,
    left: nat,
) -> Plan<Result<Seq<char>, FailureView>>
    decreases left, 3int, 0int,
{
    if left == 0 {
        Plan::Done(Ok(integration))
    } else {
        parents_plan(repository, integration).and_by(
            origin_next(repository, integration, path, expected, left),
        )
    }
}

/// What follows by the parents of a commit.
pub open spec fn origin_next(
    repository: Seq<u8>,
    integration: Seq<char>,
    path: Seq<char>,
    expected: Seq<Seq<u8>>,
    left: nat,
) -> spec_fn(Seq<Seq<char>>) -> Plan<Result<Seq<char>, FailureView>>
    decreases left, 2int, 0int,
{
    |parents: Seq<Seq<char>>|
        if parents.len() < 2 {
            Plan::Done(Ok(integration))
        } else {
            sides_plan(repository, integration, path, expected, left, parents, 1)
        }
}

/// The plan of the search in the branches of a merge from `at` on.
pub open spec fn sides_plan(
    repository: Seq<u8>,
    integration: Seq<char>,
    path: Seq<char>,
    expected: Seq<Seq<u8>>,
    left: nat,
    parents: Seq<Seq<char>>,
    at: int,
) -> Plan<Result<Seq<char>, FailureView>>
    decreases left, 1int, 2 * (parents.len() - at) + 1,
{
    if left == 0 || at >= parents.len() {
        Plan::Done(Ok(integration))
    } else {
        side_plan(repository, parents[0], parents[at], path, expected).and_by(
            sides_next(repository, integration, path, expected, left, parents, at),
        )
    }
}

/// What follows by what was found on the branch `at` of a merge.
pub open spec fn sides_next(
    repository: Seq<u8>,
    integration: Seq<char>,
    path: Seq<char>,
    expected: Seq<Seq<u8>>,
    left: nat,
    parents: Seq<Seq<char>>,
    at: int,
) -> spec_fn(Option<Seq<char>>) -> Plan<Result<Seq<char>, FailureView>>
    decreases left, 1int, 2 * (parents.len() - at),
{
    |found: Option<Seq<char>>|
        match found {
            Some(candidate) => if left == 0 {
                Plan::Done(Ok(integration))
            } else {
                origin_plan(repository, candidate, path, expected, (left - 1) as nat)
            },
            None => if at >= parents.len() {
                Plan::Done(Ok(integration))
            } else {
                sides_plan(repository, integration, path, expected, left, parents, at + 1)
            },
        }
}

/// Whether the look at a branch, somewhere among some steps, found this commit.
pub open spec fn found_on_a_side(
    repository: Seq<u8>,
    path: Seq<char>,
    expected: Seq<Seq<u8>>,
    steps: Seq<Step>,
    origin: Seq<char>,
) -> bool {
    exists|first: Seq<char>, side: Seq<char>, before: Seq<Step>, look: Seq<Step>, behind: Seq<Step>|
        #![trigger
            side_plan(repository, first, side, path, expected).ran(look, Ok(Some(origin))),
            before + look + behind
        ]
        side_plan(repository, first, side, path, expected).ran(look, Ok(Some(origin))) && steps
            == before + look + behind
}

proof fn found_further_on(
    repository: Seq<u8>,
    path: Seq<char>,
    expected: Seq<Seq<u8>>,
    earlier: Seq<Step>,
    steps: Seq<Step>,
    origin: Seq<char>,
)
    requires
        found_on_a_side(repository, path, expected, steps, origin),
    ensures
        found_on_a_side(repository, path, expected, earlier + steps, origin),
{
    let (first, side, before, look, behind) = choose|
        first: Seq<char>,
        side: Seq<char>,
        before: Seq<Step>,
        look: Seq<Step>,
        behind: Seq<Step>,
    |
        #![trigger
            side_plan(repository, first, side, path, expected).ran(look, Ok(Some(origin))),
            before + look + behind
        ]
        side_plan(repository, first, side, path, expected).ran(look, Ok(Some(origin))) && steps
            == before + look + behind;
    assert(earlier + steps == (earlier + before) + look + behind);
}

/// A commit other than the merge itself that is named as the origin of a change is one at which a
/// merged branch took the lines away: they stood where the branch set out, and this commit is the
/// break on the branch.
pub proof fn origins_are_breaks_on_side_branches(
    repository: Seq<u8>,
    integration: Seq<char>,
    path: Seq<char>,
    expected: Seq<Seq<u8>>,
    left: nat,
    steps: Seq<Step>,
    origin: Seq<char>,
)
    requires
        origin_plan(repository, integration, path, expected, left).ran(steps, Ok(origin)),
        origin != integration,
    ensures
        found_on_a_side(repository, path, expected, steps, origin),
    decreases left, 1int, 0int,
{
    let plan = origin_plan(repository, integration, path, expected, left);
    first_step(plan, steps, Ok(origin));
    let next = origin_next(repository, integration, path, expected, left);
    let (a, parents, b) = attempts_split(
        parents_plan(repository, integration),
        next,
        steps,
        Ok(origin),
    );
    first_step(next(parents->Ok_0), b, Ok(origin));
    side_origin(
        repository,
        integration,
        path,
        expected,
        left,
        parents->Ok_0,
        1,
        b,
        origin,
    );
    found_further_on(repository, path, expected, a, b, origin);
}

proof fn side_origin(
    repository: Seq<u8>,
    integration: Seq<char>,
    path: Seq<char>,
    expected: Seq<Seq<u8>>,
    left: nat,
    parents: Seq<Seq<char>>,
    at: int,
    steps: Seq<Step>,
    origin: Seq<char>,
)
    requires
        sides_plan(repository, integration, path, expected, left, parents, at).ran(
            steps,
            Ok(origin),
        ),
        origin != integration,
    ensures
        found_on_a_side(repository, path, expected, steps, origin),
    decreases left, 0int, parents.len() - at,
{
    let plan = sides_plan(repository, integration, path, expected, left, parents, at);
    first_step(plan, steps, Ok(origin));
    let look = side_plan(repository, parents[0], parents[at], path, expected);
    let next = sides_next(repository, integration, path, expected, left, parents, at);
    let (a, found, b) = attempts_split(look, next, steps, Ok(origin));
    match found->Ok_0 {
        None => {
            side_origin(
                repository,
                integration,
                path,
                expected,
                left,
                parents,
                at + 1,
                b,
                origin,
            );
            found_further_on(repository, path, expected, a, b, origin);
        },
        Some(candidate) => {
            if candidate != origin {
                origins_are_breaks_on_side_branches(
                    repository,
                    candidate,
                    path,
                    expected,
                    (left - 1) as nat,
                    b,
                    origin,
                );
                found_further_on(repository, path, expected, a, b, origin);
            } else {
                let none = Seq::<Step>::empty();
                assert(steps == none + a + b);
                assert(look.ran(a, Ok(Some(origin))));
            }
        },
    }
}

/// A change that was not merged from a branch is its own origin, and only its parents are asked
/// for.
pub proof fn ordinary_commits_are_their_own_origin(
    repository: Seq<u8>,
    integration: Seq<char>,
    path: Seq<char>,
    expected: Seq<Seq<u8>>,
    left: nat,
    steps: Seq<Step>,
    result: Result<Seq<char>, FailureView>,
)
    requires
        left > 0,
        origin_plan(repository, integration, path, expected, left).ran(steps, result),
    ensures
        steps.len() >= 1,
        steps[0].act == Act::Run(in_repository(repository, parents_args(integration))),
        match printed_text(repository, "read commit parents"@, steps[0].answer->Reply_0) {
            Err(failure) => steps.len() == 1 && result == Err::<Seq<char>, _>(failure),
            Ok(line) => parent_words(line).len() < 2 ==> steps.len() == 1 && result == Ok::<
                _,
                FailureView,
            >(integration),
        },
{
    let next = origin_next(repository, integration, path, expected, left);
    let (a, parents, b) = attempts_split(
        parents_plan(repository, integration),
        next,
        steps,
        result,
    );
    let line = made_by_the_same_steps(
        text_plan(repository, parents_args(integration), "read commit parents"@),
        parents_made(),
        a,
        parents,
    );
    one_run(
        in_repository(repository, parents_args(integration)),
        text_made(repository, "read commit parents"@),
        a,
        line,
    );
    assert(steps[0] == a[0]);
    if let Ok(list) = parents {
        first_step(next(list), b, result);
    }
}

/// How many more merges are looked into at a depth.
pub open spec fn merges_left(depth: nat) -> nat {
    if depth >= MERGE_DEPTH {
        0
    } else {
        (MERGE_DEPTH - depth) as nat
    }
}

impl Repository {
    /// The commit of a merged branch that took lines away, if they stood where the branch set
    /// out.
    fn branch_break<W: Outside>(
        &self,
        world: &mut W,
        base: &str,
        side: &str,
        path: &str,
        expected: &[Vec<u8>],
    ) -> (result: Result<Option<String>, Failure>)
        requires
            old(world).ready(),
        ensures
            did(
                *old(world),
                *final(world),
                branch_break_plan(self@.path, base@, side@, path@, byte_views(expected@)),
                commit_view(result),
            ),
    {
        let ghost begun = *world;
        let ghost lines = byte_views(expected@);
        let ghost whole = branch_break_plan(self@.path, base@, side@, path@, lines);
        let ghost next = branch_break_next(self@.path, base@, side@, path@, lines);
        let held = self.contains_at(world, base, path, expected);
        let ghost asked = *world;
        proof {
            begins_trying(
                begun,
                asked,
                holds_plan(self@.path, base@, path@, lines),
                next,
                flag_view(held),
            );
        }
        match held {
            Err(failure) => Err(failure),
            Ok(false) => {
                proof {
                    ends(begun, asked, whole, Ok(None));
                }
                Ok(None)
            },
            Ok(true) => {
                let result = self.find_break(world, base, side, path, expected);
                proof {
                    finishes(begun, asked, *world, whole, next(true), commit_view(result));
                }
                result
            },
        }
    }

    /// The commit of the branch at `side` that took lines away, as seen from the merge with
    /// `first`.
    fn side_break<W: Outside>(
        &self,
        world: &mut W,
        first: &str,
        side: &str,
        path: &str,
        expected: &[Vec<u8>],
    ) -> (result: Result<Option<String>, Failure>)
        requires
            old(world).ready(),
        ensures
            did(
                *old(world),
                *final(world),
                side_plan(self@.path, first@, side@, path@, byte_views(expected@)),
                commit_view(result),
            ),
    {
        let ghost begun = *world;
        let ghost lines = byte_views(expected@);
        let ghost whole = side_plan(self@.path, first@, side@, path@, lines);
        let ghost next = side_next(self@.path, side@, path@, lines);
        let args = vec!["merge-base".to_owned(), first.to_owned(), side.to_owned()];
        assert(string_views(args@) == base_args(first@, side@));
        let base = git_text(world, self.path.as_slice(), args, "find merge base");
        let ghost asked = *world;
        proof {
            begins_trying(
                begun,
                asked,
                text_plan(self@.path, base_args(first@, side@), "find merge base"@),
                next,
                text_view(base),
            );
        }
        match base {
            Err(failure) => Err(failure),
            Ok(text) => {
                let base = trim(text.as_str());
                let result = self.branch_break(world, base.as_str(), side, path, expected);
                proof {
                    finishes(begun, asked, *world, whole, next(text@), commit_view(result));
                }
                result
            },
        }
    }

    /// The commit that first made the change which `integration` brought in.
    pub fn find_original_change<W: Outside>(
        &self,
        world: &mut W,
        integration: &str,
        path: &str,
        expected: &[Vec<u8>],
        depth: usize,
    ) -> (result: Result<String, Failure>)
        requires
            old(world).ready(),
        ensures
            did(
                *old(world),
                *final(world),
                origin_plan(
                    self@.path,
                    integration@,
                    path@,
                    byte_views(expected@),
                    merges_left(depth as nat),
                ),
                text_view(result),
            ),
        decreases merges_left(depth as nat),
    {
        let ghost begun = *world;
        let ghost lines = byte_views(expected@);
        let ghost left = merges_left(depth as nat);
        let ghost whole = origin_plan(self@.path, integration@, path@, lines, left);
        let ghost next = origin_next(self@.path, integration@, path@, lines, left);
        if depth >= MERGE_DEPTH {
            proof {
                did_nothing(begun, Ok::<Seq<char>, FailureView>(integration@));
            }
            return Ok(integration.to_owned());
        }
        let listed = self.parents(world, integration);
        proof {
            begins_trying(
                begun,
                *world,
                parents_plan(self@.path, integration@),
                next,
                list_view(listed),
            );
        }
        let parents = match listed {
            Err(failure) => {
                return Err(failure);
            },
            Ok(parents) => parents,
        };
        let ghost all = string_views(parents@);
        if parents.len() < 2 {
            proof {
                ends(begun, *world, whole, Ok(integration@));
            }
            return Ok(integration.to_owned());
        }
        assert(all[0] == parents@[0]@);
        for i in 1..parents.len()
            invariant
                begun == *old(world),
                world.ready(),
                depth < MERGE_DEPTH,
                left == merges_left(depth as nat),
                lines == byte_views(expected@),
                all == string_views(parents@),
                parents@.len() >= 2,
                all[0] == parents@[0]@,
                whole == origin_plan(self@.path, integration@, path@, lines, left),
                on_course(
                    begun,
                    *world,
                    whole,
                    sides_plan(self@.path, integration@, path@, lines, left, all, i as int),
                ),
        {
            assert(all[i as int] == parents@[i as int]@);
            let ghost before = *world;
            let ghost found_next = sides_next(
                self@.path,
                integration@,
                path@,
                lines,
                left,
                all,
                i as int,
            );
            let found = self.side_break(
                world,
                parents[0].as_str(),
                parents[i].as_str(),
                path,
                expected,
            );
            let ghost looked = *world;
            proof {
                tries(
                    begun,
                    before,
                    looked,
                    whole,
                    side_plan(self@.path, all[0], all[i as int], path@, lines),
                    found_next,
                    commit_view(found),
                );
            }
            match found {
                Err(failure) => {
                    return Err(failure);
                },
                Ok(Some(candidate)) => {
                    let origin = self.find_original_change(
                        world,
                        candidate.as_str(),
                        path,
                        expected,
                        depth + 1,
                    );
                    proof {
                        assert(merges_left((depth + 1) as nat) == (left - 1) as nat);
                        finishes(
                            begun,
                            looked,
                            *world,
                            whole,
                            found_next(Some(candidate@)),
                            text_view(origin),
                        );
                    }
                    return origin;
                },
                Ok(None) => {},
            }
        }
        proof {
            ends(begun, *world, whole, Ok(integration@));
        }
        Ok(integration.to_owned())
    }
}

// ---------------------------------------------------------------------------------------------
// How far the search for an origin goes
// ---------------------------------------------------------------------------------------------

/// The commit that took lines away is looked for along the first parents: Git lists the commits
/// behind the first up to the last, the earliest first, and they are walked in that order.
pub proof fn breaks_lie_on_the_listed_history(
    repository: Seq<u8>,
    start: Seq<char>,
    end: Seq<char>,
    path: Seq<char>,
    expected: Seq<Seq<u8>>,
    steps: Seq<Step>,
    result: Result<Option<Seq<char>>, FailureView>,
)
    requires
        break_plan(repository, start, end, path, expected).ran(steps, result),
    ensures
        asked_git(
            steps.take(1),
            repository,
            seq!["rev-list"@, "--first-parent"@, "--reverse"@, start + ".."@ + end],
        ),
        match printed_lines(
            repository,
            "walk default-branch history"@,
            steps[0].answer->Reply_0,
        ) {
            Err(failure) => steps.len() == 1 && result == Err::<Option<Seq<char>>, _>(failure),
            Ok(commits) => {
                let walk = steps.skip(1);
                ||| result == Ok::<Option<Seq<char>>, FailureView>(None) && walk.len() == 2
                    * commits.len() && walked(
                    repository,
                    start,
                    commits,
                    path,
                    expected,
                    walk,
                    commits.len() as int,
                )
                ||| exists|n: int| #[trigger]
                    ends_at(repository, start, commits, path, expected, walk, n, result)
            },
        },
{
    let args = range_args(start, end);
    let next = break_next(repository, start, path, expected);
    let (a, commits, b) = attempts_split(
        lines_plan(repository, args, "walk default-branch history"@),
        next,
        steps,
        result,
    );
    one_run(
        in_repository(repository, args),
        lines_made(repository, "walk default-branch history"@),
        a,
        commits,
    );
    assert(steps[0] == a[0]);
    assert(steps.take(1) =~= a);
    match commits {
        Err(_) => {},
        Ok(list) => {
            assert(steps.skip(1) =~= b);
            the_break_is_the_first(repository, list, start, path, expected, b, result);
        },
    }
}

/// A merged branch is looked at from where it set out: from the commit that it has in common with
/// the first parent. Where the lines did not stand there, nothing was lost on it; else the commit
/// is looked for that took them away, from there up to the end of the branch.
pub proof fn branches_are_looked_at_from_their_start(
    repository: Seq<u8>,
    first: Seq<char>,
    side: Seq<char>,
    path: Seq<char>,
    expected: Seq<Seq<u8>>,
    steps: Seq<Step>,
    result: Result<Option<Seq<char>>, FailureView>,
)
    requires
        side_plan(repository, first, side, path, expected).ran(steps, result),
    ensures
        asked_git(steps.take(1), repository, seq!["merge-base"@, first, side]),
        match printed_text(repository, "find merge base"@, steps[0].answer->Reply_0) {
            Err(failure) => steps.len() == 1 && result == Err::<Option<Seq<char>>, _>(failure),
            Ok(text) => {
                &&& asked_git(
                    steps.subrange(1, 2),
                    repository,
                    seq!["show"@, trimmed(text) + ":"@ + path],
                )
                &&& match steps[1].answer->Reply_0 {
                    ReplyView::Unstarted(_) => steps.len() == 2 && result is Err,
                    ReplyView::Finished(output) => if output.code == Some(0i32) && holds_lines(
                        output.stdout,
                        expected,
                    ) {
                        break_plan(repository, trimmed(text), side, path, expected).ran(
                            steps.skip(2),
                            result,
                        )
                    } else {
                        steps.len() == 2 && result == Ok::<Option<Seq<char>>, FailureView>(None)
                    },
                }
            },
        },
{
    let args = base_args(first, side);
    let next = side_next(repository, side, path, expected);
    let (a, text, b) = attempts_split(
        text_plan(repository, args, "find merge base"@),
        next,
        steps,
        result,
    );
    one_run(
        in_repository(repository, args),
        text_made(repository, "find merge base"@),
        a,
        text,
    );
    assert(steps[0] == a[0]);
    assert(steps.take(1) =~= a);
    if let Ok(said) = text {
        let base = trimmed(said);
        let look = holds_plan(repository, base, path, expected);
        let search = branch_break_next(repository, base, side, path, expected);
        let (c, held, d) = attempts_split(look, search, b, result);
        lines_stand_where_the_file_has_them(repository, base, path, expected, c, held);
        assert(steps[1] == c[0]);
        assert(steps.subrange(1, 2) =~= c);
        if let Ok(stands) = held {
            if stands {
                assert(steps.skip(2) =~= d);
            } else {
                first_step(search(false), d, result);
            }
        }
    }
}

/// The looks at the branches of a merge: the steps of each, one after another; what the last came
/// to; and the steps behind it.
pub struct Looks {
    pub each: Seq<Seq<Step>>,
    pub last: Result<Option<Seq<char>>, FailureView>,
    pub rest: Seq<Step>,
}

/// Whether the branches of a merge from `at` on were looked at one by one, until one lost the lines
/// or could not be looked at, and what came of it.
pub open spec fn looked_at(
    repository: Seq<u8>,
    integration: Seq<char>,
    path: Seq<char>,
    expected: Seq<Seq<u8>>,
    left: nat,
    parents: Seq<Seq<char>>,
    at: int,
    looks: Looks,
    result: Result<Seq<char>, FailureView>,
) -> bool {
    let count = looks.each.len();
    &&& 1 <= count <= parents.len() - at
    &&& forall|i: int|
        #![trigger looks.each[i]]
        0 <= i < count ==> side_plan(
            repository,
            parents[0],
            parents[at + i],
            path,
            expected,
        ).ran(
            looks.each[i],
            if i == count - 1 {
                looks.last
            } else {
                Ok(None)
            },
        )
    &&& match looks.last {
        Err(failure) => looks.rest.len() == 0 && result == Err::<Seq<char>, _>(failure),
        Ok(None) => looks.rest.len() == 0 && count == parents.len() - at && result == Ok::<
            _,
            FailureView,
        >(integration),
        Ok(Some(candidate)) => left > 0 && origin_plan(
            repository,
            candidate,
            path,
            expected,
            (left - 1) as nat,
        ).ran(looks.rest, result),
    }
}

proof fn sides_are_looked_at(
    repository: Seq<u8>,
    integration: Seq<char>,
    path: Seq<char>,
    expected: Seq<Seq<u8>>,
    left: nat,
    parents: Seq<Seq<char>>,
    at: int,
    steps: Seq<Step>,
    result: Result<Seq<char>, FailureView>,
) -> (looks: Looks)
    requires
        left > 0,
        1 <= at < parents.len(),
        sides_plan(repository, integration, path, expected, left, parents, at).ran(steps, result),
    ensures
        looked_at(repository, integration, path, expected, left, parents, at, looks, result),
        steps == looks.each.flatten() + looks.rest,
    decreases parents.len() - at,
{
    let look = side_plan(repository, parents[0], parents[at], path, expected);
    let next = sides_next(repository, integration, path, expected, left, parents, at);
    let (a, found, b) = attempts_split(look, next, steps, result);
    let none = Seq::<Step>::empty();
    let one = seq![a];
    one.lemma_flatten_one_element();
    match found {
        Err(_) => {
            assert(steps =~= one.flatten() + none);
            Looks { each: one, last: found, rest: none }
        },
        Ok(Some(_)) => {
            assert(steps =~= one.flatten() + b);
            Looks { each: one, last: found, rest: b }
        },
        Ok(None) => {
            if at + 1 >= parents.len() {
                first_step(
                    sides_plan(repository, integration, path, expected, left, parents, at + 1),
                    b,
                    result,
                );
                assert(steps =~= one.flatten() + none);
                Looks { each: one, last: found, rest: none }
            } else {
                let later = sides_are_looked_at(
                    repository,
                    integration,
                    path,
                    expected,
                    left,
                    parents,
                    at + 1,
                    b,
                    result,
                );
                let each = one + later.each;
                assert(each.drop_first() =~= later.each);
                assert(each.first() == a);
                assert(steps =~= each.flatten() + later.rest);
                let looks = Looks { each, last: later.last, rest: later.rest };
                assert forall|i: int| #![trigger each[i]] 0 <= i < each.len() implies side_plan(
                    repository,
                    parents[0],
                    parents[at + i],
                    path,
                    expected,
                ).ran(
                    each[i],
                    if i == each.len() - 1 {
                        looks.last
                    } else {
                        Ok(None)
                    },
                ) by {
                    if i > 0 {
                        assert(each[i] == later.each[i - 1]);
                    }
                }
                looks
            }
        },
    }
}

/// In a merge every merged branch is looked at, one after another, up to the first that lost the
/// lines. The origin of the change is then the origin of the commit that took them away there, with
/// one merge less left to look into. Where no branch lost them it is the merge itself, and so it is
/// of a commit that merges nothing.
pub proof fn merges_inside_merges_are_looked_into(
    repository: Seq<u8>,
    integration: Seq<char>,
    path: Seq<char>,
    expected: Seq<Seq<u8>>,
    left: nat,
    steps: Seq<Step>,
    result: Result<Seq<char>, FailureView>,
) -> (looks: Looks)
    requires
        left > 0,
        origin_plan(repository, integration, path, expected, left).ran(steps, result),
    ensures
        asked_git(
            steps.take(1),
            repository,
            seq!["rev-list"@, "--parents"@, "-n"@, "1"@, integration],
        ),
        match printed_text(repository, "read commit parents"@, steps[0].answer->Reply_0) {
            Err(failure) => steps.len() == 1 && result == Err::<Seq<char>, _>(failure),
            Ok(line) => if parent_words(line).len() < 2 {
                steps.len() == 1 && result == Ok::<_, FailureView>(integration)
            } else {
                &&& looked_at(
                    repository,
                    integration,
                    path,
                    expected,
                    left,
                    parent_words(line),
                    1,
                    looks,
                    result,
                )
                &&& steps == seq![steps[0]] + looks.each.flatten() + looks.rest
            },
        },
{
    let next = origin_next(repository, integration, path, expected, left);
    let (a, parents, b) = attempts_split(
        parents_plan(repository, integration),
        next,
        steps,
        result,
    );
    parents_are_asked_for(repository, integration, a, parents);
    ordinary_commits_are_their_own_origin(
        repository,
        integration,
        path,
        expected,
        left,
        steps,
        result,
    );
    assert(steps[0] == a[0]);
    assert(steps.take(1) =~= a);
    let none = Looks { each: Seq::empty(), last: Ok(None), rest: Seq::empty() };
    match parents {
        Err(_) => none,
        Ok(list) => if list.len() < 2 {
            none
        } else {
            let looks = sides_are_looked_at(
                repository,
                integration,
                path,
                expected,
                left,
                list,
                1,
                b,
                result,
            );
            assert(a =~= seq![steps[0]]);
            assert(steps =~= seq![steps[0]] + looks.each.flatten() + looks.rest);
            looks
        },
    }
}

/// Whether Git is asked for the parents of a commit.
pub open spec fn asks_parents() -> spec_fn(Step) -> bool {
    |step: Step|
        step.act matches Act::Run(command) && command.args.len() == 5 && command.args.take(4)
            == seq!["rev-list"@, "--parents"@, "-n"@, "1"@]
}

/// Whether the search came to rest at a commit: its parents were asked for, and it merges nothing,
/// or every branch that it merges was looked at and none of them lost the lines.
pub open spec fn rests_at(
    repository: Seq<u8>,
    commit: Seq<char>,
    path: Seq<char>,
    expected: Seq<Seq<u8>>,
    steps: Seq<Step>,
) -> bool {
    &&& asked_git(
        steps.take(1),
        repository,
        seq!["rev-list"@, "--parents"@, "-n"@, "1"@, commit],
    )
    &&& printed_text(repository, "read commit parents"@, steps[0].answer->Reply_0) is Ok
    &&& ({
        let parents = parent_words(
            printed_text(repository, "read commit parents"@, steps[0].answer->Reply_0)->Ok_0,
        );
        ||| parents.len() < 2 && steps.len() == 1
        ||| exists|looks: Seq<Seq<Step>>| #[trigger]
            nothing_was_lost(repository, parents, path, expected, looks) && steps
                == seq![steps[0]] + looks.flatten()
    })
}

/// Whether each of the branches that a merge has besides its first parent was looked at, and none
/// lost the lines.
pub open spec fn nothing_was_lost(
    repository: Seq<u8>,
    parents: Seq<Seq<char>>,
    path: Seq<char>,
    expected: Seq<Seq<u8>>,
    looks: Seq<Seq<Step>>,
) -> bool {
    &&& parents.len() >= 2
    &&& looks.len() == parents.len() - 1
    &&& forall|i: int|
        #![trigger looks[i]]
        0 <= i < looks.len() ==> side_plan(
            repository,
            parents[0],
            parents[i + 1],
            path,
            expected,
        ).ran(looks[i], Ok(None))
}

proof fn branches_ask_for_no_parents(
    repository: Seq<u8>,
    first: Seq<char>,
    side: Seq<char>,
    path: Seq<char>,
    expected: Seq<Seq<u8>>,
    steps: Seq<Step>,
    result: Result<Option<Seq<char>>, FailureView>,
)
    requires
        side_plan(repository, first, side, path, expected).ran(steps, result),
    ensures
        times(steps, asks_parents()) == 0,
{
    branches_are_looked_at_from_their_start(
        repository,
        first,
        side,
        path,
        expected,
        steps,
        result,
    );
    let such = asks_parents();
    assert(steps.take(1)[0] == steps[0]);
    if steps.len() > 1 {
        assert(steps.subrange(1, 2)[0] == steps[1]);
    }
    if steps.len() > 2 {
        let text = printed_text(repository, "find merge base"@, steps[0].answer->Reply_0);
        let base = trimmed(text->Ok_0);
        let search = steps.skip(2);
        breaks_lie_on_the_listed_history(repository, base, side, path, expected, search, result);
        assert(search.take(1)[0] == search[0]);
        let walk = search.skip(1);
        if let Ok(commits) = printed_lines(
            repository,
            "walk default-branch history"@,
            search[0].answer->Reply_0,
        ) {
            let n = if exists|n: int| #[trigger]
                ends_at(repository, base, commits, path, expected, walk, n, result) {
                choose|n: int| #[trigger]
                    ends_at(repository, base, commits, path, expected, walk, n, result)
            } else {
                commits.len() as int
            };
            assert forall|i: int| 0 <= i < walk.len() implies !such(#[trigger] walk[i]) by {
                let k = i / 2;
                assert(walked(repository, base, commits, path, expected, walk, n));
                assert(asks_renames(repository, base, commits, walk, k));
                if i % 2 == 1 {
                    assert(i == 2 * k + 1);
                    assert(asks_file(repository, commits, path, walk, k));
                } else {
                    assert(i == 2 * k);
                }
            }
        }
        assert forall|i: int| 3 <= i < steps.len() implies !such(#[trigger] steps[i]) by {
            assert(steps[i] == walk[i - 3]);
        }
        assert(steps[2] == search[0]);
    }
    assert forall|i: int| #![trigger steps[i]] 0 <= i < steps.len() implies !such(steps[i]) by {}
    no_times(steps, such);
}

proof fn looks_ask_for_no_parents(
    repository: Seq<u8>,
    parents: Seq<Seq<char>>,
    path: Seq<char>,
    expected: Seq<Seq<u8>>,
    looks: Seq<Seq<Step>>,
    results: Seq<Result<Option<Seq<char>>, FailureView>>,
)
    requires
        looks.len() == results.len(),
        forall|i: int|
            #![trigger looks[i]]
            0 <= i < looks.len() ==> side_plan(
                repository,
                parents[0],
                parents[i + 1],
                path,
                expected,
            ).ran(looks[i], results[i]),
    ensures
        times(looks.flatten(), asks_parents()) == 0,
    decreases looks.len(),
{
    if looks.len() > 0 {
        let front = looks.drop_last();
        let last = looks.last();
        assert forall|i: int| #![trigger front[i]] 0 <= i < front.len() implies side_plan(
            repository,
            parents[0],
            parents[i + 1],
            path,
            expected,
        ).ran(front[i], results.drop_last()[i]) by {
            assert(front[i] == looks[i]);
        }
        looks_ask_for_no_parents(
            repository,
            parents,
            path,
            expected,
            front,
            results.drop_last(),
        );
        assert(looks[looks.len() - 1] == last);
        branches_ask_for_no_parents(
            repository,
            parents[0],
            parents[looks.len() as int],
            path,
            expected,
            last,
            results.last(),
        );
        front.lemma_flatten_push(last);
        assert(front.push(last) =~= looks);
        times_adds(front.flatten(), last, asks_parents());
    }
}

/// The search for an origin does not stop early. Unless as many merges were looked into as may be,
/// it came to rest at the commit that it names: that merges nothing, or none of the branches that
/// it merges lost the lines. So no merge is named one of whose branches made the change.
pub proof fn origins_are_searched_to_the_end(
    repository: Seq<u8>,
    integration: Seq<char>,
    path: Seq<char>,
    expected: Seq<Seq<u8>>,
    left: nat,
    steps: Seq<Step>,
    origin: Seq<char>,
)
    requires
        origin_plan(repository, integration, path, expected, left).ran(steps, Ok(origin)),
    ensures
        times(steps, asks_parents()) <= left,
        times(steps, asks_parents()) == left || exists|before: Seq<Step>, last: Seq<Step>|
            #![trigger before + last]
            steps == before + last && rests_at(repository, origin, path, expected, last),
    decreases left,
{
    let such = asks_parents();
    if left == 0 {
        first_step(origin_plan(repository, integration, path, expected, left), steps, Ok(origin));
        assert(times(steps, such) == 0);
    } else {
        let looks = merges_inside_merges_are_looked_into(
            repository,
            integration,
            path,
            expected,
            left,
            steps,
            Ok(origin),
        );
        let none = Seq::<Step>::empty();
        let one = seq![steps[0]];
        let line = printed_text(repository, "read commit parents"@, steps[0].answer->Reply_0);
        let parents = parent_words(line->Ok_0);
        assert(steps.take(1) =~= one);
        assert(one.drop_last() =~= none);
        assert(times(one, such) <= 1) by {
            assert(times(none, such) == 0);
        }
        if parents.len() < 2 {
            assert(steps =~= one);
            assert(rests_at(repository, integration, path, expected, steps));
            assert(steps =~= none + steps);
        } else {
            let flat = looks.each.flatten();
            let results = Seq::new(
                looks.each.len(),
                |i: int|
                    if i == looks.each.len() - 1 {
                        looks.last
                    } else {
                        Ok(None)
                    },
            );
            looks_ask_for_no_parents(repository, parents, path, expected, looks.each, results);
            times_adds(one, flat, such);
            times_adds(one + flat, looks.rest, such);
            match looks.last->Ok_0 {
                None => {
                    assert(times(looks.rest, such) == 0);
                    assert(steps =~= one + flat);
                    assert(nothing_was_lost(repository, parents, path, expected, looks.each));
                    assert(rests_at(repository, integration, path, expected, steps));
                    assert(steps =~= none + steps);
                },
                Some(candidate) => {
                    origins_are_searched_to_the_end(
                        repository,
                        candidate,
                        path,
                        expected,
                        (left - 1) as nat,
                        looks.rest,
                        origin,
                    );
                    assert(times(one, such) == 1) by {
                        let asked = steps.take(1)[0];
                        let command = CommandView {
                            repository: Some(repository),
                            args: seq![
                                "rev-list"@,
                                "--parents"@,
                                "-n"@,
                                "1"@,
                                integration,
                            ],
                            target: None,
                        };
                        assert(asked.act == Act::Run(command));
                        assert(command.args.take(4) =~= seq![
                            "rev-list"@,
                            "--parents"@,
                            "-n"@,
                            "1"@,
                        ]);
                        assert(such(one.last()));
                        assert(times(none, such) == 0);
                    }
                    if times(looks.rest, such) != left - 1 {
                        let (before, last) = choose|before: Seq<Step>, last: Seq<Step>|
                            #![trigger before + last]
                            looks.rest == before + last && rests_at(
                                repository,
                                origin,
                                path,
                                expected,
                                last,
                            );
                        assert(steps =~= (one + flat + before) + last);
                    }
                },
            }
        }
    }
}

/// The search looks into sixteen merges, one inside another, before it gives up.
pub proof fn sixteen_merges_are_looked_into(depth: nat)
    ensures
        merges_left(0) == 16,
        depth < 16 ==> merges_left(depth) == merges_left(depth + 1) + 1,
        depth >= 16 ==> merges_left(depth) == 0,
{
}

} // verus!
