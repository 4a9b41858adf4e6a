//! What is asked in all parts of a check but one: never for the depth of a history, nor for the
//! rest of one. No part tells of progress either; that is left to the check around them.

use crate::cache::{
    batch_of, clone_command, clone_next, current_args, current_next, fetch_args, fetch_next,
    fetch_plan, open_next, open_plan, refresh_args, refresh_next, repository_path, settle_args,
    settle_made, settle_operation, sift_next, sift_plan, update_next, update_plan,
};
use crate::course::{commits_of, fetched_next, group_plan, opened_next, singles_next, singles_plan};
use crate::failure::FailureView;
use crate::git::{in_repository, CommandView};
use crate::group::GroupView;
use crate::history::{
    base_args, branch_break_next, break_next, break_plan, merges_left, origin_next, origin_plan,
    range_args, side_next, side_plan, sides_next, sides_plan, walk_held, walk_named, walk_plan,
};
use crate::index::FoundUrlView;
use crate::plan::{
    attempts_ask_only, chains_ask_only, makings_ask_only, one_run_asks_only, wider_sorts_hold, Act,
    Answer,
};
use crate::report::CommitInfoView;
use crate::repository::{
    ancestor_args, ancestor_made, ancestor_plan, blob_made, blob_plan, branch_args, branch_made,
    branch_plan, command_made, command_plan, commit_object, deepen_args, deepen_next, deepen_plan,
    depth_args, diff_args, exists_made, exists_plan, holds_made, holds_plan, info_args, info_made,
    info_plan, lines_made, lines_plan, lookup_args, parents_args, parents_made, parents_plan,
    renamed_made, renamed_plan, show_args, text_made, text_plan, work_made, work_plan,
    RepositoryView,
};
use crate::text::trimmed;
use crate::url::SourceUrlView;
use crate::verdict::{
    file_questions, investigate_next, investigate_plan, local_checks_only_look_at_files, local_plan,
    report_made, report_next, report_plan, stale_next, trace_next, trace_plan,
};
use vstd::prelude::*;

verus! {

/// Whether a run of Git asks for the depth of a history, or for the rest of one.
pub open spec fn deepens(act: Act) -> bool {
    act matches Act::Run(command) && command.args.len() > 1 && {
        ||| command.args[0] == "rev-parse"@ && command.args[1] == "--is-shallow-repository"@
        ||| command.args[0] == "fetch"@ && command.args.len() > 2 && command.args[2]
            == "--unshallow"@
    }
}

/// What tells of nothing.
pub open spec fn silent() -> spec_fn(Act) -> bool {
    |act: Act| !(act is Tell)
}

/// What tells of nothing and makes no history whole.
pub open spec fn ordinary() -> spec_fn(Act) -> bool {
    |act: Act| !(act is Tell) && !deepens(act)
}

/// A run of one of these commands makes no history whole.
proof fn common_runs(command: CommandView)
    requires
        command.args.len() > 0,
        ({
            let name = command.args[0];
            ||| name == "ls-remote"@ || name == "cat-file"@ || name == "show"@
            ||| name == "merge-base"@ || name == "diff"@ || name == "rev-list"@
            ||| name == "branch"@ || name == "merge"@ || name == "checkout"@ || name == "clone"@
            ||| name == "fetch"@ && command.args.len() > 2 && (command.args[2] == "--depth=1"@
                || command.args[2] == "--prune"@)
        }),
    ensures
        ordinary()(Act::Run(command)),
{
    reveal_strlit("ls-remote");
    reveal_strlit("cat-file");
    reveal_strlit("show");
    reveal_strlit("merge-base");
    reveal_strlit("diff");
    reveal_strlit("rev-list");
    reveal_strlit("branch");
    reveal_strlit("merge");
    reveal_strlit("checkout");
    reveal_strlit("clone");
    reveal_strlit("fetch");
    reveal_strlit("--depth=1");
    reveal_strlit("--prune");
    reveal_strlit("--unshallow");
    reveal_strlit("rev-parse");
    assert("rev-parse"@.len() == 9 && "rev-parse"@[0] == 'r' && "ls-remote"@[0] == 'l');
    assert("cat-file"@.len() == 8 && "show"@.len() == 4 && "merge-base"@.len() == 10);
    assert("diff"@.len() == 4 && "rev-list"@.len() == 8 && "branch"@.len() == 6);
    assert("merge"@.len() == 5 && "checkout"@.len() == 8 && "clone"@.len() == 5);
    assert("merge"@[0] == 'm' && "clone"@[0] == 'c' && "fetch"@[0] == 'f');
    assert("fetch"@.len() == 5 && "--unshallow"@.len() == 11);
    assert("--depth=1"@.len() == 9 && "--prune"@.len() == 7);
}

proof fn file_questions_are_ordinary(repository: Seq<u8>)
    ensures
        forall|act: Act| #[trigger] file_questions(repository)(act) ==> ordinary()(act),
{
    assert forall|act: Act| #[trigger] file_questions(repository)(act) implies ordinary()(
        act,
    ) by {
        let (commit, path) = choose|commit: Seq<char>, path: Seq<char>|
            act == Act::Run(#[trigger] in_repository(repository, show_args(commit, path)));
        common_runs(in_repository(repository, show_args(commit, path)));
    }
}

/// The local check of a link.
pub(crate) proof fn local_checks_are_ordinary(repository: RepositoryView, url: SourceUrlView)
    ensures
        local_plan(repository, url).only(ordinary()),
{
    local_checks_only_look_at_files(repository, url);
    file_questions_are_ordinary(repository.path);
    wider_sorts_hold(
        local_plan(repository, url),
        file_questions(repository.path),
        ordinary(),
    );
}

// ---------------------------------------------------------------------------------------------
// Making a repository ready
// ---------------------------------------------------------------------------------------------

proof fn updates_are_ordinary(path: Seq<u8>)
    ensures
        update_plan(path).only(ordinary()),
{
    let such = ordinary();
    assert forall|branch: Seq<char>| (#[trigger] update_next(path)(branch)).only(such) by {
        assert forall|done: ()| (#[trigger] refresh_next(path, branch)(done)).only(such) by {
            assert forall|current: Seq<char>|
                (#[trigger] current_next(path, branch)(current)).only(such) by {
                let args = settle_args(branch, current);
                let operation = settle_operation(branch, current);
                assert(args[0] == "merge"@ || args[0] == "checkout"@);
                common_runs(in_repository(path, args));
                one_run_asks_only(in_repository(path, args), work_made(path, operation), such);
                makings_ask_only(
                    work_plan(path, args, operation),
                    settle_made(path, branch),
                    such,
                );
            }
            common_runs(in_repository(path, current_args()));
            one_run_asks_only(
                in_repository(path, current_args()),
                text_made(path, "read branch"@),
                such,
            );
            attempts_ask_only(
                text_plan(path, current_args(), "read branch"@),
                current_next(path, branch),
                such,
            );
        }
        common_runs(in_repository(path, refresh_args(branch)));
        one_run_asks_only(
            in_repository(path, refresh_args(branch)),
            work_made(path, "update cached default branch"@),
            such,
        );
        attempts_ask_only(
            work_plan(path, refresh_args(branch), "update cached default branch"@),
            refresh_next(path, branch),
            such,
        );
    }
    common_runs(in_repository(path, branch_args()));
    one_run_asks_only(
        in_repository(path, branch_args()),
        text_made(path, "determine remote default branch"@),
        such,
    );
    makings_ask_only(
        text_plan(path, branch_args(), "determine remote default branch"@),
        branch_made(),
        such,
    );
    attempts_ask_only(branch_plan(path), update_next(path), such);
}

proof fn openings_are_ordinary(cache: Seq<u8>, url: SourceUrlView)
    ensures
        open_plan(cache, url).only(ordinary()),
{
    let such = ordinary();
    let path = repository_path(cache, url);
    updates_are_ordinary(path);
    common_runs(clone_command(url, path));
    one_run_asks_only(
        clone_command(url, path),
        command_made("shallow-clone repository"@),
        such,
    );
    assert forall|done: ()| (#[trigger] clone_next(path)(done)).only(such) by {}
    attempts_ask_only(
        command_plan(clone_command(url, path), "shallow-clone repository"@),
        clone_next(path),
        such,
    );
    assert forall|answer: Answer| (#[trigger] open_next(cache, url)(answer)).only(such) by {}
}

proof fn siftings_are_ordinary(
    repository: Seq<u8>,
    commits: Seq<Seq<char>>,
    at: int,
    missing: Seq<Seq<char>>,
)
    ensures
        sift_plan(repository, commits, at, missing).only(ordinary()),
    decreases commits.len() - at,
{
    let such = ordinary();
    if at < commits.len() {
        let next = sift_next(repository, commits, at, missing);
        let object = commit_object(commits[at]);
        assert forall|found: bool| (#[trigger] next(found)).only(such) by {
            if found {
                siftings_are_ordinary(repository, commits, at + 1, missing);
            } else {
                siftings_are_ordinary(repository, commits, at + 1, missing.push(commits[at]));
            }
        }
        common_runs(in_repository(repository, lookup_args(object)));
        one_run_asks_only(
            in_repository(repository, lookup_args(object)),
            exists_made(repository),
            such,
        );
        attempts_ask_only(exists_plan(repository, object), next, such);
    }
}

proof fn fetches_are_ordinary(repository: Seq<u8>, commits: Seq<Seq<char>>)
    ensures
        fetch_plan(repository, commits).only(ordinary()),
{
    let such = ordinary();
    let next = fetch_next(repository);
    siftings_are_ordinary(repository, commits, 0, Seq::empty());
    assert forall|missing: Seq<Seq<char>>| (#[trigger] next(missing)).only(such) by {
        if missing.len() > 0 {
            let batch = batch_of(missing);
            let command = in_repository(repository, fetch_args(batch));
            assert(command.args[0] == "fetch"@ && command.args[2] == "--depth=1"@);
            common_runs(command);
            one_run_asks_only(command, command_made("fetch referenced commit"@), such);
        }
    }
    attempts_ask_only(sift_plan(repository, commits, 0, Seq::empty()), next, such);
}

proof fn singles_are_ordinary(
    repository: RepositoryView,
    members: Seq<FoundUrlView>,
    at: int,
    fetched: Seq<Result<(), FailureView>>,
)
    ensures
        singles_plan(repository, members, at, fetched).only(ordinary()),
    decreases members.len() - at,
{
    if at < members.len() {
        let next = singles_next(repository, members, at, fetched);
        assert forall|result: Result<(), FailureView>| (#[trigger] next(result)).only(
            ordinary(),
        ) by {
            singles_are_ordinary(repository, members, at + 1, fetched.push(result));
        }
        fetches_are_ordinary(repository.path, seq![members[at].url.commit]);
        chains_ask_only(
            fetch_plan(repository.path, seq![members[at].url.commit]),
            next,
            ordinary(),
        );
    }
}

/// Making the repository of a group ready.
pub(crate) proof fn preparations_are_ordinary(cache: Seq<u8>, group: GroupView)
    ensures
        group_plan(cache, group).only(ordinary()),
{
    let members = group.members;
    let next = opened_next(members);
    openings_are_ordinary(cache, members[0].url);
    assert forall|opened: Result<RepositoryView, FailureView>| (#[trigger] next(opened)).only(
        ordinary(),
    ) by {
        if let Ok(repository) = opened {
            let then_next = fetched_next(repository, members);
            fetches_are_ordinary(repository.path, commits_of(members));
            assert forall|fetched: Result<(), FailureView>| (#[trigger] then_next(fetched)).only(
                ordinary(),
            ) by {
                singles_are_ordinary(repository, members, 0, Seq::empty());
            }
            chains_ask_only(
                fetch_plan(repository.path, commits_of(members)),
                then_next,
                ordinary(),
            );
        }
    }
    chains_ask_only(open_plan(cache, members[0].url), next, ordinary());
}

// ---------------------------------------------------------------------------------------------
// Investigating
// ---------------------------------------------------------------------------------------------

/// Making a history whole.
pub(crate) proof fn deepenings_are_silent(repository: RepositoryView)
    ensures
        deepen_plan(repository).only(silent()),
{
    let next = deepen_next(repository);
    assert forall|shallow: Seq<char>| (#[trigger] next(shallow)).only(silent()) by {
        one_run_asks_only(
            in_repository(repository.path, deepen_args(repository.default_branch)),
            work_made(repository.path, "deepen default-branch history"@),
            silent(),
        );
    }
    one_run_asks_only(
        in_repository(repository.path, depth_args()),
        text_made(repository.path, "inspect clone depth"@),
        silent(),
    );
    attempts_ask_only(
        text_plan(repository.path, depth_args(), "inspect clone depth"@),
        next,
        silent(),
    );
}

proof fn looks_are_ordinary(
    repository: Seq<u8>,
    commit: Seq<char>,
    path: Seq<char>,
    expected: Seq<Seq<u8>>,
)
    ensures
        holds_plan(repository, commit, path, expected).only(ordinary()),
{
    common_runs(in_repository(repository, show_args(commit, path)));
    one_run_asks_only(
        in_repository(repository, show_args(commit, path)),
        blob_made(repository),
        ordinary(),
    );
    makings_ask_only(blob_plan(repository, commit, path), holds_made(expected), ordinary());
}

proof fn walks_are_ordinary(
    repository: Seq<u8>,
    commits: Seq<Seq<char>>,
    at: int,
    previous: Seq<char>,
    path: Seq<char>,
    expected: Seq<Seq<u8>>,
)
    ensures
        walk_plan(repository, commits, at, previous, path, expected).only(ordinary()),
    decreases commits.len() - at,
{
    if at < commits.len() {
        let named = walk_named(repository, commits, at, expected);
        assert forall|name: Seq<char>| (#[trigger] named(name)).only(ordinary()) by {
            let held_next = walk_held(repository, commits, at, name, expected);
            assert forall|held: bool| (#[trigger] held_next(held)).only(ordinary()) by {
                walks_are_ordinary(repository, commits, at + 1, commits[at], name, expected);
            }
            looks_are_ordinary(repository, commits[at], name, expected);
            attempts_ask_only(
                holds_plan(repository, commits[at], name, expected),
                held_next,
                ordinary(),
            );
        }
        common_runs(in_repository(repository, diff_args(previous, commits[at])));
        one_run_asks_only(
            in_repository(repository, diff_args(previous, commits[at])),
            renamed_made(repository, path, true),
            ordinary(),
        );
        attempts_ask_only(
            renamed_plan(repository, previous, commits[at], path, true),
            named,
            ordinary(),
        );
    }
}

proof fn breaks_are_ordinary(
    repository: Seq<u8>,
    start: Seq<char>,
    end: Seq<char>,
    path: Seq<char>,
    expected: Seq<Seq<u8>>,
)
    ensures
        break_plan(repository, start, end, path, expected).only(ordinary()),
{
    let next = break_next(repository, start, path, expected);
    let operation = "walk default-branch history"@;
    assert forall|commits: Seq<Seq<char>>| (#[trigger] next(commits)).only(ordinary()) by {
        walks_are_ordinary(repository, commits, 0, start, path, expected);
    }
    common_runs(in_repository(repository, range_args(start, end)));
    one_run_asks_only(
        in_repository(repository, range_args(start, end)),
        lines_made(repository, operation),
        ordinary(),
    );
    attempts_ask_only(
        lines_plan(repository, range_args(start, end), operation),
        next,
        ordinary(),
    );
}

proof fn sides_are_ordinary(
    repository: Seq<u8>,
    first: Seq<char>,
    side: Seq<char>,
    path: Seq<char>,
    expected: Seq<Seq<u8>>,
)
    ensures
        side_plan(repository, first, side, path, expected).only(ordinary()),
{
    let next = side_next(repository, side, path, expected);
    assert forall|text: Seq<char>| (#[trigger] next(text)).only(ordinary()) by {
        let base = trimmed(text);
        let held_next = branch_break_next(repository, base, side, path, expected);
        assert forall|held: bool| (#[trigger] held_next(held)).only(ordinary()) by {
            breaks_are_ordinary(repository, base, side, path, expected);
        }
        looks_are_ordinary(repository, base, path, expected);
        attempts_ask_only(
            holds_plan(repository, base, path, expected),
            held_next,
            ordinary(),
        );
    }
    common_runs(in_repository(repository, base_args(first, side)));
    one_run_asks_only(
        in_repository(repository, base_args(first, side)),
        text_made(repository, "find merge base"@),
        ordinary(),
    );
    attempts_ask_only(
        text_plan(repository, base_args(first, side), "find merge base"@),
        next,
        ordinary(),
    );
}

proof fn origins_are_ordinary(
    repository: Seq<u8>,
    integration: Seq<char>,
    path: Seq<char>,
    expected: Seq<Seq<u8>>,
    left: nat,
)
    ensures
        origin_plan(repository, integration, path, expected, left).only(ordinary()),
    decreases left, 1int, 0int,
{
    if left > 0 {
        let next = origin_next(repository, integration, path, expected, left);
        assert forall|parents: Seq<Seq<char>>| (#[trigger] next(parents)).only(ordinary()) by {
            branches_are_ordinary(repository, integration, path, expected, left, parents, 1);
        }
        common_runs(in_repository(repository, parents_args(integration)));
        one_run_asks_only(
            in_repository(repository, parents_args(integration)),
            text_made(repository, "read commit parents"@),
            ordinary(),
        );
        makings_ask_only(
            text_plan(repository, parents_args(integration), "read commit parents"@),
            parents_made(),
            ordinary(),
        );
        attempts_ask_only(parents_plan(repository, integration), next, ordinary());
    }
}

proof fn branches_are_ordinary(
    repository: Seq<u8>,
    integration: Seq<char>,
    path: Seq<char>,
    expected: Seq<Seq<u8>>,
    left: nat,
    parents: Seq<Seq<char>>,
    at: int,
)
    ensures
        sides_plan(repository, integration, path, expected, left, parents, at).only(ordinary()),
    decreases left, 0int, parents.len() - at,
{
    if left > 0 && at < parents.len() {
        let next = sides_next(repository, integration, path, expected, left, parents, at);
        assert forall|found: Option<Seq<char>>| (#[trigger] next(found)).only(ordinary()) by {
            match found {
                Some(candidate) => {
                    origins_are_ordinary(
                        repository,
                        candidate,
                        path,
                        expected,
                        (left - 1) as nat,
                    );
                },
                None => {
                    branches_are_ordinary(
                        repository,
                        integration,
                        path,
                        expected,
                        left,
                        parents,
                        at + 1,
                    );
                },
            }
        }
        sides_are_ordinary(repository, parents[0], parents[at], path, expected);
        attempts_ask_only(
            side_plan(repository, parents[0], parents[at], path, expected),
            next,
            ordinary(),
        );
    }
}

proof fn infos_are_ordinary(repository: Seq<u8>, commit: Seq<char>)
    ensures
        info_plan(repository, commit).only(ordinary()),
{
    common_runs(in_repository(repository, info_args(commit)));
    one_run_asks_only(
        in_repository(repository, info_args(commit)),
        text_made(repository, "read commit metadata"@),
        ordinary(),
    );
    makings_ask_only(
        text_plan(repository, info_args(commit), "read commit metadata"@),
        info_made(),
        ordinary(),
    );
}

/// The investigation of a link.
pub(crate) proof fn investigations_are_ordinary(
    repository: RepositoryView,
    found: FoundUrlView,
    expected: Seq<Seq<u8>>,
)
    ensures
        investigate_plan(repository, found, expected).only(ordinary()),
{
    let path = repository.path;
    let commit = found.url.commit;
    let next = investigate_next(repository, found, expected);
    assert forall|related: bool| (#[trigger] next(related)).only(ordinary()) by {
        traces_are_ordinary(repository, found, expected);
    }
    common_runs(in_repository(path, ancestor_args(commit, repository.default_ref)));
    one_run_asks_only(
        in_repository(path, ancestor_args(commit, repository.default_ref)),
        ancestor_made(path),
        ordinary(),
    );
    attempts_ask_only(ancestor_plan(path, commit, repository.default_ref), next, ordinary());
}

proof fn traces_are_ordinary(
    repository: RepositoryView,
    found: FoundUrlView,
    expected: Seq<Seq<u8>>,
)
    ensures
        trace_plan(repository, found, expected).only(ordinary()),
{
    let path = repository.path;
    let url = found.url;
    let next = trace_next(repository, found, expected);
    assert forall|at: Option<Seq<char>>| (#[trigger] next(at)).only(ordinary()) by {
        if let Some(integration) = at {
            let found_next = stale_next(repository, found, integration);
            assert forall|origin: Seq<char>| (#[trigger] found_next(origin)).only(ordinary()) by {
                reports_are_ordinary(repository, found, origin, integration);
            }
            origins_are_ordinary(path, integration, url.path, expected, merges_left(0));
            attempts_ask_only(
                origin_plan(path, integration, url.path, expected, merges_left(0)),
                found_next,
                ordinary(),
            );
        }
    }
    breaks_are_ordinary(path, url.commit, repository.default_ref, url.path, expected);
    attempts_ask_only(
        break_plan(path, url.commit, repository.default_ref, url.path, expected),
        next,
        ordinary(),
    );
}

proof fn reports_are_ordinary(
    repository: RepositoryView,
    found: FoundUrlView,
    origin: Seq<char>,
    integration: Seq<char>,
)
    ensures
        report_plan(repository, found, origin, integration).only(ordinary()),
{
    let next = report_next(repository, found, integration);
    infos_are_ordinary(repository.path, origin);
    infos_are_ordinary(repository.path, integration);
    assert forall|change: CommitInfoView| (#[trigger] next(change)).only(ordinary()) by {
        makings_ask_only(
            info_plan(repository.path, integration),
            report_made(found, change),
            ordinary(),
        );
    }
    attempts_ask_only(info_plan(repository.path, origin), next, ordinary());
}

} // verus!
