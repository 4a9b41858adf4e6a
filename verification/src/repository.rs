//! A cached repository, and what is asked of it.

use crate::failure::{Failure, FailureView};
use crate::git::{
    ancestry, ancestry_of_reply, blob_view, carried_out, completed, completion_of_reply,
    existence_of_reply, file_of_reply, flag_view, in_repository, lines_of_reply, list_view,
    object_found, outcome_of_reply, printed_lines, printed_text, shown_file, text_of_reply,
    text_view, unit_view, Command, CommandView, Reply, ReplyView,
};
use crate::lines::{contains_lines, copy_bytes, holds_lines};
use crate::porcelain::{
    commit_fields, commit_in, default_branch, default_branch_in, parent_words, parents_in,
    rename_of_reply, renamed, renamed_by, renames,
};
use crate::report::{CommitInfo, CommitInfoView};
use crate::text::{byte_views, same_text, split, string_views, trim, trimmed, words};
use crate::plan::{
    ask_once, attempts_split, first_step, made_by_the_same_steps, one_run, Act, Answer, Plan, Step,
};
use crate::world::{begins_trying, did, ends, finishes, makes, ran_once, stepped, Outside};
use vstd::prelude::*;

verus! {

// ---------------------------------------------------------------------------------------------
// Runs of Git
// ---------------------------------------------------------------------------------------------

/// What is made of a reply: the text that the run printed.
pub open spec fn text_made(
    repository: Seq<u8>,
    operation: Seq<char>,
) -> spec_fn(ReplyView) -> Result<Seq<char>, FailureView> {
    |reply: ReplyView| printed_text(repository, operation, reply)
}

/// The plan to get the text that a run prints.
pub open spec fn text_plan(
    repository: Seq<u8>,
    args: Seq<Seq<char>>,
    operation: Seq<char>,
) -> Plan<Result<Seq<char>, FailureView>> {
    ask_once(in_repository(repository, args), text_made(repository, operation))
}

/// What is made of a reply: the lines that the run printed.
pub open spec fn lines_made(
    repository: Seq<u8>,
    operation: Seq<char>,
) -> spec_fn(ReplyView) -> Result<Seq<Seq<char>>, FailureView> {
    |reply: ReplyView| printed_lines(repository, operation, reply)
}

/// The plan to get the lines that a run prints.
pub open spec fn lines_plan(
    repository: Seq<u8>,
    args: Seq<Seq<char>>,
    operation: Seq<char>,
) -> Plan<Result<Seq<Seq<char>>, FailureView>> {
    ask_once(in_repository(repository, args), lines_made(repository, operation))
}

/// What is made of a reply: whether the run did its work.
pub open spec fn work_made(
    repository: Seq<u8>,
    operation: Seq<char>,
) -> spec_fn(ReplyView) -> Result<(), FailureView> {
    |reply: ReplyView| carried_out(repository, operation, reply)
}

/// The plan of a run that prints nothing.
pub open spec fn work_plan(
    repository: Seq<u8>,
    args: Seq<Seq<char>>,
    operation: Seq<char>,
) -> Plan<Result<(), FailureView>> {
    ask_once(in_repository(repository, args), work_made(repository, operation))
}

/// Runs Git in a repository.
pub fn git_output<W: Outside>(
    world: &mut W,
    repository: &[u8],
    args: Vec<String>,
) -> (reply: Reply)
    requires
        old(world).ready(),
    ensures
        stepped(
            *old(world),
            *final(world),
            Act::Run(in_repository(repository@, string_views(args@))),
            Answer::Reply(reply@),
        ),
{
    let command = Command { repository: Some(copy_bytes(repository)), args, target: None };
    world.run(command)
}

/// The text that a run of Git in a repository prints.
pub fn git_text<W: Outside>(
    world: &mut W,
    repository: &[u8],
    args: Vec<String>,
    operation: &str,
) -> (result: Result<String, Failure>)
    requires
        old(world).ready(),
    ensures
        did(
            *old(world),
            *final(world),
            text_plan(repository@, string_views(args@), operation@),
            text_view(result),
        ),
{
    let ghost start = *world;
    let ghost command = in_repository(repository@, string_views(args@));
    let reply = git_output(world, repository, args);
    proof {
        ran_once(start, *world, command, text_made(repository@, operation@), reply@);
    }
    text_of_reply(repository, operation, reply)
}

/// The lines that a run of Git in a repository prints.
pub fn git_lines<W: Outside>(
    world: &mut W,
    repository: &[u8],
    args: Vec<String>,
    operation: &str,
) -> (result: Result<Vec<String>, Failure>)
    requires
        old(world).ready(),
    ensures
        did(
            *old(world),
            *final(world),
            lines_plan(repository@, string_views(args@), operation@),
            list_view(result),
        ),
{
    let ghost start = *world;
    let ghost command = in_repository(repository@, string_views(args@));
    let reply = git_output(world, repository, args);
    proof {
        ran_once(start, *world, command, lines_made(repository@, operation@), reply@);
    }
    lines_of_reply(repository, operation, reply)
}

/// Runs Git in a repository for its effect.
pub fn git_ok<W: Outside>(
    world: &mut W,
    repository: &[u8],
    args: Vec<String>,
    operation: &str,
) -> (result: Result<(), Failure>)
    requires
        old(world).ready(),
    ensures
        did(
            *old(world),
            *final(world),
            work_plan(repository@, string_views(args@), operation@),
            unit_view(result),
        ),
{
    let ghost start = *world;
    let ghost command = in_repository(repository@, string_views(args@));
    let reply = git_output(world, repository, args);
    proof {
        ran_once(start, *world, command, work_made(repository@, operation@), reply@);
    }
    outcome_of_reply(repository, operation, reply)
}

/// What is made of a reply: whether a run that may need no repository did its work.
pub open spec fn command_made(
    operation: Seq<char>,
) -> spec_fn(ReplyView) -> Result<(), FailureView> {
    |reply: ReplyView| completed(operation, reply)
}

/// The plan of a run that prints nothing, in a repository or in none.
pub open spec fn command_plan(command: CommandView, operation: Seq<char>) -> Plan<
    Result<(), FailureView>,
> {
    ask_once(command, command_made(operation))
}

/// Runs Git for its effect, in a repository or in none.
pub fn command_ok<W: Outside>(
    world: &mut W,
    command: Command,
    operation: &str,
) -> (result: Result<(), Failure>)
    requires
        old(world).ready(),
    ensures
        did(*old(world), *final(world), command_plan(command@, operation@), unit_view(result)),
{
    let ghost start = *world;
    let ghost asked = command@;
    let reply = world.run(command);
    proof {
        ran_once(start, *world, asked, command_made(operation@), reply@);
    }
    completion_of_reply(operation, reply)
}

// ---------------------------------------------------------------------------------------------
// The repository
// ---------------------------------------------------------------------------------------------

/// A cached repository: where it lies, and its default branch by name and by reference.
#[derive(Debug)]
pub struct Repository {
    pub path: Vec<u8>,
    pub default_branch: String,
    pub default_ref: String,
}

/// A [`Repository`] as its bytes and characters.
pub struct RepositoryView {
    pub path: Seq<u8>,
    pub default_branch: Seq<char>,
    pub default_ref: Seq<char>,
}

impl View for Repository {
    type V = RepositoryView;

    open spec fn view(&self) -> RepositoryView {
        RepositoryView {
            path: self.path@,
            default_branch: self.default_branch@,
            default_ref: self.default_ref@,
        }
    }
}

/// How the remote is asked for its default branch.
pub open spec fn branch_args() -> Seq<Seq<char>> {
    seq!["ls-remote"@, "--symref"@, "origin"@, "HEAD"@]
}

/// What is made of the advertisement of the remote: its default branch.
pub open spec fn branch_made() -> spec_fn(Result<Seq<char>, FailureView>) -> Result<
    Seq<char>,
    FailureView,
> {
    |text: Result<Seq<char>, FailureView>|
        match text {
            Ok(text) => default_branch(text),
            Err(failure) => Err(failure),
        }
}

/// The plan to determine the default branch of the remote.
pub open spec fn branch_plan(repository: Seq<u8>) -> Plan<Result<Seq<char>, FailureView>> {
    text_plan(repository, branch_args(), "determine remote default branch"@).map_by(branch_made())
}

/// Asks the remote for its default branch.
pub fn remote_default_branch<W: Outside>(
    world: &mut W,
    repository: &[u8],
) -> (result: Result<String, Failure>)
    requires
        old(world).ready(),
    ensures
        did(*old(world), *final(world), branch_plan(repository@), text_view(result)),
{
    let args = vec![
        "ls-remote".to_owned(),
        "--symref".to_owned(),
        "origin".to_owned(),
        "HEAD".to_owned(),
    ];
    assert(string_views(args@) == branch_args());
    let ghost start = *world;
    let text = git_text(world, repository, args, "determine remote default branch");
    proof {
        makes(
            start,
            *world,
            text_plan(repository@, branch_args(), "determine remote default branch"@),
            branch_made(),
            text_view(text),
        );
    }
    match text {
        Ok(text) => default_branch_in(text.as_str()),
        Err(failure) => Err(failure),
    }
}

/// How an object is looked for.
pub open spec fn lookup_args(object: Seq<char>) -> Seq<Seq<char>> {
    seq!["cat-file"@, "-e"@, object]
}

/// What is made of a reply: whether an object was found.
pub open spec fn exists_made(
    repository: Seq<u8>,
) -> spec_fn(ReplyView) -> Result<bool, FailureView> {
    |reply: ReplyView| object_found(repository, reply)
}

/// The plan to look for an object.
pub open spec fn exists_plan(repository: Seq<u8>, object: Seq<char>) -> Plan<
    Result<bool, FailureView>,
> {
    ask_once(in_repository(repository, lookup_args(object)), exists_made(repository))
}

/// The object that a commit is looked for as.
pub open spec fn commit_object(commit: Seq<char>) -> Seq<char> {
    commit + "^{commit}"@
}

/// The file of a commit, as `git show` takes it.
pub open spec fn blob_object(commit: Seq<char>, path: Seq<char>) -> Seq<char> {
    commit + ":"@ + path
}

/// How a file at a commit is asked for.
pub open spec fn show_args(commit: Seq<char>, path: Seq<char>) -> Seq<Seq<char>> {
    seq!["show"@, blob_object(commit, path)]
}

/// What is made of a reply: the file that was shown.
pub open spec fn blob_made(repository: Seq<u8>) -> spec_fn(ReplyView) -> Result<
    Option<Seq<u8>>,
    FailureView,
> {
    |reply: ReplyView| shown_file(repository, reply)
}

/// The plan to get a file at a commit.
pub open spec fn blob_plan(repository: Seq<u8>, commit: Seq<char>, path: Seq<char>) -> Plan<
    Result<Option<Seq<u8>>, FailureView>,
> {
    ask_once(in_repository(repository, show_args(commit, path)), blob_made(repository))
}

/// Whether lines stand in a file that may be missing.
pub open spec fn blob_holds(
    blob: Result<Option<Seq<u8>>, FailureView>,
    expected: Seq<Seq<u8>>,
) -> Result<bool, FailureView> {
    match blob {
        Ok(Some(bytes)) => Ok(holds_lines(bytes, expected)),
        Ok(None) => Ok(false),
        Err(failure) => Err(failure),
    }
}

/// What is made of a file: whether lines stand in it.
pub open spec fn holds_made(expected: Seq<Seq<u8>>) -> spec_fn(
    Result<Option<Seq<u8>>, FailureView>,
) -> Result<bool, FailureView> {
    |blob: Result<Option<Seq<u8>>, FailureView>| blob_holds(blob, expected)
}

/// The plan to look for lines in a file at a commit.
pub open spec fn holds_plan(
    repository: Seq<u8>,
    commit: Seq<char>,
    path: Seq<char>,
    expected: Seq<Seq<u8>>,
) -> Plan<Result<bool, FailureView>> {
    blob_plan(repository, commit, path).map_by(holds_made(expected))
}

/// How it is asked whether a commit is an ancestor of another.
pub open spec fn ancestor_args(ancestor: Seq<char>, descendant: Seq<char>) -> Seq<Seq<char>> {
    seq!["merge-base"@, "--is-ancestor"@, ancestor, descendant]
}

/// What is made of a reply: whether a commit is an ancestor.
pub open spec fn ancestor_made(repository: Seq<u8>) -> spec_fn(ReplyView) -> Result<
    bool,
    FailureView,
> {
    |reply: ReplyView| ancestry(repository, reply)
}

/// The plan to ask whether a commit is an ancestor of another.
pub open spec fn ancestor_plan(
    repository: Seq<u8>,
    ancestor: Seq<char>,
    descendant: Seq<char>,
) -> Plan<Result<bool, FailureView>> {
    ask_once(
        in_repository(repository, ancestor_args(ancestor, descendant)),
        ancestor_made(repository),
    )
}

/// How the renames of a change are asked for.
pub open spec fn diff_args(old_commit: Seq<char>, new_commit: Seq<char>) -> Seq<Seq<char>> {
    seq!["diff"@, "--name-status"@, "-z"@, "-M"@, old_commit, new_commit]
}

/// What is made of a reply: the name of a file on the other side of a change.
pub open spec fn renamed_made(repository: Seq<u8>, path: Seq<char>, forward: bool) -> spec_fn(
    ReplyView,
) -> Result<Seq<char>, FailureView> {
    |reply: ReplyView| renamed_by(repository, reply, path, forward)
}

/// The plan to follow a file to the other side of a change.
pub open spec fn renamed_plan(
    repository: Seq<u8>,
    old_commit: Seq<char>,
    new_commit: Seq<char>,
    path: Seq<char>,
    forward: bool,
) -> Plan<Result<Seq<char>, FailureView>> {
    ask_once(
        in_repository(repository, diff_args(old_commit, new_commit)),
        renamed_made(repository, path, forward),
    )
}

/// How the parents of a commit are asked for.
pub open spec fn parents_args(commit: Seq<char>) -> Seq<Seq<char>> {
    seq!["rev-list"@, "--parents"@, "-n"@, "1"@, commit]
}

/// What is made of a line: the parents of a commit.
pub open spec fn parents_made() -> spec_fn(Result<Seq<char>, FailureView>) -> Result<
    Seq<Seq<char>>,
    FailureView,
> {
    |line: Result<Seq<char>, FailureView>|
        match line {
            Ok(line) => Ok(parent_words(line)),
            Err(failure) => Err(failure),
        }
}

/// The plan to get the parents of a commit.
pub open spec fn parents_plan(repository: Seq<u8>, commit: Seq<char>) -> Plan<
    Result<Seq<Seq<char>>, FailureView>,
> {
    text_plan(repository, parents_args(commit), "read commit parents"@).map_by(parents_made())
}

/// How the hash, the date and the title of a commit are asked for.
pub open spec fn info_args(commit: Seq<char>) -> Seq<Seq<char>> {
    seq!["show"@, "-s"@, "--format=%H%x00%cI%x00%s"@, commit]
}

/// What is made of a text: a commit.
pub open spec fn info_made() -> spec_fn(Result<Seq<char>, FailureView>) -> Result<
    CommitInfoView,
    FailureView,
> {
    |text: Result<Seq<char>, FailureView>|
        match text {
            Ok(text) => Ok(commit_fields(text)),
            Err(failure) => Err(failure),
        }
}

/// The plan to get the hash, the date and the title of a commit.
pub open spec fn info_plan(repository: Seq<u8>, commit: Seq<char>) -> Plan<
    Result<CommitInfoView, FailureView>,
> {
    text_plan(repository, info_args(commit), "read commit metadata"@).map_by(info_made())
}

/// A commit or a failure, as characters.
pub open spec fn info_view(result: Result<CommitInfo, Failure>) -> Result<
    CommitInfoView,
    FailureView,
> {
    match result {
        Ok(info) => Ok(info@),
        Err(failure) => Err(failure@),
    }
}

/// How it is asked whether only a part of the history is there.
pub open spec fn depth_args() -> Seq<Seq<char>> {
    seq!["rev-parse"@, "--is-shallow-repository"@]
}

/// How the rest of the history of a branch is fetched.
pub open spec fn deepen_args(branch: Seq<char>) -> Seq<Seq<char>> {
    seq!["fetch"@, "--quiet"@, "--unshallow"@, "origin"@, branch]
}

/// What follows by the depth of a history: where it is shallow, the fetch of the rest, and else
/// nothing.
pub open spec fn deepen_next(repository: RepositoryView) -> spec_fn(Seq<char>) -> Plan<
    Result<(), FailureView>,
> {
    |shallow: Seq<char>|
        if trimmed(shallow) == "true"@ {
            work_plan(
                repository.path,
                deepen_args(repository.default_branch),
                "deepen default-branch history"@,
            )
        } else {
            Plan::Done(Ok(()))
        }
}

/// The plan to make a history whole.
pub open spec fn deepen_plan(repository: RepositoryView) -> Plan<Result<(), FailureView>> {
    text_plan(repository.path, depth_args(), "inspect clone depth"@).and_by(
        deepen_next(repository),
    )
}

/// A history is made whole by two runs of Git where it is shallow, the second of them the fetch
/// of the rest, and where it is not, or the depth cannot be told, by the one run that asks for
/// it: nothing is then fetched.
pub proof fn only_shallow_histories_are_fetched(
    repository: RepositoryView,
    steps: Seq<Step>,
    result: Result<(), FailureView>,
)
    requires
        deepen_plan(repository).ran(steps, result),
    ensures
        steps.len() >= 1,
        steps[0].act == Act::Run(in_repository(repository.path, depth_args())),
        match printed_text(repository.path, "inspect clone depth"@, steps[0].answer->Reply_0) {
            Err(failure) => steps.len() == 1 && result == Err::<(), _>(failure),
            Ok(shallow) => if trimmed(shallow) == "true"@ {
                &&& steps.len() == 2
                &&& steps[1].act == Act::Run(
                    in_repository(repository.path, deepen_args(repository.default_branch)),
                )
                &&& result == carried_out(
                    repository.path,
                    "deepen default-branch history"@,
                    steps[1].answer->Reply_0,
                )
            } else {
                steps.len() == 1 && result == Ok::<(), FailureView>(())
            },
        },
{
    let depth = text_plan(repository.path, depth_args(), "inspect clone depth"@);
    let (a, told, b) = attempts_split(depth, deepen_next(repository), steps, result);
    one_run(
        in_repository(repository.path, depth_args()),
        text_made(repository.path, "inspect clone depth"@),
        a,
        told,
    );
    assert(steps[0] == a[0]);
    if let Ok(shallow) = told {
        if trimmed(shallow) == "true"@ {
            one_run(
                in_repository(repository.path, deepen_args(repository.default_branch)),
                work_made(repository.path, "deepen default-branch history"@),
                b,
                result,
            );
            assert(steps[1] == b[0]);
        } else {
            first_step(deepen_next(repository)(shallow), b, result);
        }
    }
}

impl Repository {
    /// Whether the repository has an object.
    pub fn object_exists<W: Outside>(&self, world: &mut W, object: &str) -> (result:
        Result<bool, Failure>)
        requires
            old(world).ready(),
        ensures
            did(*old(world), *final(world), exists_plan(self@.path, object@), flag_view(result)),
    {
        let args = vec!["cat-file".to_owned(), "-e".to_owned(), object.to_owned()];
        assert(string_views(args@) == lookup_args(object@));
        let ghost start = *world;
        let reply = git_output(world, self.path.as_slice(), args);
        proof {
            ran_once(
                start,
                *world,
                in_repository(self@.path, lookup_args(object@)),
                exists_made(self@.path),
                reply@,
            );
        }
        existence_of_reply(self.path.as_slice(), reply)
    }

    /// The file at a commit, if there is one.
    pub fn blob<W: Outside>(&self, world: &mut W, commit: &str, path: &str) -> (result:
        Result<Option<Vec<u8>>, Failure>)
        requires
            old(world).ready(),
        ensures
            did(
                *old(world),
                *final(world),
                blob_plan(self@.path, commit@, path@),
                blob_view(result),
            ),
    {
        let object = commit.to_owned().concat(":").concat(path);
        let args = vec!["show".to_owned(), object];
        assert(string_views(args@) == show_args(commit@, path@));
        let ghost start = *world;
        let reply = git_output(world, self.path.as_slice(), args);
        proof {
            ran_once(
                start,
                *world,
                in_repository(self@.path, show_args(commit@, path@)),
                blob_made(self@.path),
                reply@,
            );
        }
        file_of_reply(self.path.as_slice(), reply)
    }

    /// Whether lines stand in the file at a commit.
    pub fn contains_at<W: Outside>(
        &self,
        world: &mut W,
        commit: &str,
        path: &str,
        expected: &[Vec<u8>],
    ) -> (result: Result<bool, Failure>)
        requires
            old(world).ready(),
        ensures
            did(
                *old(world),
                *final(world),
                holds_plan(self@.path, commit@, path@, byte_views(expected@)),
                flag_view(result),
            ),
    {
        let ghost start = *world;
        let shown = self.blob(world, commit, path);
        proof {
            makes(
                start,
                *world,
                blob_plan(self@.path, commit@, path@),
                holds_made(byte_views(expected@)),
                blob_view(shown),
            );
        }
        match shown {
            Ok(Some(blob)) => Ok(contains_lines(blob.as_slice(), expected)),
            Ok(None) => Ok(false),
            Err(failure) => Err(failure),
        }
    }

    /// Whether a commit is an ancestor of another.
    pub fn is_ancestor<W: Outside>(
        &self,
        world: &mut W,
        ancestor: &str,
        descendant: &str,
    ) -> (result: Result<bool, Failure>)
        requires
            old(world).ready(),
        ensures
            did(
                *old(world),
                *final(world),
                ancestor_plan(self@.path, ancestor@, descendant@),
                flag_view(result),
            ),
    {
        let args = vec![
            "merge-base".to_owned(),
            "--is-ancestor".to_owned(),
            ancestor.to_owned(),
            descendant.to_owned(),
        ];
        assert(string_views(args@) == ancestor_args(ancestor@, descendant@));
        let ghost start = *world;
        let reply = git_output(world, self.path.as_slice(), args);
        proof {
            ran_once(
                start,
                *world,
                in_repository(self@.path, ancestor_args(ancestor@, descendant@)),
                ancestor_made(self@.path),
                reply@,
            );
        }
        ancestry_of_reply(self.path.as_slice(), reply)
    }

    /// The name that a file has on the other side of a change.
    pub fn renamed_path<W: Outside>(
        &self,
        world: &mut W,
        old_commit: &str,
        new_commit: &str,
        path: &str,
        forward: bool,
    ) -> (result: Result<String, Failure>)
        requires
            old(world).ready(),
        ensures
            did(
                *old(world),
                *final(world),
                renamed_plan(self@.path, old_commit@, new_commit@, path@, forward),
                text_view(result),
            ),
    {
        let args = vec![
            "diff".to_owned(),
            "--name-status".to_owned(),
            "-z".to_owned(),
            "-M".to_owned(),
            old_commit.to_owned(),
            new_commit.to_owned(),
        ];
        assert(string_views(args@) == diff_args(old_commit@, new_commit@));
        let ghost start = *world;
        let reply = git_output(world, self.path.as_slice(), args);
        proof {
            ran_once(
                start,
                *world,
                in_repository(self@.path, diff_args(old_commit@, new_commit@)),
                renamed_made(self@.path, path@, forward),
                reply@,
            );
        }
        rename_of_reply(self.path.as_slice(), reply, path, forward)
    }

    /// The parents of a commit.
    pub fn parents<W: Outside>(&self, world: &mut W, commit: &str) -> (result: Result<
        Vec<String>,
        Failure,
    >)
        requires
            old(world).ready(),
        ensures
            did(*old(world), *final(world), parents_plan(self@.path, commit@), list_view(result)),
    {
        let args = vec![
            "rev-list".to_owned(),
            "--parents".to_owned(),
            "-n".to_owned(),
            "1".to_owned(),
            commit.to_owned(),
        ];
        assert(string_views(args@) == parents_args(commit@));
        let ghost start = *world;
        let line = git_text(world, self.path.as_slice(), args, "read commit parents");
        proof {
            makes(
                start,
                *world,
                text_plan(self@.path, parents_args(commit@), "read commit parents"@),
                parents_made(),
                text_view(line),
            );
        }
        match line {
            Ok(line) => Ok(parents_in(line.as_str())),
            Err(failure) => Err(failure),
        }
    }

    /// The hash, the date and the title of a commit.
    pub fn commit_info<W: Outside>(&self, world: &mut W, commit: &str) -> (result:
        Result<CommitInfo, Failure>)
        requires
            old(world).ready(),
        ensures
            did(*old(world), *final(world), info_plan(self@.path, commit@), info_view(result)),
    {
        let args = vec![
            "show".to_owned(),
            "-s".to_owned(),
            "--format=%H%x00%cI%x00%s".to_owned(),
            commit.to_owned(),
        ];
        assert(string_views(args@) == info_args(commit@));
        let ghost start = *world;
        let text = git_text(world, self.path.as_slice(), args, "read commit metadata");
        proof {
            makes(
                start,
                *world,
                text_plan(self@.path, info_args(commit@), "read commit metadata"@),
                info_made(),
                text_view(text),
            );
        }
        match text {
            Ok(text) => Ok(commit_in(text.as_str())),
            Err(failure) => Err(failure),
        }
    }

    /// Fetches the whole history of the default branch where only a part of it is there.
    pub fn ensure_full_default_history<W: Outside>(&self, world: &mut W) -> (result:
        Result<(), Failure>)
        requires
            old(world).ready(),
        ensures
            did(*old(world), *final(world), deepen_plan(self@), unit_view(result)),
    {
        let args = vec!["rev-parse".to_owned(), "--is-shallow-repository".to_owned()];
        assert(string_views(args@) == depth_args());
        let ghost start = *world;
        let ghost whole = deepen_plan(self@);
        let depth = git_text(world, self.path.as_slice(), args, "inspect clone depth");
        let ghost asked = *world;
        proof {
            begins_trying(
                start,
                asked,
                text_plan(self@.path, depth_args(), "inspect clone depth"@),
                deepen_next(self@),
                text_view(depth),
            );
        }
        match depth {
            Err(failure) => Err(failure),
            Ok(shallow) => {
                let answer = trim(shallow.as_str());
                if same_text(answer.as_str(), "true") {
                    let args = vec![
                        "fetch".to_owned(),
                        "--quiet".to_owned(),
                        "--unshallow".to_owned(),
                        "origin".to_owned(),
                        self.default_branch.clone(),
                    ];
                    assert(string_views(args@) == deepen_args(self@.default_branch));
                    let result = git_ok(
                        world,
                        self.path.as_slice(),
                        args,
                        "deepen default-branch history",
                    );
                    proof {
                        finishes(
                            start,
                            asked,
                            *world,
                            whole,
                            deepen_next(self@)(shallow@),
                            unit_view(result),
                        );
                    }
                    result
                } else {
                    proof {
                        ends(start, asked, whole, Ok(()));
                    }
                    Ok(())
                }
            },
        }
    }
}

// ---------------------------------------------------------------------------------------------
// What Git is asked
// ---------------------------------------------------------------------------------------------

/// Whether one run of Git in a repository, with these arguments, is all that was asked.
pub open spec fn asked_git(steps: Seq<Step>, repository: Seq<u8>, args: Seq<Seq<char>>) -> bool {
    &&& steps.len() == 1
    &&& steps[0].act == Act::Run(CommandView { repository: Some(repository), args, target: None })
}

/// A file at a commit is asked for by `git show COMMIT:PATH`. It is what a successful run printed;
/// where the run fails there is no such file.
pub proof fn files_are_shown_at_their_commit(
    repository: Seq<u8>,
    commit: Seq<char>,
    path: Seq<char>,
    steps: Seq<Step>,
    result: Result<Option<Seq<u8>>, FailureView>,
)
    requires
        blob_plan(repository, commit, path).ran(steps, result),
    ensures
        asked_git(steps, repository, seq!["show"@, commit + ":"@ + path]),
        steps[0].answer->Reply_0 matches ReplyView::Finished(output) ==> result == Ok::<
            _,
            FailureView,
        >(
            if output.code == Some(0i32) {
                Some(output.stdout)
            } else {
                None
            },
        ),
        result is Err <==> steps[0].answer->Reply_0 is Unstarted,
{
    one_run(
        in_repository(repository, show_args(commit, path)),
        blob_made(repository),
        steps,
        result,
    );
}

/// Lines stand in a file at a commit exactly where that commit has the file and the file has them.
pub proof fn lines_stand_where_the_file_has_them(
    repository: Seq<u8>,
    commit: Seq<char>,
    path: Seq<char>,
    expected: Seq<Seq<u8>>,
    steps: Seq<Step>,
    result: Result<bool, FailureView>,
)
    requires
        holds_plan(repository, commit, path, expected).ran(steps, result),
    ensures
        asked_git(steps, repository, seq!["show"@, commit + ":"@ + path]),
        steps[0].answer->Reply_0 matches ReplyView::Finished(output) ==> result == Ok::<
            _,
            FailureView,
        >(output.code == Some(0i32) && holds_lines(output.stdout, expected)),
        result is Err <==> steps[0].answer->Reply_0 is Unstarted,
{
    let blob = made_by_the_same_steps(
        blob_plan(repository, commit, path),
        holds_made(expected),
        steps,
        result,
    );
    files_are_shown_at_their_commit(repository, commit, path, steps, blob);
}

/// Whether a commit comes from another is asked by `git merge-base --is-ancestor`, the earlier
/// commit first.
pub proof fn ancestry_is_asked_for(
    repository: Seq<u8>,
    ancestor: Seq<char>,
    descendant: Seq<char>,
    steps: Seq<Step>,
    result: Result<bool, FailureView>,
)
    requires
        ancestor_plan(repository, ancestor, descendant).ran(steps, result),
    ensures
        asked_git(
            steps,
            repository,
            seq!["merge-base"@, "--is-ancestor"@, ancestor, descendant],
        ),
        result == Ok::<_, FailureView>(true) <==> (
        steps[0].answer->Reply_0 matches ReplyView::Finished(output) && output.code == Some(0i32)),
        result == Ok::<_, FailureView>(false) <==> (
        steps[0].answer->Reply_0 matches ReplyView::Finished(output) && output.code == Some(1i32)),
{
    one_run(
        in_repository(repository, ancestor_args(ancestor, descendant)),
        ancestor_made(repository),
        steps,
        result,
    );
}

/// The renames between two commits are asked for by `git diff --name-status -z -M`, the earlier
/// commit first, and followed as they are listed.
pub proof fn renames_are_asked_for(
    repository: Seq<u8>,
    earlier: Seq<char>,
    later: Seq<char>,
    path: Seq<char>,
    forward: bool,
    steps: Seq<Step>,
    result: Result<Seq<char>, FailureView>,
)
    requires
        renamed_plan(repository, earlier, later, path, forward).ran(steps, result),
    ensures
        asked_git(
            steps,
            repository,
            seq!["diff"@, "--name-status"@, "-z"@, "-M"@, earlier, later],
        ),
        result is Ok <==> (
        steps[0].answer->Reply_0 matches ReplyView::Finished(output) && output.code == Some(0i32)),
        result matches Ok(name) ==> name == renamed(
            renames(split((steps[0].answer->Reply_0)->Finished_0.stdout, 0u8), 0),
            path,
            forward,
        ),
{
    one_run(
        in_repository(repository, diff_args(earlier, later)),
        renamed_made(repository, path, forward),
        steps,
        result,
    );
}

/// The parents of a commit are asked for by `git rev-list --parents -n 1`: they are the words that
/// it prints behind the commit itself.
pub proof fn parents_are_asked_for(
    repository: Seq<u8>,
    commit: Seq<char>,
    steps: Seq<Step>,
    result: Result<Seq<Seq<char>>, FailureView>,
)
    requires
        parents_plan(repository, commit).ran(steps, result),
    ensures
        asked_git(steps, repository, seq!["rev-list"@, "--parents"@, "-n"@, "1"@, commit]),
        match printed_text(repository, "read commit parents"@, steps[0].answer->Reply_0) {
            Err(failure) => result == Err::<Seq<Seq<char>>, _>(failure),
            Ok(line) => result == Ok::<_, FailureView>(
                if words(line).len() == 0 {
                    Seq::empty()
                } else {
                    words(line).subrange(1, words(line).len() as int)
                },
            ),
        },
{
    let line = made_by_the_same_steps(
        text_plan(repository, parents_args(commit), "read commit parents"@),
        parents_made(),
        steps,
        result,
    );
    one_run(
        in_repository(repository, parents_args(commit)),
        text_made(repository, "read commit parents"@),
        steps,
        line,
    );
}

/// A commit is asked for by `git show -s` with a format that gives its hash, its date and its
/// title, and is read as that format has it.
pub proof fn commits_are_asked_for(
    repository: Seq<u8>,
    commit: Seq<char>,
    steps: Seq<Step>,
    result: Result<CommitInfoView, FailureView>,
)
    requires
        info_plan(repository, commit).ran(steps, result),
    ensures
        asked_git(steps, repository, seq!["show"@, "-s"@, "--format=%H%x00%cI%x00%s"@, commit]),
        match printed_text(repository, "read commit metadata"@, steps[0].answer->Reply_0) {
            Err(failure) => result == Err::<CommitInfoView, _>(failure),
            Ok(text) => result == Ok::<_, FailureView>(commit_fields(text)),
        },
{
    let text = made_by_the_same_steps(
        text_plan(repository, info_args(commit), "read commit metadata"@),
        info_made(),
        steps,
        result,
    );
    one_run(
        in_repository(repository, info_args(commit)),
        text_made(repository, "read commit metadata"@),
        steps,
        text,
    );
}

/// The default branch is asked for by `git ls-remote --symref origin HEAD`, and is what that
/// advertises.
pub proof fn the_default_branch_is_asked_for(
    repository: Seq<u8>,
    steps: Seq<Step>,
    result: Result<Seq<char>, FailureView>,
)
    requires
        branch_plan(repository).ran(steps, result),
    ensures
        asked_git(steps, repository, seq!["ls-remote"@, "--symref"@, "origin"@, "HEAD"@]),
        match printed_text(
            repository,
            "determine remote default branch"@,
            steps[0].answer->Reply_0,
        ) {
            Err(failure) => result == Err::<Seq<char>, _>(failure),
            Ok(text) => result == default_branch(text),
        },
{
    let text = made_by_the_same_steps(
        text_plan(repository, branch_args(), "determine remote default branch"@),
        branch_made(),
        steps,
        result,
    );
    one_run(
        in_repository(repository, branch_args()),
        text_made(repository, "determine remote default branch"@),
        steps,
        text,
    );
}

/// Whether a commit is there is asked by `git cat-file -e COMMIT^{commit}`: it is where the run
/// succeeds.
pub proof fn commits_are_looked_up(
    repository: Seq<u8>,
    commit: Seq<char>,
    steps: Seq<Step>,
    result: Result<bool, FailureView>,
)
    requires
        exists_plan(repository, commit_object(commit)).ran(steps, result),
    ensures
        asked_git(steps, repository, seq!["cat-file"@, "-e"@, commit + "^{commit}"@]),
        steps[0].answer->Reply_0 matches ReplyView::Finished(output) ==> result == Ok::<
            _,
            FailureView,
        >(output.code == Some(0i32)),
        result is Err <==> steps[0].answer->Reply_0 is Unstarted,
{
    one_run(
        in_repository(repository, lookup_args(commit_object(commit))),
        exists_made(repository),
        steps,
        result,
    );
}

/// The history of a repository is made whole by one fetch, and only where Git says that the clone
/// is shallow.
pub proof fn shallow_clones_are_deepened(
    repository: RepositoryView,
    steps: Seq<Step>,
    result: Result<(), FailureView>,
)
    requires
        deepen_plan(repository).ran(steps, result),
    ensures
        asked_git(
            steps.take(1),
            repository.path,
            seq!["rev-parse"@, "--is-shallow-repository"@],
        ),
        match printed_text(repository.path, "inspect clone depth"@, steps[0].answer->Reply_0) {
            Err(failure) => steps.len() == 1 && result == Err::<(), _>(failure),
            Ok(said) => if trimmed(said) == "true"@ {
                &&& asked_git(
                    steps.skip(1),
                    repository.path,
                    seq![
                        "fetch"@,
                        "--quiet"@,
                        "--unshallow"@,
                        "origin"@,
                        repository.default_branch,
                    ],
                )
                &&& result == carried_out(
                    repository.path,
                    "deepen default-branch history"@,
                    steps[1].answer->Reply_0,
                )
            } else {
                steps.len() == 1 && result == Ok::<(), FailureView>(())
            },
        },
{
    only_shallow_histories_are_fetched(repository, steps, result);
}

} // verus!
