//! Git commands, and what their replies mean.

use crate::failure::{plain_failure, Failure, FailureView};
use crate::text::{
    lines_of_text, show_bytes, shown_bytes, string_from_utf8, string_views, text_lines, trim,
    trimmed, utf8_error_text,
};
use vstd::prelude::*;
use vstd::utf8::{decode_utf8, decode_utf8_encode_utf8, encode_utf8, valid_utf8};

verus! {

// ---------------------------------------------------------------------------------------------
// Commands and replies
// ---------------------------------------------------------------------------------------------

/// One run of Git: in `repository` where there is one, with `args`, and with the path `target`
/// behind them where there is one.
#[derive(Clone, Debug)]
pub struct Command {
    pub repository: Option<Vec<u8>>,
    pub args: Vec<String>,
    pub target: Option<Vec<u8>>,
}

/// A [`Command`] as its bytes and characters.
pub struct CommandView {
    pub repository: Option<Seq<u8>>,
    pub args: Seq<Seq<char>>,
    pub target: Option<Seq<u8>>,
}

/// The bytes of a path that may be missing.
pub open spec fn path_view(path: Option<Vec<u8>>) -> Option<Seq<u8>> {
    match path {
        Some(bytes) => Some(bytes@),
        None => None,
    }
}

impl View for Command {
    type V = CommandView;

    open spec fn view(&self) -> CommandView {
        CommandView {
            repository: path_view(self.repository),
            args: string_views(self.args@),
            target: path_view(self.target),
        }
    }
}

/// The run of Git in a repository.
pub open spec fn in_repository(repository: Seq<u8>, args: Seq<Seq<char>>) -> CommandView {
    CommandView { repository: Some(repository), args, target: None }
}

/// What a run of Git left behind. A run that a signal ended has no exit code.
#[derive(Clone, Debug)]
pub struct Output {
    pub code: Option<i32>,
    pub stdout: Vec<u8>,
    pub stderr: Vec<u8>,
}

/// What came of a command: the reason why it could not be started, or what it left behind.
#[derive(Clone, Debug)]
pub enum Reply {
    Unstarted(String),
    Finished(Output),
}

/// An [`Output`] as its bytes.
pub struct OutputView {
    pub code: Option<i32>,
    pub stdout: Seq<u8>,
    pub stderr: Seq<u8>,
}

impl View for Output {
    type V = OutputView;

    open spec fn view(&self) -> OutputView {
        OutputView { code: self.code, stdout: self.stdout@, stderr: self.stderr@ }
    }
}

/// A [`Reply`] as its bytes and characters.
pub enum ReplyView {
    Unstarted(Seq<char>),
    Finished(OutputView),
}

impl View for Reply {
    type V = ReplyView;

    open spec fn view(&self) -> ReplyView {
        match *self {
            Reply::Unstarted(reason) => ReplyView::Unstarted(reason@),
            Reply::Finished(output) => ReplyView::Finished(output@),
        }
    }
}

impl OutputView {
    /// Whether the run reported success.
    pub open spec fn succeeded(self) -> bool {
        self.code == Some(0i32)
    }
}

impl Output {
    /// Whether the run reported success.
    pub fn success(&self) -> (yes: bool)
        ensures
            yes == self@.succeeded(),
    {
        match self.code {
            Some(code) => code == 0,
            None => false,
        }
    }
}

// ---------------------------------------------------------------------------------------------
// Failures
// ---------------------------------------------------------------------------------------------

/// How a path is shown to a reader.
pub open spec fn shown_path(path: Seq<u8>) -> Seq<char> {
    shown_bytes(path)
}

/// How a path is shown to a reader: one that is valid UTF-8 reads as itself.
pub fn display_path(path: &[u8]) -> (text: String)
    ensures
        text@ == shown_path(path@),
        valid_utf8(path@) ==> text@ == decode_utf8(path@),
{
    show_bytes(path)
}

/// What is said of an operation that Git refused: what could not be done, and behind a colon what
/// Git wrote about it, if it wrote anything.
pub open spec fn refusal(operation: Seq<char>, output: OutputView) -> FailureView {
    let words = trimmed(shown_bytes(output.stderr));
    plain_failure(
        if words.len() == 0 {
            "could not "@ + operation
        } else {
            "could not "@ + operation + ": "@ + words
        },
    )
}

/// The failure of an operation that Git refused.
pub fn git_failure(operation: &str, output: &Output) -> (failure: Failure)
    ensures
        failure@ == refusal(operation@, output@),
{
    let message = "could not ".to_owned().concat(operation);
    let stderr = show_bytes(output.stderr.as_slice());
    let words = trim(stderr.as_str());
    if words.as_str().is_empty() {
        Failure::plain(message)
    } else {
        Failure::plain(message.concat(": ").concat(words.as_str()))
    }
}

/// What is said when Git could not be started in a repository.
pub open spec fn unstarted(repository: Seq<u8>, reason: Seq<char>) -> FailureView {
    FailureView {
        message: "could not run Git in "@ + shown_path(repository),
        cause: Some(reason),
    }
}

/// The failure of Git to start in a repository.
pub fn unstarted_failure(repository: &[u8], reason: String) -> (failure: Failure)
    ensures
        failure@ == unstarted(repository@, reason@),
{
    Failure::caused(
        "could not run Git in ".to_owned().concat(display_path(repository).as_str()),
        reason,
    )
}

/// What is said of output that is no text.
pub open spec fn not_text(bytes: Seq<u8>) -> FailureView {
    FailureView {
        message: "Git emitted non-UTF-8 output"@,
        cause: Some(utf8_error_text(bytes)),
    }
}

// ---------------------------------------------------------------------------------------------
// Replies as results
// ---------------------------------------------------------------------------------------------

/// A text or a failure, as characters.
pub open spec fn text_view(result: Result<String, Failure>) -> Result<Seq<char>, FailureView> {
    match result {
        Ok(text) => Ok(text@),
        Err(failure) => Err(failure@),
    }
}

/// Nothing or a failure, as characters.
pub open spec fn unit_view(result: Result<(), Failure>) -> Result<(), FailureView> {
    match result {
        Ok(()) => Ok(()),
        Err(failure) => Err(failure@),
    }
}

/// A flag or a failure, as characters.
pub open spec fn flag_view(result: Result<bool, Failure>) -> Result<bool, FailureView> {
    match result {
        Ok(flag) => Ok(flag),
        Err(failure) => Err(failure@),
    }
}

/// A list of texts or a failure, as characters.
pub open spec fn list_view(result: Result<Vec<String>, Failure>) -> Result<
    Seq<Seq<char>>,
    FailureView,
> {
    match result {
        Ok(list) => Ok(string_views(list@)),
        Err(failure) => Err(failure@),
    }
}

/// A file that may be missing, or a failure, as bytes and characters.
pub open spec fn blob_view(result: Result<Option<Vec<u8>>, Failure>) -> Result<
    Option<Seq<u8>>,
    FailureView,
> {
    match result {
        Ok(blob) => Ok(path_view(blob)),
        Err(failure) => Err(failure@),
    }
}

/// The text that a command in a repository printed.
pub open spec fn printed_text(
    repository: Seq<u8>,
    operation: Seq<char>,
    reply: ReplyView,
) -> Result<Seq<char>, FailureView> {
    match reply {
        ReplyView::Unstarted(reason) => Err(unstarted(repository, reason)),
        ReplyView::Finished(output) => if !output.succeeded() {
            Err(refusal(operation, output))
        } else if valid_utf8(output.stdout) {
            Ok(decode_utf8(output.stdout))
        } else {
            Err(not_text(output.stdout))
        },
    }
}

/// The text that a command in a repository printed, or why there is none.
pub fn text_of_reply(repository: &[u8], operation: &str, reply: Reply) -> (result: Result<
    String,
    Failure,
>)
    ensures
        text_view(result) == printed_text(repository@, operation@, reply@),
{
    match reply {
        Reply::Unstarted(reason) => Err(unstarted_failure(repository, reason)),
        Reply::Finished(output) => {
            if !output.success() {
                return Err(git_failure(operation, &output));
            }
            match string_from_utf8(output.stdout) {
                Ok(text) => Ok(text),
                Err(reason) => Err(
                    Failure::caused("Git emitted non-UTF-8 output".to_owned(), reason),
                ),
            }
        },
    }
}

/// The lines of the text that a command in a repository printed.
pub open spec fn printed_lines(
    repository: Seq<u8>,
    operation: Seq<char>,
    reply: ReplyView,
) -> Result<Seq<Seq<char>>, FailureView> {
    match printed_text(repository, operation, reply) {
        Ok(text) => Ok(text_lines(text)),
        Err(failure) => Err(failure),
    }
}

/// The lines of the text that a command in a repository printed, or why there are none.
pub fn lines_of_reply(repository: &[u8], operation: &str, reply: Reply) -> (result: Result<
    Vec<String>,
    Failure,
>)
    ensures
        list_view(result) == printed_lines(repository@, operation@, reply@),
{
    match text_of_reply(repository, operation, reply) {
        Ok(text) => Ok(lines_of_text(text.as_str())),
        Err(failure) => Err(failure),
    }
}

/// Whether a command in a repository did its work.
pub open spec fn carried_out(repository: Seq<u8>, operation: Seq<char>, reply: ReplyView) -> Result<
    (),
    FailureView,
> {
    match reply {
        ReplyView::Unstarted(reason) => Err(unstarted(repository, reason)),
        ReplyView::Finished(output) => if output.succeeded() {
            Ok(())
        } else {
            Err(refusal(operation, output))
        },
    }
}

/// Nothing where a command in a repository did its work, and otherwise why it did not.
pub fn outcome_of_reply(repository: &[u8], operation: &str, reply: Reply) -> (result: Result<
    (),
    Failure,
>)
    ensures
        unit_view(result) == carried_out(repository@, operation@, reply@),
{
    match reply {
        Reply::Unstarted(reason) => Err(unstarted_failure(repository, reason)),
        Reply::Finished(output) => if output.success() {
            Ok(())
        } else {
            Err(git_failure(operation, &output))
        },
    }
}

/// Whether a command that may run outside any repository did its work.
pub open spec fn completed(operation: Seq<char>, reply: ReplyView) -> Result<(), FailureView> {
    match reply {
        ReplyView::Unstarted(reason) => Err(
            FailureView { message: "could not "@ + operation, cause: Some(reason) },
        ),
        ReplyView::Finished(output) => if output.succeeded() {
            Ok(())
        } else {
            Err(refusal(operation, output))
        },
    }
}

/// Nothing where a command did its work, and otherwise why it did not.
pub fn completion_of_reply(operation: &str, reply: Reply) -> (result: Result<(), Failure>)
    ensures
        unit_view(result) == completed(operation@, reply@),
{
    match reply {
        Reply::Unstarted(reason) => Err(
            Failure::caused("could not ".to_owned().concat(operation), reason),
        ),
        Reply::Finished(output) => if output.success() {
            Ok(())
        } else {
            Err(git_failure(operation, &output))
        },
    }
}

/// The file that `git show` printed. A refusal means that there is no such file.
pub open spec fn shown_file(repository: Seq<u8>, reply: ReplyView) -> Result<
    Option<Seq<u8>>,
    FailureView,
> {
    match reply {
        ReplyView::Unstarted(reason) => Err(unstarted(repository, reason)),
        ReplyView::Finished(output) => if output.succeeded() {
            Ok(Some(output.stdout))
        } else {
            Ok(None)
        },
    }
}

/// The file that `git show` printed, if there is one.
pub fn file_of_reply(repository: &[u8], reply: Reply) -> (result: Result<Option<Vec<u8>>, Failure>)
    ensures
        blob_view(result) == shown_file(repository@, reply@),
{
    match reply {
        Reply::Unstarted(reason) => Err(unstarted_failure(repository, reason)),
        Reply::Finished(output) => if output.success() {
            Ok(Some(output.stdout))
        } else {
            Ok(None)
        },
    }
}

/// Whether `git cat-file -e` found an object.
pub open spec fn object_found(repository: Seq<u8>, reply: ReplyView) -> Result<bool, FailureView> {
    match reply {
        ReplyView::Unstarted(reason) => Err(unstarted(repository, reason)),
        ReplyView::Finished(output) => Ok(output.succeeded()),
    }
}

/// Whether `git cat-file -e` found an object.
pub fn existence_of_reply(repository: &[u8], reply: Reply) -> (result: Result<bool, Failure>)
    ensures
        flag_view(result) == object_found(repository@, reply@),
{
    match reply {
        Reply::Unstarted(reason) => Err(unstarted_failure(repository, reason)),
        Reply::Finished(output) => Ok(output.success()),
    }
}

/// What `git merge-base --is-ancestor` says: yes by the code 0, no by the code 1. Every other end
/// is a failure.
pub open spec fn ancestry(repository: Seq<u8>, reply: ReplyView) -> Result<bool, FailureView> {
    match reply {
        ReplyView::Unstarted(reason) => Err(unstarted(repository, reason)),
        ReplyView::Finished(output) => if output.code == Some(0i32) {
            Ok(true)
        } else if output.code == Some(1i32) {
            Ok(false)
        } else {
            Err(refusal("check commit ancestry"@, output))
        },
    }
}

/// What `git merge-base --is-ancestor` says.
pub fn ancestry_of_reply(repository: &[u8], reply: Reply) -> (result: Result<bool, Failure>)
    ensures
        flag_view(result) == ancestry(repository@, reply@),
{
    match reply {
        Reply::Unstarted(reason) => Err(unstarted_failure(repository, reason)),
        Reply::Finished(output) => match output.code {
            Some(0) => Ok(true),
            Some(1) => Ok(false),
            _ => Err(git_failure("check commit ancestry", &output)),
        },
    }
}

// ---------------------------------------------------------------------------------------------
// How replies are read
// ---------------------------------------------------------------------------------------------

/// What a run of Git did is read off its exit code alone: zero, and only zero, is success. Then its
/// output counts, all of it. Whether one commit comes from another is said by zero or one, and any
/// other code is a failure there.
pub proof fn exit_codes_decide(repository: Seq<u8>, operation: Seq<char>, output: OutputView)
    ensures
        ({
            let reply = ReplyView::Finished(output);
            let done = output.code == Some(0i32);
            &&& carried_out(repository, operation, reply) is Ok <==> done
            &&& completed(operation, reply) is Ok <==> done
            &&& object_found(repository, reply) == Ok::<_, FailureView>(done)
            &&& shown_file(repository, reply) == Ok::<_, FailureView>(
                if done {
                    Some(output.stdout)
                } else {
                    None
                },
            )
            &&& printed_text(repository, operation, reply) is Ok <==> done && valid_utf8(
                output.stdout,
            )
            &&& printed_text(repository, operation, reply) matches Ok(text) ==> encode_utf8(text)
                == output.stdout
            &&& printed_lines(repository, operation, reply) is Ok <==> printed_text(
                repository,
                operation,
                reply,
            ) is Ok
            &&& printed_lines(repository, operation, reply) matches Ok(list) ==> list
                == text_lines(printed_text(repository, operation, reply)->Ok_0)
            &&& ancestry(repository, reply) == Ok::<_, FailureView>(true) <==> done
            &&& ancestry(repository, reply) == Ok::<_, FailureView>(false) <==> output.code == Some(
                1i32,
            )
        }),
{
    if valid_utf8(output.stdout) {
        decode_utf8_encode_utf8(output.stdout);
    }
}

/// A run of Git that failed is reported with what was to be done and, where Git said anything, with
/// what it said.
pub proof fn refusals_pass_on_what_git_said(
    repository: Seq<u8>,
    operation: Seq<char>,
    output: OutputView,
)
    requires
        output.code != Some(0i32),
    ensures
        ({
            let reply = ReplyView::Finished(output);
            let said = trimmed(shown_bytes(output.stderr));
            let failure = FailureView {
                message: "could not "@ + operation + if said.len() == 0 {
                    Seq::empty()
                } else {
                    ": "@ + said
                },
                cause: None,
            };
            &&& carried_out(repository, operation, reply) == Err::<(), _>(failure)
            &&& completed(operation, reply) == Err::<(), _>(failure)
            &&& printed_text(repository, operation, reply) == Err::<Seq<char>, _>(failure)
            &&& printed_lines(repository, operation, reply) == Err::<Seq<Seq<char>>, _>(failure)
            &&& output.code != Some(1i32) && operation == "check commit ancestry"@ ==> ancestry(
                repository,
                reply,
            ) == Err::<bool, _>(failure)
        }),
{
    let said = trimmed(shown_bytes(output.stderr));
    if said.len() == 0 {
        assert("could not "@ + operation + Seq::<char>::empty() =~= "could not "@ + operation);
    } else {
        assert("could not "@ + operation + ": "@ + said =~= "could not "@ + operation + (": "@
            + said));
    }
}

/// Where Git cannot be started, that is what is reported, with the reason, and nothing else is
/// concluded from it.
pub proof fn unstarted_runs_are_reported(
    repository: Seq<u8>,
    operation: Seq<char>,
    reason: Seq<char>,
)
    ensures
        ({
            let reply = ReplyView::Unstarted(reason);
            let failure = FailureView {
                message: "could not run Git in "@ + shown_path(repository),
                cause: Some(reason),
            };
            &&& carried_out(repository, operation, reply) == Err::<(), _>(failure)
            &&& object_found(repository, reply) == Err::<bool, _>(failure)
            &&& shown_file(repository, reply) == Err::<Option<Seq<u8>>, _>(failure)
            &&& printed_text(repository, operation, reply) == Err::<Seq<char>, _>(failure)
            &&& printed_lines(repository, operation, reply) == Err::<Seq<Seq<char>>, _>(failure)
            &&& ancestry(repository, reply) == Err::<bool, _>(failure)
            &&& completed(operation, reply) == Err::<(), _>(
                FailureView { message: "could not "@ + operation, cause: Some(reason) },
            )
        }),
{
}

/// Output that is no text is reported as such, where text was asked for.
pub proof fn output_has_to_be_text(repository: Seq<u8>, operation: Seq<char>, output: OutputView)
    requires
        output.code == Some(0i32),
        !valid_utf8(output.stdout),
    ensures
        printed_text(repository, operation, ReplyView::Finished(output)) == Err::<Seq<char>, _>(
            FailureView {
                message: "Git emitted non-UTF-8 output"@,
                cause: Some(utf8_error_text(output.stdout)),
            },
        ),
{
}

} // verus!
