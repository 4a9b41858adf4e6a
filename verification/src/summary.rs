//! What a run says at its end, and whether it succeeded.

use crate::git::{display_path, shown_path};
use crate::index::{
    found_views, occurrence_views, total_places, FoundUrl, FoundUrlView, Occurrence, OccurrenceView,
};
use crate::outcome::{outcome_views, CheckOutcome, OutcomeView};
use crate::progress::{Notice, NoticeView};
use crate::report::{painted, report_text};
use crate::style::{styled, styled_text, Styled, BOLD_RED, CYAN, DIM, GREEN, RED};
use crate::text::{decimal, to_decimal};
use vstd::prelude::*;

verus! {

// ---------------------------------------------------------------------------------------------
// What was found
// ---------------------------------------------------------------------------------------------

proof fn places_grow(found: Seq<FoundUrlView>, n: int)
    requires
        0 <= n <= found.len(),
    ensures
        total_places(found.take(n)) <= total_places(found),
    decreases found.len() - n,
{
    if n == found.len() {
        assert(found.take(n) == found);
    } else {
        places_grow(found, n + 1);
        assert(found.take(n + 1).drop_last() == found.take(n));
    }
}

/// At how many places links stand, if a `usize` can hold the number.
pub fn count_places(found: &Vec<FoundUrl>) -> (count: Option<usize>)
    ensures
        match count {
            Some(n) => n == total_places(found_views(found@)),
            None => total_places(found_views(found@)) > usize::MAX,
        },
{
    let ghost all = found_views(found@);
    let mut count: usize = 0;
    for i in 0..found.len()
        invariant
            all == found_views(found@),
            count == total_places(all.take(i as int)),
    {
        let more = found[i].occurrences.len();
        proof {
            assert(all.take(i + 1).drop_last() == all.take(i as int));
            assert(all[i as int].occurrences.len() == more);
            places_grow(all, i + 1);
        }
        match count.checked_add(more) {
            Some(sum) => {
                count = sum;
            },
            None => {
                return None;
            },
        }
    }
    assert(all.take(all.len() as int) == all);
    Some(count)
}

/// What is said of the links that were found.
pub open spec fn found_line(places: nat, unique: nat) -> Seq<char> {
    "Found "@ + decimal(places) + " GitHub URL(s), "@ + decimal(unique) + " unique.\n"@
}

/// What is said of the links that were found.
pub fn found_text(places: usize, unique: usize) -> (text: String)
    ensures
        text@ == found_line(places as nat, unique as nat),
{
    let mut text = "Found ".to_owned();
    text.append(to_decimal(places).as_str());
    text.append(" GitHub URL(s), ");
    text.append(to_decimal(unique).as_str());
    text.append(" unique.\n");
    text
}

/// What is said of a file that could not be read.
pub open spec fn file_error_line(error: Seq<char>, color: bool) -> Seq<char> {
    styled_text("error:"@, BOLD_RED@, color) + " "@ + error + "\n"@
}

/// What is said of a file that could not be read.
pub fn file_error_text(error: &str, color: bool) -> (text: String)
    ensures
        text@ == file_error_line(error@, color),
{
    let mut text = styled("error:", BOLD_RED, color).to_string();
    text.append(" ");
    text.append(error);
    text.append("\n");
    text
}

// ---------------------------------------------------------------------------------------------
// What came of each link
// ---------------------------------------------------------------------------------------------

/// Where a link stands that could not be checked, one place on each line.
pub open spec fn place_lines(places: Seq<OccurrenceView>, color: bool) -> Seq<char>
    decreases places.len(),
{
    if places.len() == 0 {
        Seq::empty()
    } else {
        place_lines(places.drop_last(), color) + ("  "@ + styled_text("at"@, DIM@, color) + " "@
            + shown_path(places.last().file) + ":"@ + decimal(places.last().line) + "\n"@)
    }
}

/// What is said of a link that could not be checked.
pub open spec fn url_error_lines(found: FoundUrlView, message: Seq<char>, color: bool) -> Seq<
    char,
> {
    styled_text("error:"@, BOLD_RED@, color) + " "@ + styled_text(found.url.text, CYAN@, color)
        + "\n"@ + place_lines(found.occurrences, color) + ("  "@ + message + "\n"@)
}

/// What is written of an outcome: nothing of a link that is current, a report on one that is
/// stale, and an error, on standard error, of one that could not be checked.
pub open spec fn outcome_notice(outcome: OutcomeView, stdout_color: bool, stderr_color: bool)
    -> NoticeView {
    match outcome {
        OutcomeView::Current { .. } => NoticeView { stdout: Seq::empty(), stderr: Seq::empty() },
        OutcomeView::Stale(report) => NoticeView {
            stdout: report_text(report, stdout_color) + "\n"@,
            stderr: Seq::empty(),
        },
        OutcomeView::Error { found, message } => NoticeView {
            stdout: Seq::empty(),
            stderr: url_error_lines(found, message, stderr_color),
        },
    }
}

/// A link that is current is not spoken of.
pub proof fn current_links_are_not_spoken_of(
    outcome: OutcomeView,
    stdout_color: bool,
    stderr_color: bool,
)
    ensures
        outcome is Current ==> outcome_notice(outcome, stdout_color, stderr_color).stdout.len()
            == 0 && outcome_notice(outcome, stdout_color, stderr_color).stderr.len() == 0,
{
}

fn write_place_lines(f: &mut String, places: &Vec<Occurrence>, color: bool)
    ensures
        final(f)@ == old(f)@ + place_lines(occurrence_views(places@), color),
{
    let ghost before = f@;
    let ghost all = occurrence_views(places@);
    assert(before + place_lines(all.take(0), color) == before);
    for i in 0..places.len()
        invariant
            all == occurrence_views(places@),
            f@ == before + place_lines(all.take(i as int), color),
    {
        let ghost so_far = place_lines(all.take(i as int), color);
        let place = &places[i];
        assert(place@ == all[i as int]);
        let mut line = "  ".to_owned();
        line.append(styled("at", DIM, color).to_string().as_str());
        line.append(" ");
        line.append(display_path(place.file.as_slice()).as_str());
        line.append(":");
        line.append(to_decimal(place.line).as_str());
        line.append("\n");
        f.append(line.as_str());
        proof {
            assert(all.take(i + 1).drop_last() == all.take(i as int));
            assert(before + so_far + line@ == before + (so_far + line@));
        }
    }
    assert(all.take(all.len() as int) == all);
}

/// What is said of a link that could not be checked.
pub fn url_error_text(found: &FoundUrl, message: &str, color: bool) -> (text: String)
    ensures
        text@ == url_error_lines(found@, message@, color),
{
    let mut text = styled("error:", BOLD_RED, color).to_string();
    text.append(" ");
    text.append(styled(&found.url.text, CYAN, color).to_string().as_str());
    text.append("\n");
    write_place_lines(&mut text, &found.occurrences, color);
    let mut last = "  ".to_owned();
    last.append(message);
    last.append("\n");
    text.append(last.as_str());
    text
}

/// What is written of an outcome.
pub fn notice_of_outcome(outcome: &CheckOutcome, stdout_color: bool, stderr_color: bool) -> (notice:
    Notice)
    ensures
        notice@ == outcome_notice(outcome@, stdout_color, stderr_color),
{
    let mut stdout = String::new();
    let mut stderr = String::new();
    match outcome {
        CheckOutcome::Current { .. } => {},
        CheckOutcome::Stale(report) => {
            stdout = if stdout_color {
                report.colored().to_string()
            } else {
                report.to_string()
            };
            stdout.append("\n");
        },
        CheckOutcome::Error { found, message } => {
            stderr = url_error_text(found, message.as_str(), stderr_color);
        },
    }
    let notice = Notice { stdout, stderr };
    proof {
        let wanted = outcome_notice(outcome@, stdout_color, stderr_color);
        assert(notice@.stdout == wanted.stdout);
        assert(notice@.stderr == wanted.stderr);
    }
    notice
}

// ---------------------------------------------------------------------------------------------
// The sum
// ---------------------------------------------------------------------------------------------

/// How many links came to what.
#[derive(Clone, Copy, Debug, PartialEq, Eq)]
pub struct Tally {
    pub current: usize,
    pub stale: usize,
    pub url_errors: usize,
}

/// How many of the outcomes are those of current links.
pub open spec fn current_count(outcomes: Seq<OutcomeView>) -> nat
    decreases outcomes.len(),
{
    if outcomes.len() == 0 {
        0
    } else {
        current_count(outcomes.drop_last()) + if outcomes.last() is Current {
            1nat
        } else {
            0nat
        }
    }
}

/// How many of the outcomes are those of stale links.
pub open spec fn stale_count(outcomes: Seq<OutcomeView>) -> nat
    decreases outcomes.len(),
{
    if outcomes.len() == 0 {
        0
    } else {
        stale_count(outcomes.drop_last()) + if outcomes.last() is Stale {
            1nat
        } else {
            0nat
        }
    }
}

/// How many of the outcomes are those of links that could not be checked.
pub open spec fn error_count(outcomes: Seq<OutcomeView>) -> nat
    decreases outcomes.len(),
{
    if outcomes.len() == 0 {
        0
    } else {
        error_count(outcomes.drop_last()) + if outcomes.last() is Error {
            1nat
        } else {
            0nat
        }
    }
}

/// Every outcome counts once.
pub proof fn counts_add_up(outcomes: Seq<OutcomeView>)
    ensures
        current_count(outcomes) + stale_count(outcomes) + error_count(outcomes) == outcomes.len(),
    decreases outcomes.len(),
{
    if outcomes.len() > 0 {
        counts_add_up(outcomes.drop_last());
    }
}

/// How many links came to what.
pub fn tally(outcomes: &Vec<CheckOutcome>) -> (tally: Tally)
    ensures
        tally.current == current_count(outcome_views(outcomes@)),
        tally.stale == stale_count(outcome_views(outcomes@)),
        tally.url_errors == error_count(outcome_views(outcomes@)),
        tally.current + tally.stale + tally.url_errors == outcomes@.len(),
{
    let ghost all = outcome_views(outcomes@);
    let mut current: usize = 0;
    let mut stale: usize = 0;
    let mut url_errors: usize = 0;
    for i in 0..outcomes.len()
        invariant
            all == outcome_views(outcomes@),
            current == current_count(all.take(i as int)),
            stale == stale_count(all.take(i as int)),
            url_errors == error_count(all.take(i as int)),
            current + stale + url_errors == i,
    {
        assert(all.take(i + 1).drop_last() == all.take(i as int));
        assert(all[i as int] == outcomes@[i as int]@);
        match &outcomes[i] {
            CheckOutcome::Current { .. } => {
                current = current + 1;
            },
            CheckOutcome::Stale(_) => {
                stale = stale + 1;
            },
            CheckOutcome::Error { .. } => {
                url_errors = url_errors + 1;
            },
        }
    }
    assert(all.take(all.len() as int) == all);
    Tally { current, stale, url_errors }
}

/// A number with what it counts, dimmed where there is nothing to count.
pub open spec fn count_text(value: nat, label: Seq<char>, nonzero_style: Seq<char>, color: bool)
    -> Seq<char> {
    styled_text(
        decimal(value) + " "@ + label,
        if value == 0 {
            DIM@
        } else {
            nonzero_style
        },
        color,
    )
}

/// A number with what it counts, dimmed where there is nothing to count.
pub fn styled_count_with_label<'a>(
    value: usize,
    label: &str,
    nonzero_style: &'a str,
    color: bool,
) -> (result: Styled<'a, String>)
    ensures
        result.text() == count_text(value as nat, label@, nonzero_style@, color),
{
    let text = to_decimal(value).concat(" ").concat(label);
    styled(
        text,
        if value == 0 {
            DIM
        } else {
            nonzero_style
        },
        color,
    )
}

/// What is said at the end of a run.
pub open spec fn summary_line(unique: nat, tally: Tally, file_errors: nat, color: bool) -> Seq<
    char,
> {
    "Checked "@ + decimal(unique) + " unique URL(s): "@ + count_text(
        tally.current as nat,
        "current"@,
        GREEN@,
        color,
    ) + ", "@ + count_text(tally.stale as nat, "stale"@, RED@, color) + ", "@ + count_text(
        tally.url_errors as nat,
        "URL error(s)"@,
        RED@,
        color,
    ) + "; "@ + count_text(file_errors, "file error(s)"@, RED@, color) + ".\n"@
}

/// What is said at the end of a run.
pub fn summary_text(unique: usize, tally: Tally, file_errors: usize, color: bool) -> (text: String)
    ensures
        text@ == summary_line(unique as nat, tally, file_errors as nat, color),
{
    let mut text = "Checked ".to_owned();
    text.append(to_decimal(unique).as_str());
    text.append(" unique URL(s): ");
    text.append(
        styled_count_with_label(tally.current, "current", GREEN, color).to_string().as_str(),
    );
    text.append(", ");
    text.append(styled_count_with_label(tally.stale, "stale", RED, color).to_string().as_str());
    text.append(", ");
    text.append(
        styled_count_with_label(tally.url_errors, "URL error(s)", RED, color).to_string().as_str(),
    );
    text.append("; ");
    text.append(
        styled_count_with_label(file_errors, "file error(s)", RED, color).to_string().as_str(),
    );
    text.append(".\n");
    text
}

/// Whether a run with such counts succeeds.
pub open spec fn succeeds(tally: Tally, file_errors: nat) -> bool {
    tally.stale == 0 && tally.url_errors == 0 && file_errors == 0
}

/// Whether a run succeeded: no link was stale, none was left unchecked, and every file was read.
pub fn run_succeeded(tally: Tally, file_errors: usize) -> (succeeded: bool)
    ensures
        succeeded == (tally.stale == 0 && tally.url_errors == 0 && file_errors == 0),
        succeeded == succeeds(tally, file_errors as nat),
{
    tally.stale == 0 && tally.url_errors == 0 && file_errors == 0
}

proof fn nothing_counted(outcomes: Seq<OutcomeView>)
    ensures
        stale_count(outcomes) == 0 && error_count(outcomes) == 0 <==> forall|i: int|
            0 <= i < outcomes.len() ==> (#[trigger] outcomes[i]) is Current,
    decreases outcomes.len(),
{
    if outcomes.len() > 0 {
        let front = outcomes.drop_last();
        nothing_counted(front);
        if stale_count(outcomes) == 0 && error_count(outcomes) == 0 {
            assert forall|i: int| 0 <= i < outcomes.len() implies (#[trigger] outcomes[i]) is Current by {
                if i < front.len() {
                    assert(front[i] == outcomes[i]);
                }
            }
        } else if forall|i: int| 0 <= i < outcomes.len() ==> (#[trigger] outcomes[i]) is Current {
            assert forall|i: int| 0 <= i < front.len() implies (#[trigger] front[i]) is Current by {
                assert(front[i] == outcomes[i]);
            }
            assert(outcomes[outcomes.len() - 1] is Current);
        }
    }
}

/// A run succeeds exactly when every link is current and every file was read.
pub proof fn runs_succeed_when_all_is_current(outcomes: Seq<OutcomeView>, file_errors: nat)
    ensures
        (stale_count(outcomes) == 0 && error_count(outcomes) == 0 && file_errors == 0) <==> (
        file_errors == 0 && forall|i: int|
            0 <= i < outcomes.len() ==> (#[trigger] outcomes[i]) is Current),
{
    nothing_counted(outcomes);
}

/// A run whose outcomes were counted succeeds exactly when each of them is current and every file
/// was read. One stale link, one that could not be checked, or one file that could not be read is
/// enough for it to fail.
pub proof fn one_failure_fails_the_run(
    outcomes: Seq<OutcomeView>,
    errors: Seq<Seq<char>>,
    tally: Tally,
)
    requires
        tally.current == current_count(outcomes),
        tally.stale == stale_count(outcomes),
        tally.url_errors == error_count(outcomes),
    ensures
        succeeds(tally, errors.len()) <==> errors.len() == 0 && forall|i: int|
            0 <= i < outcomes.len() ==> (#[trigger] outcomes[i]) is Current,
{
    nothing_counted(outcomes);
}

// ---------------------------------------------------------------------------------------------
// What is written of a run
// ---------------------------------------------------------------------------------------------

/// A tally counts each outcome once, by what it is.
pub proof fn tallies_count_every_outcome(outcomes: Seq<OutcomeView>)
    ensures
        current_count(outcomes) == outcomes.filter(|o: OutcomeView| o is Current).len(),
        stale_count(outcomes) == outcomes.filter(|o: OutcomeView| o is Stale).len(),
        error_count(outcomes) == outcomes.filter(|o: OutcomeView| o is Error).len(),
    decreases outcomes.len(),
{
    reveal(Seq::filter);
    if outcomes.len() > 0 {
        let front = outcomes.drop_last();
        tallies_count_every_outcome(front);
        front.lemma_filter_push(outcomes.last(), |o: OutcomeView| o is Current);
        front.lemma_filter_push(outcomes.last(), |o: OutcomeView| o is Stale);
        front.lemma_filter_push(outcomes.last(), |o: OutcomeView| o is Error);
        assert(front.push(outcomes.last()) =~= outcomes);
    } else {
        assert(outcomes.filter(|o: OutcomeView| o is Current).len() == 0);
        assert(outcomes.filter(|o: OutcomeView| o is Stale).len() == 0);
        assert(outcomes.filter(|o: OutcomeView| o is Error).len() == 0);
    }
}

proof fn places_are_listed(places: Seq<OccurrenceView>, color: bool)
    ensures
        place_lines(places, color) == Seq::new(
            places.len(),
            |i: int|
                "  "@ + painted("\x1b[2m"@, "at"@, color) + " "@ + shown_path(places[i].file)
                    + ":"@ + decimal(places[i].line) + "\n"@,
        ).flatten(),
    decreases places.len(),
{
    let line = |place: OccurrenceView|
        "  "@ + painted("\x1b[2m"@, "at"@, color) + " "@ + shown_path(place.file) + ":"@ + decimal(
            place.line,
        ) + "\n"@;
    let lines = Seq::new(
        places.len(),
        |i: int|
            "  "@ + painted("\x1b[2m"@, "at"@, color) + " "@ + shown_path(places[i].file) + ":"@
                + decimal(places[i].line) + "\n"@,
    );
    if places.len() == 0 {
        assert(lines.flatten() =~= Seq::<char>::empty());
    } else {
        let front = places.drop_last();
        let fewer = Seq::new(
            front.len(),
            |i: int|
                "  "@ + painted("\x1b[2m"@, "at"@, color) + " "@ + shown_path(front[i].file)
                    + ":"@ + decimal(front[i].line) + "\n"@,
        );
        places_are_listed(front, color);
        assert(lines =~= fewer.push(line(places.last())));
        fewer.lemma_flatten_push(line(places.last()));
    }
}

/// Of each outcome is written what there is to say, and where it belongs: of a current link
/// nothing; of a stale one its report, with an empty line behind it, to the standard output; of one
/// that could not be checked, to the standard error, the link, every place where it stands on a
/// line of its own and in their order, and what went wrong.
pub proof fn notices_say_it_all(outcome: OutcomeView, stdout_color: bool, stderr_color: bool)
    ensures
        match outcome {
            OutcomeView::Current { .. } => outcome_notice(outcome, stdout_color, stderr_color)
                == (NoticeView { stdout: ""@, stderr: ""@ }),
            OutcomeView::Stale(report) => outcome_notice(outcome, stdout_color, stderr_color) == (
            NoticeView { stdout: report_text(report, stdout_color) + "\n"@, stderr: ""@ }),
            OutcomeView::Error { found, message } => outcome_notice(
                outcome,
                stdout_color,
                stderr_color,
            ) == (NoticeView {
                stdout: ""@,
                stderr: painted("\x1b[1;31m"@, "error:"@, stderr_color) + " "@ + painted(
                    "\x1b[36m"@,
                    found.url.text,
                    stderr_color,
                ) + "\n"@ + Seq::new(
                    found.occurrences.len(),
                    |i: int|
                        "  "@ + painted("\x1b[2m"@, "at"@, stderr_color) + " "@ + shown_path(
                            found.occurrences[i].file,
                        ) + ":"@ + decimal(found.occurrences[i].line) + "\n"@,
                ).flatten() + ("  "@ + message + "\n"@),
            }),
        },
{
    reveal_strlit("");
    assert(""@ =~= Seq::<char>::empty());
    if let OutcomeView::Error { found, message } = outcome {
        places_are_listed(found.occurrences, stderr_color);
    }
}

/// The first line of a run tells how often links stand in the files, and how many links they are.
pub proof fn the_first_line_counts_the_links(places: nat, unique: nat)
    ensures
        found_line(places, unique) == "Found "@ + decimal(places) + " GitHub URL(s), "@ + decimal(
            unique,
        ) + " unique.\n"@,
{
}

/// A file that could not be read is told on a line of its own.
pub proof fn file_errors_have_their_line(error: Seq<char>, color: bool)
    ensures
        file_error_line(error, color) == painted("\x1b[1;31m"@, "error:"@, color) + " "@ + error
            + "\n"@,
{
}

/// The last line of a run tells how many links were checked, and how many of them are current,
/// stale and in error, and how many files could not be read. In color, a count of none is dim; of
/// others, that of the current links is green and the rest are red.
pub proof fn the_last_line_counts_the_outcomes(
    unique: nat,
    tally: Tally,
    file_errors: nat,
    color: bool,
)
    ensures
        summary_line(unique, tally, file_errors, color) == "Checked "@ + decimal(unique)
            + " unique URL(s): "@ + painted(
            if tally.current == 0 {
                "\x1b[2m"@
            } else {
                "\x1b[32m"@
            },
            decimal(tally.current as nat) + " current"@,
            color,
        ) + ", "@ + painted(
            if tally.stale == 0 {
                "\x1b[2m"@
            } else {
                "\x1b[31m"@
            },
            decimal(tally.stale as nat) + " stale"@,
            color,
        ) + ", "@ + painted(
            if tally.url_errors == 0 {
                "\x1b[2m"@
            } else {
                "\x1b[31m"@
            },
            decimal(tally.url_errors as nat) + " URL error(s)"@,
            color,
        ) + "; "@ + painted(
            if file_errors == 0 {
                "\x1b[2m"@
            } else {
                "\x1b[31m"@
            },
            decimal(file_errors) + " file error(s)"@,
            color,
        ) + ".\n"@,
{
    reveal_strlit(" ");
    reveal_strlit("current");
    reveal_strlit(" current");
    reveal_strlit("stale");
    reveal_strlit(" stale");
    reveal_strlit("URL error(s)");
    reveal_strlit(" URL error(s)");
    reveal_strlit("file error(s)");
    reveal_strlit(" file error(s)");
    labels_are_joined(tally.current as nat, "current"@, " current"@);
    labels_are_joined(tally.stale as nat, "stale"@, " stale"@);
    labels_are_joined(tally.url_errors as nat, "URL error(s)"@, " URL error(s)"@);
    labels_are_joined(file_errors, "file error(s)"@, " file error(s)"@);
}

proof fn labels_are_joined(value: nat, label: Seq<char>, spaced: Seq<char>)
    requires
        " "@ + label =~= spaced,
    ensures
        decimal(value) + " "@ + label == decimal(value) + spaced,
{
    assert(decimal(value) + " "@ + label =~= decimal(value) + (" "@ + label));
}

} // verus!
