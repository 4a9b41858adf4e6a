//! What a check comes to, link by link.

use crate::failure::{Failure, FailureView};
use crate::index::{FoundUrl, FoundUrlView};
use crate::report::{StaleReport, StaleReportView};
use crate::url::{SourceUrl, SourceUrlView};
use crate::verdict::report_view;
use vstd::prelude::*;

verus! {

/// What a check says of a link: its lines still stand, they do not, or it could not be told.
#[derive(Debug)]
pub enum CheckOutcome {
    Current { url: SourceUrl },
    Stale(StaleReport),
    Error { found: FoundUrl, message: String },
}

/// A [`CheckOutcome`] as its parts.
pub enum OutcomeView {
    Current { url: SourceUrlView },
    Stale(StaleReportView),
    Error { found: FoundUrlView, message: Seq<char> },
}

impl View for CheckOutcome {
    type V = OutcomeView;

    open spec fn view(&self) -> OutcomeView {
        match *self {
            CheckOutcome::Current { url } => OutcomeView::Current { url: url@ },
            CheckOutcome::Stale(report) => OutcomeView::Stale(report@),
            CheckOutcome::Error { found, message } => OutcomeView::Error {
                found: found@,
                message: message@,
            },
        }
    }
}

impl OutcomeView {
    /// The link that an outcome is about.
    pub open spec fn url(self) -> SourceUrlView {
        match self {
            OutcomeView::Current { url } => url,
            OutcomeView::Stale(report) => report.found.url,
            OutcomeView::Error { found, .. } => found.url,
        }
    }
}

/// The outcomes of a list.
pub open spec fn outcome_views(list: Seq<CheckOutcome>) -> Seq<OutcomeView> {
    list.map_values(|o: CheckOutcome| o@)
}

/// The outcome of a link that could not be checked.
pub open spec fn failed(found: FoundUrlView, failure: FailureView) -> OutcomeView {
    OutcomeView::Error { found, message: failure.text() }
}

/// The outcome of a link that was investigated.
pub open spec fn verdict_outcome(
    found: FoundUrlView,
    verdict: Result<Option<StaleReportView>, FailureView>,
) -> OutcomeView {
    match verdict {
        Ok(Some(report)) => OutcomeView::Stale(report),
        Ok(None) => OutcomeView::Current { url: found.url },
        Err(failure) => failed(found, failure),
    }
}

/// The outcome of a link that could not be checked.
pub fn failed_outcome(found: FoundUrl, failure: &Failure) -> (outcome: CheckOutcome)
    ensures
        outcome@ == failed(found@, failure@),
{
    CheckOutcome::Error { found, message: failure.to_string() }
}

/// The outcome of a link that was investigated.
pub fn outcome_of_verdict(
    found: FoundUrl,
    verdict: Result<Option<StaleReport>, Failure>,
) -> (outcome: CheckOutcome)
    ensures
        outcome@ == verdict_outcome(found@, report_view(verdict)),
{
    match verdict {
        Ok(Some(report)) => CheckOutcome::Stale(report),
        Ok(None) => CheckOutcome::Current { url: found.url },
        Err(failure) => failed_outcome(found, &failure),
    }
}

/// A verdict is told as it is. A link whose investigation found nothing lost is current, whatever
/// its local check said; one with a report is stale, with that report; and only one whose
/// investigation failed is an error, which tells the failure.
pub proof fn verdicts_are_told_as_they_are(
    found: FoundUrlView,
    verdict: Result<Option<StaleReportView>, FailureView>,
)
    ensures
        verdict == Ok::<Option<StaleReportView>, FailureView>(None) <==> verdict_outcome(
            found,
            verdict,
        ) == (OutcomeView::Current { url: found.url }),
        verdict is Ok && verdict->Ok_0 is Some <==> verdict_outcome(found, verdict) is Stale,
        verdict matches Ok(Some(report)) ==> verdict_outcome(found, verdict) == OutcomeView::Stale(
            report,
        ),
        verdict is Err <==> verdict_outcome(found, verdict) is Error,
        verdict matches Err(failure) ==> verdict_outcome(found, verdict) == (OutcomeView::Error {
            found,
            message: match failure.cause {
                Some(cause) => failure.message + ": "@ + cause,
                None => failure.message,
            },
        }),
{
}

} // verus!
