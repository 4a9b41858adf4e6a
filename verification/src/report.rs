//! The report on a stale URL.

use crate::git::{display_path, shown_path};
use crate::index::{occurrence_views, FoundUrl, FoundUrlView, Occurrence, OccurrenceView};
use crate::style::{styled, styled_text, BOLD_MAGENTA, BOLD_RED, BOLD_YELLOW, CYAN, DIM, RESET};
use crate::text::{decimal, decimal_round_trip, is_digit, same_text, to_decimal};
use crate::url::{SourceUrl, SourceUrlView};
use vstd::prelude::*;

verus! {

/// A commit, as a report names it.
#[derive(Debug)]
pub struct CommitInfo {
    pub hash: String,
    pub date: String,
    pub title: String,
}

/// A [`CommitInfo`] as its characters.
pub struct CommitInfoView {
    pub hash: Seq<char>,
    pub date: Seq<char>,
    pub title: Seq<char>,
}

impl View for CommitInfo {
    type V = CommitInfoView;

    open spec fn view(&self) -> CommitInfoView {
        CommitInfoView { hash: self.hash@, date: self.date@, title: self.title@ }
    }
}

/// A stale URL: the commit that changed its lines, and the commit that brought the change into
/// the default branch.
#[derive(Debug)]
pub struct StaleReport {
    pub found: FoundUrl,
    pub change_commit: CommitInfo,
    pub merge_commit: CommitInfo,
}

/// A [`StaleReport`] as its parts.
pub struct StaleReportView {
    pub found: FoundUrlView,
    pub change_commit: CommitInfoView,
    pub merge_commit: CommitInfoView,
}

impl View for StaleReport {
    type V = StaleReportView;

    open spec fn view(&self) -> StaleReportView {
        StaleReportView {
            found: self.found@,
            change_commit: self.change_commit@,
            merge_commit: self.merge_commit@,
        }
    }
}

/// A report that is shown in color.
pub struct ColoredStaleReport<'a>(&'a StaleReport);

impl<'a> ColoredStaleReport<'a> {
    /// The report that is shown.
    pub closed spec fn report(&self) -> StaleReportView {
        self.0@
    }
}

// ---------------------------------------------------------------------------------------------
// What a report says
// ---------------------------------------------------------------------------------------------

/// A stretch of a report: a text, and the style that it has in color, if it has one.
pub struct Segment {
    pub style: Option<Seq<char>>,
    pub text: Seq<char>,
}

/// A stretch with a style.
pub open spec fn in_style(style: Seq<char>, text: Seq<char>) -> Segment {
    Segment { style: Some(style), text }
}

/// A stretch without a style.
pub open spec fn in_plain(text: Seq<char>) -> Segment {
    Segment { style: None, text }
}

impl Segment {
    /// The stretch as it is written.
    pub open spec fn written(self, color: bool) -> Seq<char> {
        match self.style {
            Some(style) => styled_text(self.text, style, color),
            None => self.text,
        }
    }
}

/// Stretches one after another as they are written.
pub open spec fn rendered(segments: Seq<Segment>, color: bool) -> Seq<char>
    decreases segments.len(),
{
    if segments.len() == 0 {
        Seq::empty()
    } else {
        rendered(segments.drop_last(), color) + segments.last().written(color)
    }
}

/// Where a link stands, one place on each line.
pub open spec fn place_segments(places: Seq<OccurrenceView>) -> Seq<Segment> {
    places.map_values(
        |place: OccurrenceView|
            in_plain("  "@ + shown_path(place.file) + ":"@ + decimal(place.line) + "\n"@),
    )
}

/// The page of a commit.
pub open spec fn commit_url(url: SourceUrlView, hash: Seq<char>) -> Seq<char> {
    "https://github.com/"@ + url.owner + "/"@ + url.repo + "/commit/"@ + hash
}

/// What is said of a commit.
pub open spec fn commit_segments(
    label: Seq<char>,
    label_style: Seq<char>,
    commit: CommitInfoView,
    url: SourceUrlView,
) -> Seq<Segment> {
    seq![
        in_style(label_style, label + ":"@),
        in_plain("\n"@),
        in_style(DIM@, "  "@ + "Commit: "@),
        in_plain(commit.hash + "\n"@),
        in_style(DIM@, "  "@ + "Date:   "@),
        in_plain(commit.date + "\n"@),
        in_style(DIM@, "  "@ + "Title:  "@),
        in_plain(commit.title + "\n"@),
        in_style(DIM@, "  "@ + "URL:    "@),
        in_style(CYAN@, commit_url(url, commit.hash)),
        in_plain("\n"@),
    ]
}

/// What a report says first: the URL.
pub open spec fn heading_segments(url: SourceUrlView) -> Seq<Segment> {
    seq![
        in_style(BOLD_RED@, "Stale URL:"@),
        in_plain(" "@),
        in_style(CYAN@, url.text),
        in_plain("\n"@),
        in_style(DIM@, "Found at:"@),
        in_plain("\n"@),
    ]
}

/// What a report says of the merge commit: nothing where it is the change commit.
pub open spec fn merge_segments(report: StaleReportView) -> Seq<Segment> {
    if report.change_commit.hash != report.merge_commit.hash {
        commit_segments(
            "Merge commit"@,
            BOLD_MAGENTA@,
            report.merge_commit,
            report.found.url,
        )
    } else {
        Seq::empty()
    }
}

/// What a report says: the URL, every place where it stands, the change commit, and the merge
/// commit where it is another.
pub open spec fn report_segments(report: StaleReportView) -> Seq<Segment> {
    heading_segments(report.found.url) + place_segments(report.found.occurrences)
        + commit_segments(
        "Change commit"@,
        BOLD_YELLOW@,
        report.change_commit,
        report.found.url,
    ) + merge_segments(report)
}

/// A report as it is written.
pub open spec fn report_text(report: StaleReportView, color: bool) -> Seq<char> {
    rendered(report_segments(report), color)
}

// ---------------------------------------------------------------------------------------------
// Laws
// ---------------------------------------------------------------------------------------------

/// Stretches are written one after another.
pub proof fn rendering_adds(a: Seq<Segment>, b: Seq<Segment>, color: bool)
    ensures
        rendered(a + b, color) == rendered(a, color) + rendered(b, color),
    decreases b.len(),
{
    if b.len() == 0 {
        assert(a + b == a);
        assert(rendered(a, color) + rendered(b, color) == rendered(a, color));
    } else {
        assert((a + b).drop_last() == a + b.drop_last());
        rendering_adds(a, b.drop_last(), color);
        assert(rendered(a + b, color) == rendered(a, color) + rendered(b, color));
    }
}

/// Whether a text holds no escape character, with which every style starts.
pub open spec fn is_unstyled(text: Seq<char>) -> bool {
    !text.contains('\x1b')
}

proof fn unstyled_adds(a: Seq<char>, b: Seq<char>)
    requires
        is_unstyled(a),
        is_unstyled(b),
    ensures
        is_unstyled(a + b),
{
    if (a + b).contains('\x1b') {
        let i = (a + b).index_of('\x1b');
        if i < a.len() {
            assert(a[i] == '\x1b');
        } else {
            assert(b[i - a.len()] == '\x1b');
        }
    }
}

/// Without color, stretches that hold no style of their own are written without any.
pub proof fn plain_rendering_is_unstyled(segments: Seq<Segment>)
    requires
        forall|i: int| 0 <= i < segments.len() ==> is_unstyled((#[trigger] segments[i]).text),
    ensures
        is_unstyled(rendered(segments, false)),
    decreases segments.len(),
{
    if segments.len() > 0 {
        let front = segments.drop_last();
        assert forall|i: int| 0 <= i < front.len() implies is_unstyled(
            (#[trigger] front[i]).text,
        ) by {
            assert(front[i] == segments[i]);
        }
        plain_rendering_is_unstyled(front);
        assert(is_unstyled(segments[segments.len() - 1].text));
        unstyled_adds(rendered(front, false), segments.last().text);
    }
}

/// Whether the parts that a report is made of hold no style of their own.
pub open spec fn parts_are_unstyled(report: StaleReportView) -> bool {
    &&& is_unstyled(report.found.url.text)
    &&& is_unstyled(report.found.url.owner)
    &&& is_unstyled(report.found.url.repo)
    &&& forall|i: int|
        0 <= i < report.found.occurrences.len() ==> is_unstyled(
            shown_path((#[trigger] report.found.occurrences[i]).file),
        )
    &&& commit_is_unstyled(report.change_commit)
    &&& commit_is_unstyled(report.merge_commit)
}

/// Whether the parts of a commit hold no style of their own.
pub open spec fn commit_is_unstyled(commit: CommitInfoView) -> bool {
    is_unstyled(commit.hash) && is_unstyled(commit.date) && is_unstyled(commit.title)
}

proof fn decimals_are_unstyled(n: nat)
    ensures
        is_unstyled(decimal(n)),
{
    decimal_round_trip(n);
    if decimal(n).contains('\x1b') {
        let i = decimal(n).index_of('\x1b');
        assert(is_digit(decimal(n)[i]));
    }
}

proof fn commit_segments_are_unstyled(
    label: Seq<char>,
    label_style: Seq<char>,
    commit: CommitInfoView,
    url: SourceUrlView,
)
    requires
        is_unstyled(label),
        is_unstyled(url.owner),
        is_unstyled(url.repo),
        commit_is_unstyled(commit),
    ensures
        forall|i: int|
            0 <= i < 11 ==> is_unstyled(
                (#[trigger] commit_segments(label, label_style, commit, url)[i]).text,
            ),
{
    reveal_strlit(":");
    reveal_strlit("\n");
    reveal_strlit("  ");
    reveal_strlit("Commit: ");
    reveal_strlit("Date:   ");
    reveal_strlit("Title:  ");
    reveal_strlit("URL:    ");
    reveal_strlit("https://github.com/");
    reveal_strlit("/");
    reveal_strlit("/commit/");
    unstyled_adds(label, ":"@);
    unstyled_adds(commit.hash, "\n"@);
    unstyled_adds(commit.date, "\n"@);
    unstyled_adds(commit.title, "\n"@);
    unstyled_adds("  "@, "Commit: "@);
    unstyled_adds("  "@, "Date:   "@);
    unstyled_adds("  "@, "Title:  "@);
    unstyled_adds("  "@, "URL:    "@);
    unstyled_adds("https://github.com/"@, url.owner);
    unstyled_adds("https://github.com/"@ + url.owner, "/"@);
    unstyled_adds("https://github.com/"@ + url.owner + "/"@, url.repo);
    unstyled_adds("https://github.com/"@ + url.owner + "/"@ + url.repo, "/commit/"@);
    unstyled_adds(
        "https://github.com/"@ + url.owner + "/"@ + url.repo + "/commit/"@,
        commit.hash,
    );
}

/// A report without color is plain text: it holds no style unless a part that it names does.
pub proof fn plain_reports_are_plain_text(report: StaleReportView)
    requires
        parts_are_unstyled(report),
    ensures
        is_unstyled(report_text(report, false)),
{
    let url = report.found.url;
    let heading = heading_segments(url);
    let places = place_segments(report.found.occurrences);
    let change = commit_segments("Change commit"@, BOLD_YELLOW@, report.change_commit, url);
    let merge = merge_segments(report);
    reveal_strlit("Change commit");
    reveal_strlit("Merge commit");
    reveal_strlit("Stale URL:");
    reveal_strlit(" ");
    reveal_strlit("  ");
    reveal_strlit(":");
    reveal_strlit("\n");
    reveal_strlit("Found at:");
    commit_segments_are_unstyled("Change commit"@, BOLD_YELLOW@, report.change_commit, url);
    commit_segments_are_unstyled("Merge commit"@, BOLD_MAGENTA@, report.merge_commit, url);
    assert forall|i: int| 0 <= i < places.len() implies is_unstyled(
        (#[trigger] places[i]).text,
    ) by {
        let place = report.found.occurrences[i];
        decimals_are_unstyled(place.line);
        unstyled_adds("  "@, shown_path(place.file));
        unstyled_adds("  "@ + shown_path(place.file), ":"@);
        unstyled_adds("  "@ + shown_path(place.file) + ":"@, decimal(place.line));
        unstyled_adds("  "@ + shown_path(place.file) + ":"@ + decimal(place.line), "\n"@);
    }
    let all = report_segments(report);
    assert forall|i: int| 0 <= i < all.len() implies is_unstyled((#[trigger] all[i]).text) by {
        if i < heading.len() {
            assert(all[i] == heading[i]);
        } else if i < heading.len() + places.len() {
            assert(all[i] == places[i - heading.len()]);
        } else if i < heading.len() + places.len() + change.len() {
            assert(all[i] == change[i - heading.len() - places.len()]);
        } else {
            assert(all[i] == merge[i - heading.len() - places.len() - change.len()]);
        }
    }
    plain_rendering_is_unstyled(all);
}

/// A report names the merge commit exactly where it is not the change commit.
pub proof fn merge_commit_is_named_when_distinct(report: StaleReportView)
    ensures
        report_segments(report).contains(in_style(BOLD_MAGENTA@, "Merge commit"@ + ":"@)) <==> report
            .change_commit.hash != report.merge_commit.hash,
{
    let label = in_style(BOLD_MAGENTA@, "Merge commit"@ + ":"@);
    let url = report.found.url;
    let heading = heading_segments(url);
    let places = place_segments(report.found.occurrences);
    let change = commit_segments("Change commit"@, BOLD_YELLOW@, report.change_commit, url);
    let merge = merge_segments(report);
    let all = report_segments(report);
    reveal_strlit("\x1b[1;35m");
    reveal_strlit("\x1b[1;31m");
    reveal_strlit("\x1b[1;33m");
    reveal_strlit("\x1b[2m");
    reveal_strlit("\x1b[36m");
    assert(BOLD_MAGENTA@[5] == '5' && BOLD_RED@[5] == '1' && BOLD_YELLOW@[5] == '3');
    assert(DIM@.len() == 4 && CYAN@.len() == 5 && BOLD_MAGENTA@.len() == 7);
    if report.change_commit.hash != report.merge_commit.hash {
        let at = heading.len() + places.len() + change.len();
        assert(all[at as int] == merge[0]);
        assert(all[at as int] == label);
    } else if all.contains(label) {
        let i = all.index_of(label);
        if i < heading.len() {
            assert(all[i] == heading[i]);
        } else if i < heading.len() + places.len() {
            assert(all[i] == places[i - heading.len()]);
        } else {
            assert(all[i] == change[i - heading.len() - places.len()]);
        }
        assert(false);
    }
}

// ---------------------------------------------------------------------------------------------
// Color
// ---------------------------------------------------------------------------------------------

/// What stands behind the first `m` of a text, which is where a style ends.
pub open spec fn behind_style(text: Seq<char>) -> Seq<char>
    decreases text.len(),
{
    if text.len() == 0 {
        Seq::empty()
    } else if text[0] == 'm' {
        text.skip(1)
    } else {
        behind_style(text.skip(1))
    }
}

/// What stands behind a style is shorter than the text that starts with it.
pub proof fn behind_style_is_shorter(text: Seq<char>)
    ensures
        behind_style(text).len() <= text.len(),
        text.len() > 0 ==> behind_style(text).len() < text.len(),
    decreases text.len(),
{
    if text.len() > 0 && text[0] != 'm' {
        behind_style_is_shorter(text.skip(1));
    }
}

/// A text with its styles removed: each escape character, and all behind it up to an `m`.
pub open spec fn styles_removed(text: Seq<char>) -> Seq<char>
    decreases text.len(),
{
    if text.len() == 0 {
        Seq::empty()
    } else if text[0] == '\x1b' {
        proof {
            behind_style_is_shorter(text);
        }
        styles_removed(behind_style(text))
    } else {
        seq![text[0]] + styles_removed(text.skip(1))
    }
}

/// Whether a text is one style and nothing else.
pub open spec fn is_style(style: Seq<char>) -> bool {
    &&& style.len() > 1
    &&& style[0] == '\x1b'
    &&& style.last() == 'm'
    &&& forall|i: int| 0 <= i < style.len() - 1 ==> #[trigger] style[i] != 'm'
}

proof fn style_ends(style: Seq<char>, rest: Seq<char>)
    requires
        style.len() > 0,
        style.last() == 'm',
        forall|i: int| 0 <= i < style.len() - 1 ==> #[trigger] style[i] != 'm',
    ensures
        behind_style(style + rest) == rest,
    decreases style.len(),
{
    let whole = style + rest;
    if style.len() == 1 {
        assert(whole.skip(1) == rest);
    } else {
        assert(style[0] != 'm');
        let later = style.skip(1);
        assert forall|i: int| 0 <= i < later.len() - 1 implies #[trigger] later[i] != 'm' by {
            assert(later[i] == style[i + 1]);
        }
        assert(whole.skip(1) == later + rest);
        style_ends(later, rest);
    }
}

proof fn style_is_removed(style: Seq<char>, rest: Seq<char>)
    requires
        is_style(style),
    ensures
        styles_removed(style + rest) == styles_removed(rest),
{
    style_ends(style, rest);
    assert((style + rest)[0] == '\x1b');
}

proof fn unstyled_text_stays(text: Seq<char>, rest: Seq<char>)
    requires
        is_unstyled(text),
    ensures
        styles_removed(text + rest) == text + styles_removed(rest),
    decreases text.len(),
{
    let whole = text + rest;
    if text.len() == 0 {
        assert(whole == rest);
        assert(text + styles_removed(rest) == styles_removed(rest));
    } else {
        let later = text.skip(1);
        assert(text.contains(text[0]));
        assert(whole[0] != '\x1b');
        if later.contains('\x1b') {
            let i = later.index_of('\x1b');
            assert(text[i + 1] == '\x1b');
        }
        assert(whole.skip(1) == later + rest);
        unstyled_text_stays(later, rest);
        assert(styles_removed(whole) == seq![whole[0]] + (later + styles_removed(rest)));
        assert(styles_removed(whole) =~= text + styles_removed(rest));
    }
}

proof fn written_loses_its_style(segment: Segment, rest: Seq<char>)
    requires
        is_unstyled(segment.text),
        segment.style matches Some(style) ==> is_style(style),
    ensures
        styles_removed(segment.written(true) + rest) == segment.text + styles_removed(rest),
{
    match segment.style {
        None => {
            unstyled_text_stays(segment.text, rest);
        },
        Some(style) => {
            reveal_strlit("\x1b[0m");
            assert(is_style(RESET@));
            let behind = RESET@ + rest;
            assert(segment.written(true) + rest =~= style + (segment.text + behind));
            style_is_removed(style, segment.text + behind);
            unstyled_text_stays(segment.text, behind);
            style_is_removed(RESET@, rest);
        },
    }
}

proof fn rendering_loses_its_styles(segments: Seq<Segment>, rest: Seq<char>)
    requires
        is_unstyled(rendered(segments, false)),
        forall|i: int|
            #![trigger segments[i]]
            0 <= i < segments.len() ==> (segments[i].style matches Some(style) ==> is_style(
                style,
            )),
    ensures
        styles_removed(rendered(segments, true) + rest) == rendered(segments, false)
            + styles_removed(rest),
    decreases segments.len(),
{
    if segments.len() == 0 {
        assert(rendered(segments, true) + rest == rest);
        assert(rendered(segments, false) + styles_removed(rest) == styles_removed(rest));
    } else {
        let front = segments.drop_last();
        let last = segments.last();
        let plain = rendered(front, false);
        let whole = rendered(segments, false);
        assert(whole == plain + last.text);
        if plain.contains('\x1b') {
            let i = plain.index_of('\x1b');
            assert(whole[i] == '\x1b');
        }
        if last.text.contains('\x1b') {
            let i = last.text.index_of('\x1b');
            assert(whole[plain.len() + i] == '\x1b');
        }
        assert forall|i: int| #![trigger front[i]] 0 <= i < front.len() implies (
        front[i].style matches Some(style) ==> is_style(style)) by {
            assert(front[i] == segments[i]);
        }
        assert(segments[segments.len() - 1] == last);
        let behind = last.written(true) + rest;
        rendering_loses_its_styles(front, behind);
        written_loses_its_style(last, rest);
        assert(rendered(segments, true) + rest =~= rendered(front, true) + behind);
        assert(plain + (last.text + styles_removed(rest)) =~= whole + styles_removed(rest));
    }
}

proof fn report_styles_are_styles(report: StaleReportView)
    ensures
        forall|i: int|
            #![trigger report_segments(report)[i]]
            0 <= i < report_segments(report).len() ==> (
            report_segments(report)[i].style matches Some(style) ==> is_style(style)),
{
    reveal_strlit("\x1b[1;35m");
    reveal_strlit("\x1b[1;31m");
    reveal_strlit("\x1b[1;33m");
    reveal_strlit("\x1b[2m");
    reveal_strlit("\x1b[36m");
    assert(is_style(BOLD_MAGENTA@));
    assert(is_style(BOLD_RED@));
    assert(is_style(BOLD_YELLOW@));
    assert(is_style(DIM@));
    assert(is_style(CYAN@));
    let url = report.found.url;
    let heading = heading_segments(url);
    let places = place_segments(report.found.occurrences);
    let change = commit_segments("Change commit"@, BOLD_YELLOW@, report.change_commit, url);
    let merge = merge_segments(report);
    let all = report_segments(report);
    assert forall|i: int| #![trigger all[i]] 0 <= i < all.len() implies (
    all[i].style matches Some(style) ==> is_style(style)) by {
        if i < heading.len() {
            assert(all[i] == heading[i]);
        } else if i < heading.len() + places.len() {
            assert(all[i] == places[i - heading.len()]);
        } else if i < heading.len() + places.len() + change.len() {
            assert(all[i] == change[i - heading.len() - places.len()]);
        } else {
            assert(all[i] == merge[i - heading.len() - places.len() - change.len()]);
        }
    }
}

/// Color adds styles and nothing else: a report in color with its styles removed is the report
/// without color. So it is wherever the plain report holds no escape character of its own.
pub proof fn colored_reports_add_only_styles(report: StaleReportView)
    requires
        is_unstyled(report_text(report, false)),
    ensures
        styles_removed(report_text(report, true)) == report_text(report, false),
{
    let segments = report_segments(report);
    let none = Seq::<char>::empty();
    report_styles_are_styles(report);
    rendering_loses_its_styles(segments, none);
    assert(rendered(segments, true) + none == rendered(segments, true));
    assert(rendered(segments, false) + styles_removed(none) == rendered(segments, false));
}

// ---------------------------------------------------------------------------------------------
// Writing
// ---------------------------------------------------------------------------------------------

/// Writes a text in a style, where color is enabled.
pub fn write_styled(f: &mut String, color: bool, style: &str, value: &str)
    ensures
        final(f)@ == old(f)@ + styled_text(value@, style@, color),
{
    f.append(styled(value, style, color).to_string().as_str());
}

/// Writes the name of a field.
pub fn write_field(f: &mut String, label: &str, color: bool)
    ensures
        final(f)@ == old(f)@ + styled_text("  "@ + label@, DIM@, color),
{
    let text = "  ".to_owned().concat(label);
    write_styled(f, color, DIM, text.as_str());
}

fn write_line(f: &mut String, text: &str)
    ensures
        final(f)@ == old(f)@ + (text@ + "\n"@),
{
    let ghost before = f@;
    f.append(text);
    f.append("\n");
    assert(f@ == before + (text@ + "\n"@));
}

/// Writes what is said of a commit.
pub fn write_commit(
    f: &mut String,
    label: &str,
    label_style: &str,
    commit: &CommitInfo,
    url: &SourceUrl,
    color: bool,
)
    ensures
        final(f)@ == old(f)@ + rendered(
            commit_segments(label@, label_style@, commit@, url@),
            color,
        ),
{
    let ghost before = f@;
    let ghost all = commit_segments(label@, label_style@, commit@, url@);
    let heading = label.to_owned().concat(":");
    proof {
        segment_goes_behind(before, all, 0, color);
        segment_goes_behind(before, all, 1, color);
        segment_goes_behind(before, all, 2, color);
        segment_goes_behind(before, all, 3, color);
        segment_goes_behind(before, all, 4, color);
        segment_goes_behind(before, all, 5, color);
        segment_goes_behind(before, all, 6, color);
        segment_goes_behind(before, all, 7, color);
        segment_goes_behind(before, all, 8, color);
        segment_goes_behind(before, all, 9, color);
        segment_goes_behind(before, all, 10, color);
    }
    write_styled(f, color, label_style, heading.as_str());
    assert(f@ == before + rendered(all.take(1), color));
    f.append("\n");
    assert(f@ == before + rendered(all.take(2), color));
    write_field(f, "Commit: ", color);
    assert(f@ == before + rendered(all.take(3), color));
    write_line(f, commit.hash.as_str());
    assert(f@ == before + rendered(all.take(4), color));
    write_field(f, "Date:   ", color);
    assert(f@ == before + rendered(all.take(5), color));
    write_line(f, commit.date.as_str());
    assert(f@ == before + rendered(all.take(6), color));
    write_field(f, "Title:  ", color);
    assert(f@ == before + rendered(all.take(7), color));
    write_line(f, commit.title.as_str());
    assert(f@ == before + rendered(all.take(8), color));
    write_field(f, "URL:    ", color);
    assert(f@ == before + rendered(all.take(9), color));
    let page = "https://github.com/".to_owned().concat(url.owner.as_str()).concat("/").concat(
        url.repo.as_str(),
    ).concat("/commit/").concat(commit.hash.as_str());
    write_styled(f, color, CYAN, page.as_str());
    assert(f@ == before + rendered(all.take(10), color));
    f.append("\n");
    assert(f@ == before + rendered(all.take(11), color));
    assert(all.take(11) == all);
}

proof fn segment_goes_behind(before: Seq<char>, all: Seq<Segment>, i: int, color: bool)
    requires
        0 <= i < all.len(),
    ensures
        before + rendered(all.take(0), color) == before,
        before + rendered(all.take(i), color) + all[i].written(color) == before + rendered(
            all.take(i + 1),
            color,
        ),
{
    rendered_step(all, i, color);
    assert(before + Seq::<char>::empty() =~= before);
    assert(before + rendered(all.take(i), color) + all[i].written(color) =~= before + (rendered(
        all.take(i),
        color,
    ) + all[i].written(color)));
}

proof fn rendered_step(all: Seq<Segment>, i: int, color: bool)
    requires
        0 <= i < all.len(),
    ensures
        rendered(all.take(0), color) == Seq::<char>::empty(),
        rendered(all.take(i + 1), color) == rendered(all.take(i), color) + all[i].written(color),
{
    assert(all.take(i + 1).drop_last() == all.take(i));
}

fn write_heading(f: &mut String, url: &SourceUrl, color: bool)
    ensures
        final(f)@ == old(f)@ + rendered(heading_segments(url@), color),
{
    let ghost before = f@;
    let ghost heading = heading_segments(url@);
    proof {
        segment_goes_behind(before, heading, 0, color);
        segment_goes_behind(before, heading, 1, color);
        segment_goes_behind(before, heading, 2, color);
        segment_goes_behind(before, heading, 3, color);
        segment_goes_behind(before, heading, 4, color);
        segment_goes_behind(before, heading, 5, color);
    }
    write_styled(f, color, BOLD_RED, "Stale URL:");
    assert(f@ == before + rendered(heading.take(1), color));
    f.append(" ");
    assert(f@ == before + rendered(heading.take(2), color));
    write_styled(f, color, CYAN, url.text.as_str());
    assert(f@ == before + rendered(heading.take(3), color));
    f.append("\n");
    assert(f@ == before + rendered(heading.take(4), color));
    write_styled(f, color, DIM, "Found at:");
    assert(f@ == before + rendered(heading.take(5), color));
    f.append("\n");
    assert(f@ == before + rendered(heading.take(6), color));
    assert(heading.take(6) == heading);
}

fn write_places(f: &mut String, places: &Vec<Occurrence>, color: bool)
    ensures
        final(f)@ == old(f)@ + rendered(place_segments(occurrence_views(places@)), color),
{
    let ghost before = f@;
    let ghost all = place_segments(occurrence_views(places@));
    assert(before + rendered(all.take(0), color) == before);
    for i in 0..places.len()
        invariant
            all == place_segments(occurrence_views(places@)),
            f@ == before + rendered(all.take(i as int), color),
    {
        let ghost so_far = rendered(all.take(i as int), color);
        let occurrence = &places[i];
        assert(occurrence@ == occurrence_views(places@)[i as int]);
        let line = "  ".to_owned().concat(
            display_path(occurrence.file.as_slice()).as_str(),
        ).concat(":").concat(to_decimal(occurrence.line).as_str()).concat("\n");
        f.append(line.as_str());
        proof {
            rendered_step(all, i as int, color);
            assert(line@ == all[i as int].written(color));
            assert(before + so_far + line@ == before + (so_far + line@));
        }
    }
    assert(all.take(all.len() as int) == all);
}

proof fn four_parts(f: Seq<char>, a: Seq<char>, b: Seq<char>, c: Seq<char>, d: Seq<char>)
    ensures
        f + a + b + c + d == f + (a + b + c + d),
{
    assert(f + a + b + c + d =~= f + (a + b + c + d));
}

/// Writes a report.
pub fn write_report(f: &mut String, report: &StaleReport, color: bool)
    ensures
        final(f)@ == old(f)@ + report_text(report@, color),
{
    let ghost before = f@;
    let url = &report.found.url;
    write_heading(f, url, color);
    write_places(f, &report.found.occurrences, color);
    write_commit(f, "Change commit", BOLD_YELLOW, &report.change_commit, url, color);
    let ghost changed = f@;
    if !same_text(report.change_commit.hash.as_str(), report.merge_commit.hash.as_str()) {
        write_commit(f, "Merge commit", BOLD_MAGENTA, &report.merge_commit, url, color);
    }
    proof {
        let heading = heading_segments(url@);
        let places = place_segments(report@.found.occurrences);
        let change = commit_segments("Change commit"@, BOLD_YELLOW@, report@.change_commit, url@);
        let merge = merge_segments(report@);
        if merge.len() == 0 {
            assert(changed + Seq::<char>::empty() == changed);
        }
        assert(f@ == changed + rendered(merge, color));
        rendering_adds(heading, places, color);
        rendering_adds(heading + places, change, color);
        rendering_adds(heading + places + change, merge, color);
        four_parts(
            before,
            rendered(heading, color),
            rendered(places, color),
            rendered(change, color),
            rendered(merge, color),
        );
    }
}

impl StaleReport {
    /// The report, to be shown in color.
    pub fn colored(&self) -> (result: ColoredStaleReport<'_>)
        ensures
            result.report() == self@,
    {
        ColoredStaleReport(self)
    }

    /// The report as plain text.
    pub fn to_string(&self) -> (text: String)
        ensures
            text@ == report_text(self@, false),
    {
        let mut f = String::new();
        write_report(&mut f, self, false);
        assert(f@ == report_text(self@, false));
        f
    }
}

impl<'a> ColoredStaleReport<'a> {
    /// The report in color.
    pub fn to_string(&self) -> (text: String)
        ensures
            text@ == report_text(self.report(), true),
    {
        let mut f = String::new();
        write_report(&mut f, self.0, true);
        assert(f@ == report_text(self.report(), true));
        f
    }
}

// ---------------------------------------------------------------------------------------------
// The whole text of a report
// ---------------------------------------------------------------------------------------------

/// A text between a code of the terminal and the code that ends it, where there is color.
pub open spec fn painted(code: Seq<char>, text: Seq<char>, color: bool) -> Seq<char> {
    if color {
        code + text + "\x1b[0m"@
    } else {
        text
    }
}

/// The line of a report for one place: two blanks, the file, a colon and the line.
pub open spec fn place_line(place: OccurrenceView) -> Seq<char> {
    "  "@ + shown_path(place.file) + ":"@ + decimal(place.line) + "\n"@
}

/// The lines of a report on one commit.
pub open spec fn commit_lines(
    label: Seq<char>,
    code: Seq<char>,
    commit: CommitInfoView,
    url: SourceUrlView,
    color: bool,
) -> Seq<char> {
    painted(code, label, color) + "\n"@ + painted("\x1b[2m"@, "  Commit: "@, color) + (commit.hash
        + "\n"@) + painted("\x1b[2m"@, "  Date:   "@, color) + (commit.date + "\n"@) + painted(
        "\x1b[2m"@,
        "  Title:  "@,
        color,
    ) + (commit.title + "\n"@) + painted("\x1b[2m"@, "  URL:    "@, color) + painted(
        "\x1b[36m"@,
        "https://github.com/"@ + url.owner + "/"@ + url.repo + "/commit/"@ + commit.hash,
        color,
    ) + "\n"@
}

proof fn places_are_written(places: Seq<OccurrenceView>, color: bool)
    ensures
        rendered(place_segments(places), color) == Seq::new(
            places.len(),
            |i: int| place_line(places[i]),
        ).flatten(),
    decreases places.len(),
{
    let lines = Seq::new(places.len(), |i: int| place_line(places[i]));
    let segments = place_segments(places);
    if places.len() == 0 {
        assert(lines.flatten() =~= Seq::<char>::empty());
        assert(rendered(segments, color) =~= Seq::<char>::empty());
    } else {
        let front = places.drop_last();
        let fewer = Seq::new(front.len(), |i: int| place_line(front[i]));
        places_are_written(front, color);
        assert(lines =~= fewer.push(place_line(places.last())));
        fewer.lemma_flatten_push(place_line(places.last()));
        assert(segments.drop_last() =~= place_segments(front));
        assert(segments.last().written(color) == place_line(places.last()));
    }
}

proof fn heading_is_written(url: SourceUrlView, color: bool)
    ensures
        rendered(heading_segments(url), color) == painted("\x1b[1;31m"@, "Stale URL:"@, color)
            + " "@ + painted("\x1b[36m"@, url.text, color) + "\n"@ + painted(
            "\x1b[2m"@,
            "Found at:"@,
            color,
        ) + "\n"@,
{
    let heading = heading_segments(url);
    rendered_step(heading, 0, color);
    rendered_step(heading, 1, color);
    rendered_step(heading, 2, color);
    rendered_step(heading, 3, color);
    rendered_step(heading, 4, color);
    rendered_step(heading, 5, color);
    assert(heading.take(6) =~= heading);
    first_segment(heading, color);
}

proof fn first_segment(all: Seq<Segment>, color: bool)
    requires
        all.len() > 0,
    ensures
        rendered(all.take(1), color) == all[0].written(color),
{
    rendered_step(all, 0, color);
    assert(Seq::<char>::empty() + all[0].written(color) =~= all[0].written(color));
}

proof fn field_labels_are_indented()
    ensures
        "  "@ + "Commit: "@ == "  Commit: "@,
        "  "@ + "Date:   "@ == "  Date:   "@,
        "  "@ + "Title:  "@ == "  Title:  "@,
        "  "@ + "URL:    "@ == "  URL:    "@,
{
    reveal_strlit("  ");
    reveal_strlit("Commit: ");
    reveal_strlit("Date:   ");
    reveal_strlit("Title:  ");
    reveal_strlit("URL:    ");
    reveal_strlit("  Commit: ");
    reveal_strlit("  Date:   ");
    reveal_strlit("  Title:  ");
    reveal_strlit("  URL:    ");
    assert("  "@ + "Commit: "@ =~= "  Commit: "@);
    assert("  "@ + "Date:   "@ =~= "  Date:   "@);
    assert("  "@ + "Title:  "@ =~= "  Title:  "@);
    assert("  "@ + "URL:    "@ =~= "  URL:    "@);
}

proof fn commit_is_written(
    label: Seq<char>,
    style: Seq<char>,
    commit: CommitInfoView,
    url: SourceUrlView,
    color: bool,
)
    ensures
        rendered(commit_segments(label, style, commit, url), color) == commit_lines(
            label + ":"@,
            style,
            commit,
            url,
            color,
        ),
{
    let all = commit_segments(label, style, commit, url);
    rendered_step(all, 0, color);
    rendered_step(all, 1, color);
    rendered_step(all, 2, color);
    rendered_step(all, 3, color);
    rendered_step(all, 4, color);
    rendered_step(all, 5, color);
    rendered_step(all, 6, color);
    rendered_step(all, 7, color);
    rendered_step(all, 8, color);
    rendered_step(all, 9, color);
    rendered_step(all, 10, color);
    assert(all.take(11) =~= all);
    field_labels_are_indented();
    first_segment(all, color);
    assert(rendered(all.take(1), color) == painted(style, label + ":"@, color));
    assert(rendered(all, color) == commit_lines(label + ":"@, style, commit, url, color));
}

/// A report says all that it has to say: the link; each place where it stands, on a line of its
/// own, as many as there are and in their order; the change commit; and behind it the merge
/// commit, where that has another hash. Of a commit it gives the hash, the date, the title and the
/// page.
pub proof fn reports_say_it_all(report: StaleReportView, color: bool)
    ensures
        report_text(report, color) == painted("\x1b[1;31m"@, "Stale URL:"@, color) + " "@ + painted(
            "\x1b[36m"@,
            report.found.url.text,
            color,
        ) + "\n"@ + painted("\x1b[2m"@, "Found at:"@, color) + "\n"@ + Seq::new(
            report.found.occurrences.len(),
            |i: int| place_line(report.found.occurrences[i]),
        ).flatten() + commit_lines(
            "Change commit:"@,
            "\x1b[1;33m"@,
            report.change_commit,
            report.found.url,
            color,
        ) + (if report.change_commit.hash == report.merge_commit.hash {
            Seq::empty()
        } else {
            commit_lines(
                "Merge commit:"@,
                "\x1b[1;35m"@,
                report.merge_commit,
                report.found.url,
                color,
            )
        }),
{
    let url = report.found.url;
    let heading = heading_segments(url);
    let places = place_segments(report.found.occurrences);
    let change = commit_segments("Change commit"@, BOLD_YELLOW@, report.change_commit, url);
    let merge = merge_segments(report);
    rendering_adds(heading, places, color);
    rendering_adds(heading + places, change, color);
    rendering_adds(heading + places + change, merge, color);
    heading_is_written(url, color);
    places_are_written(report.found.occurrences, color);
    commit_is_written("Change commit"@, BOLD_YELLOW@, report.change_commit, url, color);
    commit_is_written("Merge commit"@, BOLD_MAGENTA@, report.merge_commit, url, color);
    reveal_strlit(":");
    reveal_strlit("Change commit");
    reveal_strlit("Change commit:");
    reveal_strlit("Merge commit");
    reveal_strlit("Merge commit:");
    assert("Change commit"@ + ":"@ =~= "Change commit:"@);
    assert("Merge commit"@ + ":"@ =~= "Merge commit:"@);
    if merge.len() == 0 {
        assert(rendered(merge, color) =~= Seq::<char>::empty());
    }
}

/// One place more of a link makes its report one line longer: the line of that place, right behind
/// those of the places before it, and nothing else changes.
pub proof fn each_place_has_its_line(report: StaleReportView, place: OccurrenceView, color: bool)
    -> (parts: (Seq<char>, Seq<char>))
    ensures
        report_text(report, color) == parts.0 + parts.1,
        report_text(
            StaleReportView {
                found: FoundUrlView {
                    url: report.found.url,
                    occurrences: report.found.occurrences.push(place),
                },
                ..report
            },
            color,
        ) == parts.0 + ("  "@ + shown_path(place.file) + ":"@ + decimal(place.line) + "\n"@)
            + parts.1,
{
    let url = report.found.url;
    let more = report.found.occurrences.push(place);
    let longer = StaleReportView { found: FoundUrlView { url, occurrences: more }, ..report };
    let heading = heading_segments(url);
    let places = place_segments(report.found.occurrences);
    let change = commit_segments("Change commit"@, BOLD_YELLOW@, report.change_commit, url);
    let merge = merge_segments(report);
    let front = heading + places;
    let behind = change + merge;
    let line = place_segments(more).last();
    assert(place_segments(more) =~= places.push(line));
    assert(report_segments(report) =~= front + behind);
    assert(report_segments(longer) =~= front.push(line) + behind);
    rendering_adds(front, behind, color);
    rendering_adds(front.push(line), behind, color);
    assert(front.push(line).drop_last() =~= front);
    (rendered(front, color), rendered(behind, color))
}

} // verus!
