//! The search for links in the tracked files of a repository.

use crate::candidate::{
    byte_offset, candidate_end, candidates, candidates_cover_the_text, covers, is_span, line_at,
    line_number, lines_are_counted_from_one, lists_candidates, regex_find_all, starts_candidate,
    CANDIDATE_PATTERN,
};
use crate::failure::{Failure, FailureView};
use crate::git::{
    display_path, git_failure, in_repository, refusal, shown_path, unstarted, unstarted_failure,
    Command, CommandView, OutputView, Reply, ReplyView,
};
use crate::index::{
    found_views, grown_index_is_index, index_grew, index_grows, index_growth_chains,
    index_is_unique, index_stays, indexes, indexes_hold_every_sighting, is_index, note, of_links,
    sightings_have_an_index, FoundUrl, FoundUrlView, Hit, Occurrence, OccurrenceView,
};
use crate::lines::copy_bytes;
use crate::plan::{
    allowed, answered, ask_once, attempts_split, chained, chains_split, first_step,
    fixed_worlds_fix_the_course, made_by_the_same_steps, one_run, Act, Answer, Answers, Piece, Plan,
    Step,
};
use crate::service::{
    can_run, contents_view, join_path, joined, reads, replies, replies_once, tells, Contents,
    ContentsView, Kind,
};
use crate::text::{
    byte_views, ended, ended_pieces_are_split_again, full_pieces_stay, shown_bytes, split,
    split_bytes, string_from_utf8, string_views, trimmed,
};
use crate::tree::{
    can_hear, can_hear_path, counts_files, named_files, named_files_add, names_files, names_nothing,
    read_plan, read_tracked_path, tracked_paths_are_read_as_stored, tree_of, CountedFiles, Disk,
    FileCall, FileListener, Files, NamedFiles, NoFiles, Tree,
};
use crate::url::{link_of, links_are_read_back, parse_candidate, parsed, unclosed};
use crate::world::{
    begins_trying, continues, did, ends, finishes, makes, on_course, ran_once, starts, steps_on,
    Logged,
};
use vstd::prelude::*;
use vstd::utf8::{
    decode_utf8, encode_utf8, encode_utf8_decode_utf8, encode_utf8_valid_utf8, valid_utf8,
};

verus! {

/// The links of the tracked files, and what is said of the files that could not be read.
#[derive(Debug, Default)]
pub struct ScanResult {
    pub urls: Vec<FoundUrl>,
    pub errors: Vec<String>,
}

// ---------------------------------------------------------------------------------------------
// What a scan finds
// ---------------------------------------------------------------------------------------------

/// The links among the candidates of a text, each with the line on which it starts.
pub open spec fn hits_among(file: Seq<u8>, text: Seq<char>, spans: Seq<(int, int)>) -> Seq<Hit>
    decreases spans.len(),
{
    if spans.len() == 0 {
        Seq::empty()
    } else {
        let before = hits_among(file, text, spans.drop_last());
        let (start, end) = spans.last();
        match parsed(text.subrange(start, end)) {
            Some(url) => before.push(
                Hit { url, place: OccurrenceView { file, line: line_number(text, start) } },
            ),
            None => before,
        }
    }
}

/// The links of a text.
pub open spec fn text_hits(file: Seq<u8>, text: Seq<char>) -> Seq<Hit> {
    hits_among(file, text, candidates(text, 0))
}

/// The links of a file: none where it could not be read or is no text.
pub open spec fn file_hits(file: Seq<u8>, contents: ContentsView) -> Seq<Hit> {
    match contents {
        Ok(bytes) => if valid_utf8(bytes) {
            text_hits(file, decode_utf8(bytes))
        } else {
            Seq::empty()
        },
        Err(_) => Seq::empty(),
    }
}

/// The links of the files of a directory, in the order of the files.
pub open spec fn all_hits(
    root: Seq<u8>,
    paths: Seq<Seq<u8>>,
    contents: Seq<ContentsView>,
) -> Seq<Hit>
    decreases contents.len(),
{
    if contents.len() == 0 {
        Seq::empty()
    } else {
        all_hits(root, paths, contents.drop_last()) + file_hits(
            joined(root, paths[contents.len() - 1]),
            contents.last(),
        )
    }
}

/// What is said of the files of a directory that could not be read.
pub open spec fn all_errors(
    root: Seq<u8>,
    paths: Seq<Seq<u8>>,
    contents: Seq<ContentsView>,
) -> Seq<Seq<char>>
    decreases contents.len(),
{
    if contents.len() == 0 {
        Seq::empty()
    } else {
        let before = all_errors(root, paths, contents.drop_last());
        match contents.last() {
            Ok(_) => before,
            Err(reason) => before.push(
                shown_path(joined(root, paths[contents.len() - 1])) + ": "@ + reason,
            ),
        }
    }
}

impl ScanResult {
    /// Whether this is what a directory with such files comes to.
    pub open spec fn sums_up(
        self,
        root: Seq<u8>,
        paths: Seq<Seq<u8>>,
        contents: Seq<ContentsView>,
    ) -> bool {
        &&& indexes(found_views(self.urls@), all_hits(root, paths, contents))
        &&& string_views(self.errors@) == all_errors(root, paths, contents)
    }
}

/// Every link of a text is found: where a candidate starts, and it holds a link, the sightings
/// have that link on the line of its start, unless the place lies within a candidate that starts
/// before it.
pub proof fn every_link_is_sighted(file: Seq<u8>, text: Seq<char>, at: int)
    requires
        starts_candidate(text, at),
        forall|earlier: int|
            0 <= earlier < at && #[trigger] starts_candidate(text, earlier)
                ==> candidate_end(text, earlier) <= at,
        parsed(text.subrange(at, candidate_end(text, at))) is Some,
    ensures
        text_hits(file, text).contains(
            Hit {
                url: parsed(text.subrange(at, candidate_end(text, at)))->0,
                place: OccurrenceView { file, line: line_number(text, at) },
            },
        ),
{
    candidates_cover_the_text(text, 0);
    let spans = candidates(text, 0);
    let i = choose|i: int|
        #![trigger spans[i]]
        0 <= i < spans.len() && spans[i].0 <= at < spans[i].1;
    assert(is_span(text, 0, spans[i]));
    assert(spans[i].0 == at);
    span_is_sighted(file, text, spans, i);
}

proof fn span_is_sighted(file: Seq<u8>, text: Seq<char>, spans: Seq<(int, int)>, i: int)
    requires
        0 <= i < spans.len(),
        parsed(text.subrange(spans[i].0, spans[i].1)) is Some,
    ensures
        hits_among(file, text, spans).contains(
            Hit {
                url: parsed(text.subrange(spans[i].0, spans[i].1))->0,
                place: OccurrenceView { file, line: line_number(text, spans[i].0) },
            },
        ),
    decreases spans.len(),
{
    let hit = Hit {
        url: parsed(text.subrange(spans[i].0, spans[i].1))->0,
        place: OccurrenceView { file, line: line_number(text, spans[i].0) },
    };
    let before = hits_among(file, text, spans.drop_last());
    if i == spans.len() - 1 {
        assert(hits_among(file, text, spans) == before.push(hit));
        assert(before.push(hit)[before.len() as int] == hit);
    } else {
        span_is_sighted(file, text, spans.drop_last(), i);
        let k = before.index_of(hit);
        assert(hits_among(file, text, spans)[k] == hit);
    }
}

// ---------------------------------------------------------------------------------------------
// Tracked files
// ---------------------------------------------------------------------------------------------

/// The paths that `git ls-files -z` printed: what stands between NULs, without what is empty.
pub open spec fn tracked_paths(listing: Seq<u8>) -> Seq<Seq<u8>> {
    split(listing, 0u8).filter(|path: Seq<u8>| path.len() > 0)
}

/// The paths that `git ls-files -z` printed.
pub fn paths_in_listing(listing: &[u8]) -> (paths: Vec<Vec<u8>>)
    ensures
        byte_views(paths@) == tracked_paths(listing@),
{
    let pieces = split_bytes(listing, 0);
    let ghost all = split(listing@, 0u8);
    let ghost full = |path: Seq<u8>| path.len() > 0;
    let mut paths: Vec<Vec<u8>> = Vec::new();
    proof {
        reveal(Seq::filter);
        assert(all.take(0).filter(full) == Seq::<Seq<u8>>::empty());
        assert(byte_views(paths@) == all.take(0).filter(full));
    }
    for i in 0..pieces.len()
        invariant
            all == split(listing@, 0u8),
            byte_views(pieces@) == all,
            full == (|path: Seq<u8>| path.len() > 0),
            byte_views(paths@) == all.take(i as int).filter(full),
    {
        let ghost before = byte_views(paths@);
        assert(pieces@[i as int]@ == all[i as int]);
        assert(all.take(i + 1) == all.take(i as int).push(all[i as int]));
        proof {
            all.take(i as int).lemma_filter_push(all[i as int], full);
        }
        if pieces[i].len() > 0 {
            let path = copy_bytes(pieces[i].as_slice());
            let ghost added = path@;
            paths.push(path);
            assert(byte_views(paths@) == before.push(added));
        }
    }
    assert(all.take(pieces@.len() as int) == all);
    paths
}

/// The run of Git that lists the tracked files.
pub open spec fn list_command(root: Seq<u8>) -> CommandView {
    in_repository(root, seq!["ls-files"@, "-z"@])
}

/// The tracked files by the reply of Git.
pub open spec fn listed(root: Seq<u8>, reply: ReplyView) -> Result<Seq<Seq<u8>>, FailureView> {
    match reply {
        ReplyView::Unstarted(reason) => Err(unstarted(root, reason)),
        ReplyView::Finished(output) => if output.succeeded() {
            Ok(tracked_paths(output.stdout))
        } else {
            Err(refusal("list tracked files"@, output))
        },
    }
}

/// The tracked files by the reply of Git, or why they are not known.
pub fn paths_of_reply(root: &[u8], reply: Reply) -> (result: Result<Vec<Vec<u8>>, Failure>)
    ensures
        match result {
            Ok(paths) => listed(root@, reply@) == Ok::<_, FailureView>(byte_views(paths@)),
            Err(failure) => listed(root@, reply@) == Err::<Seq<Seq<u8>>, _>(failure@),
        },
{
    match reply {
        Reply::Unstarted(reason) => Err(unstarted_failure(root, reason)),
        Reply::Finished(output) => if output.success() {
            Ok(paths_in_listing(output.stdout.as_slice()))
        } else {
            Err(git_failure("list tracked files", &output))
        },
    }
}

// ---------------------------------------------------------------------------------------------
// The scan
// ---------------------------------------------------------------------------------------------

/// The link that a candidate holds, as a sighting.
pub open spec fn hit_at(file: Seq<u8>, text: Seq<char>, at: int, candidate: Seq<char>) -> Seq<Hit> {
    match parsed(candidate) {
        Some(url) => seq![
            Hit { url, place: OccurrenceView { file, line: line_number(text, at) } },
        ],
        None => Seq::empty(),
    }
}

/// Notes the link that a candidate holds, if it holds one.
fn note_candidate(
    urls: &mut Vec<FoundUrl>,
    file: &[u8],
    text: &str,
    offset: usize,
    candidate: &str,
    Ghost(at): Ghost<int>,
)
    requires
        is_index(found_views(old(urls)@)),
        0 <= at < text@.len(),
        offset == byte_offset(text@, at),
    ensures
        index_grew(
            found_views(old(urls)@),
            found_views(final(urls)@),
            hit_at(file@, text@, at, candidate@),
        ),
{
    match parse_candidate(candidate) {
        Some(url) => {
            let line: usize = line_at(text, offset);
            let place = Occurrence { file: copy_bytes(file), line };
            proof {
                links_are_read_back(unclosed(candidate@));
            }
            note(urls, url, place);
        },
        None => {
            proof {
                index_stays(found_views(urls@));
            }
        },
    }
}

proof fn hits_of_one_more(file: Seq<u8>, text: Seq<char>, spans: Seq<(int, int)>, i: int)
    requires
        0 <= i < spans.len(),
    ensures
        hits_among(file, text, spans.take(i + 1)) == hits_among(file, text, spans.take(i)) + hit_at(
            file,
            text,
            spans[i].0,
            text.subrange(spans[i].0, spans[i].1),
        ),
{
    let before = hits_among(file, text, spans.take(i));
    assert(spans.take(i + 1).drop_last() == spans.take(i));
    assert(spans.take(i + 1).last() == spans[i]);
    assert(before + Seq::<Hit>::empty() == before);
}

/// Notes the links of a text.
pub fn note_text(urls: &mut Vec<FoundUrl>, file: &[u8], text: &str)
    requires
        is_index(found_views(old(urls)@)),
    ensures
        index_grew(
            found_views(old(urls)@),
            found_views(final(urls)@),
            text_hits(file@, text@),
        ),
{
    let found = regex_find_all(CANDIDATE_PATTERN, text);
    let ghost spans = candidates(text@, 0);
    let ghost before = found_views(urls@);
    proof {
        candidates_cover_the_text(text@, 0);
        index_stays(before);
        assert(hits_among(file@, text@, spans.take(0)) == Seq::<Hit>::empty());
    }
    for i in 0..found.len()
        invariant
            lists_candidates(found@, text@),
            spans == candidates(text@, 0),
            covers(text@, 0, spans),
            is_index(before),
            index_grew(
                before,
                found_views(urls@),
                hits_among(file@, text@, spans.take(i as int)),
            ),
    {
        let ghost earlier = found_views(urls@);
        let ghost span = spans[i as int];
        let ghost seen = hits_among(file@, text@, spans.take(i as int));
        let (offset, candidate) = &found[i];
        proof {
            assert(is_span(text@, 0, span));
            assert(found@[i as int].1@ == text@.subrange(span.0, span.1));
            grown_index_is_index(before, earlier, seen);
        }
        note_candidate(urls, file, text, *offset, candidate.as_str(), Ghost(span.0));
        proof {
            hits_of_one_more(file@, text@, spans, i as int);
            index_growth_chains(
                before,
                earlier,
                found_views(urls@),
                seen,
                hit_at(file@, text@, span.0, candidate@),
            );
        }
    }
    assert(spans.take(found@.len() as int) == spans);
}

impl ScanResult {
    /// Nothing found and nothing wrong.
    pub fn empty() -> (result: ScanResult)
        ensures
            forall|root: Seq<u8>, paths: Seq<Seq<u8>>| #[trigger]
                result.sums_up(root, paths, Seq::empty()),
    {
        let result = ScanResult { urls: Vec::new(), errors: Vec::new() };
        assert forall|root: Seq<u8>, paths: Seq<Seq<u8>>| #[trigger]
            result.sums_up(root, paths, Seq::empty()) by {
            assert(found_views(result.urls@) == Seq::<FoundUrlView>::empty());
            assert(string_views(result.errors@) == Seq::<Seq<char>>::empty());
            assert(indexes(found_views(result.urls@), Seq::<Hit>::empty()));
        }
        result
    }

    /// Adds what one more file holds, or that it could not be read.
    pub fn add_file(&mut self, file: &[u8], contents: Contents)
        requires
            is_index(found_views(old(self).urls@)),
        ensures
            index_grew(
                found_views(old(self).urls@),
                found_views(final(self).urls@),
                file_hits(file@, contents_view(contents)),
            ),
            match contents {
                Ok(_) => final(self).errors@ == old(self).errors@,
                Err(reason) => string_views(final(self).errors@) == string_views(
                    old(self).errors@,
                ).push(shown_path(file@) + ": "@ + reason@),
            },
    {
        proof {
            index_stays(found_views(self.urls@));
        }
        match contents {
            Ok(bytes) => match string_from_utf8(bytes) {
                Ok(text) => {
                    note_text(&mut self.urls, file, text.as_str());
                },
                Err(_) => {},
            },
            Err(reason) => {
                let ghost before = string_views(self.errors@);
                let message = display_path(file).concat(": ").concat(reason.as_str());
                let ghost added = message@;
                self.errors.push(message);
                assert(string_views(self.errors@) == before.push(added));
            },
        }
    }
}

/// A [`ScanResult`] as its parts.
pub struct ScanView {
    pub urls: Seq<FoundUrlView>,
    pub errors: Seq<Seq<char>>,
}

impl View for ScanResult {
    type V = ScanView;

    open spec fn view(&self) -> ScanView {
        ScanView { urls: found_views(self.urls@), errors: string_views(self.errors@) }
    }
}

/// The index of sightings. There is one for each list of them.
pub open spec fn index_of(hits: Seq<Hit>) -> Seq<FoundUrlView> {
    choose|index: Seq<FoundUrlView>| indexes(index, hits)
}

/// What a directory with such files comes to.
pub open spec fn summary(
    root: Seq<u8>,
    paths: Seq<Seq<u8>>,
    contents: Seq<ContentsView>,
) -> ScanView {
    ScanView {
        urls: index_of(all_hits(root, paths, contents)),
        errors: all_errors(root, paths, contents),
    }
}

/// What a directory with such files comes to is determined by them.
pub proof fn summaries_are_determined(
    result: ScanResult,
    root: Seq<u8>,
    paths: Seq<Seq<u8>>,
    contents: Seq<ContentsView>,
)
    requires
        result.sums_up(root, paths, contents),
    ensures
        result@ == summary(root, paths, contents),
{
    let hits = all_hits(root, paths, contents);
    index_is_unique(found_views(result.urls@), index_of(hits), hits);
}

proof fn sightings_are_of_links(file: Seq<u8>, text: Seq<char>, spans: Seq<(int, int)>)
    ensures
        of_links(hits_among(file, text, spans)),
    decreases spans.len(),
{
    if spans.len() > 0 {
        let before = hits_among(file, text, spans.drop_last());
        let all = hits_among(file, text, spans);
        sightings_are_of_links(file, text, spans.drop_last());
        let (start, end) = spans.last();
        let candidate = text.subrange(start, end);
        if parsed(candidate) is Some {
            links_are_read_back(unclosed(candidate));
        }
        assert forall|k: int| #![trigger all[k]] 0 <= k < all.len() implies link_of(
            all[k].url.text,
        ) == Some(all[k].url) by {
            if k < before.len() {
                assert(all[k] == before[k]);
            }
        }
    }
}

proof fn all_hits_are_of_links(root: Seq<u8>, paths: Seq<Seq<u8>>, contents: Seq<ContentsView>)
    ensures
        of_links(all_hits(root, paths, contents)),
    decreases contents.len(),
{
    if contents.len() > 0 {
        let before = all_hits(root, paths, contents.drop_last());
        let file = joined(root, paths[contents.len() - 1]);
        let added = file_hits(file, contents.last());
        let all = all_hits(root, paths, contents);
        all_hits_are_of_links(root, paths, contents.drop_last());
        if let Ok(bytes) = contents.last() {
            if valid_utf8(bytes) {
                let text = decode_utf8(bytes);
                sightings_are_of_links(file, text, candidates(text, 0));
            }
        }
        assert forall|k: int| #![trigger all[k]] 0 <= k < all.len() implies link_of(
            all[k].url.text,
        ) == Some(all[k].url) by {
            if k < before.len() {
                assert(all[k] == before[k]);
            } else {
                assert(all[k] == added[k - before.len()]);
            }
        }
    }
}

/// A directory comes to the index of all links of its files: each link once, in the order of their
/// texts, with all the places where it stands and no other.
pub proof fn summaries_index_all_links(
    root: Seq<u8>,
    paths: Seq<Seq<u8>>,
    contents: Seq<ContentsView>,
)
    ensures
        indexes(summary(root, paths, contents).urls, all_hits(root, paths, contents)),
{
    all_hits_are_of_links(root, paths, contents);
    sightings_have_an_index(all_hits(root, paths, contents));
}

// ---------------------------------------------------------------------------------------------
// The plan of a scan
// ---------------------------------------------------------------------------------------------

/// What is made of a reply: the tracked files.
pub open spec fn listed_made(root: Seq<u8>) -> spec_fn(ReplyView) -> Result<
    Seq<Seq<u8>>,
    FailureView,
> {
    |reply: ReplyView| listed(root, reply)
}

/// The plan to list the tracked files.
pub open spec fn list_plan(root: Seq<u8>) -> Plan<Result<Seq<Seq<u8>>, FailureView>> {
    ask_once(list_command(root), listed_made(root))
}

/// The naming of a file of a listing.
pub open spec fn naming(paths: Seq<Seq<u8>>, i: int) -> Act {
    Act::Name { path: paths[i], index: (i + 1) as nat, total: paths.len() }
}

/// The plan to read the files of a listing from `at` on: each is named, and then read.
pub open spec fn files_plan(
    root: Seq<u8>,
    paths: Seq<Seq<u8>>,
    at: int,
    contents: Seq<ContentsView>,
) -> Plan<Seq<ContentsView>>
    decreases paths.len() - at, 1int,
{
    if at >= paths.len() {
        Plan::Done(contents)
    } else {
        Plan::Do(
            naming(paths, at),
            |answer: Answer|
                read_plan(joined(root, paths[at])).then_by(files_next(root, paths, at, contents)),
        )
    }
}

/// What follows once one file was read.
pub open spec fn files_next(
    root: Seq<u8>,
    paths: Seq<Seq<u8>>,
    at: int,
    contents: Seq<ContentsView>,
) -> spec_fn(ContentsView) -> Plan<Seq<ContentsView>>
    decreases paths.len() - at, 0int,
{
    |held: ContentsView|
        if at >= paths.len() {
            Plan::Done(contents)
        } else {
            files_plan(root, paths, at + 1, contents.push(held))
        }
}

/// What is made of the contents of the files of a listing.
pub open spec fn summary_made(root: Seq<u8>, paths: Seq<Seq<u8>>) -> spec_fn(
    Seq<ContentsView>,
) -> Result<ScanView, FailureView> {
    |contents: Seq<ContentsView>| Ok(summary(root, paths, contents))
}

/// What follows once the tracked files are listed.
pub open spec fn listed_next(root: Seq<u8>) -> spec_fn(Seq<Seq<u8>>) -> Plan<
    Result<ScanView, FailureView>,
> {
    |paths: Seq<Seq<u8>>|
        files_plan(root, paths, 0, Seq::empty()).map_by(summary_made(root, paths))
}

/// The plan of a scan: the tracked files are listed, and then each is named and read. Where they
/// cannot be listed, no file is named.
pub open spec fn scan_plan(root: Seq<u8>) -> Plan<Result<ScanView, FailureView>> {
    list_plan(root).and_by(listed_next(root))
}

/// What a scan comes to, or why it does not, as parts.
pub open spec fn scan_view(result: Result<ScanResult, Failure>) -> Result<ScanView, FailureView> {
    match result {
        Ok(found) => Ok(found@),
        Err(failure) => Err(failure@),
    }
}

/// The calls that name the files of a listing: as many as there are files, each with its path,
/// its number and the number of all.
pub open spec fn calls_for(paths: Seq<Seq<u8>>) -> Seq<FileCall> {
    Seq::new(
        paths.len(),
        |i: int| FileCall { path: paths[i], index: (i + 1) as nat, total: paths.len() },
    )
}

/// Whether the files of a listing were read in these parts of a log, each named first.
pub open spec fn files_read_in(
    root: Seq<u8>,
    paths: Seq<Seq<u8>>,
    contents: Seq<ContentsView>,
    pieces: Seq<Piece>,
) -> bool {
    &&& contents.len() == paths.len()
    &&& pieces.len() == paths.len()
    &&& forall|k: int|
        #![trigger pieces[k]]
        0 <= k < pieces.len() ==> pieces[k].told.act == naming(paths, k) && read_plan(
            joined(root, paths[k]),
        ).ran(pieces[k].steps, contents[k])
}

proof fn files_split(
    root: Seq<u8>,
    paths: Seq<Seq<u8>>,
    at: int,
    contents: Seq<ContentsView>,
    steps: Seq<Step>,
    result: Seq<ContentsView>,
) -> (pieces: Seq<Piece>)
    requires
        0 <= at <= paths.len(),
        contents.len() == at,
        files_plan(root, paths, at, contents).ran(steps, result),
    ensures
        steps == chained(pieces),
        result.len() == paths.len(),
        result.take(at) == contents,
        pieces.len() == paths.len() - at,
        forall|k: int|
            #![trigger pieces[k]]
            0 <= k < pieces.len() ==> pieces[k].told.act == naming(paths, at + k) && read_plan(
                joined(root, paths[at + k]),
            ).ran(pieces[k].steps, result[at + k]),
    decreases paths.len() - at,
{
    let plan = files_plan(root, paths, at, contents);
    first_step(plan, steps, result);
    if at == paths.len() {
        assert(result.take(at) == contents);
        Seq::empty()
    } else {
        let part = read_plan(joined(root, paths[at]));
        let next = files_next(root, paths, at, contents);
        let (a, held, b) = chains_split(part, next, steps.skip(1), result);
        let more = files_split(root, paths, at + 1, contents.push(held), b, result);
        let piece = Piece { told: steps[0], steps: a };
        let pieces = seq![piece] + more;
        assert(pieces.skip(1) == more);
        assert(steps == seq![steps[0]] + steps.skip(1));
        assert(steps == seq![steps[0]] + a + chained(more));
        assert(result.take(at) == result.take(at + 1).take(at));
        assert(result.take(at) == contents);
        assert(result[at] == result.take(at + 1)[at]);
        assert forall|k: int| #![trigger pieces[k]] 0 <= k < pieces.len() implies
            pieces[k].told.act == naming(paths, at + k) && read_plan(
            joined(root, paths[at + k]),
        ).ran(pieces[k].steps, result[at + k]) by {
            if k > 0 {
                assert(pieces[k] == more[k - 1]);
            }
        }
        pieces
    }
}

proof fn reads_name_nothing(path: Seq<u8>, steps: Seq<Step>, contents: ContentsView)
    requires
        read_plan(path).ran(steps, contents),
    ensures
        named_files(steps) == Seq::<FileCall>::empty(),
{
    tracked_paths_are_read_as_stored(path, steps, contents);
    let none = Seq::<Step>::empty();
    assert(named_files(none) == Seq::<FileCall>::empty());
    let one = steps.take(1);
    assert(one.drop_last() == none);
    assert(one.last() == steps[0]);
    assert(named_files(one) == Seq::<FileCall>::empty());
    if steps.len() == 1 {
        assert(steps == one);
    } else {
        assert(steps.drop_last() == one);
        assert(steps.last() == steps[1]);
    }
}

proof fn pieces_name_the_files(
    root: Seq<u8>,
    paths: Seq<Seq<u8>>,
    contents: Seq<ContentsView>,
    pieces: Seq<Piece>,
    at: int,
)
    requires
        files_read_in(root, paths, contents, pieces),
        0 <= at <= pieces.len(),
    ensures
        named_files(chained(pieces.skip(at))) == calls_for(paths).skip(at),
    decreases pieces.len() - at,
{
    let all = calls_for(paths);
    let rest = pieces.skip(at);
    if at == pieces.len() {
        assert(chained(rest) == Seq::<Step>::empty());
        assert(all.skip(at) == Seq::<FileCall>::empty());
    } else {
        let piece = pieces[at];
        let one = seq![piece.told];
        assert(rest[0] == piece);
        assert(rest.skip(1) == pieces.skip(at + 1));
        pieces_name_the_files(root, paths, contents, pieces, at + 1);
        reads_name_nothing(joined(root, paths[at]), piece.steps, contents[at]);
        named_files_add(one, piece.steps);
        named_files_add(one + piece.steps, chained(pieces.skip(at + 1)));
        assert(one.drop_last() == Seq::<Step>::empty());
        assert(named_files(one.drop_last()) == Seq::<FileCall>::empty());
        assert(named_files(one) == seq![all[at]]);
        assert(named_files(chained(rest)) =~= all.skip(at));
    }
}

/// A scan lists the tracked files once. Where that fails, it names and reads none. Else each file
/// is named once and then read once, in the order of the listing, with its number and the number
/// of all files, and what was read is what is summed up.
pub proof fn scans_name_each_file_once(
    root: Seq<u8>,
    steps: Seq<Step>,
    result: Result<ScanView, FailureView>,
) -> (parts: (Seq<ContentsView>, Seq<Piece>))
    requires
        scan_plan(root).ran(steps, result),
    ensures
        steps.len() > 0,
        steps[0].act == Act::Run(list_command(root)),
        match listed(root, steps[0].answer->Reply_0) {
            Err(failure) => {
                &&& result == Err::<ScanView, _>(failure)
                &&& steps.len() == 1
                &&& named_files(steps) == Seq::<FileCall>::empty()
                &&& parts.1.len() == 0
            },
            Ok(paths) => {
                &&& files_read_in(root, paths, parts.0, parts.1)
                &&& result == Ok::<_, FailureView>(summary(root, paths, parts.0))
                &&& named_files(steps) == calls_for(paths)
            },
        },
        steps == seq![steps[0]] + chained(parts.1),
{
    let (a, paths, b) = attempts_split(list_plan(root), listed_next(root), steps, result);
    one_run(list_command(root), listed_made(root), a, paths);
    assert(steps[0] == a[0]);
    assert(a == seq![steps[0]]);
    assert(a.drop_last() == Seq::<Step>::empty());
    assert(named_files(a.drop_last()) == Seq::<FileCall>::empty());
    assert(named_files(a) == Seq::<FileCall>::empty());
    match paths {
        Err(failure) => {
            assert(steps == a);
            let none = Seq::<Piece>::empty();
            assert(steps == seq![steps[0]] + chained(none));
            (Seq::empty(), none)
        },
        Ok(list) => {
            let contents = made_by_the_same_steps(
                files_plan(root, list, 0, Seq::empty()),
                summary_made(root, list),
                b,
                result,
            );
            let pieces = files_split(root, list, 0, Seq::empty(), b, contents);
            pieces_name_the_files(root, list, contents, pieces, 0);
            assert(pieces.skip(0) == pieces);
            assert(calls_for(list).skip(0) == calls_for(list));
            named_files_add(a, b);
            assert(named_files(steps) =~= calls_for(list));
            (contents, pieces)
        },
    }
}

/// Whether every file that is read was found, right before, to be no symbolic link.
pub open spec fn follows_no_link(steps: Seq<Step>) -> bool {
    forall|i: int|
        0 <= i < steps.len() ==> ((#[trigger] steps[i]).act matches Act::ReadFile(path) ==> i > 0
            && steps[i - 1].act == Act::Kind(path) && steps[i - 1].answer == Answer::Kind(
            Ok(false),
        ))
}

proof fn no_link_is_followed_after(a: Seq<Step>, b: Seq<Step>)
    requires
        follows_no_link(a),
        follows_no_link(b),
    ensures
        follows_no_link(a + b),
{
    let all = a + b;
    assert forall|i: int| 0 <= i < all.len() implies ((
    #[trigger] all[i]).act matches Act::ReadFile(path) ==> i > 0 && all[i - 1].act == Act::Kind(
        path,
    ) && all[i - 1].answer == Answer::Kind(Ok(false))) by {
        if i < a.len() {
            assert(all[i] == a[i]);
            if i > 0 {
                assert(all[i - 1] == a[i - 1]);
            }
        } else {
            let k = i - a.len();
            assert(all[i] == b[k]);
            if k > 0 {
                assert(all[i - 1] == b[k - 1]);
            }
        }
    }
}

proof fn one_read_follows_no_link(path: Seq<u8>, steps: Seq<Step>, contents: ContentsView)
    requires
        read_plan(path).ran(steps, contents),
    ensures
        follows_no_link(steps),
{
    tracked_paths_are_read_as_stored(path, steps, contents);
}

proof fn reads_follow_no_link(
    root: Seq<u8>,
    paths: Seq<Seq<u8>>,
    contents: Seq<ContentsView>,
    pieces: Seq<Piece>,
    at: int,
)
    requires
        files_read_in(root, paths, contents, pieces),
        0 <= at <= pieces.len(),
    ensures
        follows_no_link(chained(pieces.skip(at))),
    decreases pieces.len() - at,
{
    let rest = pieces.skip(at);
    if at < pieces.len() {
        let piece = pieces[at];
        let one = seq![piece.told];
        assert(rest[0] == piece);
        assert(rest.skip(1) == pieces.skip(at + 1));
        reads_follow_no_link(root, paths, contents, pieces, at + 1);
        one_read_follows_no_link(joined(root, paths[at]), piece.steps, contents[at]);
        assert(follows_no_link(one));
        no_link_is_followed_after(one, piece.steps);
        no_link_is_followed_after(one + piece.steps, chained(pieces.skip(at + 1)));
    }
}

/// Symbolic links are never followed: whatever a scan reads as a file, it asked about right before,
/// and was told that it is no link.
pub proof fn links_are_never_followed(
    root: Seq<u8>,
    steps: Seq<Step>,
    result: Result<ScanView, FailureView>,
)
    requires
        scan_plan(root).ran(steps, result),
    ensures
        follows_no_link(steps),
{
    let (contents, pieces) = scans_name_each_file_once(root, steps, result);
    let one = seq![steps[0]];
    assert(follows_no_link(one));
    match listed(root, steps[0].answer->Reply_0) {
        Err(_) => {
            assert(steps == one);
        },
        Ok(paths) => {
            reads_follow_no_link(root, paths, contents, pieces, 0);
            assert(pieces.skip(0) == pieces);
            no_link_is_followed_after(one, chained(pieces));
        },
    }
}

// ---------------------------------------------------------------------------------------------
// The scan itself
// ---------------------------------------------------------------------------------------------

/// The tracked files, or why they are not known, as bytes.
pub open spec fn paths_view(result: Result<Vec<Vec<u8>>, Failure>) -> Result<
    Seq<Seq<u8>>,
    FailureView,
> {
    match result {
        Ok(paths) => Ok(byte_views(paths@)),
        Err(failure) => Err(failure@),
    }
}

/// Asks Git for the tracked files of a repository.
fn list_files<T: Tree>(root: &[u8], tree: &mut T) -> (result: Result<Vec<Vec<u8>>, Failure>)
    requires
        old(tree).ready(),
    ensures
        did(*old(tree), *final(tree), list_plan(root@), paths_view(result)),
{
    let command = Command {
        repository: Some(copy_bytes(root)),
        args: vec!["ls-files".to_owned(), "-z".to_owned()],
        target: None,
    };
    assert(command@.args == list_command(root@).args);
    let ghost start = *tree;
    let reply = tree.run(command);
    proof {
        ran_once(start, *tree, list_command(root@), listed_made(root@), reply@);
    }
    paths_of_reply(root, reply)
}

/// Names and reads one more file of a listing.
fn scan_file<T: Tree>(
    root: &[u8],
    paths: &Vec<Vec<u8>>,
    i: usize,
    tree: &mut T,
    result: &mut ScanResult,
    Ghost(start): Ghost<T>,
    Ghost(contents): Ghost<Seq<ContentsView>>,
) -> (held: Ghost<ContentsView>)
    requires
        i < paths@.len(),
        old(tree).ready(),
        contents.len() == i,
        on_course(
            start,
            *old(tree),
            files_plan(root@, byte_views(paths@), 0, Seq::empty()),
            files_plan(root@, byte_views(paths@), i as int, contents),
        ),
        old(result).sums_up(root@, byte_views(paths@), contents),
    ensures
        final(tree).ready(),
        on_course(
            start,
            *final(tree),
            files_plan(root@, byte_views(paths@), 0, Seq::empty()),
            files_plan(root@, byte_views(paths@), i + 1, contents.push(held@)),
        ),
        final(result).sums_up(root@, byte_views(paths@), contents.push(held@)),
{
    let ghost listing = byte_views(paths@);
    let ghost whole = files_plan(root@, listing, 0, Seq::empty());
    let ghost plan = files_plan(root@, listing, i as int, contents);
    let ghost earlier = *tree;
    assert(listing[i as int] == paths@[i as int]@);
    let total: usize = paths.len();
    tree.name(&paths[i], i + 1, total);
    let ghost named = *tree;
    proof {
        steps_on(
            start,
            earlier,
            named,
            whole,
            naming(listing, i as int),
            plan->Do_1,
            Answer::Nothing,
        );
    }
    let file = join_path(root, paths[i].as_slice());
    let held = read_tracked_path(tree, &file);
    let ghost known = contents_view(held);
    let ghost more = contents.push(known);
    let ghost before = found_views(result.urls@);
    proof {
        continues(
            start,
            named,
            *tree,
            whole,
            read_plan(file@),
            files_next(root@, listing, i as int, contents),
            known,
        );
        reveal(is_index);
        assert(indexes(before, all_hits(root@, listing, contents)));
    }
    result.add_file(file.as_slice(), held);
    proof {
        index_grows(
            before,
            found_views(result.urls@),
            all_hits(root@, listing, contents),
            file_hits(file@, known),
        );
        assert(more.drop_last() == contents);
    }
    assert(result.sums_up(root@, listing, more));
    Ghost(known)
}

/// Names and reads all files of a listing.
fn scan_files<T: Tree>(root: &[u8], paths: Vec<Vec<u8>>, tree: &mut T) -> (result: ScanResult)
    requires
        old(tree).ready(),
    ensures
        did(
            *old(tree),
            *final(tree),
            files_plan(root@, byte_views(paths@), 0, Seq::empty()).map_by(
                summary_made(root@, byte_views(paths@)),
            ),
            Ok(result@),
        ),
{
    let ghost start = *tree;
    let ghost listing = byte_views(paths@);
    let ghost whole = files_plan(root@, listing, 0, Seq::empty());
    let ghost mut contents: Seq<ContentsView> = Seq::empty();
    let mut result = ScanResult::empty();
    proof {
        starts(start, whole);
        assert(result.sums_up(root@, listing, Seq::empty()));
    }
    for i in 0..paths.len()
        invariant
            start == *old(tree),
            tree.ready(),
            listing == byte_views(paths@),
            whole == files_plan(root@, listing, 0, Seq::empty()),
            contents.len() == i,
            on_course(start, *tree, whole, files_plan(root@, listing, i as int, contents)),
            result.sums_up(root@, listing, contents),
    {
        let Ghost(held) = scan_file(
            root,
            &paths,
            i,
            tree,
            &mut result,
            Ghost(start),
            Ghost(contents),
        );
        proof {
            contents = contents.push(held);
        }
    }
    proof {
        ends(start, *tree, whole, contents);
        makes(start, *tree, whole, summary_made(root@, listing), contents);
        summaries_are_determined(result, root@, listing, contents);
    }
    result
}

/// Scans the tracked files of a repository.
pub fn scan_tree<T: Tree>(root: &[u8], tree: &mut T) -> (result: Result<ScanResult, Failure>)
    requires
        old(tree).ready(),
    ensures
        did(*old(tree), *final(tree), scan_plan(root@), scan_view(result)),
{
    let ghost start = *tree;
    let ghost next = listed_next(root@);
    let listed = list_files(root, tree);
    let ghost asked = *tree;
    proof {
        begins_trying(start, asked, list_plan(root@), next, paths_view(listed));
    }
    match listed {
        Err(failure) => Err(failure),
        Ok(paths) => {
            let ghost listing = byte_views(paths@);
            let result = scan_files(root, paths, tree);
            proof {
                finishes(start, asked, *tree, scan_plan(root@), next(listing), Ok(result@));
            }
            Ok(result)
        },
    }
}

/// Whether a scan may have come to a result: some steps carry out its plan, and every answer is one
/// that the tree may give. The log that fixes which steps were taken is that of [`scan_tree`].
pub open spec fn scanned(
    may: Answers,
    root: Seq<u8>,
    result: Result<ScanView, FailureView>,
) -> bool {
    exists|steps: Seq<Step>| #[trigger]
        scan_plan(root).ran(steps, result) && allowed(may, steps)
}

/// Scans the tracked files of a repository. Before each file is read, `on_file` is told its path
/// below the root, its number, counted from one, and the number of all files.
pub fn scan_with_counted<
    G: FnMut(&Command) -> Reply,
    K: FnMut(&Vec<u8>) -> Kind,
    V: FnMut(&Vec<u8>) -> Contents,
    F: FnMut(&Vec<u8>) -> Contents,
    P: FnMut(&Vec<u8>, usize, usize),
>(root: &[u8], git: G, disk: Disk<K, V, F>, on_file: P) -> (result: Result<ScanResult, Failure>)
    requires
        can_run(git),
        disk.answers(),
        can_hear(on_file),
    ensures
        scanned(tree_of(git, disk, true, counts_files(on_file)), root@, scan_view(result)),
{
    let mut tree = Files::new(git, disk, CountedFiles::new(on_file));
    scan_tree(root, &mut tree)
}

/// Scans the tracked files of a repository, and tells `on_file` of each file before it is read.
pub fn scan_with<
    G: FnMut(&Command) -> Reply,
    K: FnMut(&Vec<u8>) -> Kind,
    V: FnMut(&Vec<u8>) -> Contents,
    F: FnMut(&Vec<u8>) -> Contents,
    P: FnMut(&Vec<u8>),
>(root: &[u8], git: G, disk: Disk<K, V, F>, on_file: P) -> (result: Result<ScanResult, Failure>)
    requires
        can_run(git),
        disk.answers(),
        can_hear_path(on_file),
    ensures
        scanned(tree_of(git, disk, true, names_files(on_file)), root@, scan_view(result)),
{
    let mut tree = Files::new(git, disk, NamedFiles::new(on_file));
    scan_tree(root, &mut tree)
}

/// Scans the tracked files of a repository.
pub fn scan<
    G: FnMut(&Command) -> Reply,
    K: FnMut(&Vec<u8>) -> Kind,
    V: FnMut(&Vec<u8>) -> Contents,
    F: FnMut(&Vec<u8>) -> Contents,
>(root: &[u8], git: G, disk: Disk<K, V, F>) -> (result: Result<ScanResult, Failure>)
    requires
        can_run(git),
        disk.answers(),
    ensures
        scanned(tree_of(git, disk, false, names_nothing()), root@, scan_view(result)),
{
    let mut tree = Files::new(git, disk, NoFiles);
    scan_tree(root, &mut tree)
}

// ---------------------------------------------------------------------------------------------
// What a scan depends on
// ---------------------------------------------------------------------------------------------

/// Whether a function has one answer for each path.
pub open spec fn reads_once<R: FnMut(&Vec<u8>) -> Contents>(read: R) -> bool {
    forall|path: Seq<u8>, a: ContentsView, b: ContentsView| #[trigger]
        reads(read, path, a) && #[trigger] reads(read, path, b) ==> a == b
}

/// Whether a tree stands still: Git has one reply to each command, with the same exit code, output
/// and words, and of each path the file system says the same.
pub open spec fn stands_still<
    G: FnMut(&Command) -> Reply,
    K: FnMut(&Vec<u8>) -> Kind,
    V: FnMut(&Vec<u8>) -> Contents,
    F: FnMut(&Vec<u8>) -> Contents,
>(git: G, disk: Disk<K, V, F>) -> bool {
    &&& replies_once(git)
    &&& forall|path: Seq<u8>, a: Result<bool, Seq<char>>, b: Result<bool, Seq<char>>| #[trigger]
        tells(disk.is_link, path, a) && #[trigger] tells(disk.is_link, path, b) ==> a == b
    &&& reads_once(disk.read_link)
    &&& reads_once(disk.read_file)
}

/// The tree in which each question has the answer that these functions give.
pub open spec fn only_tree<
    G: FnMut(&Command) -> Reply,
    K: FnMut(&Vec<u8>) -> Kind,
    V: FnMut(&Vec<u8>) -> Contents,
    F: FnMut(&Vec<u8>) -> Contents,
>(git: G, disk: Disk<K, V, F>) -> spec_fn(Act) -> Answer {
    |act: Act|
        match act {
            Act::Run(command) => Answer::Reply(
                choose|reply: ReplyView| #[trigger] replies(git, command, reply),
            ),
            Act::Kind(path) => Answer::Kind(
                choose|kind: Result<bool, Seq<char>>| #[trigger] tells(disk.is_link, path, kind),
            ),
            Act::ReadLink(path) => Answer::Contents(
                choose|contents: ContentsView| #[trigger] reads(disk.read_link, path, contents),
            ),
            Act::ReadFile(path) => Answer::Contents(
                choose|contents: ContentsView| #[trigger] reads(disk.read_file, path, contents),
            ),
            _ => Answer::Nothing,
        }
}

proof fn still_trees_are_fixed<
    G: FnMut(&Command) -> Reply,
    K: FnMut(&Vec<u8>) -> Kind,
    V: FnMut(&Vec<u8>) -> Contents,
    F: FnMut(&Vec<u8>) -> Contents,
>(
    git: G,
    disk: Disk<K, V, F>,
    passes: bool,
    hears: spec_fn(FileCall) -> bool,
    steps: Seq<Step>,
)
    requires
        stands_still(git, disk),
        allowed(tree_of(git, disk, passes, hears), steps),
    ensures
        answered(only_tree(git, disk), steps),
{
    let may = tree_of(git, disk, passes, hears);
    let tree = only_tree(git, disk);
    assert forall|i: int| #![trigger steps[i]] 0 <= i < steps.len() implies steps[i].answer
        == tree(steps[i].act) by {
        let step = steps[i];
        assert(may(step.act, step.answer));
        match step.act {
            Act::Run(command) => {
                assert(replies(git, command, step.answer->Reply_0));
            },
            Act::Kind(path) => {
                assert(tells(disk.is_link, path, step.answer->Kind_0));
            },
            Act::ReadLink(path) => {
                assert(reads(disk.read_link, path, step.answer->Contents_0));
            },
            Act::ReadFile(path) => {
                assert(reads(disk.read_file, path, step.answer->Contents_0));
            },
            _ => {},
        }
    }
}

/// Scans of one tree that stands still come to the same result, whoever is told of the files.
pub proof fn scans_agree<
    G: FnMut(&Command) -> Reply,
    K: FnMut(&Vec<u8>) -> Kind,
    V: FnMut(&Vec<u8>) -> Contents,
    F: FnMut(&Vec<u8>) -> Contents,
>(
    git: G,
    disk: Disk<K, V, F>,
    passes: bool,
    hears: spec_fn(FileCall) -> bool,
    other_passes: bool,
    other_hears: spec_fn(FileCall) -> bool,
    root: Seq<u8>,
    result: Result<ScanView, FailureView>,
    other: Result<ScanView, FailureView>,
)
    requires
        stands_still(git, disk),
        scanned(tree_of(git, disk, passes, hears), root, result),
        scanned(tree_of(git, disk, other_passes, other_hears), root, other),
    ensures
        result == other,
{
    let plan = scan_plan(root);
    let first = tree_of(git, disk, passes, hears);
    let second = tree_of(git, disk, other_passes, other_hears);
    let a = choose|steps: Seq<Step>| #[trigger] plan.ran(steps, result) && allowed(first, steps);
    let b = choose|steps: Seq<Step>| #[trigger] plan.ran(steps, other) && allowed(second, steps);
    still_trees_are_fixed(git, disk, passes, hears, a);
    still_trees_are_fixed(git, disk, other_passes, other_hears, b);
    fixed_worlds_fix_the_course(plan, only_tree(git, disk), a, result, b, other);
}

/// One who is told of files is told of each file of the listing once, in its order, with its
/// number and the number of all; where the files cannot be listed, of none.
pub proof fn listeners_hear_each_file_once<
    G: FnMut(&Command) -> Reply,
    K: FnMut(&Vec<u8>) -> Kind,
    V: FnMut(&Vec<u8>) -> Contents,
    F: FnMut(&Vec<u8>) -> Contents,
    L: FileListener,
>(
    root: Seq<u8>,
    before: Files<G, K, V, F, L>,
    after: Files<G, K, V, F, L>,
    result: Result<ScanView, FailureView>,
)
    requires
        before.log() == Seq::<Step>::empty(),
        did(before, after, scan_plan(root), result),
        after.listener().passes(),
    ensures
        match listed(root, after.log()[0].answer->Reply_0) {
            Ok(paths) => result is Ok && after.listener().heard() == calls_for(paths),
            Err(failure) => result == Err::<ScanView, _>(failure) && after.listener().heard()
                == Seq::<FileCall>::empty(),
        },
{
    let plan = scan_plan(root);
    let steps = choose|steps: Seq<Step>| #[trigger]
        plan.ran(steps, result) && after.log() == before.log() + steps && allowed(
            before.may(),
            steps,
        );
    assert(before.log() + steps == steps);
    let parts = scans_name_each_file_once(root, steps, result);
    after.listener_heard_the_log();
}

// ---------------------------------------------------------------------------------------------
// No file, no link and no failure is left out
// ---------------------------------------------------------------------------------------------

/// Every tracked file is read back from the listing, in its order: whatever paths are listed, each
/// with a NUL behind it, those are the paths, with none left out and none added. That is so of all
/// paths that there can be, which are not empty and hold no NUL.
pub proof fn listed_paths_are_read_back(root: Seq<u8>, paths: Seq<Seq<u8>>, output: OutputView)
    requires
        forall|i: int| 0 <= i < paths.len() ==> (#[trigger] paths[i]).len() > 0,
        forall|i: int| 0 <= i < paths.len() ==> !(#[trigger] paths[i]).contains(0u8),
        output.code == Some(0i32),
        output.stdout == ended(paths, 0u8),
    ensures
        tracked_paths(ended(paths, 0u8)) == paths,
        listed(root, ReplyView::Finished(output)) == Ok::<_, FailureView>(paths),
{
    ended_pieces_are_split_again(paths, 0u8);
    full_pieces_stay(paths);
    assert((|path: Seq<u8>| path.len() > 0) =~= (|piece: Seq<u8>| piece.len() > 0));
}

/// Files are listed only by a run of Git that did its work; else the scan says why there are none.
pub proof fn listings_that_fail_list_nothing(root: Seq<u8>, reply: ReplyView)
    ensures
        match reply {
            ReplyView::Unstarted(reason) => listed(root, reply) == Err::<Seq<Seq<u8>>, _>(
                FailureView {
                    message: "could not run Git in "@ + shown_path(root),
                    cause: Some(reason),
                },
            ),
            ReplyView::Finished(output) => {
                let words = trimmed(shown_bytes(output.stderr));
                &&& listed(root, reply) is Ok <==> output.code == Some(0i32)
                &&& output.code != Some(0i32) ==> listed(root, reply) == Err::<Seq<Seq<u8>>, _>(
                    FailureView {
                        message: if words.len() == 0 {
                            "could not list tracked files"@
                        } else {
                            "could not list tracked files"@ + ": "@ + words
                        },
                        cause: None,
                    },
                )
            },
        },
{
    reveal_strlit("could not ");
    reveal_strlit("list tracked files");
    reveal_strlit("could not list tracked files");
    assert("could not "@ + "list tracked files"@ =~= "could not list tracked files"@);
}

/// The sightings in a text are its candidates that hold a link, all of them and in their order,
/// each on the line at which it starts.
pub proof fn sightings_are_the_candidates_that_hold_a_link(file: Seq<u8>, text: Seq<char>)
    ensures
        text_hits(file, text) == candidates(text, 0).filter(
            |span: (int, int)| parsed(text.subrange(span.0, span.1)) is Some,
        ).map_values(
            |span: (int, int)|
                Hit {
                    url: parsed(text.subrange(span.0, span.1))->0,
                    place: OccurrenceView {
                        file,
                        line: split(text.take(span.0), '\n').len(),
                    },
                },
        ),
{
    candidates_cover_the_text(text, 0);
    let spans = candidates(text, 0);
    assert forall|i: int| 0 <= i < spans.len() implies 0 <= (#[trigger] spans[i]).0
        <= text.len() by {
        assert(is_span(text, 0, spans[i]));
    }
    sightings_among(file, text, spans);
}

proof fn sightings_among(file: Seq<u8>, text: Seq<char>, spans: Seq<(int, int)>)
    requires
        forall|i: int| 0 <= i < spans.len() ==> 0 <= (#[trigger] spans[i]).0 <= text.len(),
    ensures
        hits_among(file, text, spans) == spans.filter(
            |span: (int, int)| parsed(text.subrange(span.0, span.1)) is Some,
        ).map_values(
            |span: (int, int)|
                Hit {
                    url: parsed(text.subrange(span.0, span.1))->0,
                    place: OccurrenceView {
                        file,
                        line: split(text.take(span.0), '\n').len(),
                    },
                },
        ),
    decreases spans.len(),
{
    let holds = |span: (int, int)| parsed(text.subrange(span.0, span.1)) is Some;
    let hit = |span: (int, int)|
        Hit {
            url: parsed(text.subrange(span.0, span.1))->0,
            place: OccurrenceView { file, line: split(text.take(span.0), '\n').len() },
        };
    reveal(Seq::filter);
    if spans.len() == 0 {
        assert(spans.filter(holds).map_values(hit) =~= Seq::<Hit>::empty());
    } else {
        let front = spans.drop_last();
        let last = spans.last();
        assert forall|i: int| 0 <= i < front.len() implies 0 <= (#[trigger] front[i]).0
            <= text.len() by {
            assert(front[i] == spans[i]);
        }
        assert(spans[spans.len() - 1] == last);
        sightings_among(file, text, front);
        front.lemma_filter_push(last, holds);
        assert(front.push(last) =~= spans);
        lines_are_counted_from_one(text, last.0);
        if holds(last) {
            assert(front.filter(holds).push(last).map_values(hit) =~= front.filter(
                holds,
            ).map_values(hit).push(hit(last)));
        }
    }
}

/// A file that holds text is searched as that text; one that cannot be read, or holds no text, has
/// no links.
pub proof fn files_are_searched_as_text(file: Seq<u8>, text: Seq<char>, contents: ContentsView)
    ensures
        file_hits(file, Ok(encode_utf8(text))) == text_hits(file, text),
        contents is Err ==> file_hits(file, contents).len() == 0,
        contents matches Ok(bytes) && !valid_utf8(bytes) ==> file_hits(file, contents).len() == 0,
{
    encode_utf8_valid_utf8(text);
    encode_utf8_decode_utf8(text);
}

/// The sightings of a scan are those of all its files, one file after another, in the order of the
/// listing.
pub proof fn every_file_adds_its_sightings(
    root: Seq<u8>,
    paths: Seq<Seq<u8>>,
    contents: Seq<ContentsView>,
)
    ensures
        all_hits(root, paths, contents) == Seq::new(
            contents.len(),
            |i: int| file_hits(joined(root, paths[i]), contents[i]),
        ).flatten(),
    decreases contents.len(),
{
    let parts = Seq::new(contents.len(), |i: int| file_hits(joined(root, paths[i]), contents[i]));
    if contents.len() == 0 {
        assert(parts.flatten() =~= Seq::<Hit>::empty());
    } else {
        let front = contents.drop_last();
        let fewer = Seq::new(front.len(), |i: int| file_hits(joined(root, paths[i]), front[i]));
        let last = file_hits(joined(root, paths[contents.len() - 1]), contents.last());
        every_file_adds_its_sightings(root, paths, front);
        assert(parts =~= fewer.push(last));
        fewer.lemma_flatten_push(last);
    }
}

/// Of every file that cannot be read it is said why, with its path before it, and of no other file
/// anything.
pub proof fn every_unread_file_is_reported(
    root: Seq<u8>,
    paths: Seq<Seq<u8>>,
    contents: Seq<ContentsView>,
)
    ensures
        all_errors(root, paths, contents).len() == contents.filter(
            |held: ContentsView| held is Err,
        ).len(),
        forall|i: int|
            #![trigger contents[i]]
            0 <= i < contents.len() ==> (contents[i] matches Err(reason) ==> all_errors(
                root,
                paths,
                contents,
            ).contains(shown_path(joined(root, paths[i])) + ": "@ + reason)),
    decreases contents.len(),
{
    let unread = |held: ContentsView| held is Err;
    let all = all_errors(root, paths, contents);
    reveal(Seq::filter);
    if contents.len() > 0 {
        let front = contents.drop_last();
        let before = all_errors(root, paths, front);
        every_unread_file_is_reported(root, paths, front);
        front.lemma_filter_push(contents.last(), unread);
        assert(front.push(contents.last()) =~= contents);
        assert forall|i: int| #![trigger contents[i]] 0 <= i < contents.len() implies (
        contents[i] matches Err(reason) ==> all.contains(
            shown_path(joined(root, paths[i])) + ": "@ + reason,
        )) by {
            if let Err(reason) = contents[i] {
                let said = shown_path(joined(root, paths[i])) + ": "@ + reason;
                if i < front.len() {
                    assert(front[i] == contents[i]);
                    let k = before.index_of(said);
                    assert(all[k] == said);
                } else {
                    assert(all[all.len() - 1] == said);
                }
            }
        }
    } else {
        assert(contents.filter(unread).len() == 0);
    }
}

/// What a scan comes to holds every link of every file that it could read, at every place where it
/// stands, and no other.
pub proof fn scans_hold_every_link(
    root: Seq<u8>,
    paths: Seq<Seq<u8>>,
    contents: Seq<ContentsView>,
    k: int,
    hit: Hit,
)
    requires
        0 <= k < contents.len(),
        file_hits(joined(root, paths[k]), contents[k]).contains(hit),
    ensures
        exists|i: int|
            #![trigger summary(root, paths, contents).urls[i]]
            0 <= i < summary(root, paths, contents).urls.len() && summary(
                root,
                paths,
                contents,
            ).urls[i].url == hit.url && summary(root, paths, contents).urls[i].occurrences.contains(
                hit.place,
            ),
{
    summaries_index_all_links(root, paths, contents);
    let hits = all_hits(root, paths, contents);
    file_sightings_are_among_all(root, paths, contents, k, hit);
    indexes_hold_every_sighting(summary(root, paths, contents).urls, hits);
    let n = hits.index_of(hit);
    assert(hits[n] == hit);
}

proof fn file_sightings_are_among_all(
    root: Seq<u8>,
    paths: Seq<Seq<u8>>,
    contents: Seq<ContentsView>,
    k: int,
    hit: Hit,
)
    requires
        0 <= k < contents.len(),
        file_hits(joined(root, paths[k]), contents[k]).contains(hit),
    ensures
        all_hits(root, paths, contents).contains(hit),
    decreases contents.len(),
{
    let front = contents.drop_last();
    let before = all_hits(root, paths, front);
    let all = all_hits(root, paths, contents);
    if k < front.len() {
        file_sightings_are_among_all(root, paths, front, k, hit);
        let n = before.index_of(hit);
        assert(all[n] == hit);
    } else {
        let last = file_hits(joined(root, paths[k]), contents[k]);
        let n = last.index_of(hit);
        assert(all[before.len() + n] == hit);
    }
}

/// Git is asked for the tracked files of a directory by `git ls-files -z` in it.
pub proof fn tracked_files_are_asked_for_once(
    root: Seq<u8>,
    steps: Seq<Step>,
    result: Result<ScanView, FailureView>,
)
    requires
        scan_plan(root).ran(steps, result),
    ensures
        steps.len() > 0,
        steps[0].act == Act::Run(
            CommandView { repository: Some(root), args: seq!["ls-files"@, "-z"@], target: None },
        ),
        forall|i: int| 0 < i < steps.len() ==> !((#[trigger] steps[i]).act is Run),
{
    let (contents, pieces) = scans_name_each_file_once(root, steps, result);
    match listed(root, steps[0].answer->Reply_0) {
        Err(_) => {},
        Ok(paths) => {
            files_run_nothing(root, paths, contents, pieces, 0);
            assert(pieces.skip(0) =~= pieces);
            assert forall|i: int| 0 < i < steps.len() implies !((
            #[trigger] steps[i]).act is Run) by {
                assert(steps[i] == chained(pieces)[i - 1]);
            }
        },
    }
}

proof fn files_run_nothing(
    root: Seq<u8>,
    paths: Seq<Seq<u8>>,
    contents: Seq<ContentsView>,
    pieces: Seq<Piece>,
    at: int,
)
    requires
        files_read_in(root, paths, contents, pieces),
        0 <= at <= pieces.len(),
    ensures
        forall|i: int|
            #![trigger chained(pieces.skip(at))[i]]
            0 <= i < chained(pieces.skip(at)).len() ==> !(chained(pieces.skip(at))[i].act is Run),
    decreases pieces.len() - at,
{
    let rest = pieces.skip(at);
    let all = chained(rest);
    if at < pieces.len() {
        let piece = pieces[at];
        assert(rest[0] == piece);
        assert(rest.skip(1) =~= pieces.skip(at + 1));
        files_run_nothing(root, paths, contents, pieces, at + 1);
        tracked_paths_are_read_as_stored(joined(root, paths[at]), piece.steps, contents[at]);
        let later = chained(pieces.skip(at + 1));
        assert(all =~= seq![piece.told] + piece.steps + later);
        assert forall|i: int| #![trigger all[i]] 0 <= i < all.len() implies !(
        all[i].act is Run) by {
            if i == 0 {
                assert(all[i] == piece.told);
            } else if i < 1 + piece.steps.len() {
                assert(all[i] == piece.steps[i - 1]);
            } else {
                assert(all[i] == later[i - 1 - piece.steps.len()]);
            }
        }
    }
}

} // verus!
