//! The links of a repository, each once, with every place where it stands.

use crate::lines::copy_bytes;
use crate::order::{rank_texts, text_before, text_before_chains, texts_are_comparable, Rank};
use crate::url::{link_of, SourceUrl, SourceUrlView};
use vstd::prelude::*;

verus! {

/// A place where a link stands: a file and a line, counted from one.
#[derive(Debug, PartialEq, Eq)]
pub struct Occurrence {
    pub file: Vec<u8>,
    pub line: usize,
}

/// An [`Occurrence`] as its bytes and number.
pub struct OccurrenceView {
    pub file: Seq<u8>,
    pub line: nat,
}

impl View for Occurrence {
    type V = OccurrenceView;

    open spec fn view(&self) -> OccurrenceView {
        OccurrenceView { file: self.file@, line: self.line as nat }
    }
}

impl Clone for Occurrence {
    fn clone(&self) -> (copy: Occurrence)
        ensures
            copy@ == self@,
    {
        Occurrence { file: copy_bytes(self.file.as_slice()), line: self.line }
    }
}

/// A link and the places where it stands.
#[derive(Debug)]
pub struct FoundUrl {
    pub url: SourceUrl,
    pub occurrences: Vec<Occurrence>,
}

/// A [`FoundUrl`] as its parts.
pub struct FoundUrlView {
    pub url: SourceUrlView,
    pub occurrences: Seq<OccurrenceView>,
}

/// The places of a list.
pub open spec fn occurrence_views(list: Seq<Occurrence>) -> Seq<OccurrenceView> {
    list.map_values(|o: Occurrence| o@)
}

impl View for FoundUrl {
    type V = FoundUrlView;

    open spec fn view(&self) -> FoundUrlView {
        FoundUrlView { url: self.url@, occurrences: occurrence_views(self.occurrences@) }
    }
}

impl Clone for FoundUrl {
    fn clone(&self) -> (copy: FoundUrl)
        ensures
            copy@ == self@,
            copy.url == self.url,
    {
        let mut occurrences: Vec<Occurrence> = Vec::new();
        for i in 0..self.occurrences.len()
            invariant
                occurrence_views(occurrences@) == occurrence_views(self.occurrences@).take(
                    i as int,
                ),
        {
            let ghost before = occurrence_views(occurrences@);
            let place = self.occurrences[i].clone();
            let ghost added = place@;
            occurrences.push(place);
            assert(occurrence_views(occurrences@) == before.push(added));
            assert(occurrence_views(self.occurrences@).take(i + 1) == occurrence_views(
                self.occurrences@,
            ).take(i as int).push(added));
        }
        assert(occurrence_views(self.occurrences@).take(self.occurrences@.len() as int)
            == occurrence_views(self.occurrences@));
        FoundUrl { url: self.url.clone(), occurrences }
    }
}

/// The links of a list, with their places.
pub open spec fn found_views(list: Seq<FoundUrl>) -> Seq<FoundUrlView> {
    list.map_values(|f: FoundUrl| f@)
}

/// One sighting of a link.
pub struct Hit {
    pub url: SourceUrlView,
    pub place: OccurrenceView,
}

/// The places where a link was seen, in the order of the sightings.
pub open spec fn places_of(hits: Seq<Hit>, url: SourceUrlView) -> Seq<OccurrenceView>
    decreases hits.len(),
{
    if hits.len() == 0 {
        Seq::empty()
    } else {
        let before = places_of(hits.drop_last(), url);
        if hits.last().url == url {
            before.push(hits.last().place)
        } else {
            before
        }
    }
}

/// Whether a list of links stands in the order of their texts.
pub open spec fn in_order(found: Seq<FoundUrlView>) -> bool {
    forall|i: int, j: int|
        #![trigger found[i], found[j]]
        0 <= i < j < found.len() ==> text_before(found[i].url.text, found[j].url.text)
}

/// Whether a list holds each link that was seen once, in the order of their texts, with all the
/// places where it was seen and no other.
pub open spec fn indexes(found: Seq<FoundUrlView>, hits: Seq<Hit>) -> bool {
    &&& in_order(found)
    &&& forall|i: int|
        #![trigger found[i]]
        0 <= i < found.len() ==> {
            &&& link_of(found[i].url.text) == Some(found[i].url)
            &&& found[i].occurrences == places_of(hits, found[i].url)
            &&& found[i].occurrences.len() > 0
        }
    &&& forall|k: int|
        #![trigger hits[k]]
        0 <= k < hits.len() ==> exists|i: int|
            #![trigger found[i]]
            0 <= i < found.len() && found[i].url == hits[k].url
    &&& total_places(found) == hits.len()
}

/// The number of places in a list of links.
pub open spec fn total_places(found: Seq<FoundUrlView>) -> nat
    decreases found.len(),
{
    if found.len() == 0 {
        0
    } else {
        total_places(found.drop_last()) + found.last().occurrences.len()
    }
}

proof fn total_places_update(found: Seq<FoundUrlView>, at: int, entry: FoundUrlView)
    requires
        0 <= at < found.len(),
    ensures
        total_places(found.update(at, entry)) == total_places(found) - found[at].occurrences.len()
            + entry.occurrences.len(),
    decreases found.len(),
{
    let changed = found.update(at, entry);
    if at == found.len() - 1 {
        assert(changed.drop_last() == found.drop_last());
    } else {
        assert(changed.drop_last() == found.drop_last().update(at, entry));
        total_places_update(found.drop_last(), at, entry);
    }
}

proof fn total_places_insert(found: Seq<FoundUrlView>, at: int, entry: FoundUrlView)
    requires
        0 <= at <= found.len(),
    ensures
        total_places(found.insert(at, entry)) == total_places(found) + entry.occurrences.len(),
    decreases found.len(),
{
    let changed = found.insert(at, entry);
    if at == found.len() {
        assert(changed.drop_last() == found);
    } else {
        assert(changed.drop_last() == found.drop_last().insert(at, entry));
        total_places_insert(found.drop_last(), at, entry);
    }
}

/// A list that indexes the sightings is the only one: the links, their order and their places are
/// fixed by what was seen.
pub proof fn index_is_unique(a: Seq<FoundUrlView>, b: Seq<FoundUrlView>, hits: Seq<Hit>)
    requires
        indexes(a, hits),
        indexes(b, hits),
    ensures
        a == b,
{
    same_prefix(a, b, hits, if a.len() < b.len() {
        a.len() as int
    } else {
        b.len() as int
    });
    if a.len() < b.len() {
        entry_is_indexed(b, a, hits, a.len() as int);
        let k = choose|k: int|
            #![trigger a[k]]
            0 <= k < a.len() && a[k].url == b[a.len() as int].url;
        assert(a[k] == b[k]);
        texts_are_comparable(b[k].url.text, b[a.len() as int].url.text);
    } else if b.len() < a.len() {
        entry_is_indexed(a, b, hits, b.len() as int);
        let k = choose|k: int|
            #![trigger b[k]]
            0 <= k < b.len() && b[k].url == a[b.len() as int].url;
        assert(a[k] == b[k]);
        texts_are_comparable(a[k].url.text, a[b.len() as int].url.text);
    }
    assert(a =~= b);
}

proof fn seen_url(hits: Seq<Hit>, url: SourceUrlView) -> (k: int)
    requires
        places_of(hits, url).len() > 0,
    ensures
        0 <= k < hits.len(),
        hits[k].url == url,
    decreases hits.len(),
{
    if hits.last().url == url {
        hits.len() - 1
    } else {
        seen_url(hits.drop_last(), url)
    }
}

proof fn entry_is_indexed(a: Seq<FoundUrlView>, b: Seq<FoundUrlView>, hits: Seq<Hit>, i: int)
    requires
        indexes(a, hits),
        indexes(b, hits),
        0 <= i < a.len(),
    ensures
        exists|k: int| #![trigger b[k]] 0 <= k < b.len() && b[k].url == a[i].url,
{
    let entry = a[i];
    let k = seen_url(hits, entry.url);
    let seen = hits[k];
}

proof fn same_prefix(a: Seq<FoundUrlView>, b: Seq<FoundUrlView>, hits: Seq<Hit>, n: int)
    requires
        indexes(a, hits),
        indexes(b, hits),
        0 <= n <= a.len(),
        n <= b.len(),
    ensures
        forall|i: int| 0 <= i < n ==> a[i] == b[i],
    decreases n,
{
    if n > 0 {
        same_prefix(a, b, hits, n - 1);
        let m = n - 1;
        entry_is_indexed(a, b, hits, m);
        entry_is_indexed(b, a, hits, m);
        let k = choose|k: int| #![trigger b[k]] 0 <= k < b.len() && b[k].url == a[m].url;
        let l = choose|l: int| #![trigger a[l]] 0 <= l < a.len() && a[l].url == b[m].url;
        texts_are_comparable(a[m].url.text, b[m].url.text);
        if k < m {
            assert(a[k] == b[k]);
            texts_are_comparable(a[k].url.text, a[m].url.text);
        }
        if l < m {
            assert(a[l] == b[l]);
            texts_are_comparable(b[l].url.text, b[m].url.text);
        }
        if k > m && l > m {
            assert(text_before(b[m].url.text, b[k].url.text));
            assert(text_before(a[m].url.text, a[l].url.text));
        }
        assert(a[m].url == b[m].url);
    }
}

/// Whether a list of links indexes some sightings.
#[verifier::opaque]
pub open spec fn is_index(found: Seq<FoundUrlView>) -> bool {
    exists|hits: Seq<Hit>| indexes(found, hits)
}

/// Whether `after` indexes, behind all that `before` indexes, the sightings `added`.
#[verifier::opaque]
pub open spec fn index_grew(
    before: Seq<FoundUrlView>,
    after: Seq<FoundUrlView>,
    added: Seq<Hit>,
) -> bool {
    forall|hits: Seq<Hit>| #[trigger] indexes(before, hits) ==> indexes(after, hits + added)
}

/// An index that did not change has grown by nothing.
pub proof fn index_stays(found: Seq<FoundUrlView>)
    ensures
        index_grew(found, found, Seq::empty()),
{
    reveal(index_grew);
    assert forall|hits: Seq<Hit>| #[trigger] indexes(found, hits) implies indexes(
        found,
        hits + Seq::empty(),
    ) by {
        assert(hits + Seq::<Hit>::empty() == hits);
    }
}

/// What an index has grown by adds up.
pub proof fn index_growth_chains(
    first: Seq<FoundUrlView>,
    second: Seq<FoundUrlView>,
    third: Seq<FoundUrlView>,
    a: Seq<Hit>,
    b: Seq<Hit>,
)
    requires
        index_grew(first, second, a),
        index_grew(second, third, b),
    ensures
        index_grew(first, third, a + b),
{
    reveal(index_grew);
    assert forall|hits: Seq<Hit>| #[trigger] indexes(first, hits) implies indexes(
        third,
        hits + (a + b),
    ) by {
        assert(indexes(second, hits + a));
        assert((hits + a) + b == hits + (a + b));
    }
}

/// An index that has grown is an index.
pub proof fn grown_index_is_index(
    before: Seq<FoundUrlView>,
    after: Seq<FoundUrlView>,
    added: Seq<Hit>,
)
    requires
        is_index(before),
        index_grew(before, after, added),
    ensures
        is_index(after),
{
    reveal(is_index);
    reveal(index_grew);
    let hits = choose|hits: Seq<Hit>| indexes(before, hits);
    assert(indexes(after, hits + added));
}

/// What indexes some sightings indexes, once it has grown, also those that were added.
pub proof fn index_grows(
    before: Seq<FoundUrlView>,
    after: Seq<FoundUrlView>,
    hits: Seq<Hit>,
    added: Seq<Hit>,
)
    requires
        indexes(before, hits),
        index_grew(before, after, added),
    ensures
        is_index(before),
        is_index(after),
        indexes(after, hits + added),
{
    reveal(is_index);
    reveal(index_grew);
}

/// Where a link with a text stands in a list in order, or where it would have to stand.
fn position(found: &Vec<FoundUrl>, text: &str) -> (result: Result<usize, usize>)
    requires
        in_order(found_views(found@)),
    ensures
        result matches Ok(at) ==> at < found@.len() && found_views(found@)[at as int].url.text
            == text@,
        result matches Err(at) ==> {
            &&& at <= found@.len()
            &&& forall|k: int|
                #![trigger found_views(found@)[k]]
                0 <= k < at ==> text_before(found_views(found@)[k].url.text, text@)
            &&& forall|k: int|
                #![trigger found_views(found@)[k]]
                at <= k < found@.len() ==> text_before(text@, found_views(found@)[k].url.text)
        },
{
    let ghost list = found_views(found@);
    let mut low: usize = 0;
    let mut high: usize = found.len();
    while low < high
        invariant
            list == found_views(found@),
            in_order(list),
            low <= high <= found@.len(),
            forall|k: int|
                #![trigger list[k]]
                0 <= k < low ==> text_before(list[k].url.text, text@),
            forall|k: int|
                #![trigger list[k]]
                high <= k < found@.len() ==> text_before(text@, list[k].url.text),
        decreases high - low,
    {
        let middle: usize = low + (high - low) / 2;
        assert(list[middle as int] == found@[middle as int]@);
        match rank_texts(found[middle].url.text.as_str(), text) {
            Rank::Same => {
                return Ok(middle);
            },
            Rank::Before => {
                assert forall|k: int| #![trigger list[k]] 0 <= k < middle + 1 implies text_before(
                    list[k].url.text,
                    text@,
                ) by {
                    if k < middle {
                        text_before_chains(
                            list[k].url.text,
                            list[middle as int].url.text,
                            text@,
                        );
                    }
                }
                low = middle + 1;
            },
            Rank::After => {
                proof {
                    texts_are_comparable(list[middle as int].url.text, text@);
                }
                assert forall|k: int| #![trigger list[k]] middle <= k < found@.len() implies
                    text_before(text@, list[k].url.text) by {
                    if middle < k {
                        text_before_chains(
                            text@,
                            list[middle as int].url.text,
                            list[k].url.text,
                        );
                    }
                }
                high = middle;
            },
        }
    }
    Err(low)
}

/// Notes one more sighting of a link.
pub fn note(found: &mut Vec<FoundUrl>, url: SourceUrl, place: Occurrence)
    requires
        is_index(found_views(old(found)@)),
        link_of(url@.text) == Some(url@),
    ensures
        index_grew(
            found_views(old(found)@),
            found_views(final(found)@),
            seq![Hit { url: url@, place: place@ }],
        ),
{
    let ghost before = found_views(found@);
    let ghost hit = Hit { url: url@, place: place@ };
    proof {
        reveal(is_index);
        reveal(index_grew);
    }
    match position(found, url.text.as_str()) {
        Ok(middle) => {
            let ghost at = middle as int;
            let ghost entry = FoundUrlView {
                url: url@,
                occurrences: before[at].occurrences.push(place@),
            };
            found[middle].occurrences.push(place);
            proof {
                let after = found_views(found@);
                assert(after[at].occurrences == entry.occurrences);
                assert(before[at].url == url@);
                assert(after == before.update(at, entry));
                total_places_update(before, at, entry);
                assert forall|hits: Seq<Hit>| #[trigger] indexes(before, hits) implies indexes(
                    after,
                    hits + seq![hit],
                ) by {
                    assert(hits + seq![hit] == hits.push(hit));
                    note_keeps_index(before, after, hits, hit, at);
                }
            }
        },
        Err(low) => {
            let ghost at = low as int;
            let mut occurrences: Vec<Occurrence> = Vec::new();
            occurrences.push(place);
            let entry = FoundUrl { url, occurrences };
            let ghost seen = entry@;
            assert(seen.occurrences == seq![place@]);
            found.insert(low, entry);
            proof {
                let after = found_views(found@);
                assert(after == before.insert(at, seen));
                total_places_insert(before, at, seen);
                assert forall|hits: Seq<Hit>| #[trigger] indexes(before, hits) implies indexes(
                    after,
                    hits + seq![hit],
                ) by {
                    assert(hits + seq![hit] == hits.push(hit));
                    assert(hits.push(hit).drop_last() == hits);
                    if places_of(hits, url@).len() > 0 {
                        let k = seen_url(hits, url@);
                        let sighting = hits[k];
                        let i = choose|i: int|
                            #![trigger before[i]]
                            0 <= i < before.len() && before[i].url == url@;
                        texts_are_comparable(before[i].url.text, url@.text);
                        assert(false);
                    }
                    assert(places_of(hits, url@) == Seq::<OccurrenceView>::empty());
                    assert(places_of(hits.push(hit), url@) == seq![place@]);
                    insert_keeps_index(before, after, hits, hit, at);
                }
            }
        },
    }
}

proof fn note_keeps_index(
    before: Seq<FoundUrlView>,
    after: Seq<FoundUrlView>,
    hits: Seq<Hit>,
    hit: Hit,
    at: int,
)
    requires
        indexes(before, hits),
        0 <= at < before.len(),
        before[at].url == hit.url,
        after == before.update(
            at,
            FoundUrlView { url: hit.url, occurrences: before[at].occurrences.push(hit.place) },
        ),
        total_places(after) == hits.len() + 1,
    ensures
        indexes(after, hits.push(hit)),
{
    let all = hits.push(hit);
    assert(all.drop_last() == hits);
    assert forall|i: int, j: int|
        #![trigger after[i], after[j]]
        0 <= i < j < after.len() implies text_before(after[i].url.text, after[j].url.text) by {
        assert(after[i].url == before[i].url);
        assert(after[j].url == before[j].url);
    }
    assert forall|i: int| #![trigger after[i]] 0 <= i < after.len() implies link_of(
        after[i].url.text,
    ) == Some(after[i].url) && after[i].occurrences == places_of(all, after[i].url)
        && after[i].occurrences.len() > 0 by {
        assert(after[i].url == before[i].url);
        if i < at {
            texts_are_comparable(before[i].url.text, before[at].url.text);
        } else if i > at {
            texts_are_comparable(before[at].url.text, before[i].url.text);
        }
    }
    assert forall|k: int| #![trigger all[k]] 0 <= k < all.len() implies exists|i: int|
        #![trigger after[i]]
        0 <= i < after.len() && after[i].url == all[k].url by {
        if k == hits.len() {
            assert(after[at].url == all[k].url);
        } else {
            assert(all[k] == hits[k]);
            let i = choose|i: int| #![trigger before[i]] 0 <= i < before.len() && before[i].url
                == hits[k].url;
            assert(after[i].url == before[i].url);
        }
    }
}

proof fn insert_keeps_index(
    before: Seq<FoundUrlView>,
    after: Seq<FoundUrlView>,
    hits: Seq<Hit>,
    hit: Hit,
    at: int,
)
    requires
        indexes(before, hits),
        0 <= at <= before.len(),
        link_of(hit.url.text) == Some(hit.url),
        forall|k: int|
            #![trigger before[k]]
            0 <= k < at ==> text_before(before[k].url.text, hit.url.text),
        forall|k: int|
            #![trigger before[k]]
            at <= k < before.len() ==> text_before(hit.url.text, before[k].url.text),
        after == before.insert(at, FoundUrlView { url: hit.url, occurrences: seq![hit.place] }),
        places_of(hits.push(hit), hit.url) == seq![hit.place],
        total_places(after) == hits.len() + 1,
    ensures
        indexes(after, hits.push(hit)),
{
    let all = hits.push(hit);
    assert(all.drop_last() == hits);
    assert(after[at].url == hit.url);
    assert forall|i: int| 0 <= i < before.len() implies (if i < at {
        #[trigger] before[i] == after[i]
    } else {
        before[i] == after[i + 1]
    }) by {}
    assert forall|i: int, j: int|
        #![trigger after[i], after[j]]
        0 <= i < j < after.len() implies text_before(after[i].url.text, after[j].url.text) by {
        let bi = if i < at {
            before[i]
        } else {
            before[i - 1]
        };
        let bj = if j < at {
            before[j]
        } else {
            before[j - 1]
        };
    }
    assert forall|i: int| #![trigger after[i]] 0 <= i < after.len() implies link_of(
        after[i].url.text,
    ) == Some(after[i].url) && after[i].occurrences == places_of(all, after[i].url)
        && after[i].occurrences.len() > 0 by {
        if i < at {
            assert(after[i] == before[i]);
            texts_are_comparable(before[i].url.text, hit.url.text);
        } else if i > at {
            assert(after[i] == before[i - 1]);
            texts_are_comparable(hit.url.text, before[i - 1].url.text);
        }
    }
    assert forall|k: int| #![trigger all[k]] 0 <= k < all.len() implies exists|i: int|
        #![trigger after[i]]
        0 <= i < after.len() && after[i].url == all[k].url by {
        if k == hits.len() {
            assert(after[at].url == all[k].url);
        } else {
            assert(all[k] == hits[k]);
            let i = choose|i: int| #![trigger before[i]] 0 <= i < before.len() && before[i].url
                == hits[k].url;
            if i < at {
                assert(after[i] == before[i]);
            } else {
                assert(after[i + 1] == before[i]);
            }
        }
    }
}

/// Where a text stands among links in order: at a link with that text, or right before a later
/// one.
proof fn place_of_text(found: Seq<FoundUrlView>, text: Seq<char>, n: int) -> (at: int)
    requires
        in_order(found),
        0 <= n <= found.len(),
        forall|k: int| #![trigger found[k]] 0 <= k < n ==> text_before(found[k].url.text, text),
    ensures
        0 <= at <= found.len(),
        forall|k: int| #![trigger found[k]] 0 <= k < at ==> text_before(found[k].url.text, text),
        at < found.len() && found[at].url.text == text || (forall|k: int|
            #![trigger found[k]]
            at <= k < found.len() ==> text_before(text, found[k].url.text)),
    decreases found.len() - n,
{
    if n == found.len() || found[n].url.text == text {
        n
    } else {
        texts_are_comparable(found[n].url.text, text);
        if text_before(found[n].url.text, text) {
            place_of_text(found, text, n + 1)
        } else {
            assert forall|k: int| #![trigger found[k]] n <= k < found.len() implies text_before(
                text,
                found[k].url.text,
            ) by {
                if n < k {
                    assert(text_before(found[n].url.text, found[k].url.text));
                    text_before_chains(text, found[n].url.text, found[k].url.text);
                }
            }
            n
        }
    }
}

/// Whether all sightings are of links that are spelled out by their texts.
pub open spec fn of_links(hits: Seq<Hit>) -> bool {
    forall|k: int|
        #![trigger hits[k]]
        0 <= k < hits.len() ==> link_of(hits[k].url.text) == Some(hits[k].url)
}

/// Sightings of links have an index.
pub proof fn sightings_have_an_index(hits: Seq<Hit>)
    requires
        of_links(hits),
    ensures
        exists|found: Seq<FoundUrlView>| indexes(found, hits),
    decreases hits.len(),
{
    if hits.len() == 0 {
        assert(indexes(Seq::<FoundUrlView>::empty(), hits));
    } else {
        let front = hits.drop_last();
        let hit = hits.last();
        assert forall|k: int| #![trigger front[k]] 0 <= k < front.len() implies link_of(
            front[k].url.text,
        ) == Some(front[k].url) by {
            assert(front[k] == hits[k]);
        }
        assert(link_of(hits[hits.len() - 1].url.text) == Some(hit.url));
        sightings_have_an_index(front);
        let found = choose|found: Seq<FoundUrlView>| indexes(found, front);
        let at = place_of_text(found, hit.url.text, 0);
        assert(front.push(hit) == hits);
        if at < found.len() && found[at].url.text == hit.url.text {
            let occurrences = found[at].occurrences.push(hit.place);
            let entry = FoundUrlView { url: hit.url, occurrences };
            total_places_update(found, at, entry);
            note_keeps_index(found, found.update(at, entry), front, hit, at);
            assert(indexes(found.update(at, entry), hits));
        } else {
            let entry = FoundUrlView { url: hit.url, occurrences: seq![hit.place] };
            if places_of(front, hit.url).len() > 0 {
                let k = seen_url(front, hit.url);
                let sighting = front[k];
                let i = choose|i: int|
                    #![trigger found[i]]
                    0 <= i < found.len() && found[i].url == hit.url;
                texts_are_comparable(found[i].url.text, hit.url.text);
                assert(false);
            }
            assert(places_of(front, hit.url) == Seq::<OccurrenceView>::empty());
            assert(places_of(front.push(hit), hit.url) == seq![hit.place]);
            total_places_insert(found, at, entry);
            insert_keeps_index(found, found.insert(at, entry), front, hit, at);
            assert(indexes(found.insert(at, entry), hits));
        }
    }
}

// ---------------------------------------------------------------------------------------------
// What an index holds
// ---------------------------------------------------------------------------------------------

proof fn places_are_those_of_the_link(hits: Seq<Hit>, url: SourceUrlView)
    ensures
        places_of(hits, url) == hits.filter(|hit: Hit| hit.url == url).map_values(
            |hit: Hit| hit.place,
        ),
    decreases hits.len(),
{
    let same = |hit: Hit| hit.url == url;
    let place = |hit: Hit| hit.place;
    reveal(Seq::filter);
    if hits.len() == 0 {
        assert(hits.filter(same).map_values(place) =~= Seq::<OccurrenceView>::empty());
    } else {
        let front = hits.drop_last();
        places_are_those_of_the_link(front, url);
        front.lemma_filter_push(hits.last(), same);
        assert(front.push(hits.last()) =~= hits);
        if same(hits.last()) {
            assert(front.filter(same).push(hits.last()).map_values(place) =~= front.filter(
                same,
            ).map_values(place).push(hits.last().place));
        }
    }
}

/// An index has each link that was sighted once and no other, in the order of their texts, each
/// with all the places at which it was sighted, in the order in which they were, and no other.
pub proof fn indexes_hold_every_sighting(found: Seq<FoundUrlView>, hits: Seq<Hit>)
    requires
        indexes(found, hits),
    ensures
        forall|i: int|
            #![trigger found[i]]
            0 <= i < found.len() ==> found[i].occurrences == hits.filter(
                |hit: Hit| hit.url == found[i].url,
            ).map_values(|hit: Hit| hit.place) && found[i].occurrences.len() > 0,
        forall|k: int|
            #![trigger hits[k]]
            0 <= k < hits.len() ==> exists|i: int|
                #![trigger found[i]]
                0 <= i < found.len() && found[i].url == hits[k].url
                    && found[i].occurrences.contains(hits[k].place),
        forall|i: int, j: int|
            #![trigger found[i], found[j]]
            0 <= i < j < found.len() ==> found[i].url != found[j].url && text_before(
                found[i].url.text,
                found[j].url.text,
            ),
{
    assert forall|i: int| #![trigger found[i]] 0 <= i < found.len() implies found[i].occurrences
        == hits.filter(|hit: Hit| hit.url == found[i].url).map_values(|hit: Hit| hit.place)
        && found[i].occurrences.len() > 0 by {
        places_are_those_of_the_link(hits, found[i].url);
    }
    assert forall|k: int| #![trigger hits[k]] 0 <= k < hits.len() implies exists|i: int|
        #![trigger found[i]]
        0 <= i < found.len() && found[i].url == hits[k].url && found[i].occurrences.contains(
            hits[k].place,
        ) by {
        let i = choose|i: int|
            #![trigger found[i]]
            0 <= i < found.len() && found[i].url == hits[k].url;
        let same = |hit: Hit| hit.url == found[i].url;
        let kept = hits.filter(same);
        hits.lemma_filter_contains(same, k);
        let n = kept.index_of(hits[k]);
        assert(found[i].occurrences[n] == hits[k].place);
    }
    assert forall|i: int, j: int|
        #![trigger found[i], found[j]]
        0 <= i < j < found.len() implies found[i].url != found[j].url && text_before(
        found[i].url.text,
        found[j].url.text,
    ) by {
        texts_are_comparable(found[i].url.text, found[j].url.text);
    }
}

/// All the places of links are counted, each once.
pub proof fn every_place_is_counted(found: Seq<FoundUrlView>)
    ensures
        total_places(found) == Seq::new(found.len(), |i: int| found[i].occurrences).flatten().len(),
    decreases found.len(),
{
    let all = Seq::new(found.len(), |i: int| found[i].occurrences);
    if found.len() == 0 {
        assert(all.flatten().len() == 0);
    } else {
        let front = found.drop_last();
        let fewer = Seq::new(front.len(), |i: int| front[i].occurrences);
        every_place_is_counted(front);
        assert(all =~= fewer.push(found.last().occurrences));
        fewer.lemma_flatten_push(found.last().occurrences);
    }
}

} // verus!
