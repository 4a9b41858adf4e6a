//! The places in a text where a link may stand.

use crate::text::{is_white_space, split, split_then_join};
use vstd::prelude::*;
use vstd::utf8::{encode_scalar, encode_utf8, leading_byte_width_1};

verus! {

/// The pattern of what may be a link.
pub const CANDIDATE_PATTERN: &'static str = r#"https://github\.com/[^\s<>"'`]+"#;

/// Whether a character may stand in a candidate: white space, angle brackets, quotes and
/// backticks may not.
pub open spec fn is_link_char(c: char) -> bool {
    !is_white_space(c) && c != '<' && c != '>' && c != '"' && c != '\'' && c != '`'
}

/// The first place from `at` on where no link character stands.
pub open spec fn run_end(text: Seq<char>, at: int) -> int
    decreases text.len() - at,
{
    if 0 <= at < text.len() && is_link_char(text[at]) {
        run_end(text, at + 1)
    } else {
        at
    }
}

/// Whether a candidate starts at a place: the address of the site, and at least one link
/// character behind it.
pub open spec fn starts_candidate(text: Seq<char>, at: int) -> bool {
    let front = "https://github.com/"@;
    &&& 0 <= at
    &&& at + front.len() < text.len()
    &&& text.subrange(at, at + front.len()) == front
    &&& is_link_char(text[at + front.len()])
}

/// The end of the candidate that starts at a place.
pub open spec fn candidate_end(text: Seq<char>, at: int) -> int {
    run_end(text, at + "https://github.com/"@.len())
}

proof fn run_end_bounds(text: Seq<char>, at: int)
    requires
        0 <= at <= text.len(),
    ensures
        at <= run_end(text, at) <= text.len(),
        run_end(text, at) < text.len() ==> !is_link_char(text[run_end(text, at)]),
    decreases text.len() - at,
{
    if at < text.len() && is_link_char(text[at]) {
        run_end_bounds(text, at + 1);
    }
}

/// A candidate ends behind its start, within the text.
pub proof fn candidate_end_bounds(text: Seq<char>, at: int)
    requires
        starts_candidate(text, at),
    ensures
        at < candidate_end(text, at) <= text.len(),
        candidate_end(text, at) < text.len() ==> !is_link_char(text[candidate_end(text, at)]),
{
    run_end_bounds(text, at + "https://github.com/"@.len() + 1);
    run_end_bounds(text, at + "https://github.com/"@.len());
}

/// The candidates of a text from `from` on, each by its start and its end: the leftmost first, as
/// long as it can be, and then those behind it.
pub open spec fn candidates(text: Seq<char>, from: int) -> Seq<(int, int)>
    decreases text.len() - from,
{
    if from < 0 || from >= text.len() {
        Seq::empty()
    } else if starts_candidate(text, from) {
        proof {
            candidate_end_bounds(text, from);
        }
        seq![(from, candidate_end(text, from))] + candidates(text, candidate_end(text, from))
    } else {
        candidates(text, from + 1)
    }
}

/// Whether `spans` are all the candidates of a text from `from` on: each is the address of the
/// site with all the link characters behind it, they stand in order and do not overlap, and no
/// place where a candidate starts lies outside them.
pub open spec fn covers(text: Seq<char>, from: int, spans: Seq<(int, int)>) -> bool {
    &&& forall|i: int| #![trigger spans[i]] 0 <= i < spans.len() ==> is_span(text, from, spans[i])
    &&& forall|i: int, j: int|
        #![trigger spans[i], spans[j]]
        0 <= i < j < spans.len() ==> spans[i].1 <= spans[j].0
    &&& forall|at: int|
        from <= at && #[trigger] starts_candidate(text, at) ==> exists|i: int|
            #![trigger spans[i]]
            0 <= i < spans.len() && spans[i].0 <= at < spans[i].1
}

/// Whether a span, not before `from`, is a candidate that ends where its characters end.
pub open spec fn is_span(text: Seq<char>, from: int, span: (int, int)) -> bool {
    &&& from <= span.0 < span.1 <= text.len()
    &&& starts_candidate(text, span.0)
    &&& span.1 == candidate_end(text, span.0)
    &&& span.1 < text.len() ==> !is_link_char(text[span.1])
}

proof fn covers_one_more(text: Seq<char>, from: int, rest: Seq<(int, int)>)
    requires
        0 <= from < text.len(),
        starts_candidate(text, from),
        covers(text, candidate_end(text, from), rest),
    ensures
        covers(text, from, seq![(from, candidate_end(text, from))] + rest),
{
    candidate_end_bounds(text, from);
    let end = candidate_end(text, from);
    let all = seq![(from, end)] + rest;
    assert(all[0] == (from, end));
    assert forall|i: int| #![trigger all[i]] 0 <= i < all.len() implies is_span(
        text,
        from,
        all[i],
    ) by {
        if i > 0 {
            assert(all[i] == rest[i - 1]);
        }
    }
    assert forall|i: int, j: int|
        #![trigger all[i], all[j]]
        0 <= i < j < all.len() implies all[i].1 <= all[j].0 by {
        assert(all[j] == rest[j - 1]);
        if i > 0 {
            assert(all[i] == rest[i - 1]);
        }
    }
    assert forall|at: int| from <= at && #[trigger] starts_candidate(text, at) implies exists|
        i: int,
    |
        #![trigger all[i]]
        0 <= i < all.len() && all[i].0 <= at < all[i].1 by {
        if at < end {
            assert(all[0].0 <= at < all[0].1);
        } else {
            let k = choose|k: int|
                #![trigger rest[k]]
                0 <= k < rest.len() && rest[k].0 <= at < rest[k].1;
            assert(all[k + 1] == rest[k]);
        }
    }
}

/// The candidates of a text are all of them, in order, each as long as it can be.
pub proof fn candidates_cover_the_text(text: Seq<char>, from: int)
    requires
        0 <= from <= text.len(),
    ensures
        covers(text, from, candidates(text, from)),
    decreases text.len() - from,
{
    if from >= text.len() {
    } else if starts_candidate(text, from) {
        candidate_end_bounds(text, from);
        candidates_cover_the_text(text, candidate_end(text, from));
        covers_one_more(text, from, candidates(text, candidate_end(text, from)));
    } else {
        candidates_cover_the_text(text, from + 1);
        let all = candidates(text, from);
        assert(all == candidates(text, from + 1));
        assert forall|i: int| #![trigger all[i]] 0 <= i < all.len() implies is_span(
            text,
            from,
            all[i],
        ) by {
            assert(is_span(text, from + 1, all[i]));
        }
        assert forall|at: int| from <= at && #[trigger] starts_candidate(
            text,
            at,
        ) implies exists|i: int|
            #![trigger all[i]]
            0 <= i < all.len() && all[i].0 <= at < all[i].1 by {
            assert(at != from);
        }
    }
}

/// Where a candidate starts among the bytes of a text.
pub open spec fn byte_offset(text: Seq<char>, at: int) -> nat {
    encode_utf8(text.take(at)).len()
}

/// Whether a list of byte offsets and texts is that of the candidates of a text.
pub open spec fn lists_candidates(found: Seq<(usize, String)>, text: Seq<char>) -> bool {
    let spans = candidates(text, 0);
    &&& found.len() == spans.len()
    &&& forall|i: int|
        #![trigger found[i]]
        0 <= i < spans.len() ==> {
            &&& found[i].0 == byte_offset(text, spans[i].0)
            &&& found[i].1@ == text.subrange(spans[i].0, spans[i].1)
        }
}

/// `regex::Regex::find_iter`, for the pattern of a candidate: the successive matches that do not
/// overlap, each with its byte offset and its text. The leftmost match comes first; it is the
/// literal address and then, as the repetition is greedy, every character behind it that the
/// class takes (`\s` being the property `White_Space`); the next search starts at its end.
#[verifier::external_body]
pub(crate) fn regex_find_all(pattern: &str, text: &str) -> (result: Vec<(usize, String)>)
    requires
        pattern@ == CANDIDATE_PATTERN@,
    ensures
        lists_candidates(result@, text@),
{
    let regex = regex::Regex::new(pattern).expect("the pattern of a candidate must compile");
    regex.find_iter(text).map(|found| (found.start(), found.as_str().to_owned())).collect()
}

// ---------------------------------------------------------------------------------------------
// Line numbers
// ---------------------------------------------------------------------------------------------

/// The number of line feeds in a text.
pub open spec fn line_feeds(s: Seq<char>) -> nat
    decreases s.len(),
{
    if s.len() == 0 {
        0
    } else {
        line_feeds(s.drop_last()) + if s.last() == '\n' {
            1nat
        } else {
            0nat
        }
    }
}

/// The number of line feeds in a byte string.
pub open spec fn byte_line_feeds(s: Seq<u8>) -> nat
    decreases s.len(),
{
    if s.len() == 0 {
        0
    } else {
        byte_line_feeds(s.drop_last()) + if s.last() == 10 {
            1nat
        } else {
            0nat
        }
    }
}

/// The number of the line, counted from one, on which a place of a text stands.
pub open spec fn line_number(text: Seq<char>, at: int) -> nat {
    1 + line_feeds(text.take(at))
}

proof fn byte_line_feeds_add(a: Seq<u8>, b: Seq<u8>)
    ensures
        byte_line_feeds(a + b) == byte_line_feeds(a) + byte_line_feeds(b),
    decreases b.len(),
{
    if b.len() == 0 {
        assert(a + b == a);
    } else {
        assert((a + b).drop_last() == a + b.drop_last());
        byte_line_feeds_add(a, b.drop_last());
    }
}

proof fn line_feeds_add(a: Seq<char>, b: Seq<char>)
    ensures
        line_feeds(a + b) == line_feeds(a) + line_feeds(b),
    decreases b.len(),
{
    if b.len() == 0 {
        assert(a + b == a);
    } else {
        assert((a + b).drop_last() == a + b.drop_last());
        line_feeds_add(a, b.drop_last());
    }
}

proof fn high_bytes(scalar: u32)
    by (bit_vector)
    ensures
        (0xC0u8 | ((scalar >> 6) & 0x1F) as u8) >= 0x80,
        (0xE0u8 | ((scalar >> 12) & 0x0F) as u8) >= 0x80,
        (0xF0u8 | ((scalar >> 18) & 0x7) as u8) >= 0x80,
        (0x80u8 | (scalar & 0x3F) as u8) >= 0x80,
        (0x80u8 | ((scalar >> 6) & 0x3F) as u8) >= 0x80,
        (0x80u8 | ((scalar >> 12) & 0x3F) as u8) >= 0x80,
        scalar <= 0x7F ==> (scalar & 0x7F) as u8 == scalar,
{
}

proof fn scalar_line_feeds(c: char)
    ensures
        byte_line_feeds(encode_scalar(c as u32)) == (if c == '\n' {
            1nat
        } else {
            0nat
        }),
{
    reveal_with_fuel(byte_line_feeds, 5);
    let bytes = encode_scalar(c as u32);
    high_bytes(c as u32);
    if c as u32 <= 0x7F {
        assert(bytes == seq![leading_byte_width_1(c as u32)]);
        assert(bytes.drop_last() == Seq::<u8>::empty());
    } else {
        assert(forall|i: int| 0 <= i < bytes.len() ==> #[trigger] bytes[i] != 10);
        assert(bytes.last() != 10);
        no_line_feeds(bytes);
    }
}

proof fn no_line_feeds(bytes: Seq<u8>)
    requires
        forall|i: int| 0 <= i < bytes.len() ==> #[trigger] bytes[i] != 10,
    ensures
        byte_line_feeds(bytes) == 0,
    decreases bytes.len(),
{
    if bytes.len() > 0 {
        no_line_feeds(bytes.drop_last());
    }
}

/// The bytes of a text hold a line feed for each one among its characters.
pub proof fn line_feeds_are_bytes(s: Seq<char>)
    ensures
        byte_line_feeds(encode_utf8(s)) == line_feeds(s),
    decreases s.len(),
{
    if s.len() > 0 {
        let rest = s.drop_first();
        line_feeds_are_bytes(rest);
        scalar_line_feeds(s[0]);
        byte_line_feeds_add(encode_scalar(s[0] as u32), encode_utf8(rest));
        let one = seq![s[0]];
        assert(s == one + rest);
        line_feeds_add(one, rest);
        reveal_with_fuel(line_feeds, 2);
        assert(one.drop_last() == Seq::<char>::empty());
    }
}

/// The bytes of two texts one after another are the bytes of the whole.
pub proof fn encoding_adds(a: Seq<char>, b: Seq<char>)
    ensures
        encode_utf8(a + b) == encode_utf8(a) + encode_utf8(b),
    decreases a.len(),
{
    if a.len() == 0 {
        assert(a + b == b);
        assert(encode_utf8(a) + encode_utf8(b) == encode_utf8(b));
    } else {
        assert((a + b).drop_first() == a.drop_first() + b);
        encoding_adds(a.drop_first(), b);
        assert(encode_utf8(a + b) == encode_utf8(a) + encode_utf8(b));
    }
}

/// The number of the line on which the byte `offset` of a text stands, where the character `at`
/// starts there.
pub fn line_at(text: &str, offset: usize) -> (line: usize)
    requires
        exists|at: int| 0 <= at < text@.len() && offset == #[trigger] byte_offset(text@, at),
    ensures
        forall|at: int|
            0 <= at < text@.len() && offset == #[trigger] byte_offset(text@, at) ==> line
                == line_number(text@, at),
{
    let bytes = text.as_bytes();
    let size: usize = bytes.len();
    let ghost at = choose|at: int|
        0 <= at < text@.len() && offset == #[trigger] byte_offset(text@, at);
    proof {
        assert forall|at: int| 0 <= at < text@.len() && offset == #[trigger] byte_offset(
            text@,
            at,
        ) implies offset < bytes@.len() && byte_line_feeds(bytes@.take(offset as int))
            == line_feeds(text@.take(at)) by {
            assert(text@ == text@.take(at) + text@.skip(at));
            encoding_adds(text@.take(at), text@.skip(at));
            assert(bytes@.take(offset as int) == encode_utf8(text@.take(at)));
            line_feeds_are_bytes(text@.take(at));
            let rest = text@.skip(at);
            assert(encode_utf8(rest) == encode_scalar(rest[0] as u32) + encode_utf8(
                rest.drop_first(),
            ));
            assert(encode_utf8(rest).len() > 0);
        }
    }
    let mut count: usize = 0;
    for i in 0..offset
        invariant
            size == bytes@.len(),
            offset < size,
            count <= i,
            count == byte_line_feeds(bytes@.take(i as int)),
    {
        assert(bytes@.take(i + 1).drop_last() == bytes@.take(i as int));
        if bytes[i] == 10 {
            count = count + 1;
        }
    }
    1 + count
}

/// A candidate holds no white space, no quote and no angle bracket, and may hold anything else.
pub proof fn links_end_at_space_and_quotes(c: char)
    ensures
        is_link_char(c) <==> !is_white_space(c) && !"<>\"'`"@.contains(c),
{
    reveal_strlit("<>\"'`");
    let ends = "<>\"'`"@;
    assert(ends[0] == '<' && ends[1] == '>' && ends[2] == '"' && ends[3] == '\'' && ends[4] == '`');
    if ends.contains(c) {
        let i = ends.index_of(c);
        assert(0 <= i < 5);
    }
}

proof fn runs_hold_link_chars(text: Seq<char>, at: int, k: int)
    requires
        0 <= at <= k < run_end(text, at),
        at <= text.len(),
    ensures
        is_link_char(text[k]),
    decreases text.len() - at,
{
    if at < k {
        runs_hold_link_chars(text, at + 1, k);
    }
}

/// The candidates of a text are its longest stretches that start with `https://github.com/` and go
/// on with at least one more character that a link may hold. They stand in their order, none
/// reaches into another, and every such start lies in one of them.
pub proof fn candidates_are_the_longest_stretches(text: Seq<char>)
    ensures
        forall|i: int|
            #![trigger candidates(text, 0)[i]]
            0 <= i < candidates(text, 0).len() ==> {
                let (start, end) = candidates(text, 0)[i];
                &&& 0 <= start && start + 19 < end <= text.len()
                &&& text.subrange(start, start + 19) == "https://github.com/"@
                &&& forall|k: int| start + 19 <= k < end ==> is_link_char(#[trigger] text[k])
                &&& end < text.len() ==> !is_link_char(text[end])
            },
        forall|i: int, j: int|
            #![trigger candidates(text, 0)[i], candidates(text, 0)[j]]
            0 <= i < j < candidates(text, 0).len() ==> candidates(text, 0)[i].1 <= candidates(
                text,
                0,
            )[j].0,
        forall|at: int|
            0 <= at && at + 19 < text.len() && #[trigger] text.subrange(at, at + 19)
                == "https://github.com/"@ && is_link_char(text[at + 19]) ==> exists|i: int|
                #![trigger candidates(text, 0)[i]]
                0 <= i < candidates(text, 0).len() && candidates(text, 0)[i].0 <= at < candidates(
                    text,
                    0,
                )[i].1,
{
    reveal_strlit("https://github.com/");
    candidates_cover_the_text(text, 0);
    let spans = candidates(text, 0);
    assert forall|i: int| #![trigger spans[i]] 0 <= i < spans.len() implies {
        let (start, end) = spans[i];
        &&& 0 <= start && start + 19 < end <= text.len()
        &&& text.subrange(start, start + 19) == "https://github.com/"@
        &&& forall|k: int| start + 19 <= k < end ==> is_link_char(#[trigger] text[k])
        &&& end < text.len() ==> !is_link_char(text[end])
    } by {
        let (start, end) = spans[i];
        assert(is_span(text, 0, spans[i]));
        assert(starts_candidate(text, start));
        run_end_bounds(text, start + 20);
        assert forall|k: int| start + 19 <= k < end implies is_link_char(#[trigger] text[k]) by {
            runs_hold_link_chars(text, start + 19, k);
        }
    }
    assert forall|at: int|
        0 <= at && at + 19 < text.len() && #[trigger] text.subrange(at, at + 19)
            == "https://github.com/"@ && is_link_char(text[at + 19]) implies exists|i: int|
        #![trigger spans[i]]
        0 <= i < spans.len() && spans[i].0 <= at < spans[i].1 by {
        assert(starts_candidate(text, at));
    }
}

/// The line of a place in a text is the number of the lines that start at or before it: as many
/// pieces as what stands before it falls into at its line feeds.
pub proof fn lines_are_counted_from_one(text: Seq<char>, at: int)
    requires
        0 <= at <= text.len(),
    ensures
        line_number(text, at) == split(text.take(at), '\n').len(),
        line_number(text, 0) == 1,
    decreases at,
{
    let front = text.take(at);
    assert(text.take(0) =~= Seq::<char>::empty());
    if at > 0 {
        lines_are_counted_from_one(text, at - 1);
        assert(front.drop_last() =~= text.take(at - 1));
        split_then_join(text.take(at - 1), '\n');
    }
}

/// The pattern by which candidates are found.
pub proof fn the_pattern_of_candidates()
    ensures
        CANDIDATE_PATTERN@ == r#"https://github\.com/[^\s<>"'`]+"#@,
{
}

} // verus!
