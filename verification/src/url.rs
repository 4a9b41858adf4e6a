//! Links to lines of a file at a full commit hash, and how they are told from other text.

use crate::text::{
    chars_of, decimal, decimal_round_trip, decimal_value, is_digit, parse_decimal, same_text,
    string_of,
};
use vstd::prelude::*;
use vstd::utf8::{
    decode_utf8, decode_utf8_encode_utf8, encode_utf8, encode_utf8_decode_utf8,
    encode_utf8_valid_utf8, valid_utf8,
};

verus! {

// ---------------------------------------------------------------------------------------------
// Types
// ---------------------------------------------------------------------------------------------

/// A link to the lines `start..=end` of a file at a commit.
#[derive(Debug, PartialEq, Eq, PartialOrd, Ord)]
pub struct SourceUrl {
    pub text: String,
    pub owner: String,
    pub repo: String,
    pub commit: String,
    pub path: String,
    pub start: usize,
    pub end: usize,
}

/// A [`SourceUrl`] as its characters and numbers.
pub struct SourceUrlView {
    pub text: Seq<char>,
    pub owner: Seq<char>,
    pub repo: Seq<char>,
    pub commit: Seq<char>,
    pub path: Seq<char>,
    pub start: nat,
    pub end: nat,
}

impl View for SourceUrl {
    type V = SourceUrlView;

    open spec fn view(&self) -> SourceUrlView {
        SourceUrlView {
            text: self.text@,
            owner: self.owner@,
            repo: self.repo@,
            commit: self.commit@,
            path: self.path@,
            start: self.start as nat,
            end: self.end as nat,
        }
    }
}

impl Clone for SourceUrl {
    fn clone(&self) -> (copy: SourceUrl)
        ensures
            copy == *self,
    {
        SourceUrl {
            text: self.text.clone(),
            owner: self.owner.clone(),
            repo: self.repo.clone(),
            commit: self.commit.clone(),
            path: self.path.clone(),
            start: self.start,
            end: self.end,
        }
    }
}

impl SourceUrl {
    /// The link as it was written.
    pub fn to_string(&self) -> (text: String)
        ensures
            text@ == self@.text,
    {
        self.text.clone()
    }
}

// ---------------------------------------------------------------------------------------------
// The form of a link
// ---------------------------------------------------------------------------------------------

/// The pattern of a link, with a group for each of its parts.
pub const URL_PATTERN: &'static str =
    r"^https://github\.com/([A-Za-z0-9_.-]+)/([A-Za-z0-9_.-]+)/blob/([0-9A-Fa-f]{40})/([^#]+)#L([0-9]+)(?:-L([0-9]+))?$";

/// The parts of a link as they are written: `last` is the second line number, where there is one.
pub struct UrlParts {
    pub owner: Seq<char>,
    pub repo: Seq<char>,
    pub commit: Seq<char>,
    pub path: Seq<char>,
    pub first: Seq<char>,
    pub last: Option<Seq<char>>,
}

/// Whether a character may stand in the name of an owner or a repository.
pub open spec fn is_name_char(c: char) -> bool {
    ||| 'A' <= c <= 'Z'
    ||| 'a' <= c <= 'z'
    ||| '0' <= c <= '9'
    ||| c == '_'
    ||| c == '.'
    ||| c == '-'
}

/// Whether a character is a hexadecimal digit.
pub open spec fn is_hex_char(c: char) -> bool {
    ||| '0' <= c <= '9'
    ||| 'A' <= c <= 'F'
    ||| 'a' <= c <= 'f'
}

/// Whether a text is a name: not empty, and made of name characters.
pub open spec fn is_name(s: Seq<char>) -> bool {
    s.len() > 0 && forall|i: int| 0 <= i < s.len() ==> is_name_char(#[trigger] s[i])
}

/// Whether a text is a number: not empty, and made of digits.
pub open spec fn is_number(s: Seq<char>) -> bool {
    s.len() > 0 && forall|i: int| 0 <= i < s.len() ==> is_digit(#[trigger] s[i])
}

/// Whether a text is a full commit hash: forty hexadecimal digits.
pub open spec fn is_full_hash(s: Seq<char>) -> bool {
    s.len() == 40 && forall|i: int| 0 <= i < s.len() ==> is_hex_char(#[trigger] s[i])
}

/// Whether a text can be the path of a link: not empty, and without `#`.
pub open spec fn is_link_path(s: Seq<char>) -> bool {
    s.len() > 0 && !s.contains('#')
}

impl UrlParts {
    /// Whether each part has its form.
    pub open spec fn well_formed(self) -> bool {
        &&& is_name(self.owner)
        &&& is_name(self.repo)
        &&& is_full_hash(self.commit)
        &&& is_link_path(self.path)
        &&& is_number(self.first)
        &&& self.last matches Some(last) ==> is_number(last)
    }

    /// The link that the parts make.
    pub open spec fn spelling(self) -> Seq<char> {
        "https://github.com/"@ + self.owner + "/"@ + self.repo + "/blob/"@ + self.commit + "/"@
            + self.path + "#L"@ + self.first + match self.last {
            Some(last) => "-L"@ + last,
            None => Seq::empty(),
        }
    }

    /// Whether the parts have their form and make the text.
    pub open spec fn spells(self, text: Seq<char>) -> bool {
        self.well_formed() && self.spelling() == text
    }
}

/// The characters of a string that may be missing.
pub open spec fn text_option(s: Option<String>) -> Option<Seq<char>> {
    match s {
        Some(s) => Some(s@),
        None => None,
    }
}

/// Whether the groups of a match are the text and the parts.
pub open spec fn groups_hold(groups: Seq<Option<String>>, text: Seq<char>, parts: UrlParts) -> bool {
    &&& groups.len() == 7
    &&& text_option(groups[0]) == Some(text)
    &&& text_option(groups[1]) == Some(parts.owner)
    &&& text_option(groups[2]) == Some(parts.repo)
    &&& text_option(groups[3]) == Some(parts.commit)
    &&& text_option(groups[4]) == Some(parts.path)
    &&& text_option(groups[5]) == Some(parts.first)
    &&& text_option(groups[6]) == parts.last
}

/// `regex::Regex::captures`, for the pattern of a link. The pattern is anchored at both ends, its
/// classes are those of [`UrlParts::well_formed`] (`[^#]` takes every character but `#`, line
/// feeds too), and its literals those of [`UrlParts::spelling`]. So there is a match where the
/// text is made of such parts, and the groups hold them: group 0 the whole match, and no text for
/// the last group where its optional part is absent.
#[verifier::external_body]
fn regex_captures(pattern: &str, text: &str) -> (result: Option<Vec<Option<String>>>)
    requires
        pattern@ == URL_PATTERN@,
    ensures
        result is Some <==> exists|parts: UrlParts| #[trigger] parts.spells(text@),
        result matches Some(groups) ==> exists|parts: UrlParts| #[trigger]
            parts.spells(text@) && groups_hold(groups@, text@, parts),
{
    let regex = regex::Regex::new(pattern).expect("the pattern of a link must compile");
    regex.captures(text).map(
        |groups|
            groups.iter().map(|group| group.map(|found| found.as_str().to_owned())).collect(),
    )
}

// ---------------------------------------------------------------------------------------------
// Percent-encoding
// ---------------------------------------------------------------------------------------------

/// The value of a byte as a hexadecimal digit.
pub open spec fn hex_value(b: u8) -> Option<int> {
    if 48 <= b <= 57 {
        Some(b - 48)
    } else if 65 <= b <= 70 {
        Some(b - 55)
    } else if 97 <= b <= 102 {
        Some(b - 87)
    } else {
        None
    }
}

/// Bytes with each `%` and the two hexadecimal digits behind it taken for the byte that they name.
pub open spec fn percent_decoded(bytes: Seq<u8>) -> Seq<u8>
    decreases bytes.len(),
{
    if bytes.len() == 0 {
        Seq::empty()
    } else if bytes.len() >= 3 && bytes[0] == 37 && hex_value(bytes[1]) is Some && hex_value(
        bytes[2],
    ) is Some {
        seq![(hex_value(bytes[1])->0 * 16 + hex_value(bytes[2])->0) as u8] + percent_decoded(
            bytes.skip(3),
        )
    } else {
        seq![bytes[0]] + percent_decoded(bytes.skip(1))
    }
}

/// The path that a link names, if what its bytes decode to is text.
pub open spec fn decoded_path(path: Seq<char>) -> Option<Seq<char>> {
    let bytes = percent_decoded(encode_utf8(path));
    if valid_utf8(bytes) {
        Some(decode_utf8(bytes))
    } else {
        None
    }
}

/// `percent_encoding::percent_decode_str` and the `decode_utf8` of what it returns: each `%` with
/// two hexadecimal digits behind it stands for a byte, every other byte for itself, and the bytes
/// are then read as UTF-8, which fails where they are not valid.
#[verifier::external_body]
fn percent_decode_utf8(text: &str) -> (result: Option<String>)
    ensures
        text_option(result) == decoded_path(text@),
{
    percent_encoding::percent_decode_str(text).decode_utf8().ok().map(|text| text.into_owned())
}

// ---------------------------------------------------------------------------------------------
// From a candidate to a link
// ---------------------------------------------------------------------------------------------

/// Whether a character at the end of a candidate belongs to the sentence around it.
pub open spec fn is_closing(c: char) -> bool {
    c == ')' || c == ']' || c == '}' || c == ',' || c == '.' || c == ';' || c == ':'
}

/// A candidate without the closing characters at its end.
pub open spec fn unclosed(candidate: Seq<char>) -> Seq<char>
    decreases candidate.len(),
{
    if candidate.len() > 0 && is_closing(candidate.last()) {
        unclosed(candidate.drop_last())
    } else {
        candidate
    }
}

/// The character with its ASCII letter in lower case.
pub open spec fn lower(c: char) -> char {
    if 'A' <= c <= 'Z' {
        (c as u32 + 32) as char
    } else {
        c
    }
}

/// The text with its ASCII letters in lower case.
pub open spec fn lowered(s: Seq<char>) -> Seq<char> {
    s.map_values(|c: char| lower(c))
}

/// Whether a name is one of the two that stand for a directory.
pub open spec fn is_dot_name(s: Seq<char>) -> bool {
    s == "."@ || s == ".."@
}

impl UrlParts {
    /// The number of the last line: that of the first where only one is written.
    pub open spec fn end_value(self) -> nat {
        match self.last {
            Some(last) => decimal_value(last),
            None => decimal_value(self.first),
        }
    }

    /// Whether the parts are a link: the names are no directories, the path decodes to text, and
    /// the line numbers fit.
    pub open spec fn meaningful(self) -> bool {
        &&& !is_dot_name(self.owner)
        &&& !is_dot_name(self.repo)
        &&& decoded_path(self.path) is Some
        &&& decimal_value(self.first) <= usize::MAX
        &&& self.end_value() <= usize::MAX
    }

    /// The link that the parts are.
    pub open spec fn link(self) -> SourceUrlView {
        SourceUrlView {
            text: self.spelling(),
            owner: self.owner,
            repo: self.repo,
            commit: lowered(self.commit),
            path: decoded_path(self.path)->0,
            start: decimal_value(self.first),
            end: self.end_value(),
        }
    }
}

/// The link that a text is, if it is one.
pub open spec fn link_of(text: Seq<char>) -> Option<SourceUrlView> {
    if exists|parts: UrlParts| #[trigger] parts.spells(text) && parts.meaningful() {
        Some((choose|parts: UrlParts| #[trigger] parts.spells(text) && parts.meaningful()).link())
    } else {
        None
    }
}

/// The link that a candidate holds: closing characters at its end are not part of it.
pub open spec fn parsed(candidate: Seq<char>) -> Option<SourceUrlView> {
    link_of(unclosed(candidate))
}

/// Two texts that start alike up to a character that neither holds agree up to it and behind it.
proof fn first_mark_divides(a: Seq<char>, b: Seq<char>, x: Seq<char>, y: Seq<char>, mark: Seq<char>)
    requires
        mark.len() > 0,
        !a.contains(mark[0]),
        !b.contains(mark[0]),
        a + mark + x == b + mark + y,
    ensures
        a == b,
        x == y,
{
    let left = a + mark + x;
    let right = b + mark + y;
    if a.len() < b.len() {
        assert(left[a.len() as int] == mark[0]);
        assert(right[a.len() as int] == b[a.len() as int]);
        assert(b.contains(mark[0]));
    }
    if b.len() < a.len() {
        assert(right[b.len() as int] == mark[0]);
        assert(left[b.len() as int] == a[b.len() as int]);
        assert(a.contains(mark[0]));
    }
    assert forall|i: int| 0 <= i < a.len() implies a[i] == b[i] by {
        assert(left[i] == a[i] && right[i] == b[i]);
    }
    assert(a =~= b);
    assert(left.len() == right.len());
    assert forall|i: int| 0 <= i < x.len() implies x[i] == y[i] by {
        let at = a.len() + mark.len() + i;
        assert(left[at] == x[i] && right[at] == y[i]);
    }
    assert(x =~= y);
}

/// What follows the path of a link.
spec fn range_part(parts: UrlParts) -> Seq<char> {
    parts.first + match parts.last {
        Some(last) => "-L"@ + last,
        None => Seq::empty(),
    }
}

proof fn range_part_is_unique(u: UrlParts, v: UrlParts)
    requires
        u.well_formed(),
        v.well_formed(),
        range_part(u) == range_part(v),
    ensures
        u.first == v.first,
        u.last == v.last,
{
    reveal_strlit("-L");
    assert(!is_digit('-'));
    let dash = "-L"@;
    assert(!u.first.contains('-')) by {
        if u.first.contains('-') {
            let i = u.first.index_of('-');
            assert(is_digit(u.first[i]));
        }
    }
    assert(!v.first.contains('-')) by {
        if v.first.contains('-') {
            let i = v.first.index_of('-');
            assert(is_digit(v.first[i]));
        }
    }
    match (u.last, v.last) {
        (Some(a), Some(b)) => {
            assert(range_part(u) == u.first + dash + a);
            assert(range_part(v) == v.first + dash + b);
            first_mark_divides(u.first, v.first, a, b, dash);
        },
        (None, None) => {
            assert(range_part(u) == u.first);
            assert(range_part(v) == v.first);
        },
        (Some(a), None) => {
            assert(range_part(v) == v.first);
            assert(range_part(u)[u.first.len() as int] == '-');
            assert(v.first.contains('-'));
        },
        (None, Some(b)) => {
            assert(range_part(u) == u.first);
            assert(range_part(v)[v.first.len() as int] == '-');
            assert(u.first.contains('-'));
        },
    }
}

proof fn names_hold_no_slash(s: Seq<char>)
    requires
        is_name(s),
    ensures
        !s.contains('/'),
{
    if s.contains('/') {
        let i = s.index_of('/');
        assert(is_name_char(s[i]));
    }
}

/// A text is made of the parts of a link in at most one way.
pub proof fn spelling_is_unique(text: Seq<char>, u: UrlParts, v: UrlParts)
    requires
        u.spells(text),
        v.spells(text),
    ensures
        u == v,
{
    reveal_strlit("https://github.com/");
    reveal_strlit("/");
    reveal_strlit("/blob/");
    reveal_strlit("#L");
    let front = "https://github.com/"@;
    let slash = "/"@;
    let blob = "/blob/"@;
    let hash = "#L"@;
    names_hold_no_slash(u.owner);
    names_hold_no_slash(v.owner);
    names_hold_no_slash(u.repo);
    names_hold_no_slash(v.repo);
    let u4 = range_part(u);
    let v4 = range_part(v);
    let u3 = u.path + hash + u4;
    let v3 = v.path + hash + v4;
    let u2 = u.commit + slash + u3;
    let v2 = v.commit + slash + v3;
    let u1 = u.repo + blob + u2;
    let v1 = v.repo + blob + v2;
    let u0 = u.owner + slash + u1;
    let v0 = v.owner + slash + v1;
    assert(u.spelling() == front + u0);
    assert(v.spelling() == front + v0);
    assert(u0 == (front + u0).skip(front.len() as int));
    assert(v0 == (front + v0).skip(front.len() as int));
    first_mark_divides(u.owner, v.owner, u1, v1, slash);
    first_mark_divides(u.repo, v.repo, u2, v2, blob);
    assert(u.commit == u2.take(40));
    assert(v.commit == v2.take(40));
    assert(u3 == u2.skip(41));
    assert(v3 == v2.skip(41));
    first_mark_divides(u.path, v.path, u4, v4, hash);
    range_part_is_unique(u, v);
}

/// A text whose parts have their form and their meaning is a link, and the link is that of the
/// parts.
pub proof fn meaningful_parts_make_a_link(parts: UrlParts)
    requires
        parts.well_formed(),
        parts.meaningful(),
    ensures
        link_of(parts.spelling()) == Some(parts.link()),
{
    let text = parts.spelling();
    assert(parts.spells(text));
    let chosen = choose|p: UrlParts| #[trigger] p.spells(text) && p.meaningful();
    spelling_is_unique(text, parts, chosen);
}

/// A link keeps the text that it was read from, and that text is read as the same link again.
pub proof fn links_are_read_back(text: Seq<char>)
    requires
        link_of(text) is Some,
    ensures
        (link_of(text)->0).text == text,
        parsed(text) == link_of(text),
{
    let parts = choose|p: UrlParts| #[trigger] p.spells(text) && p.meaningful();
    spelling_ends_in_a_digit(parts);
    assert(unclosed(text) == text);
}

proof fn spelling_ends_in_a_digit(parts: UrlParts)
    requires
        parts.well_formed(),
    ensures
        parts.spelling().len() > 0,
        is_digit(parts.spelling().last()),
{
    match parts.last {
        Some(last) => {
            assert(is_digit(last[last.len() - 1]));
            assert(parts.spelling().last() == last.last());
        },
        None => {
            assert(is_digit(parts.first[parts.first.len() - 1]));
            assert(parts.spelling().last() == parts.first.last());
        },
    }
}

/// Every link of the documented form is recognized: whatever the owner, the repository, the full
/// commit hash, the path and the line numbers `first` and `last`, and whatever closing characters
/// stand behind it.
pub proof fn documented_links_are_recognized(
    parts: UrlParts,
    first: usize,
    last: usize,
    closing: Seq<char>,
)
    requires
        parts.well_formed(),
        !is_dot_name(parts.owner),
        !is_dot_name(parts.repo),
        decoded_path(parts.path) is Some,
        parts.first == decimal(first as nat),
        parts.last == Some(decimal(last as nat)) || (parts.last is None && last == first),
        forall|i: int| 0 <= i < closing.len() ==> is_closing(#[trigger] closing[i]),
    ensures
        parsed(parts.spelling() + closing) == Some(
            SourceUrlView {
                text: parts.spelling(),
                owner: parts.owner,
                repo: parts.repo,
                commit: lowered(parts.commit),
                path: decoded_path(parts.path)->0,
                start: first as nat,
                end: last as nat,
            },
        ),
{
    decimal_round_trip(first as nat);
    decimal_round_trip(last as nat);
    meaningful_parts_make_a_link(parts);
    spelling_ends_in_a_digit(parts);
    closing_characters_are_dropped(parts.spelling(), closing);
    assert(unclosed(parts.spelling()) == parts.spelling());
}

/// Closing characters behind a candidate change nothing of what it holds.
pub proof fn closing_characters_are_dropped(candidate: Seq<char>, closing: Seq<char>)
    requires
        forall|i: int| 0 <= i < closing.len() ==> is_closing(#[trigger] closing[i]),
    ensures
        unclosed(candidate + closing) == unclosed(candidate),
        parsed(candidate + closing) == parsed(candidate),
    decreases closing.len(),
{
    if closing.len() == 0 {
        assert(candidate + closing == candidate);
    } else {
        assert(is_closing(closing[closing.len() - 1]));
        assert((candidate + closing).drop_last() == candidate + closing.drop_last());
        closing_characters_are_dropped(candidate, closing.drop_last());
    }
}

/// A link names a full commit hash: one with fewer digits, or the name of a branch, is no link.
pub proof fn links_name_a_full_hash(text: Seq<char>)
    requires
        link_of(text) is Some,
    ensures
        is_full_hash((link_of(text)->0).commit),
        forall|i: int|
            0 <= i < 40 ==> !('A' <= #[trigger] (link_of(text)->0).commit[i] <= 'Z'),
{
    let parts = choose|p: UrlParts| #[trigger] p.spells(text) && p.meaningful();
    let commit = lowered(parts.commit);
    assert forall|i: int| 0 <= i < commit.len() implies is_hex_char(#[trigger] commit[i]) && !('A'
        <= commit[i] <= 'Z') by {
        assert(is_hex_char(parts.commit[i]));
        assert(commit[i] == lower(parts.commit[i]));
    }
}

/// A [`SourceUrl`] that may be missing, as its characters and numbers.
pub open spec fn link_option(url: Option<SourceUrl>) -> Option<SourceUrlView> {
    match url {
        Some(url) => Some(url@),
        None => None,
    }
}

fn closing(c: char) -> (yes: bool)
    ensures
        yes == is_closing(c),
{
    c == ')' || c == ']' || c == '}' || c == ',' || c == '.' || c == ';' || c == ':'
}

/// A text with its ASCII letters in lower case.
pub fn to_lower(s: &str) -> (result: String)
    ensures
        result@ == lowered(s@),
{
    let chars = chars_of(s);
    let mut result = String::new();
    for i in 0..chars.len()
        invariant
            chars@ == s@,
            result@ == lowered(s@).take(i as int),
    {
        let c: char = chars[i];
        if 'A' <= c && c <= 'Z' {
            let small: char = (c as u8 + 32) as char;
            assert(small == lower(c));
            result.push(small);
        } else {
            result.push(c);
        }
        assert(lowered(s@).take(i + 1) == lowered(s@).take(i as int).push(lower(c)));
    }
    assert(lowered(s@).take(s@.len() as int) == lowered(s@));
    result
}

fn dot_name(s: &str) -> (yes: bool)
    ensures
        yes == is_dot_name(s@),
{
    same_text(s, ".") || same_text(s, "..")
}

/// What the groups of a match say of a text: the link, if they are meaningful.
pub fn link_of_groups(text: &str, groups: &Vec<Option<String>>) -> (result: Option<SourceUrl>)
    requires
        exists|parts: UrlParts| #[trigger]
            parts.spells(text@) && groups_hold(groups@, text@, parts),
    ensures
        link_option(result) == link_of(text@),
{
    let ghost parts = choose|parts: UrlParts| #[trigger]
        parts.spells(text@) && groups_hold(groups@, text@, parts);
    proof {
        assert forall|other: UrlParts| #[trigger] other.spells(text@) implies other == parts by {
            spelling_is_unique(text@, parts, other);
        }
    }
    match (&groups[1], &groups[2], &groups[3], &groups[4], &groups[5]) {
        (Some(owner), Some(repo), Some(commit), Some(written_path), Some(first)) => {
            if dot_name(owner.as_str()) || dot_name(repo.as_str()) {
                return None;
            }
            let path = match percent_decode_utf8(written_path.as_str()) {
                Some(path) => path,
                None => {
                    return None;
                },
            };
            let first_digits = chars_of(first.as_str());
            let start: usize = match parse_decimal(first_digits.as_slice()) {
                Some(start) => start,
                None => {
                    return None;
                },
            };
            let end: usize = match &groups[6] {
                Some(last) => {
                    let last_digits = chars_of(last.as_str());
                    match parse_decimal(last_digits.as_slice()) {
                        Some(end) => end,
                        None => {
                            return None;
                        },
                    }
                },
                None => start,
            };
            proof {
                assert(parts.meaningful());
                meaningful_parts_make_a_link(parts);
            }
            Some(
                SourceUrl {
                    text: text.to_owned(),
                    owner: owner.clone(),
                    repo: repo.clone(),
                    commit: to_lower(commit.as_str()),
                    path,
                    start,
                    end,
                },
            )
        },
        _ => None,
    }
}

/// The link that a candidate holds, if it holds one.
pub fn parse_candidate(candidate: &str) -> (result: Option<SourceUrl>)
    ensures
        link_option(result) == parsed(candidate@),
{
    let chars = chars_of(candidate);
    let mut end: usize = chars.len();
    assert(chars@.take(end as int) == candidate@);
    while end > 0 && closing(chars[end - 1])
        invariant
            end <= chars@.len(),
            unclosed(chars@.take(end as int)) == unclosed(candidate@),
        decreases end,
    {
        assert(chars@.take(end as int).drop_last() == chars@.take(end - 1));
        end = end - 1;
    }
    let text = string_of(vstd::slice::slice_subrange(chars.as_slice(), 0, end));
    assert(text@ == chars@.take(end as int));
    assert(text@ == unclosed(candidate@));
    match regex_captures(URL_PATTERN, text.as_str()) {
        Some(groups) => link_of_groups(text.as_str(), &groups),
        None => None,
    }
}

// ---------------------------------------------------------------------------------------------
// The grammar of a link
// ---------------------------------------------------------------------------------------------

/// The characters of a link. Names are made of letters, digits, underscores, dots and hyphens of
/// ASCII; hashes of hexadecimal digits in either case; and a link is not ended by a closing bracket
/// or by punctuation.
pub proof fn characters_of_links(c: char)
    ensures
        is_name_char(c) <==> ({
            let point = c as u32;
            ||| 65 <= point <= 90 || 97 <= point <= 122 || 48 <= point <= 57
            ||| point == 95 || point == 46 || point == 45
        }),
        is_hex_char(c) <==> ({
            let point = c as u32;
            48 <= point <= 57 || 65 <= point <= 70 || 97 <= point <= 102
        }),
        is_closing(c) <==> ")]},.;:"@.contains(c),
        lower(c) as u32 == (if 65 <= c as u32 <= 90 {
            c as u32 + 32
        } else {
            c as u32 as int
        }),
{
    reveal_strlit(")]},.;:");
    let ends = ")]},.;:"@;
    assert(ends[0] == ')' && ends[1] == ']' && ends[2] == '}' && ends[3] == ',' && ends[4] == '.'
        && ends[5] == ';' && ends[6] == ':');
    if ends.contains(c) {
        let i = ends.index_of(c);
        assert(0 <= i < 7);
    }
}

/// What is taken off the end of a candidate is closing characters, all that there are and nothing
/// else.
pub proof fn only_closing_characters_are_dropped(candidate: Seq<char>) -> (behind: Seq<char>)
    ensures
        candidate == unclosed(candidate) + behind,
        forall|i: int| 0 <= i < behind.len() ==> is_closing(#[trigger] behind[i]),
        unclosed(candidate).len() > 0 ==> !is_closing(unclosed(candidate).last()),
    decreases candidate.len(),
{
    if candidate.len() > 0 && is_closing(candidate.last()) {
        let behind = only_closing_characters_are_dropped(candidate.drop_last());
        let all = behind.push(candidate.last());
        assert(candidate =~= candidate.drop_last().push(candidate.last()));
        assert((unclosed(candidate) + behind).push(candidate.last()) =~= unclosed(candidate) + all);
        all
    } else {
        assert(candidate =~= unclosed(candidate) + Seq::<char>::empty());
        Seq::empty()
    }
}

/// The hexadecimal digit of a value below sixteen, in either case.
pub open spec fn hex_digit(value: int, upper: bool) -> u8 {
    if value < 10 {
        (0x30 + value) as u8
    } else if upper {
        (0x41 + value - 10) as u8
    } else {
        (0x61 + value - 10) as u8
    }
}

/// A percent sign and two hexadecimal digits stand for the byte that they name. Everything else
/// stands for itself, also a percent sign with anything else behind it.
pub proof fn percent_codes_stand_for_bytes(
    byte: u8,
    first_upper: bool,
    second_upper: bool,
    rest: Seq<u8>,
)
    ensures
        percent_decoded(Seq::empty()) == Seq::<u8>::empty(),
        percent_decoded(
            seq![
                0x25u8,
                hex_digit(byte as int / 16, first_upper),
                hex_digit(byte as int % 16, second_upper),
            ] + rest,
        ) == seq![byte] + percent_decoded(rest),
        byte != 0x25 ==> percent_decoded(seq![byte] + rest) == seq![byte] + percent_decoded(rest),
        rest.len() < 2 || !is_hex_byte(rest[0]) || !is_hex_byte(rest[1]) ==> percent_decoded(
            seq![0x25u8] + rest,
        ) == seq![0x25u8] + percent_decoded(rest),
{
    let high = hex_digit(byte as int / 16, first_upper);
    let low = hex_digit(byte as int % 16, second_upper);
    let code = seq![0x25u8, high, low] + rest;
    assert(code.skip(3) =~= rest);
    assert(hex_value(high) == Some(byte as int / 16));
    assert(hex_value(low) == Some(byte as int % 16));
    assert((seq![byte] + rest).skip(1) =~= rest);
    assert((seq![0x25u8] + rest).skip(1) =~= rest);
    let sign = seq![0x25u8] + rest;
    if rest.len() >= 2 {
        assert(sign[1] == rest[0] && sign[2] == rest[1]);
    }
}

/// Whether a byte is a hexadecimal digit.
pub open spec fn is_hex_byte(byte: u8) -> bool {
    0x30 <= byte <= 0x39 || 0x41 <= byte <= 0x46 || 0x61 <= byte <= 0x66
}

/// A path without percent signs is read as it stands.
pub proof fn plain_paths_are_read_as_they_stand(path: Seq<char>)
    requires
        !encode_utf8(path).contains(0x25u8),
    ensures
        decoded_path(path) == Some(path),
{
    plain_bytes_stay(encode_utf8(path));
    encode_utf8_valid_utf8(path);
    encode_utf8_decode_utf8(path);
}

proof fn plain_bytes_stay(bytes: Seq<u8>)
    requires
        !bytes.contains(0x25u8),
    ensures
        percent_decoded(bytes) == bytes,
    decreases bytes.len(),
{
    if bytes.len() > 0 {
        let rest = bytes.skip(1);
        assert(bytes.contains(bytes[0]));
        if rest.contains(0x25u8) {
            let i = rest.index_of(0x25u8);
            assert(bytes[i + 1] == 0x25);
        }
        plain_bytes_stay(rest);
        assert(percent_decoded(bytes) =~= bytes);
    }
}

/// A path is the text whose encoding its percent codes spell, and there is none where they spell no
/// text.
pub proof fn paths_are_decoded_as_text(path: Seq<char>)
    ensures
        decoded_path(path) is Some <==> valid_utf8(percent_decoded(encode_utf8(path))),
        decoded_path(path) matches Some(text) ==> encode_utf8(text) == percent_decoded(
            encode_utf8(path),
        ),
{
    let bytes = percent_decoded(encode_utf8(path));
    if valid_utf8(bytes) {
        decode_utf8_encode_utf8(bytes);
    }
}

/// Whether a text is the name of an owner or a repository.
pub open spec fn is_repository_name(s: Seq<char>) -> bool {
    &&& s.len() > 0
    &&& s != seq!['.']
    &&& s != seq!['.', '.']
    &&& forall|i: int|
        0 <= i < s.len() ==> ({
            let point = (#[trigger] s[i]) as u32;
            ||| 65 <= point <= 90 || 97 <= point <= 122 || 48 <= point <= 57
            ||| point == 95 || point == 46 || point == 45
        })
}

/// Whether a text is a full hash.
pub open spec fn is_hash(s: Seq<char>) -> bool {
    &&& s.len() == 40
    &&& forall|i: int|
        0 <= i < s.len() ==> ({
            let point = (#[trigger] s[i]) as u32;
            48 <= point <= 57 || 65 <= point <= 70 || 97 <= point <= 102
        })
}

proof fn dots_are_no_names(s: Seq<char>)
    ensures
        is_dot_name(s) <==> s == seq!['.'] || s == seq!['.', '.'],
{
    reveal_strlit(".");
    reveal_strlit("..");
    assert("."@ =~= seq!['.']);
    assert(".."@ =~= seq!['.', '.']);
}

/// A link is recognized wherever it is written as it should be: with the names of an owner and a
/// repository, a full hash, a path without a number sign, and one line or a range of lines. Closing
/// characters behind it do not count. It is read as what it says: the hash in lower case, the path
/// decoded, and a single line as a range from that line to itself.
pub proof fn well_written_links_are_recognized(
    owner: Seq<char>,
    repo: Seq<char>,
    commit: Seq<char>,
    path: Seq<char>,
    first: nat,
    last: Option<nat>,
    closing: Seq<char>,
)
    requires
        is_repository_name(owner),
        is_repository_name(repo),
        is_hash(commit),
        path.len() > 0,
        !path.contains('#'),
        decoded_path(path) is Some,
        first <= usize::MAX,
        last matches Some(line) ==> line <= usize::MAX,
        forall|i: int| 0 <= i < closing.len() ==> is_closing(#[trigger] closing[i]),
    ensures
        ({
            let text = "https://github.com/"@ + owner + "/"@ + repo + "/blob/"@ + commit + "/"@
                + path + "#L"@ + decimal(first) + match last {
                Some(line) => "-L"@ + decimal(line),
                None => Seq::empty(),
            };
            parsed(text + closing) == Some(
                SourceUrlView {
                    text,
                    owner,
                    repo,
                    commit: commit.map_values(|c: char| lower(c)),
                    path: decoded_path(path)->0,
                    start: first,
                    end: match last {
                        Some(line) => line,
                        None => first,
                    },
                },
            )
        }),
{
    let parts = UrlParts {
        owner,
        repo,
        commit,
        path,
        first: decimal(first),
        last: match last {
            Some(line) => Some(decimal(line)),
            None => None,
        },
    };
    let end = match last {
        Some(line) => line,
        None => first,
    };
    assert forall|i: int| 0 <= i < owner.len() implies is_name_char(#[trigger] owner[i]) by {
        characters_of_links(owner[i]);
    }
    assert forall|i: int| 0 <= i < repo.len() implies is_name_char(#[trigger] repo[i]) by {
        characters_of_links(repo[i]);
    }
    assert forall|i: int| 0 <= i < commit.len() implies is_hex_char(#[trigger] commit[i]) by {
        characters_of_links(commit[i]);
    }
    dots_are_no_names(owner);
    dots_are_no_names(repo);
    decimal_round_trip(first);
    decimal_round_trip(end);
    documented_links_are_recognized(parts, first as usize, end as usize, closing);
}

/// Nothing else is recognized as a link. A candidate that is read as one starts with its text,
/// which is written as it should be, and goes on with closing characters alone.
pub proof fn only_well_written_links_are_recognized(candidate: Seq<char>) -> (parts: UrlParts)
    requires
        parsed(candidate) is Some,
    ensures
        ({
            let url = parsed(candidate)->0;
            &&& url.text == "https://github.com/"@ + parts.owner + "/"@ + parts.repo + "/blob/"@
                + parts.commit + "/"@ + parts.path + "#L"@ + parts.first + match parts.last {
                Some(line) => "-L"@ + line,
                None => Seq::empty(),
            }
            &&& url.text == unclosed(candidate)
            &&& is_repository_name(parts.owner) && url.owner == parts.owner
            &&& is_repository_name(parts.repo) && url.repo == parts.repo
            &&& is_hash(parts.commit)
            &&& url.commit == parts.commit.map_values(|c: char| lower(c))
            &&& parts.path.len() > 0 && !parts.path.contains('#')
            &&& decoded_path(parts.path) == Some(url.path)
            &&& parts.first.len() > 0 && forall|i: int|
                0 <= i < parts.first.len() ==> '0' <= #[trigger] parts.first[i] <= '9'
            &&& url.start == decimal_value(parts.first) && url.start <= usize::MAX
            &&& url.end <= usize::MAX
            &&& match parts.last {
                Some(line) => url.end == decimal_value(line) && line.len() > 0 && forall|i: int|
                    0 <= i < line.len() ==> '0' <= #[trigger] line[i] <= '9',
                None => url.end == url.start,
            }
        }),
{
    let text = unclosed(candidate);
    let parts = choose|parts: UrlParts| #[trigger] parts.spells(text) && parts.meaningful();
    assert forall|i: int| 0 <= i < parts.owner.len() implies ({
        let point = (#[trigger] parts.owner[i]) as u32;
        ||| 65 <= point <= 90 || 97 <= point <= 122 || 48 <= point <= 57
        ||| point == 95 || point == 46 || point == 45
    }) by {
        characters_of_links(parts.owner[i]);
    }
    assert forall|i: int| 0 <= i < parts.repo.len() implies ({
        let point = (#[trigger] parts.repo[i]) as u32;
        ||| 65 <= point <= 90 || 97 <= point <= 122 || 48 <= point <= 57
        ||| point == 95 || point == 46 || point == 45
    }) by {
        characters_of_links(parts.repo[i]);
    }
    assert forall|i: int| 0 <= i < parts.commit.len() implies ({
        let point = (#[trigger] parts.commit[i]) as u32;
        48 <= point <= 57 || 65 <= point <= 70 || 97 <= point <= 102
    }) by {
        characters_of_links(parts.commit[i]);
    }
    dots_are_no_names(parts.owner);
    dots_are_no_names(parts.repo);
    assert forall|i: int| 0 <= i < parts.first.len() implies '0' <= #[trigger] parts.first[i]
        <= '9' by {
        assert(is_digit(parts.first[i]));
    }
    if let Some(line) = parts.last {
        assert forall|i: int| 0 <= i < line.len() implies '0' <= #[trigger] line[i] <= '9' by {
            assert(is_digit(line[i]));
        }
    }
    parts
}

/// The pattern by which links are recognized.
pub proof fn the_pattern_of_links()
    ensures
        URL_PATTERN@
            == r"^https://github\.com/([A-Za-z0-9_.-]+)/([A-Za-z0-9_.-]+)/blob/([0-9A-Fa-f]{40})/([^#]+)#L([0-9]+)(?:-L([0-9]+))?$"@,
{
}

} // verus!
