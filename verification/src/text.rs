//! Characters, bytes and the ways that text is cut into pieces.

use vstd::prelude::*;
use vstd::utf8::{
    decode_utf8, decode_utf8_encode_utf8, encode_utf8, encode_utf8_decode_utf8,
    encode_utf8_valid_utf8, valid_utf8,
};

verus! {

/// `String::push`: appends one character at the end of the string.
pub assume_specification[ String::push ](s: &mut String, c: char)
    ensures
        final(s)@ == old(s)@.push(c),
;

/// What `String::from_utf8` says of bytes that are not UTF-8, as its error prints itself.
pub uninterp spec fn utf8_error_text(bytes: Seq<u8>) -> Seq<char>;

/// What `String::from_utf8_lossy` makes of any bytes.
pub uninterp spec fn lossy_utf8(bytes: Seq<u8>) -> Seq<char>;

/// `String::from_utf8`: the characters of valid UTF-8, and otherwise the text of its error, a
/// function of the bytes that is named [`utf8_error_text`].
#[verifier::external_body]
pub(crate) fn string_from_utf8(bytes: Vec<u8>) -> (result: Result<String, String>)
    ensures
        result is Ok <==> valid_utf8(bytes@),
        result matches Ok(s) ==> s@ == decode_utf8(bytes@),
        result matches Err(e) ==> e@ == utf8_error_text(bytes@),
{
    String::from_utf8(bytes).map_err(|error| error.to_string())
}

/// `String::from_utf8_lossy`: the characters of valid UTF-8; of other bytes, the result is named
/// [`lossy_utf8`].
#[verifier::external_body]
pub(crate) fn string_from_utf8_lossy(bytes: &[u8]) -> (result: String)
    ensures
        result@ == lossy_utf8(bytes@),
        valid_utf8(bytes@) ==> result@ == decode_utf8(bytes@),
{
    String::from_utf8_lossy(bytes).into_owned()
}

/// Bytes as a reader sees them: the characters of valid UTF-8, and of other bytes what
/// `String::from_utf8_lossy` makes of them.
pub open spec fn shown_bytes(bytes: Seq<u8>) -> Seq<char> {
    if valid_utf8(bytes) {
        decode_utf8(bytes)
    } else {
        lossy_utf8(bytes)
    }
}

/// Bytes as a reader sees them.
pub fn show_bytes(bytes: &[u8]) -> (text: String)
    ensures
        text@ == shown_bytes(bytes@),
{
    string_from_utf8_lossy(bytes)
}

/// The bytes of each element of a list of byte strings.
pub open spec fn byte_views(list: Seq<Vec<u8>>) -> Seq<Seq<u8>> {
    list.map_values(|v: Vec<u8>| v@)
}

/// The characters of each element of a list of character lists.
pub open spec fn char_views(list: Seq<Vec<char>>) -> Seq<Seq<char>> {
    list.map_values(|v: Vec<char>| v@)
}

/// The characters of each element of a list of strings.
pub open spec fn string_views(list: Seq<String>) -> Seq<Seq<char>> {
    list.map_values(|s: String| s@)
}

/// The characters of a string, as a list.
pub fn chars_of(s: &str) -> (chars: Vec<char>)
    ensures
        chars@ == s@,
{
    let mut chars: Vec<char> = Vec::new();
    for c in it: s.chars()
        invariant
            chars@ == it.seq().take(it.index()),
    {
        chars.push(c);
    }
    chars
}

/// The string that a list of characters spells.
pub fn string_of(chars: &[char]) -> (s: String)
    ensures
        s@ == chars@,
{
    let mut s = String::new();
    for i in 0..chars.len()
        invariant
            s@ == chars@.take(i as int),
    {
        s.push(chars[i]);
        assert(chars@.take(i + 1) == chars@.take(i as int).push(chars@[i as int]));
    }
    assert(chars@.take(chars@.len() as int) == chars@);
    s
}

/// Whether two byte strings are the same.
pub fn same_bytes(a: &[u8], b: &[u8]) -> (same: bool)
    ensures
        same == (a@ == b@),
{
    if a.len() != b.len() {
        return false;
    }
    for i in 0..a.len()
        invariant
            a@.len() == b@.len(),
            forall|j: int| 0 <= j < i ==> a@[j] == b@[j],
    {
        if a[i] != b[i] {
            return false;
        }
    }
    assert(a@ =~= b@);
    true
}

/// Whether two character lists are the same.
pub fn same_chars(a: &[char], b: &[char]) -> (same: bool)
    ensures
        same == (a@ == b@),
{
    if a.len() != b.len() {
        return false;
    }
    for i in 0..a.len()
        invariant
            a@.len() == b@.len(),
            forall|j: int| 0 <= j < i ==> a@[j] == b@[j],
    {
        if a[i] != b[i] {
            return false;
        }
    }
    assert(a@ =~= b@);
    true
}

/// Whether two strings hold the same characters.
pub fn same_text(a: &str, b: &str) -> (same: bool)
    ensures
        same == (a@ == b@),
{
    let a_chars = chars_of(a);
    let b_chars = chars_of(b);
    same_chars(&a_chars, &b_chars)
}

// ---------------------------------------------------------------------------------------------
// Pieces between separators
// ---------------------------------------------------------------------------------------------

/// The pieces of `s` between the elements that equal `separator`: one more than there are such
/// elements, so `seq![s]` when there is none.
pub open spec fn split<T>(s: Seq<T>, separator: T) -> Seq<Seq<T>>
    decreases s.len(),
{
    if s.len() == 0 {
        seq![Seq::empty()]
    } else {
        let before = split(s.drop_last(), separator);
        if s.last() == separator {
            before.push(Seq::empty())
        } else {
            before.drop_last().push(before.last().push(s.last()))
        }
    }
}

/// The pieces one after another, with `separator` between each two.
pub open spec fn join<T>(pieces: Seq<Seq<T>>, separator: T) -> Seq<T>
    decreases pieces.len(),
{
    if pieces.len() == 0 {
        Seq::empty()
    } else if pieces.len() == 1 {
        pieces[0]
    } else {
        join(pieces.drop_last(), separator).push(separator) + pieces.last()
    }
}

/// Joining what was split gives back the whole, and no piece holds the separator: the pieces are
/// all that stands between two separators, and nothing is lost.
pub proof fn split_then_join<T>(s: Seq<T>, separator: T)
    ensures
        split(s, separator).len() > 0,
        join(split(s, separator), separator) == s,
        forall|i: int| 0 <= i < split(s, separator).len() ==> !#[trigger] split(
            s,
            separator,
        )[i].contains(separator),
    decreases s.len(),
{
    if s.len() == 0 {
        assert(join(split(s, separator), separator) == s);
    } else {
        let front = s.drop_last();
        let before = split(front, separator);
        let after = split(s, separator);
        split_then_join(front, separator);
        if s.last() == separator {
            assert(after.drop_last() == before);
            assert(join(after, separator) == join(before, separator).push(separator)
                + Seq::<T>::empty());
            assert(join(after, separator) == s);
        } else {
            assert(after.drop_last() == before.drop_last());
            assert(after.last() == before.last().push(s.last()));
            assert(front.push(s.last()) == s);
            assert(join(after, separator) == join(before, separator).push(s.last()));
            assert forall|i: int| 0 <= i < after.len() implies !#[trigger] after[i].contains(
                separator,
            ) by {
                if i < after.len() - 1 {
                    assert(after[i] == before[i]);
                } else {
                    assert(after[i] == before.last().push(s.last()));
                    assert(!before[before.len() - 1].contains(separator));
                    if after[i].contains(separator) {
                        let k = after[i].index_of(separator);
                        assert(before.last()[k] == separator);
                    }
                }
            }
        }
    }
}

/// The pieces of a byte string between the bytes that equal `separator`.
pub fn split_bytes(data: &[u8], separator: u8) -> (pieces: Vec<Vec<u8>>)
    ensures
        byte_views(pieces@) == split(data@, separator),
{
    let mut pieces: Vec<Vec<u8>> = Vec::new();
    let mut current: Vec<u8> = Vec::new();
    assert(byte_views(pieces@).push(current@) == split(data@.take(0), separator));
    for i in 0..data.len()
        invariant
            byte_views(pieces@).push(current@) == split(data@.take(i as int), separator),
    {
        let ghost before = byte_views(pieces@);
        let ghost piece = current@;
        assert(data@.take(i + 1).drop_last() == data@.take(i as int));
        let byte: u8 = data[i];
        if byte == separator {
            let ghost finished = pieces@;
            pieces.push(current);
            assert(byte_views(pieces@) == before.push(piece));
            current = Vec::new();
        } else {
            current.push(byte);
            assert(before.push(piece).drop_last() == before);
        }
        assert(byte_views(pieces@).push(current@) == split(data@.take(i + 1), separator));
    }
    let ghost before = byte_views(pieces@);
    let ghost piece = current@;
    pieces.push(current);
    assert(byte_views(pieces@) == before.push(piece));
    assert(data@.take(data@.len() as int) == data@);
    pieces
}

/// The pieces of a character list between the characters that equal `separator`.
pub fn split_chars(data: &[char], separator: char) -> (pieces: Vec<Vec<char>>)
    ensures
        char_views(pieces@) == split(data@, separator),
{
    let mut pieces: Vec<Vec<char>> = Vec::new();
    let mut current: Vec<char> = Vec::new();
    assert(char_views(pieces@).push(current@) == split(data@.take(0), separator));
    for i in 0..data.len()
        invariant
            char_views(pieces@).push(current@) == split(data@.take(i as int), separator),
    {
        let ghost before = char_views(pieces@);
        let ghost piece = current@;
        assert(data@.take(i + 1).drop_last() == data@.take(i as int));
        let c: char = data[i];
        if c == separator {
            pieces.push(current);
            assert(char_views(pieces@) == before.push(piece));
            current = Vec::new();
        } else {
            current.push(c);
            assert(before.push(piece).drop_last() == before);
        }
        assert(char_views(pieces@).push(current@) == split(data@.take(i + 1), separator));
    }
    let ghost before = char_views(pieces@);
    let ghost piece = current@;
    pieces.push(current);
    assert(char_views(pieces@) == before.push(piece));
    assert(data@.take(data@.len() as int) == data@);
    pieces
}

// ---------------------------------------------------------------------------------------------
// White space
// ---------------------------------------------------------------------------------------------

/// Whether a character has the Unicode property `White_Space`.
pub open spec fn is_white_space(c: char) -> bool {
    ||| '\u{9}' <= c <= '\u{d}'
    ||| c == '\u{20}'
    ||| c == '\u{85}'
    ||| c == '\u{a0}'
    ||| c == '\u{1680}'
    ||| '\u{2000}' <= c <= '\u{200a}'
    ||| c == '\u{2028}'
    ||| c == '\u{2029}'
    ||| c == '\u{202f}'
    ||| c == '\u{205f}'
    ||| c == '\u{3000}'
}

/// Whether a character has the Unicode property `White_Space`.
pub fn white_space(c: char) -> (yes: bool)
    ensures
        yes == is_white_space(c),
{
    ('\u{9}' <= c && c <= '\u{d}') || c == '\u{20}' || c == '\u{85}' || c == '\u{a0}' || c
        == '\u{1680}' || ('\u{2000}' <= c && c <= '\u{200a}') || c == '\u{2028}' || c == '\u{2029}'
        || c == '\u{202f}' || c == '\u{205f}' || c == '\u{3000}'
}

/// `s` without the white space at its end.
pub open spec fn trimmed_end(s: Seq<char>) -> Seq<char>
    decreases s.len(),
{
    if s.len() > 0 && is_white_space(s.last()) {
        trimmed_end(s.drop_last())
    } else {
        s
    }
}

/// `s` without the white space at its start.
pub open spec fn trimmed_start(s: Seq<char>) -> Seq<char>
    decreases s.len(),
{
    if s.len() > 0 && is_white_space(s[0]) {
        trimmed_start(s.drop_first())
    } else {
        s
    }
}

/// `s` without the white space at either end.
pub open spec fn trimmed(s: Seq<char>) -> Seq<char> {
    trimmed_end(trimmed_start(s))
}

/// A string without the white space at its end.
pub fn trim_end(s: &str) -> (result: String)
    ensures
        result@ == trimmed_end(s@),
{
    let chars = chars_of(s);
    let mut end: usize = chars.len();
    assert(chars@.take(end as int) == s@);
    while end > 0 && white_space(chars[end - 1])
        invariant
            end <= chars@.len(),
            trimmed_end(chars@.take(end as int)) == trimmed_end(s@),
        decreases end,
    {
        assert(chars@.take(end as int).drop_last() == chars@.take(end - 1));
        end = end - 1;
    }
    string_of(vstd::slice::slice_subrange(chars.as_slice(), 0, end))
}

/// A string without the white space at either end.
pub fn trim(s: &str) -> (result: String)
    ensures
        result@ == trimmed(s@),
{
    let chars = chars_of(s);
    let mut start: usize = 0;
    assert(chars@.skip(0) == s@);
    while start < chars.len() && white_space(chars[start])
        invariant
            start <= chars@.len(),
            trimmed_start(chars@.skip(start as int)) == trimmed_start(s@),
        decreases chars.len() - start,
    {
        assert(chars@.skip(start as int).drop_first() == chars@.skip(start + 1));
        start = start + 1;
    }
    assert(chars@.skip(start as int) == trimmed_start(s@));
    let rest = string_of(vstd::slice::slice_subrange(chars.as_slice(), start, chars.len()));
    trim_end(rest.as_str())
}

/// The runs of characters between white space, the empty ones included.
pub open spec fn fields(s: Seq<char>) -> Seq<Seq<char>>
    decreases s.len(),
{
    if s.len() == 0 {
        seq![Seq::empty()]
    } else {
        let before = fields(s.drop_last());
        if is_white_space(s.last()) {
            before.push(Seq::empty())
        } else {
            before.drop_last().push(before.last().push(s.last()))
        }
    }
}

/// The words of `s`: its maximal runs of characters that are not white space.
pub open spec fn words(s: Seq<char>) -> Seq<Seq<char>> {
    fields(s).filter(|w: Seq<char>| w.len() > 0)
}

proof fn fields_never_empty(s: Seq<char>)
    ensures
        fields(s).len() > 0,
    decreases s.len(),
{
    if s.len() > 0 {
        fields_never_empty(s.drop_last());
    }
}

/// The words of a string.
pub fn split_whitespace(s: &str) -> (result: Vec<String>)
    ensures
        string_views(result@) == words(s@),
{
    let chars = chars_of(s);
    let ghost full = |w: Seq<char>| w.len() > 0;
    let mut result: Vec<String> = Vec::new();
    let mut current: Vec<char> = Vec::new();
    proof {
        assert(chars@.take(0) == Seq::<char>::empty());
        assert(fields(chars@.take(0)).drop_last() == Seq::<Seq<char>>::empty());
        reveal(Seq::filter);
        assert(string_views(result@) == fields(chars@.take(0)).drop_last().filter(full));
    }
    for i in 0..chars.len()
        invariant
            chars@ == s@,
            full == (|w: Seq<char>| w.len() > 0),
            current@ == fields(chars@.take(i as int)).last(),
            string_views(result@) == fields(chars@.take(i as int)).drop_last().filter(full),
    {
        let ghost before = fields(chars@.take(i as int));
        let ghost words_before = string_views(result@);
        let ghost piece = current@;
        proof {
            fields_never_empty(chars@.take(i as int));
            assert(chars@.take(i + 1).drop_last() == chars@.take(i as int));
        }
        let c: char = chars[i];
        if white_space(c) {
            proof {
                let after = before.push(Seq::empty());
                assert(after.drop_last() == before);
                assert(before.drop_last().push(before.last()) == before);
                before.drop_last().lemma_filter_push(before.last(), full);
            }
            if current.len() > 0 {
                result.push(string_of(current.as_slice()));
                assert(string_views(result@) == words_before.push(piece));
            }
            current = Vec::new();
        } else {
            current.push(c);
            assert(before.drop_last().push(before.last().push(c)).drop_last()
                == before.drop_last());
        }
    }
    assert(chars@.take(chars@.len() as int) == chars@);
    let ghost last = fields(s@);
    let ghost words_before = string_views(result@);
    let ghost piece = current@;
    proof {
        fields_never_empty(s@);
        assert(last.drop_last().push(last.last()) == last);
        last.drop_last().lemma_filter_push(last.last(), full);
    }
    if current.len() > 0 {
        result.push(string_of(current.as_slice()));
        assert(string_views(result@) == words_before.push(piece));
    }
    result
}

// ---------------------------------------------------------------------------------------------
// Lines of text
// ---------------------------------------------------------------------------------------------

/// A line without the carriage return that may stand before its line feed.
pub open spec fn without_return(line: Seq<char>) -> Seq<char> {
    if line.len() > 0 && line.last() == '\r' {
        line.drop_last()
    } else {
        line
    }
}

/// The lines of a text. Each line feed ends one, together with a carriage return right before it.
/// What follows the last line feed is a line too, unless it is empty.
pub open spec fn text_lines(s: Seq<char>) -> Seq<Seq<char>> {
    let pieces = split(s, '\n');
    let ended = pieces.drop_last().map_values(|line: Seq<char>| without_return(line));
    if pieces.last().len() == 0 {
        ended
    } else {
        ended.push(pieces.last())
    }
}

/// The lines of a text.
pub fn lines_of_text(s: &str) -> (result: Vec<String>)
    ensures
        string_views(result@) == text_lines(s@),
{
    let chars = chars_of(s);
    let pieces = split_chars(chars.as_slice(), '\n');
    let ghost cut = split(s@, '\n');
    let ghost ended = cut.drop_last().map_values(|line: Seq<char>| without_return(line));
    proof {
        split_then_join(s@, '\n');
    }
    let mut result: Vec<String> = Vec::new();
    let last: usize = pieces.len() - 1;
    for i in 0..last
        invariant
            last == pieces.len() - 1,
            char_views(pieces@) == cut,
            ended == cut.drop_last().map_values(|line: Seq<char>| without_return(line)),
            string_views(result@) == ended.take(i as int),
    {
        let ghost before = string_views(result@);
        let line: &Vec<char> = &pieces[i];
        assert(line@ == cut[i as int]);
        let size: usize = line.len();
        let text: String;
        if size > 0 && line[size - 1] == '\r' {
            text = string_of(vstd::slice::slice_subrange(line.as_slice(), 0, size - 1));
            assert(text@ == without_return(line@));
        } else {
            text = string_of(line.as_slice());
        }
        let ghost added = text@;
        result.push(text);
        assert(string_views(result@) == before.push(added));
        assert(ended.take(i + 1) == ended.take(i as int).push(ended[i as int]));
    }
    assert(ended.take(last as int) == ended);
    assert(pieces@[last as int]@ == cut.last());
    if pieces[last].len() > 0 {
        let ghost before = string_views(result@);
        let text = string_of(pieces[last].as_slice());
        let ghost added = text@;
        result.push(text);
        assert(string_views(result@) == before.push(added));
    }
    result
}

// ---------------------------------------------------------------------------------------------
// The first separator
// ---------------------------------------------------------------------------------------------

/// What stands before the first `separator` of `s`: all of it when there is none.
pub open spec fn head(s: Seq<char>, separator: char) -> Seq<char>
    decreases s.len(),
{
    if s.len() == 0 || s[0] == separator {
        Seq::empty()
    } else {
        seq![s[0]] + head(s.drop_first(), separator)
    }
}

/// What stands behind the first `separator` of `s`, if there is one.
pub open spec fn tail(s: Seq<char>, separator: char) -> Option<Seq<char>>
    decreases s.len(),
{
    if s.len() == 0 {
        None
    } else if s[0] == separator {
        Some(s.drop_first())
    } else {
        tail(s.drop_first(), separator)
    }
}

/// Cuts a character list at the first `separator`.
pub fn cut_first(s: &[char], separator: char) -> (result: (Vec<char>, Option<Vec<char>>))
    ensures
        result.0@ == head(s@, separator),
        result.1 is Some <==> tail(s@, separator) is Some,
        result.1 matches Some(rest) ==> rest@ == tail(s@, separator)->0,
{
    let mut front: Vec<char> = Vec::new();
    assert(s@.skip(0) == s@);
    for i in 0..s.len()
        invariant
            head(s@, separator) == front@ + head(s@.skip(i as int), separator),
            tail(s@, separator) == tail(s@.skip(i as int), separator),
    {
        assert(s@.skip(i as int).drop_first() == s@.skip(i + 1));
        if s[i] == separator {
            let mut rest: Vec<char> = Vec::new();
            for j in i + 1..s.len()
                invariant
                    i < s@.len(),
                    rest@ == s@.subrange(i + 1, j as int),
            {
                rest.push(s[j]);
                assert(s@.subrange(i + 1, j + 1) == s@.subrange(i + 1, j as int).push(s@[j as int]));
            }
            assert(s@.subrange(i + 1, s@.len() as int) == s@.skip(i + 1));
            assert(front@ + head(s@.skip(i as int), separator) == front@);
            return (front, Some(rest));
        }
        let ghost before = front@;
        front.push(s[i]);
        assert(before + (seq![s@[i as int]] + head(s@.skip(i + 1), separator)) == front@ + head(
            s@.skip(i + 1),
            separator,
        ));
    }
    assert(front@ + head(s@.skip(s@.len() as int), separator) == front@);
    (front, None)
}

// ---------------------------------------------------------------------------------------------
// Decimal numbers
// ---------------------------------------------------------------------------------------------

/// The character of a digit.
pub open spec fn digit_char(d: nat) -> char {
    (('0' as int) + d) as char
}

/// Whether a character is a decimal digit.
pub open spec fn is_digit(c: char) -> bool {
    '0' <= c <= '9'
}

/// The decimal numeral of `n`, without leading zeros.
pub open spec fn decimal(n: nat) -> Seq<char>
    decreases n,
{
    if n < 10 {
        seq![digit_char(n)]
    } else {
        decimal(n / 10).push(digit_char(n % 10))
    }
}

/// The number that a list of digits stands for, leading zeros allowed.
pub open spec fn decimal_value(digits: Seq<char>) -> nat
    decreases digits.len(),
{
    if digits.len() == 0 {
        0
    } else {
        (decimal_value(digits.drop_last()) * 10 + (digits.last() as int - '0' as int)) as nat
    }
}

/// The numeral of a number stands for that number, and holds digits only.
pub proof fn decimal_round_trip(n: nat)
    ensures
        decimal(n).len() > 0,
        forall|i: int| 0 <= i < decimal(n).len() ==> is_digit(#[trigger] decimal(n)[i]),
        decimal_value(decimal(n)) == n,
    decreases n,
{
    reveal_with_fuel(decimal_value, 2);
    if n < 10 {
        assert(seq![digit_char(n)].drop_last() == Seq::<char>::empty());
    } else {
        decimal_round_trip(n / 10);
        assert(decimal(n).drop_last() == decimal(n / 10));
    }
}

fn digit_of(d: usize) -> (c: char)
    requires
        d < 10,
    ensures
        c == digit_char(d as nat),
{
    match d {
        0 => '0',
        1 => '1',
        2 => '2',
        3 => '3',
        4 => '4',
        5 => '5',
        6 => '6',
        7 => '7',
        8 => '8',
        _ => '9',
    }
}

/// The decimal numeral of a number.
pub fn to_decimal(n: usize) -> (s: String)
    ensures
        s@ == decimal(n as nat),
    decreases n,
{
    if n < 10 {
        let mut s = String::new();
        s.push(digit_of(n));
        s
    } else {
        let mut s = to_decimal(n / 10);
        s.push(digit_of(n % 10));
        s
    }
}

proof fn decimal_value_grows(digits: Seq<char>, i: int)
    requires
        0 <= i <= digits.len(),
        forall|j: int| 0 <= j < digits.len() ==> is_digit(#[trigger] digits[j]),
    ensures
        decimal_value(digits.take(i)) <= decimal_value(digits),
    decreases digits.len() - i,
{
    if i == digits.len() {
        assert(digits.take(i) == digits);
    } else {
        decimal_value_grows(digits, i + 1);
        assert(digits.take(i + 1).drop_last() == digits.take(i));
    }
}

/// The number that a list of digits stands for, if a `usize` can hold it.
pub fn parse_decimal(digits: &[char]) -> (result: Option<usize>)
    requires
        forall|j: int| 0 <= j < digits@.len() ==> is_digit(#[trigger] digits@[j]),
    ensures
        result is Some <==> decimal_value(digits@) <= usize::MAX,
        result matches Some(n) ==> n == decimal_value(digits@),
{
    let mut value: usize = 0;
    for i in 0..digits.len()
        invariant
            forall|j: int| 0 <= j < digits@.len() ==> is_digit(#[trigger] digits@[j]),
            value == decimal_value(digits@.take(i as int)),
    {
        let digit: usize = (digits[i] as u32 - '0' as u32) as usize;
        proof {
            assert(is_digit(digits@[i as int]));
            assert(digits@.take(i + 1).drop_last() == digits@.take(i as int));
            decimal_value_grows(digits@, i + 1);
        }
        match value.checked_mul(10) {
            Some(tens) => match tens.checked_add(digit) {
                Some(sum) => {
                    value = sum;
                },
                None => {
                    return None;
                },
            },
            None => {
                return None;
            },
        }
    }
    assert(digits@.take(digits@.len() as int) == digits@);
    Some(value)
}

// ---------------------------------------------------------------------------------------------
// What is taken apart is what was put together
// ---------------------------------------------------------------------------------------------

/// Pieces one after another, each with the separator behind it.
pub open spec fn ended<T>(pieces: Seq<Seq<T>>, separator: T) -> Seq<T> {
    pieces.map_values(|piece: Seq<T>| piece.push(separator)).flatten()
}

/// One more piece goes behind the others.
pub proof fn ended_push<T>(pieces: Seq<Seq<T>>, piece: Seq<T>, separator: T)
    ensures
        ended(pieces.push(piece), separator) == ended(pieces, separator) + piece.push(separator),
        ended(Seq::<Seq<T>>::empty(), separator) == Seq::<T>::empty(),
{
    let closed = |piece: Seq<T>| piece.push(separator);
    assert(pieces.push(piece).map_values(closed) =~= pieces.map_values(closed).push(
        piece.push(separator),
    ));
    pieces.map_values(closed).lemma_flatten_push(piece.push(separator));
    assert(Seq::<Seq<T>>::empty().map_values(closed) =~= Seq::<Seq<T>>::empty());
}

proof fn split_goes_on<T>(s: Seq<T>, more: Seq<T>, separator: T)
    requires
        !more.contains(separator),
    ensures
        split(s, separator).len() > 0,
        split(s + more, separator) == split(s, separator).drop_last().push(
            split(s, separator).last() + more,
        ),
    decreases more.len(),
{
    split_then_join(s, separator);
    let before = split(s, separator);
    if more.len() == 0 {
        assert(s + more == s);
        assert(before.last() + more == before.last());
        assert(before.drop_last().push(before.last()) =~= before);
    } else {
        let front = more.drop_last();
        assert(more[more.len() - 1] == more.last());
        if front.contains(separator) {
            let i = front.index_of(separator);
            assert(more[i] == separator);
        }
        split_goes_on(s, front, separator);
        assert((s + more).drop_last() == s + front);
        assert((s + more).last() == more.last());
        assert((before.last() + front).push(more.last()) == before.last() + more);
        assert(split(s + front, separator).drop_last() =~= before.drop_last());
    }
}

/// Pieces that hold no separator, each with one behind it, are taken apart into those very pieces,
/// in their order, with nothing behind the last separator.
pub proof fn ended_pieces_are_split_again<T>(pieces: Seq<Seq<T>>, separator: T)
    requires
        forall|i: int| 0 <= i < pieces.len() ==> !(#[trigger] pieces[i]).contains(separator),
    ensures
        split(ended(pieces, separator), separator) == pieces.push(Seq::empty()),
    decreases pieces.len(),
{
    if pieces.len() == 0 {
        ended_push(pieces, Seq::empty(), separator);
        assert(pieces =~= Seq::<Seq<T>>::empty());
        assert(split(Seq::<T>::empty(), separator) =~= pieces.push(Seq::empty()));
    } else {
        let front = pieces.drop_last();
        let last = pieces.last();
        assert(!pieces[pieces.len() - 1].contains(separator));
        assert forall|i: int| 0 <= i < front.len() implies !(#[trigger] front[i]).contains(
            separator,
        ) by {
            assert(front[i] == pieces[i]);
        }
        ended_pieces_are_split_again(front, separator);
        ended_push(front, last, separator);
        assert(front.push(last) =~= pieces);
        let before = ended(front, separator);
        split_goes_on(before, last, separator);
        assert(split(before + last, separator) =~= front.push(last)) by {
            assert(Seq::<T>::empty() + last =~= last);
            assert(front.push(Seq::empty()).drop_last() =~= front);
        }
        let whole = ended(pieces, separator);
        assert(whole =~= (before + last).push(separator));
        assert(whole.drop_last() =~= before + last);
    }
}

/// Joined pieces that hold no separator are taken apart into those very pieces.
pub proof fn joined_pieces_are_split_again<T>(pieces: Seq<Seq<T>>, separator: T)
    requires
        pieces.len() > 0,
        forall|i: int| 0 <= i < pieces.len() ==> !(#[trigger] pieces[i]).contains(separator),
    ensures
        split(join(pieces, separator), separator) == pieces,
    decreases pieces.len(),
{
    let front = pieces.drop_last();
    let last = pieces.last();
    let none = Seq::<T>::empty();
    assert(!pieces[pieces.len() - 1].contains(separator));
    if pieces.len() == 1 {
        split_goes_on(none, last, separator);
        assert(none + last =~= last);
        assert(split(none, separator).drop_last().push(last) =~= pieces);
    } else {
        assert forall|i: int| 0 <= i < front.len() implies !(#[trigger] front[i]).contains(
            separator,
        ) by {
            assert(front[i] == pieces[i]);
        }
        joined_pieces_are_split_again(front, separator);
        let closed = join(front, separator).push(separator);
        assert(closed.drop_last() =~= join(front, separator));
        assert(split(closed, separator) == front.push(none));
        split_goes_on(closed, last, separator);
        assert(none + last =~= last);
        assert(front.push(none).drop_last() =~= front);
        assert(front.push(last) =~= pieces);
    }
}

/// White space is what Unicode counts as white space, and nothing else.
pub proof fn white_space_is_as_in_unicode(c: char)
    ensures
        is_white_space(c) <==> ({
            let point = c as u32;
            ||| point == 9 || point == 10 || point == 11 || point == 12 || point == 13
            ||| point == 32 || point == 133 || point == 160 || point == 5760
            ||| 8192 <= point <= 8202
            ||| point == 8232 || point == 8233 || point == 8239 || point == 8287 || point == 12288
        }),
{
}

/// Whether a text is white space and nothing else.
pub open spec fn is_blank(s: Seq<char>) -> bool {
    forall|i: int| 0 <= i < s.len() ==> is_white_space(#[trigger] s[i])
}

proof fn trimmed_end_parts(s: Seq<char>) -> (behind: Seq<char>)
    ensures
        s == trimmed_end(s) + behind,
        is_blank(behind),
        trimmed_end(s).len() > 0 ==> !is_white_space(trimmed_end(s).last()),
    decreases s.len(),
{
    if s.len() > 0 && is_white_space(s.last()) {
        let behind = trimmed_end_parts(s.drop_last());
        assert(s =~= s.drop_last().push(s.last()));
        assert((trimmed_end(s) + behind).push(s.last()) =~= trimmed_end(s) + behind.push(s.last()));
        behind.push(s.last())
    } else {
        assert(s =~= trimmed_end(s) + Seq::<char>::empty());
        Seq::empty()
    }
}

proof fn trimmed_start_parts(s: Seq<char>) -> (before: Seq<char>)
    ensures
        s == before + trimmed_start(s),
        is_blank(before),
        trimmed_start(s).len() > 0 ==> !is_white_space(trimmed_start(s)[0]),
    decreases s.len(),
{
    if s.len() > 0 && is_white_space(s[0]) {
        let before = trimmed_start_parts(s.drop_first());
        let all = seq![s[0]] + before;
        assert(s =~= seq![s[0]] + s.drop_first());
        assert(seq![s[0]] + (before + trimmed_start(s)) =~= all + trimmed_start(s));
        all
    } else {
        assert(s =~= Seq::<char>::empty() + trimmed_start(s));
        Seq::empty()
    }
}

/// Trimming takes white space off the end, all that there is and nothing else.
pub proof fn only_white_space_is_trimmed_at_the_end(text: Seq<char>, behind: Seq<char>)
    requires
        is_blank(behind),
        text.len() > 0 ==> !is_white_space(text.last()),
    ensures
        trimmed_end(text + behind) == text,
    decreases behind.len(),
{
    let all = text + behind;
    if behind.len() == 0 {
        assert(all =~= text);
    } else {
        assert(is_white_space(behind[behind.len() - 1]));
        assert(all.last() == behind.last());
        assert(all.drop_last() =~= text + behind.drop_last());
        assert(is_blank(behind.drop_last())) by {
            assert forall|i: int| 0 <= i < behind.len() - 1 implies is_white_space(
                #[trigger] behind.drop_last()[i],
            ) by {
                assert(is_white_space(behind[i]));
            }
        }
        only_white_space_is_trimmed_at_the_end(text, behind.drop_last());
    }
}

/// Trimming takes white space off both ends, all that there is and nothing else.
pub proof fn only_white_space_is_trimmed(before: Seq<char>, text: Seq<char>, behind: Seq<char>)
    requires
        is_blank(before),
        is_blank(behind),
        text.len() > 0,
        !is_white_space(text[0]),
        !is_white_space(text.last()),
    ensures
        trimmed(before + text + behind) == text,
    decreases before.len(),
{
    let all = before + text + behind;
    if before.len() == 0 {
        assert(all =~= text + behind);
        assert(all[0] == text[0]);
        only_white_space_is_trimmed_at_the_end(text, behind);
    } else {
        assert(is_white_space(before[0]));
        assert(all[0] == before[0]);
        let later = before.drop_first();
        assert(is_blank(later)) by {
            assert forall|i: int| 0 <= i < later.len() implies is_white_space(
                #[trigger] later[i],
            ) by {
                assert(is_white_space(before[i + 1]));
            }
        }
        assert(all.drop_first() =~= later + text + behind);
        only_white_space_is_trimmed(later, text, behind);
    }
}

/// What is left of a text once it is trimmed stands in it between white space, and neither starts
/// nor ends with any.
pub proof fn trimmed_texts_are_parts(s: Seq<char>) -> (parts: (Seq<char>, Seq<char>))
    ensures
        s == parts.0 + trimmed(s) + parts.1,
        is_blank(parts.0),
        is_blank(parts.1),
        trimmed(s).len() > 0 ==> !is_white_space(trimmed(s)[0]) && !is_white_space(
            trimmed(s).last(),
        ),
{
    let before = trimmed_start_parts(s);
    let middle = trimmed_start(s);
    let behind = trimmed_end_parts(middle);
    assert(s =~= before + trimmed(s) + behind);
    if trimmed(s).len() > 0 {
        assert(trimmed(s)[0] == middle[0]);
    }
    (before, behind)
}

proof fn fields_go_on(s: Seq<char>, more: Seq<char>)
    requires
        forall|i: int| 0 <= i < more.len() ==> !is_white_space(#[trigger] more[i]),
    ensures
        fields(s).len() > 0,
        fields(s + more) == fields(s).drop_last().push(fields(s).last() + more),
    decreases more.len(),
{
    fields_never_empty(s);
    let before = fields(s);
    if more.len() == 0 {
        assert(s + more == s);
        assert(before.last() + more == before.last());
        assert(before.drop_last().push(before.last()) =~= before);
    } else {
        let front = more.drop_last();
        assert(!is_white_space(more[more.len() - 1]));
        assert forall|i: int| 0 <= i < front.len() implies !is_white_space(#[trigger] front[i]) by {
            assert(!is_white_space(more[i]));
        }
        fields_go_on(s, front);
        assert((s + more).drop_last() == s + front);
        assert((s + more).last() == more.last());
        assert((before.last() + front).push(more.last()) == before.last() + more);
        assert(fields(s + front).drop_last() =~= before.drop_last());
    }
}

/// Words with some white space behind each.
pub open spec fn spaced(list: Seq<Seq<char>>, spaces: Seq<char>) -> Seq<char> {
    Seq::new(list.len(), |i: int| list[i].push(spaces[i])).flatten()
}

proof fn spaced_fields(list: Seq<Seq<char>>, spaces: Seq<char>)
    requires
        list.len() == spaces.len(),
        is_blank(spaces),
        forall|i: int, j: int|
            0 <= i < list.len() && 0 <= j < list[i].len() ==> !is_white_space(
                #[trigger] list[i][j],
            ),
    ensures
        fields(spaced(list, spaces)) == list.push(Seq::empty()),
    decreases list.len(),
{
    let pieces = Seq::new(list.len(), |i: int| list[i].push(spaces[i]));
    if list.len() == 0 {
        assert(spaced(list, spaces) =~= Seq::<char>::empty());
        assert(list.push(Seq::empty()) =~= seq![Seq::<char>::empty()]);
    } else {
        let front = list.drop_last();
        let last = list.last();
        let gaps = spaces.drop_last();
        assert(is_blank(gaps)) by {
            assert forall|i: int| 0 <= i < gaps.len() implies is_white_space(
                #[trigger] gaps[i],
            ) by {
                assert(is_white_space(spaces[i]));
            }
        }
        assert forall|i: int, j: int|
            0 <= i < front.len() && 0 <= j < front[i].len() implies !is_white_space(
            #[trigger] front[i][j],
        ) by {
            assert(!is_white_space(list[i][j]));
        }
        assert forall|j: int| 0 <= j < last.len() implies !is_white_space(#[trigger] last[j]) by {
            assert(!is_white_space(list[list.len() - 1][j]));
        }
        spaced_fields(front, gaps);
        let fewer = Seq::new(front.len(), |i: int| front[i].push(gaps[i]));
        assert(pieces =~= fewer.push(last.push(spaces.last())));
        fewer.lemma_flatten_push(last.push(spaces.last()));
        let before = spaced(front, gaps);
        let whole = spaced(list, spaces);
        assert(whole =~= (before + last).push(spaces.last()));
        assert(whole.drop_last() =~= before + last);
        assert(is_white_space(spaces[spaces.len() - 1]));
        fields_go_on(before, last);
        assert(front.push(Seq::empty()).drop_last() =~= front);
        assert(Seq::<char>::empty() + last =~= last);
        assert(front.push(last) =~= list);
    }
}

/// Where no piece is empty, none is left out.
pub proof fn full_pieces_stay<T>(list: Seq<Seq<T>>)
    requires
        forall|i: int| 0 <= i < list.len() ==> (#[trigger] list[i]).len() > 0,
    ensures
        list.filter(|piece: Seq<T>| piece.len() > 0) == list,
        list.push(Seq::empty()).filter(|piece: Seq<T>| piece.len() > 0) == list,
    decreases list.len(),
{
    let full = |piece: Seq<T>| piece.len() > 0;
    reveal(Seq::filter);
    if list.len() > 0 {
        let front = list.drop_last();
        assert(list[list.len() - 1].len() > 0);
        assert forall|i: int| 0 <= i < front.len() implies (#[trigger] front[i]).len() > 0 by {
            assert(list[i].len() > 0);
        }
        full_pieces_stay(front);
        front.lemma_filter_push(list.last(), full);
        assert(front.push(list.last()) =~= list);
    } else {
        assert(list.filter(full) =~= list);
    }
    list.lemma_filter_push(Seq::empty(), full);
}

/// Words that hold no white space, with some behind each, are read back as those very words, in
/// their order.
pub proof fn spaced_words_are_read_back(list: Seq<Seq<char>>, spaces: Seq<char>)
    requires
        list.len() == spaces.len(),
        is_blank(spaces),
        forall|i: int| 0 <= i < list.len() ==> (#[trigger] list[i]).len() > 0,
        forall|i: int, j: int|
            0 <= i < list.len() && 0 <= j < list[i].len() ==> !is_white_space(
                #[trigger] list[i][j],
            ),
    ensures
        words(spaced(list, spaces)) == list,
{
    spaced_fields(list, spaces);
    full_pieces_stay(list);
    assert((|w: Seq<char>| w.len() > 0) =~= (|piece: Seq<char>| piece.len() > 0));
}

/// Lines, each ended by a line feed, are read back as those very lines, in their order; so is what
/// stands behind the last line feed, as one line more.
pub proof fn ended_lines_are_read_back(list: Seq<Seq<char>>, last: Seq<char>)
    requires
        forall|i: int| 0 <= i < list.len() ==> !(#[trigger] list[i]).contains('\n'),
        forall|i: int|
            0 <= i < list.len() && (#[trigger] list[i]).len() > 0 ==> list[i].last() != '\r',
        !last.contains('\n'),
    ensures
        text_lines(ended(list, '\n') + last) == if last.len() == 0 {
            list
        } else {
            list.push(last)
        },
{
    ended_pieces_are_split_again(list, '\n');
    let front = ended(list, '\n');
    let none = Seq::<char>::empty();
    split_goes_on(front, last, '\n');
    assert(list.push(none).drop_last() =~= list);
    assert(none + last =~= last);
    let pieces = split(front + last, '\n');
    assert(pieces == list.push(last));
    assert(pieces.drop_last() =~= list);
    assert(list.map_values(|line: Seq<char>| without_return(line)) =~= list);
}

/// A carriage return right before a line feed belongs to the end of the line.
pub proof fn returns_end_lines(list: Seq<Seq<char>>)
    requires
        forall|i: int| 0 <= i < list.len() ==> !(#[trigger] list[i]).contains('\n'),
    ensures
        text_lines(ended(list.map_values(|line: Seq<char>| line.push('\r')), '\n')) == list,
{
    let closed = list.map_values(|line: Seq<char>| line.push('\r'));
    assert forall|i: int| 0 <= i < closed.len() implies !(#[trigger] closed[i]).contains('\n') by {
        assert(!list[i].contains('\n'));
        if closed[i].contains('\n') {
            let k = closed[i].index_of('\n');
            assert(list[i][k] == '\n');
        }
    }
    ended_pieces_are_split_again(closed, '\n');
    let pieces = closed.push(Seq::empty());
    assert(pieces.drop_last() =~= closed);
    let bare = closed.map_values(|line: Seq<char>| without_return(line));
    assert forall|i: int| 0 <= i < list.len() implies bare[i] == list[i] by {
        assert(closed[i].drop_last() =~= list[i]);
    }
    assert(bare =~= list);
}

/// A text is cut at the first separator: what stands before it holds none, and both parts with the
/// separator between them are the whole. Without a separator all stands before it.
pub proof fn texts_are_cut_at_the_first(s: Seq<char>, separator: char)
    ensures
        !head(s, separator).contains(separator),
        match tail(s, separator) {
            Some(rest) => s == head(s, separator) + seq![separator] + rest,
            None => s == head(s, separator),
        },
    decreases s.len(),
{
    if s.len() > 0 && s[0] != separator {
        let rest = s.drop_first();
        texts_are_cut_at_the_first(rest, separator);
        let front = head(s, separator);
        if front.contains(separator) {
            let i = front.index_of(separator);
            assert(head(rest, separator)[i - 1] == separator);
        }
        assert(s =~= seq![s[0]] + rest);
        if let Some(last) = tail(s, separator) {
            assert(s =~= front + seq![separator] + last);
        }
    } else if s.len() > 0 {
        assert(s =~= head(s, separator) + seq![separator] + s.drop_first());
    }
}

/// A text without a separator is cut off the rest behind one.
pub proof fn parts_are_cut_again(front: Seq<char>, separator: char, rest: Seq<char>)
    requires
        !front.contains(separator),
    ensures
        head(front + seq![separator] + rest, separator) == front,
        tail(front + seq![separator] + rest, separator) == Some(rest),
    decreases front.len(),
{
    let all = front + seq![separator] + rest;
    if front.len() == 0 {
        assert(all[0] == separator);
        assert(all.drop_first() =~= rest);
        assert(head(all, separator) =~= front);
    } else {
        assert(front.contains(front[0]));
        let later = front.drop_first();
        if later.contains(separator) {
            let i = later.index_of(separator);
            assert(front[i + 1] == separator);
        }
        assert(all[0] == front[0]);
        assert(all.drop_first() =~= later + seq![separator] + rest);
        parts_are_cut_again(later, separator, rest);
        assert(head(all, separator) =~= front);
    }
}

/// Digits count by their place: one more digit behind others makes these ten times as much.
pub proof fn digits_count_by_their_place(digits: Seq<char>, d: nat)
    requires
        d < 10,
    ensures
        decimal_value(Seq::<char>::empty()) == 0,
        decimal_value(digits.push((48 + d) as char)) == 10 * decimal_value(digits) + d,
{
    let c = (48 + d) as char;
    assert(digits.push(c).drop_last() =~= digits);
    assert(digits.push(c).last() == c);
}

/// A number is written in digits without a zero in front of others.
pub proof fn decimals_start_with_no_zero(n: nat)
    ensures
        decimal(n).len() > 0,
        decimal(n).len() > 1 ==> decimal(n)[0] != '0',
        n < 10 <==> decimal(n).len() == 1,
        forall|i: int| 0 <= i < decimal(n).len() ==> '0' <= #[trigger] decimal(n)[i] <= '9',
    decreases n,
{
    if n >= 10 {
        decimals_start_with_no_zero(n / 10);
        if n / 10 < 10 {
            assert(decimal(n / 10)[0] == digit_char(n / 10));
        }
        assert(decimal(n)[0] == decimal(n / 10)[0]);
    }
}

/// Bytes that are the encoding of a text are shown as that text.
pub proof fn encoded_texts_are_shown(text: Seq<char>)
    ensures
        shown_bytes(encode_utf8(text)) == text,
{
    encode_utf8_valid_utf8(text);
    encode_utf8_decode_utf8(text);
}

proof fn fields_join(a: Seq<char>, b: Seq<char>)
    requires
        a.len() == 0 || is_white_space(a.last()),
    ensures
        fields(a + b) == fields(a).drop_last() + fields(b),
    decreases b.len(),
{
    fields_never_empty(a);
    fields_never_empty(b);
    let front = fields(a).drop_last();
    if b.len() == 0 {
        assert(a + b =~= a);
        assert(fields(a).last() =~= Seq::<char>::empty());
        assert(front + fields(b) =~= fields(a));
    } else {
        let less = b.drop_last();
        fields_never_empty(less);
        fields_join(a, less);
        assert((a + b).drop_last() =~= a + less);
        assert((a + b).last() == b.last());
        if is_white_space(b.last()) {
            assert((front + fields(less)).push(Seq::empty()) =~= front + fields(b));
        } else {
            let longer = fields(less).last().push(b.last());
            assert((front + fields(less)).drop_last() =~= front + fields(less).drop_last());
            assert((front + fields(less)).last() == fields(less).last());
            assert((front + fields(less).drop_last()).push(longer) =~= front + fields(b));
        }
    }
}

proof fn words_join(a: Seq<char>, b: Seq<char>)
    requires
        a.len() == 0 || is_white_space(a.last()),
    ensures
        words(a + b) == words(a) + words(b),
{
    let full = |w: Seq<char>| w.len() > 0;
    let front = fields(a).drop_last();
    fields_never_empty(a);
    fields_join(a, b);
    Seq::filter_distributes_over_add(front, fields(b), full);
    assert(fields(a).last() =~= Seq::<char>::empty());
    front.lemma_filter_push(fields(a).last(), full);
    assert(front.push(fields(a).last()) =~= fields(a));
}

proof fn blanks_add_no_words(s: Seq<char>, blank: Seq<char>)
    requires
        is_blank(blank),
    ensures
        words(s + blank) == words(s),
    decreases blank.len(),
{
    let full = |w: Seq<char>| w.len() > 0;
    if blank.len() == 0 {
        assert(s + blank =~= s);
    } else {
        let less = blank.drop_last();
        assert(is_blank(less)) by {
            assert forall|i: int| 0 <= i < less.len() implies is_white_space(
                #[trigger] less[i],
            ) by {
                assert(is_white_space(blank[i]));
            }
        }
        blanks_add_no_words(s, less);
        assert(is_white_space(blank[blank.len() - 1]));
        assert((s + blank).drop_last() =~= s + less);
        fields(s + less).lemma_filter_push(Seq::empty(), full);
    }
}

/// The words of a text are what stands between its white space, however much of it there is: white
/// space before a word, behind it or alone adds nothing, and the first word goes before those of
/// the rest.
pub proof fn words_stand_between_white_space(
    before: Seq<char>,
    word: Seq<char>,
    behind: Seq<char>,
    rest: Seq<char>,
)
    requires
        is_blank(before),
        word.len() > 0,
        forall|i: int| 0 <= i < word.len() ==> !is_white_space(#[trigger] word[i]),
        is_blank(behind),
        behind.len() > 0 || rest.len() == 0,
    ensures
        words(before) == Seq::<Seq<char>>::empty(),
        words(before + word + behind + rest) == seq![word] + words(rest),
{
    let full = |w: Seq<char>| w.len() > 0;
    let none = Seq::<char>::empty();
    reveal(Seq::filter);
    assert(fields(none) =~= seq![none]);
    assert(Seq::<Seq<char>>::empty().push(none) =~= seq![none]);
    Seq::<Seq<char>>::empty().lemma_filter_push(none, full);
    assert(words(none) =~= Seq::<Seq<char>>::empty());
    blanks_add_no_words(none, before);
    assert(none + before =~= before);
    if before.len() > 0 {
        assert(is_white_space(before[before.len() - 1]));
    }
    let one = seq![word];
    assert(words(word) == one) by {
        fields_go_on(none, word);
        assert(none + word =~= word);
        assert(fields(word) =~= one);
        assert(Seq::<Seq<char>>::empty().push(word) =~= one);
        Seq::<Seq<char>>::empty().lemma_filter_push(word, full);
        assert(Seq::<Seq<char>>::empty().filter(full) =~= Seq::<Seq<char>>::empty());
    }
    words_join(before, word);
    assert(words(before + word) =~= one);
    let front = before + word + behind;
    blanks_add_no_words(before + word, behind);
    if rest.len() == 0 {
        assert(front + rest =~= front);
        assert(rest =~= none);
        assert(one + words(rest) =~= one);
    } else {
        assert(is_white_space(behind[behind.len() - 1]));
        assert(front.last() == behind.last());
        words_join(front, rest);
    }
}

/// Bytes that are no text are shown with a mark for what is wrong in them.
pub proof fn other_bytes_are_shown_lossily(bytes: Seq<u8>)
    ensures
        valid_utf8(bytes) ==> encode_utf8(shown_bytes(bytes)) == bytes,
        !valid_utf8(bytes) ==> shown_bytes(bytes) == lossy_utf8(bytes),
{
    if valid_utf8(bytes) {
        decode_utf8_encode_utf8(bytes);
    }
}

} // verus!
