//! The lines of a file, and whether a run of lines still stands in it.

use crate::failure::{plain_failure, Failure};
use crate::text::{
    byte_views, decimal, ended, ended_pieces_are_split_again, ended_push, join,
    joined_pieces_are_split_again, same_bytes, split, split_bytes, split_then_join, to_decimal,
};
use vstd::prelude::*;

verus! {

/// The lines of a file. A line feed at the very end closes the last line and starts no new one;
/// an empty file has no lines.
pub open spec fn blob_lines(blob: Seq<u8>) -> Seq<Seq<u8>> {
    if blob.len() == 0 {
        Seq::empty()
    } else if blob.last() == 10 {
        split(blob, 10u8).drop_last()
    } else {
        split(blob, 10u8)
    }
}

/// Whether `expected` stands somewhere in a file, as whole lines, one right after another.
pub open spec fn holds_lines(blob: Seq<u8>, expected: Seq<Seq<u8>>) -> bool {
    &&& expected.len() > 0
    &&& exists|at: int|
        0 <= at <= blob_lines(blob).len() - expected.len() && #[trigger] blob_lines(blob).subrange(
            at,
            at + expected.len(),
        ) == expected
}

/// Whether `start..=end`, counted from one, names lines of a file with `count` lines.
pub open spec fn names_lines(start: nat, end: nat, count: nat) -> bool {
    1 <= start <= end <= count
}

/// The lines `start..=end` of a file, counted from one.
pub open spec fn line_range(blob: Seq<u8>, start: nat, end: nat) -> Seq<Seq<u8>> {
    blob_lines(blob).subrange(start - 1, end as int)
}

/// What is said of a range that does not name lines of a file.
pub open spec fn outside_message(start: nat, end: nat, count: nat) -> Seq<char> {
    "referenced range L"@ + decimal(start) + "-L"@ + decimal(end)
        + " is outside a file containing "@ + decimal(count) + " line(s)"@
}

/// The lines of a file are all of it: with a line feed between each two, and one at the end where
/// the file has one, they give the file back.
pub proof fn lines_make_up_the_file(blob: Seq<u8>)
    ensures
        blob == (if blob.len() > 0 && blob.last() == 10 {
            join(blob_lines(blob), 10u8).push(10)
        } else {
            join(blob_lines(blob), 10u8)
        }),
        forall|i: int|
            0 <= i < blob_lines(blob).len() ==> !#[trigger] blob_lines(blob)[i].contains(10u8),
{
    split_then_join(blob, 10u8);
    let pieces = split(blob, 10u8);
    if blob.len() > 0 && blob.last() == 10 {
        split_then_join(blob.drop_last(), 10u8);
        assert(pieces.drop_last() == split(blob.drop_last(), 10u8));
        assert(blob.drop_last().push(10) == blob);
    } else if blob.len() == 0 {
        assert(join(blob_lines(blob), 10u8) == blob);
    }
}

/// Lines taken out of a file are found in that file.
pub proof fn extracted_lines_are_found(blob: Seq<u8>, start: nat, end: nat)
    requires
        names_lines(start, end, blob_lines(blob).len()),
    ensures
        holds_lines(blob, line_range(blob, start, end)),
{
    let expected = line_range(blob, start, end);
    assert(expected.len() == end - start + 1);
    assert(blob_lines(blob).subrange(start - 1, start - 1 + expected.len()) == expected);
}

/// A run of lines that stands in a file stands also in every longer file that holds that file's
/// lines one after another.
pub proof fn surrounding_lines_do_not_matter(
    blob: Seq<u8>,
    wider: Seq<u8>,
    before: int,
    expected: Seq<Seq<u8>>,
)
    requires
        0 <= before <= blob_lines(wider).len() - blob_lines(blob).len(),
        blob_lines(wider).subrange(before, before + blob_lines(blob).len()) == blob_lines(blob),
        holds_lines(blob, expected),
    ensures
        holds_lines(wider, expected),
{
    let at = choose|at: int|
        0 <= at <= blob_lines(blob).len() - expected.len() && #[trigger] blob_lines(blob).subrange(
            at,
            at + expected.len(),
        ) == expected;
    let found = blob_lines(wider).subrange(before + at, before + at + expected.len());
    assert forall|i: int| 0 <= i < expected.len() implies found[i] == expected[i] by {
        assert(blob_lines(wider).subrange(before, before + blob_lines(blob).len())[at + i]
            == blob_lines(blob)[at + i]);
        assert(blob_lines(blob).subrange(at, at + expected.len())[i] == expected[i]);
    }
    assert(found == expected);
}

/// The lines of a file.
pub fn lines(blob: &[u8]) -> (result: Vec<Vec<u8>>)
    ensures
        byte_views(result@) == blob_lines(blob@),
{
    if blob.is_empty() {
        let none: Vec<Vec<u8>> = Vec::new();
        assert(byte_views(none@) == blob_lines(blob@));
        return none;
    }
    let mut result = split_bytes(blob, 10);
    if blob[blob.len() - 1] == 10 {
        let ghost before = result@;
        proof {
            split_then_join(blob@, 10u8);
        }
        let closing = result.pop();
        assert(byte_views(result@) == byte_views(before).drop_last());
    }
    result
}

/// A copy of a byte string.
pub fn copy_bytes(bytes: &[u8]) -> (copy: Vec<u8>)
    ensures
        copy@ == bytes@,
{
    vstd::slice::slice_to_vec(bytes)
}

/// The message for a range that does not name lines of a file.
pub fn outside_text(start: usize, end: usize, count: usize) -> (text: String)
    ensures
        text@ == outside_message(start as nat, end as nat, count as nat),
{
    "referenced range L".to_owned().concat(to_decimal(start).as_str()).concat("-L").concat(
        to_decimal(end).as_str(),
    ).concat(" is outside a file containing ").concat(to_decimal(count).as_str()).concat(
        " line(s)",
    )
}

/// The lines `start..=end` of a file, counted from one, or a failure where the file has no such
/// lines.
pub fn extract_lines(blob: &[u8], start: usize, end: usize) -> (result: Result<
    Vec<Vec<u8>>,
    Failure,
>)
    ensures
        result is Ok <==> names_lines(start as nat, end as nat, blob_lines(blob@).len()),
        result matches Ok(found) ==> byte_views(found@) == line_range(
            blob@,
            start as nat,
            end as nat,
        ),
        result matches Err(failure) ==> failure@ == plain_failure(
            outside_message(start as nat, end as nat, blob_lines(blob@).len()),
        ),
{
    let all = lines(blob);
    assert(byte_views(all@).len() == all@.len());
    if start == 0 || end < start || end > all.len() {
        return Err(Failure::plain(outside_text(start, end, all.len())));
    }
    let mut found: Vec<Vec<u8>> = Vec::new();
    for i in start - 1..end
        invariant
            1 <= start <= end <= all@.len(),
            byte_views(all@) == blob_lines(blob@),
            byte_views(found@) == blob_lines(blob@).subrange(start - 1, i as int),
    {
        let ghost before = byte_views(found@);
        let line = copy_bytes(all[i].as_slice());
        assert(line@ == byte_views(all@)[i as int]);
        let ghost added = line@;
        found.push(line);
        assert(byte_views(found@) == before.push(added));
        assert(blob_lines(blob@).subrange(start - 1, i + 1) == blob_lines(blob@).subrange(
            start - 1,
            i as int,
        ).push(added));
    }
    Ok(found)
}

/// Whether a run of whole lines stands somewhere in a file.
pub fn contains_lines(blob: &[u8], expected: &[Vec<u8>]) -> (found: bool)
    ensures
        found == holds_lines(blob@, byte_views(expected@)),
{
    let ghost wanted = byte_views(expected@);
    if expected.is_empty() {
        return false;
    }
    let all = lines(blob);
    let ghost has = byte_views(all@);
    let size: usize = expected.len();
    if size > all.len() {
        return false;
    }
    for at in 0..all.len() - size + 1
        invariant
            size == expected@.len(),
            0 < size <= all@.len(),
            has == byte_views(all@),
            has == blob_lines(blob@),
            wanted == byte_views(expected@),
            forall|p: int| 0 <= p < at ==> #[trigger] has.subrange(p, p + size) != wanted,
    {
        let mut same: bool = true;
        let mut i: usize = 0;
        while i < size && same
            invariant
                size == expected@.len(),
                0 <= i <= size,
                at + size <= all.len(),
                has == byte_views(all@),
                wanted == byte_views(expected@),
                same ==> forall|j: int| 0 <= j < i ==> has[at + j] == #[trigger] wanted[j],
                !same ==> exists|j: int| 0 <= j < size && has[at + j] != #[trigger] wanted[j],
            decreases size - i,
        {
            assert(has[at + i] == all@[at + i]@);
            assert(wanted[i as int] == expected@[i as int]@);
            same = same_bytes(all[at + i].as_slice(), expected[i].as_slice());
            i = i + 1;
        }
        if same {
            assert(has.subrange(at as int, at + size) == wanted);
            return true;
        }
        proof {
            let j = choose|j: int| 0 <= j < size && has[at + j] != #[trigger] wanted[j];
            assert(has.subrange(at as int, at + size)[j] == has[at + j]);
        }
    }
    false
}

// ---------------------------------------------------------------------------------------------
// Files that are made of lines
// ---------------------------------------------------------------------------------------------

/// A file that is made of lines, each with a line feed behind it, has those very lines, in their
/// order. It has them also where the last line is left open, unless that is empty.
pub proof fn files_have_the_lines_they_are_made_of(list: Seq<Seq<u8>>)
    requires
        forall|i: int| 0 <= i < list.len() ==> !(#[trigger] list[i]).contains(10u8),
    ensures
        blob_lines(ended(list, 10u8)) == list,
        list.len() > 0 && list.last().len() > 0 ==> blob_lines(join(list, 10u8)) == list,
{
    let whole = ended(list, 10u8);
    ended_pieces_are_split_again(list, 10u8);
    assert(list.push(Seq::empty()).drop_last() =~= list);
    if list.len() == 0 {
        ended_push(list, Seq::empty(), 10u8);
        assert(list =~= Seq::<Seq<u8>>::empty());
    } else {
        ended_push(list.drop_last(), list.last(), 10u8);
        assert(list.drop_last().push(list.last()) =~= list);
        assert(whole.last() == 10);
        if list.last().len() > 0 {
            joined_pieces_are_split_again(list, 10u8);
            let open = join(list, 10u8);
            assert(open.last() == list.last().last());
            assert(list.last().contains(list.last().last()));
            assert(!list[list.len() - 1].contains(10u8));
        }
    }
}

/// The lines that are taken out of a file by their numbers, counted from one, are those that stand
/// there in it, from the first to the last of them.
pub proof fn lines_are_taken_by_their_numbers(list: Seq<Seq<u8>>, start: nat, end: nat)
    requires
        forall|i: int| 0 <= i < list.len() ==> !(#[trigger] list[i]).contains(10u8),
    ensures
        names_lines(start, end, blob_lines(ended(list, 10u8)).len()) <==> start >= 1 && end >= start
            && list.len() >= end,
        start >= 1 && end >= start && list.len() >= end ==> {
            let taken = line_range(ended(list, 10u8), start, end);
            &&& taken.len() == end - start + 1
            &&& forall|i: int| start <= i <= end ==> taken[i - start] == #[trigger] list[i - 1]
        },
{
    files_have_the_lines_they_are_made_of(list);
}

/// Lines stand in every file that has them one right after another, whatever stands before or
/// behind them.
pub proof fn lines_are_found_wherever_they_stand(
    before: Seq<Seq<u8>>,
    expected: Seq<Seq<u8>>,
    behind: Seq<Seq<u8>>,
)
    requires
        expected.len() > 0,
        forall|i: int| 0 <= i < before.len() ==> !(#[trigger] before[i]).contains(10u8),
        forall|i: int| 0 <= i < expected.len() ==> !(#[trigger] expected[i]).contains(10u8),
        forall|i: int| 0 <= i < behind.len() ==> !(#[trigger] behind[i]).contains(10u8),
    ensures
        holds_lines(ended(before + expected + behind, 10u8), expected),
{
    let all = before + expected + behind;
    assert forall|i: int| 0 <= i < all.len() implies !(#[trigger] all[i]).contains(10u8) by {
        if i < before.len() {
            assert(all[i] == before[i]);
        } else if i < before.len() + expected.len() {
            assert(all[i] == expected[i - before.len()]);
        } else {
            assert(all[i] == behind[i - before.len() - expected.len()]);
        }
    }
    files_have_the_lines_they_are_made_of(all);
    let at = before.len() as int;
    assert(blob_lines(ended(all, 10u8)).subrange(at, at + expected.len()) =~= expected);
}

/// Lines that are found in a file stand in it one right after another. No lines at all are found
/// nowhere.
pub proof fn found_lines_stand_there(blob: Seq<u8>, expected: Seq<Seq<u8>>) -> (parts: (
    Seq<Seq<u8>>,
    Seq<Seq<u8>>,
))
    requires
        holds_lines(blob, expected),
    ensures
        expected.len() > 0,
        blob_lines(blob) == parts.0 + expected + parts.1,
{
    let all = blob_lines(blob);
    let at = choose|at: int|
        0 <= at <= all.len() - expected.len() && #[trigger] all.subrange(at, at + expected.len())
            == expected;
    let before = all.take(at);
    let behind = all.skip(at + expected.len());
    assert(all =~= before + all.subrange(at, at + expected.len()) + behind);
    (before, behind)
}

} // verus!
