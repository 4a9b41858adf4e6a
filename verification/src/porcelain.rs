//! The formats in which Git prints renames, branches, parents and commits.

use crate::failure::{plain_failure, Failure, FailureView};
use crate::git::{git_failure, refusal, text_view, unstarted, unstarted_failure, Reply, ReplyView};
use crate::report::{CommitInfo, CommitInfoView};
use crate::text::{
    byte_views, chars_of, cut_first, ended, ended_pieces_are_split_again, head, is_blank,
    is_white_space, lines_of_text, only_white_space_is_trimmed_at_the_end, parts_are_cut_again,
    same_chars, same_text, show_bytes, shown_bytes, spaced, spaced_words_are_read_back, split,
    split_bytes, split_whitespace, string_of, string_views, tail, text_lines,
    texts_are_cut_at_the_first, trim_end, trimmed_end, words,
};
use vstd::prelude::*;

verus! {

// ---------------------------------------------------------------------------------------------
// Renames
// ---------------------------------------------------------------------------------------------

/// A file that a change moved or copied.
pub struct Rename {
    pub old: Seq<char>,
    pub new: Seq<char>,
}

/// Whether a status of `git diff --name-status` stands before two names: those of renames (`R`)
/// and copies (`C`) do.
pub open spec fn has_two_names(status: Seq<u8>) -> bool {
    status.len() > 0 && (status[0] == 82 || status[0] == 67)
}

/// The renames and copies that `git diff --name-status -z` lists from the field `at` on. A status
/// stands before one name, or before two; an empty field ends the list, as does a status whose
/// two names are not both there.
pub open spec fn renames(fields: Seq<Seq<u8>>, at: int) -> Seq<Rename>
    decreases fields.len() + 2 - at,
{
    if at < 0 || at >= fields.len() || fields[at].len() == 0 {
        Seq::empty()
    } else if !has_two_names(fields[at]) {
        renames(fields, at + 2)
    } else if at + 2 >= fields.len() {
        Seq::empty()
    } else {
        seq![Rename { old: shown_bytes(fields[at + 1]), new: shown_bytes(fields[at + 2]) }]
            + renames(fields, at + 3)
    }
}

/// The name that a file has on the other side of a change: behind it when `forward`, else before
/// it. The first entry that names the file counts; without one the name stays.
pub open spec fn renamed(list: Seq<Rename>, path: Seq<char>, forward: bool) -> Seq<char>
    decreases list.len(),
{
    if list.len() == 0 {
        path
    } else if forward && list[0].old == path {
        list[0].new
    } else if !forward && list[0].new == path {
        list[0].old
    } else {
        renamed(list.drop_first(), path, forward)
    }
}

/// A name that no entry of a change names is kept.
pub proof fn unnamed_files_keep_their_name(list: Seq<Rename>, path: Seq<char>, forward: bool)
    requires
        forall|i: int|
            0 <= i < list.len() ==> (if forward {
                (#[trigger] list[i]).old != path
            } else {
                list[i].new != path
            }),
    ensures
        renamed(list, path, forward) == path,
    decreases list.len(),
{
    if list.len() > 0 {
        assert(list[0].old != path || !forward);
        unnamed_files_keep_their_name(list.drop_first(), path, forward);
    }
}

/// A rename is followed to the new name and back to the old one, where no other entry names
/// either.
pub proof fn renames_are_followed_both_ways(list: Seq<Rename>, k: int)
    requires
        0 <= k < list.len(),
        forall|i: int| 0 <= i < list.len() && i != k ==> (#[trigger] list[i]).old != list[k].old,
        forall|i: int| 0 <= i < list.len() && i != k ==> (#[trigger] list[i]).new != list[k].new,
    ensures
        renamed(list, list[k].old, true) == list[k].new,
        renamed(list, list[k].new, false) == list[k].old,
    decreases list.len(),
{
    if k > 0 {
        let rest = list.drop_first();
        assert(rest[k - 1] == list[k]);
        assert forall|i: int| 0 <= i < rest.len() && i != k - 1 implies (#[trigger] rest[i]).old
            != rest[k - 1].old by {
            assert(rest[i] == list[i + 1]);
        }
        assert forall|i: int| 0 <= i < rest.len() && i != k - 1 implies (#[trigger] rest[i]).new
            != rest[k - 1].new by {
            assert(rest[i] == list[i + 1]);
        }
        renames_are_followed_both_ways(rest, k - 1);
    }
}

/// The name that a file has on the other side of the change that `git diff --name-status -z`
/// printed.
pub fn renamed_in_diff(diff: &[u8], path: &str, forward: bool) -> (result: String)
    ensures
        result@ == renamed(renames(split(diff@, 0u8), 0), path@, forward),
{
    let fields = split_bytes(diff, 0);
    let ghost all = split(diff@, 0u8);
    let mut index: usize = 0;
    while index < fields.len() && !fields[index].is_empty()
        invariant
            all == split(diff@, 0u8),
            byte_views(fields@) == all,
            0 <= index,
            renamed(renames(all, 0), path@, forward) == renamed(
                renames(all, index as int),
                path@,
                forward,
            ),
        ensures
            renamed(renames(all, 0), path@, forward) == path@,
        decreases fields.len() + 3 - index,
    {
        assert(all.len() == fields@.len());
        let status: &Vec<u8> = &fields[index];
        assert(status@ == all[index as int]);
        let first: u8 = status[0];
        if first == 82 || first == 67 {
            if fields.len() - index <= 2 {
                break ;
            }
            assert(fields@[index + 1]@ == all[index + 1]);
            assert(fields@[index + 2]@ == all[index + 2]);
            let old_path = show_bytes(fields[index + 1].as_slice());
            let new_path = show_bytes(fields[index + 2].as_slice());
            let ghost entry = Rename { old: old_path@, new: new_path@ };
            let ghost rest = renames(all, index + 3);
            proof {
                assert(renames(all, index as int) == seq![entry] + rest);
                assert((seq![entry] + rest).drop_first() == rest);
            }
            if forward {
                if same_text(old_path.as_str(), path) {
                    return new_path;
                }
            } else {
                if same_text(new_path.as_str(), path) {
                    return old_path;
                }
            }
            index = index + 3;
        } else {
            if fields.len() - index < 2 {
                assert(renames(all, index + 2) == Seq::<Rename>::empty());
                break ;
            }
            index = index + 2;
        }
    }
    path.to_owned()
}

/// The name that a file has on the other side of a change, by the reply to `git diff`.
pub open spec fn renamed_by(
    repository: Seq<u8>,
    reply: ReplyView,
    path: Seq<char>,
    forward: bool,
) -> Result<Seq<char>, FailureView> {
    match reply {
        ReplyView::Unstarted(reason) => Err(unstarted(repository, reason)),
        ReplyView::Finished(output) => if output.succeeded() {
            Ok(renamed(renames(split(output.stdout, 0u8), 0), path, forward))
        } else {
            Err(refusal("detect file renames"@, output))
        },
    }
}

/// The name that a file has on the other side of a change, by the reply to `git diff`.
pub fn rename_of_reply(repository: &[u8], reply: Reply, path: &str, forward: bool) -> (result:
    Result<String, Failure>)
    ensures
        text_view(result) == renamed_by(repository@, reply@, path@, forward),
{
    match reply {
        Reply::Unstarted(reason) => Err(unstarted_failure(repository, reason)),
        Reply::Finished(output) => if output.success() {
            Ok(renamed_in_diff(output.stdout.as_slice(), path, forward))
        } else {
            Err(git_failure("detect file renames", &output))
        },
    }
}

// ---------------------------------------------------------------------------------------------
// The default branch
// ---------------------------------------------------------------------------------------------

/// What stands between `prefix` and `suffix`, where `line` starts with the one and what follows
/// ends with the other.
pub open spec fn between(line: Seq<char>, prefix: Seq<char>, suffix: Seq<char>) -> Option<
    Seq<char>,
> {
    let size = line.len() - prefix.len() - suffix.len();
    if size >= 0 && line.take(prefix.len() as int) == prefix && line.skip(prefix.len() + size)
        == suffix {
        Some(line.subrange(prefix.len() as int, prefix.len() + size))
    } else {
        None
    }
}

/// What is found between `prefix` and `suffix` is exactly what, put between them, makes the line.
pub proof fn between_is_exact(
    line: Seq<char>,
    prefix: Seq<char>,
    suffix: Seq<char>,
    name: Seq<char>,
)
    ensures
        between(line, prefix, suffix) == Some(name) <==> line == prefix + name + suffix,
{
    if between(line, prefix, suffix) == Some(name) {
        let size = line.len() - prefix.len() - suffix.len();
        assert(line == line.take(prefix.len() as int) + line.subrange(
            prefix.len() as int,
            prefix.len() + size,
        ) + line.skip(prefix.len() + size));
    }
    if line == prefix + name + suffix {
        assert(line.take(prefix.len() as int) == prefix);
        assert(line.skip((prefix.len() + name.len()) as int) == suffix);
        assert(line.subrange(prefix.len() as int, (prefix.len() + name.len()) as int) == name);
    }
}

/// What stands between a prefix and a suffix of a line.
pub fn strip_both(line: &str, prefix: &str, suffix: &str) -> (result: Option<String>)
    ensures
        result is Some <==> between(line@, prefix@, suffix@) is Some,
        result matches Some(name) ==> Some(name@) == between(line@, prefix@, suffix@),
{
    let chars = chars_of(line);
    let front = chars_of(prefix);
    let back = chars_of(suffix);
    if chars.len() < front.len() || chars.len() - front.len() < back.len() {
        return None;
    }
    let start: usize = front.len();
    let end: usize = chars.len() - back.len();
    let head_part = vstd::slice::slice_subrange(chars.as_slice(), 0, start);
    let back_part = vstd::slice::slice_subrange(chars.as_slice(), end, chars.len());
    assert(head_part@ == line@.take(prefix@.len() as int));
    assert(back_part@ == line@.skip(end as int));
    if same_chars(head_part, front.as_slice()) && same_chars(back_part, back.as_slice()) {
        Some(string_of(vstd::slice::slice_subrange(chars.as_slice(), start, end)))
    } else {
        None
    }
}

/// The branch that a line of `git ls-remote --symref origin HEAD` advertises as the default.
pub open spec fn advertised(line: Seq<char>) -> Option<Seq<char>> {
    between(line, "ref: refs/heads/"@, "\tHEAD"@)
}

/// The branch that the first line to advertise one advertises.
pub open spec fn first_advertised(list: Seq<Seq<char>>) -> Option<Seq<char>>
    decreases list.len(),
{
    if list.len() == 0 {
        None
    } else if advertised(list[0]) is Some {
        advertised(list[0])
    } else {
        first_advertised(list.drop_first())
    }
}

/// The default branch by the text of `git ls-remote --symref origin HEAD`.
pub open spec fn default_branch(text: Seq<char>) -> Result<Seq<char>, FailureView> {
    match first_advertised(text_lines(text)) {
        Some(name) => Ok(name),
        None => Err(plain_failure("origin did not advertise a default branch"@)),
    }
}

/// The default branch by the text of `git ls-remote --symref origin HEAD`.
pub fn default_branch_in(text: &str) -> (result: Result<String, Failure>)
    ensures
        text_view(result) == default_branch(text@),
{
    let list = lines_of_text(text);
    let ghost all = text_lines(text@);
    assert(all.skip(0) == all);
    for i in 0..list.len()
        invariant
            all == text_lines(text@),
            string_views(list@) == all,
            first_advertised(all) == first_advertised(all.skip(i as int)),
    {
        assert(list@[i as int]@ == all[i as int]);
        assert(all.skip(i as int).drop_first() == all.skip(i + 1));
        match strip_both(list[i].as_str(), "ref: refs/heads/", "\tHEAD") {
            Some(name) => {
                return Ok(name);
            },
            None => {},
        }
    }
    assert(all.skip(all.len() as int).len() == 0);
    Err(Failure::plain("origin did not advertise a default branch".to_owned()))
}

// ---------------------------------------------------------------------------------------------
// Parents and commits
// ---------------------------------------------------------------------------------------------

/// The parents of a commit by the line of `git rev-list --parents -n 1`: the words behind the
/// first.
pub open spec fn parent_words(line: Seq<char>) -> Seq<Seq<char>> {
    if words(line).len() == 0 {
        Seq::empty()
    } else {
        words(line).skip(1)
    }
}

/// The parents of a commit by the line of `git rev-list --parents -n 1`.
pub fn parents_in(line: &str) -> (result: Vec<String>)
    ensures
        string_views(result@) == parent_words(line@),
{
    let mut all = split_whitespace(line);
    if all.len() == 0 {
        assert(string_views(all@) == parent_words(line@));
        return all;
    }
    let ghost before = all@;
    let own = all.remove(0);
    assert(string_views(all@) == string_views(before).skip(1));
    all
}

/// A commit by the text of `git show -s --format=%H%x00%cI%x00%s`: its hash, its date and its
/// title, with a NUL between each two. A field that is missing is empty.
pub open spec fn commit_fields(text: Seq<char>) -> CommitInfoView {
    let fields = trimmed_end(text);
    let behind_hash = tail(fields, '\0');
    let behind_date = match behind_hash {
        Some(rest) => tail(rest, '\0'),
        None => None,
    };
    CommitInfoView {
        hash: head(fields, '\0'),
        date: match behind_hash {
            Some(rest) => head(rest, '\0'),
            None => Seq::empty(),
        },
        title: match behind_date {
            Some(rest) => rest,
            None => Seq::empty(),
        },
    }
}

/// A commit by the text of `git show -s --format=%H%x00%cI%x00%s`.
pub fn commit_in(text: &str) -> (info: CommitInfo)
    ensures
        info@ == commit_fields(text@),
{
    let fields = trim_end(text);
    let chars = chars_of(fields.as_str());
    let (hash, behind_hash) = cut_first(chars.as_slice(), '\0');
    match behind_hash {
        Some(rest) => {
            let (date, behind_date) = cut_first(rest.as_slice(), '\0');
            let title = match behind_date {
                Some(last) => string_of(last.as_slice()),
                None => String::new(),
            };
            CommitInfo {
                hash: string_of(hash.as_slice()),
                date: string_of(date.as_slice()),
                title,
            }
        },
        None => CommitInfo {
            hash: string_of(hash.as_slice()),
            date: String::new(),
            title: String::new(),
        },
    }
}

// ---------------------------------------------------------------------------------------------
// What Git prints is read as it was meant
// ---------------------------------------------------------------------------------------------

/// One change of a file, as `git diff --name-status -z` lists it: a status and one name, or the
/// status of a rename or a copy and two names.
pub enum Change {
    Alone { status: Seq<u8>, name: Seq<u8> },
    Moved { status: Seq<u8>, old: Seq<u8>, new: Seq<u8> },
}

impl Change {
    /// The fields of a change: its status, and behind it its names.
    pub open spec fn fields(self) -> Seq<Seq<u8>> {
        match self {
            Change::Alone { status, name } => seq![status, name],
            Change::Moved { status, old, new } => seq![status, old, new],
        }
    }

    /// Whether Git lists a change in this way. A status is not empty; that of a rename starts with
    /// an `R` and that of a copy with a `C`, and no other does. No field holds a NUL.
    pub open spec fn is_listed(self) -> bool {
        &&& forall|i: int|
            0 <= i < self.fields().len() ==> !(#[trigger] self.fields()[i]).contains(0u8)
        &&& match self {
            Change::Alone { status, .. } => status.len() > 0 && status[0] != 0x52 && status[0]
                != 0x43,
            Change::Moved { status, .. } => status.len() > 0 && (status[0] == 0x52 || status[0]
                == 0x43),
        }
    }
}

/// What `git diff --name-status -z` prints of some changes: all their fields, a NUL behind each.
pub open spec fn change_listing(changes: Seq<Change>) -> Seq<u8> {
    ended(changes.map_values(|change: Change| change.fields()).flatten(), 0u8)
}

/// The two names of every rename and copy among some changes, in their order.
pub open spec fn moves_among(changes: Seq<Change>) -> Seq<Rename> {
    changes.filter(|change: Change| change is Moved).map_values(
        |change: Change|
            Rename {
                old: shown_bytes(change->Moved_old),
                new: shown_bytes(change->Moved_new),
            },
    )
}

proof fn change_fields_split(changes: Seq<Change>)
    requires
        changes.len() > 0,
    ensures
        changes.map_values(|change: Change| change.fields()).flatten() == changes[0].fields()
            + changes.drop_first().map_values(|change: Change| change.fields()).flatten(),
{
    let all = changes.map_values(|change: Change| change.fields());
    assert(all.first() == changes[0].fields());
    assert(all.drop_first() =~= changes.drop_first().map_values(
        |change: Change| change.fields(),
    ));
}

proof fn change_fields_hold_no_nul(changes: Seq<Change>)
    requires
        forall|i: int| 0 <= i < changes.len() ==> (#[trigger] changes[i]).is_listed(),
    ensures
        ({
            let all = changes.map_values(|change: Change| change.fields()).flatten();
            forall|i: int| 0 <= i < all.len() ==> !(#[trigger] all[i]).contains(0u8)
        }),
    decreases changes.len(),
{
    let all = changes.map_values(|change: Change| change.fields()).flatten();
    if changes.len() > 0 {
        let rest = changes.drop_first();
        let later = rest.map_values(|change: Change| change.fields()).flatten();
        assert forall|i: int| 0 <= i < rest.len() implies (#[trigger] rest[i]).is_listed() by {
            assert(changes[i + 1].is_listed());
        }
        change_fields_hold_no_nul(rest);
        change_fields_split(changes);
        let first = changes[0].fields();
        assert(changes[0].is_listed());
        assert forall|i: int| 0 <= i < all.len() implies !(#[trigger] all[i]).contains(0u8) by {
            if i < first.len() {
                assert(all[i] == first[i]);
            } else {
                assert(all[i] == later[i - first.len()]);
            }
        }
    } else {
        assert(all.len() == 0);
    }
}

proof fn moves_from(done: Seq<Seq<u8>>, changes: Seq<Change>)
    requires
        forall|i: int| 0 <= i < changes.len() ==> (#[trigger] changes[i]).is_listed(),
    ensures
        renames(
            done + changes.map_values(|change: Change| change.fields()).flatten().push(
                Seq::empty(),
            ),
            done.len() as int,
        ) == moves_among(changes),
    decreases changes.len(),
{
    let flat = changes.map_values(|change: Change| change.fields()).flatten();
    let all = done + flat.push(Seq::empty());
    let at = done.len() as int;
    let moved = |change: Change| change is Moved;
    let names = |change: Change|
        Rename { old: shown_bytes(change->Moved_old), new: shown_bytes(change->Moved_new) };
    reveal(Seq::filter);
    if changes.len() == 0 {
        assert(flat.len() == 0);
        assert(all[at].len() == 0);
        assert(changes.filter(moved) =~= Seq::<Change>::empty());
        assert(moves_among(changes) =~= Seq::<Rename>::empty());
    } else {
        let first = changes[0];
        let rest = changes.drop_first();
        let later = rest.map_values(|change: Change| change.fields()).flatten();
        assert(first.is_listed());
        assert forall|i: int| 0 <= i < rest.len() implies (#[trigger] rest[i]).is_listed() by {
            assert(changes[i + 1].is_listed());
        }
        change_fields_split(changes);
        moves_from(done + first.fields(), rest);
        assert(all =~= done + first.fields() + later.push(Seq::empty()));
        assert(all[at] == first.fields()[0]);
        assert(changes =~= seq![first] + rest);
        rest.lemma_filter_prepend(first, moved);
        match first {
            Change::Alone { status, name } => {
                assert(changes.filter(moved) == rest.filter(moved));
            },
            Change::Moved { status, old, new } => {
                assert(all[at + 1] == old);
                assert(all[at + 2] == new);
                assert(changes.filter(moved) =~= seq![first] + rest.filter(moved));
                assert(moves_among(changes) =~= seq![names(first)] + moves_among(rest));
            },
        }
    }
}

/// A listing of changes is read as it was meant: its renames and copies are found, each with its
/// two names and in their order, and no other change is taken for one, whatever stands before,
/// between or behind them.
pub proof fn listed_changes_are_read_back(changes: Seq<Change>)
    requires
        forall|i: int| 0 <= i < changes.len() ==> (#[trigger] changes[i]).is_listed(),
    ensures
        renames(split(change_listing(changes), 0u8), 0) == moves_among(changes),
{
    let flat = changes.map_values(|change: Change| change.fields()).flatten();
    change_fields_hold_no_nul(changes);
    ended_pieces_are_split_again(flat, 0u8);
    let none = Seq::<Seq<u8>>::empty();
    moves_from(none, changes);
    assert(none + flat.push(Seq::empty()) =~= flat.push(Seq::empty()));
}

/// The first entry that names a file says what its other name is; what later entries say of the
/// same name does not count.
pub proof fn the_first_entry_counts(list: Seq<Rename>, k: int)
    requires
        0 <= k < list.len(),
    ensures
        (forall|i: int| 0 <= i < k ==> (#[trigger] list[i]).old != list[k].old) ==> renamed(
            list,
            list[k].old,
            true,
        ) == list[k].new,
        (forall|i: int| 0 <= i < k ==> (#[trigger] list[i]).new != list[k].new) ==> renamed(
            list,
            list[k].new,
            false,
        ) == list[k].old,
    decreases k,
{
    if k > 0 {
        let rest = list.drop_first();
        assert(rest[k - 1] == list[k]);
        the_first_entry_counts(rest, k - 1);
        if forall|i: int| 0 <= i < k ==> (#[trigger] list[i]).old != list[k].old {
            assert(list[0].old != list[k].old);
            assert forall|i: int| 0 <= i < k - 1 implies (#[trigger] rest[i]).old != rest[k
                - 1].old by {
                assert(list[i + 1].old != list[k].old);
            }
        }
        if forall|i: int| 0 <= i < k ==> (#[trigger] list[i]).new != list[k].new {
            assert(list[0].new != list[k].new);
            assert forall|i: int| 0 <= i < k - 1 implies (#[trigger] rest[i]).new != rest[k
                - 1].new by {
                assert(list[i + 1].new != list[k].new);
            }
        }
    }
}

/// A file keeps its name through a change that lists no rename of it.
pub proof fn other_changes_keep_the_name(changes: Seq<Change>, path: Seq<char>)
    requires
        forall|i: int| 0 <= i < changes.len() ==> (#[trigger] changes[i]).is_listed(),
        forall|i: int|
            0 <= i < changes.len() ==> ((#[trigger] changes[i]) matches Change::Moved {
                old,
                ..
            } ==> shown_bytes(old) != path),
    ensures
        renamed(renames(split(change_listing(changes), 0u8), 0), path, true) == path,
{
    listed_changes_are_read_back(changes);
    let moved = |change: Change| change is Moved;
    let kept = changes.filter(moved);
    let list = moves_among(changes);
    assert forall|i: int| 0 <= i < list.len() implies (#[trigger] list[i]).old != path by {
        assert(kept.contains(kept[i]));
        changes.lemma_filter_contains_rev(moved, kept[i]);
        let k = changes.index_of(kept[i]);
        assert(changes[k] == kept[i]);
    }
    unnamed_files_keep_their_name(list, path, true);
}

/// Whether a line advertises a branch: it starts with `ref: refs/heads/`, ends with a tab and
/// `HEAD`, and has the name between.
pub open spec fn advertises(line: Seq<char>, name: Seq<char>) -> bool {
    line == "ref: refs/heads/"@ + name + "\tHEAD"@
}

/// The default branch is the one that the first line to advertise one names.
pub proof fn the_first_advertised_branch_is_the_default(text: Seq<char>, at: int, name: Seq<char>)
    requires
        0 <= at < text_lines(text).len(),
        advertises(text_lines(text)[at], name),
        forall|i: int, other: Seq<char>|
            0 <= i < at ==> !#[trigger] advertises(text_lines(text)[i], other),
    ensures
        default_branch(text) == Ok::<_, FailureView>(name),
{
    let list = text_lines(text);
    between_is_exact(list[at], "ref: refs/heads/"@, "\tHEAD"@, name);
    assert forall|i: int| 0 <= i < at implies advertised(#[trigger] list[i]) is None by {
        if advertised(list[i]) is Some {
            let other = advertised(list[i])->0;
            between_is_exact(list[i], "ref: refs/heads/"@, "\tHEAD"@, other);
            assert(advertises(list[i], other));
        }
    }
    first_of_the_advertised(list, at);
}

proof fn first_of_the_advertised(list: Seq<Seq<char>>, at: int)
    requires
        0 <= at < list.len(),
        advertised(list[at]) is Some,
        forall|i: int| 0 <= i < at ==> advertised(#[trigger] list[i]) is None,
    ensures
        first_advertised(list) == advertised(list[at]),
    decreases at,
{
    if at > 0 {
        assert(advertised(list[0]) is None);
        let rest = list.drop_first();
        assert(rest[at - 1] == list[at]);
        assert forall|i: int| 0 <= i < at - 1 implies advertised(#[trigger] rest[i]) is None by {
            assert(rest[i] == list[i + 1]);
        }
        first_of_the_advertised(rest, at - 1);
    }
}

proof fn none_is_advertised(list: Seq<Seq<char>>)
    requires
        forall|i: int| 0 <= i < list.len() ==> advertised(#[trigger] list[i]) is None,
    ensures
        first_advertised(list) is None,
    decreases list.len(),
{
    if list.len() > 0 {
        let rest = list.drop_first();
        assert(advertised(list[0]) is None);
        assert forall|i: int| 0 <= i < rest.len() implies advertised(
            #[trigger] rest[i],
        ) is None by {
            assert(rest[i] == list[i + 1]);
        }
        none_is_advertised(rest);
    }
}

/// Where no line advertises a branch, there is no default branch, and that is said.
pub proof fn branches_have_to_be_advertised(text: Seq<char>)
    requires
        forall|i: int, name: Seq<char>|
            0 <= i < text_lines(text).len() ==> !#[trigger] advertises(text_lines(text)[i], name),
    ensures
        default_branch(text) == Err::<Seq<char>, _>(
            FailureView { message: "origin did not advertise a default branch"@, cause: None },
        ),
{
    let list = text_lines(text);
    assert forall|i: int| 0 <= i < list.len() implies advertised(#[trigger] list[i]) is None by {
        if advertised(list[i]) is Some {
            let name = advertised(list[i])->0;
            between_is_exact(list[i], "ref: refs/heads/"@, "\tHEAD"@, name);
            assert(advertises(list[i], name));
        }
    }
    none_is_advertised(list);
}

/// A line that names a commit and then its parents, with white space behind each, is read as those
/// parents, in their order and without the commit itself.
pub proof fn listed_parents_are_read_back(
    commit: Seq<char>,
    parents: Seq<Seq<char>>,
    spaces: Seq<char>,
)
    requires
        spaces.len() == parents.len() + 1,
        is_blank(spaces),
        commit.len() > 0,
        forall|i: int| 0 <= i < commit.len() ==> !is_white_space(#[trigger] commit[i]),
        forall|i: int| 0 <= i < parents.len() ==> (#[trigger] parents[i]).len() > 0,
        forall|i: int, j: int|
            0 <= i < parents.len() && 0 <= j < parents[i].len() ==> !is_white_space(
                #[trigger] parents[i][j],
            ),
    ensures
        parent_words(spaced(seq![commit] + parents, spaces)) == parents,
{
    let all = seq![commit] + parents;
    assert forall|i: int| 0 <= i < all.len() implies (#[trigger] all[i]).len() > 0 by {
        if i > 0 {
            assert(all[i] == parents[i - 1]);
        }
    }
    assert forall|i: int, j: int|
        0 <= i < all.len() && 0 <= j < all[i].len() implies !is_white_space(
        #[trigger] all[i][j],
    ) by {
        if i > 0 {
            assert(!is_white_space(parents[i - 1][j]));
        } else {
            assert(!is_white_space(commit[j]));
        }
    }
    spaced_words_are_read_back(all, spaces);
    assert(all.skip(1) =~= parents);
}

/// What Git prints of a commit is read as its hash, its date and its title, whole and none in the
/// place of another. The title may hold anything, but for white space at its end, which no title
/// has.
pub proof fn printed_commits_are_read_back(
    hash: Seq<char>,
    date: Seq<char>,
    title: Seq<char>,
    behind: Seq<char>,
)
    requires
        !hash.contains('\0'),
        !date.contains('\0'),
        title.len() > 0 ==> !is_white_space(title.last()),
        is_blank(behind),
    ensures
        commit_fields(hash + seq!['\0'] + (date + seq!['\0'] + title) + behind) == (CommitInfoView {
            hash,
            date,
            title,
        }),
{
    let rest = date + seq!['\0'] + title;
    let text = hash + seq!['\0'] + rest;
    if title.len() > 0 {
        assert(text.last() == title.last());
    } else {
        assert(text.last() == '\0');
    }
    only_white_space_is_trimmed_at_the_end(text, behind);
    parts_are_cut_again(hash, '\0', rest);
    parts_are_cut_again(date, '\0', title);
}

/// A listing is read field by field, whatever it holds. It ends at an empty field, and where a
/// rename or a copy lacks one of its names. One that has both counts, whether or not a NUL stands
/// behind it. Any other status takes the one name behind it with it.
pub proof fn listings_are_read_field_by_field(fields: Seq<Seq<u8>>, at: int)
    requires
        0 <= at < fields.len(),
    ensures
        renames(fields, fields.len() as int).len() == 0,
        renames(fields, (fields.len() + 1) as int).len() == 0,
        ({
            let status = fields[at];
            let moves = status.len() > 0 && (status[0] == 0x52 || status[0] == 0x43);
            &&& status.len() == 0 ==> renames(fields, at).len() == 0
            &&& moves && fields.len() - at < 3 ==> renames(fields, at).len() == 0
            &&& moves && fields.len() - at >= 3 ==> renames(fields, at) == seq![
                Rename { old: shown_bytes(fields[at + 1]), new: shown_bytes(fields[at + 2]) },
            ] + renames(fields, at + 3)
            &&& status.len() > 0 && !moves ==> renames(fields, at) == renames(fields, at + 2)
        }),
{
}

/// Of a commit that is not printed in full, what is there is read, and the rest is empty.
pub proof fn missing_commit_fields_are_empty(hash: Seq<char>, date: Seq<char>)
    requires
        !hash.contains('\0'),
        !date.contains('\0'),
        hash.len() > 0 ==> !is_white_space(hash.last()),
        date.len() > 0 ==> !is_white_space(date.last()),
    ensures
        commit_fields(hash) == (CommitInfoView { hash, date: Seq::empty(), title: Seq::empty() }),
        commit_fields(hash + seq!['\0'] + date) == (CommitInfoView {
            hash,
            date,
            title: Seq::empty(),
        }),
{
    let none = Seq::<char>::empty();
    let both = hash + seq!['\0'] + date;
    only_white_space_is_trimmed_at_the_end(hash, none);
    assert(hash + none =~= hash);
    if date.len() > 0 {
        assert(both.last() == date.last());
    } else {
        assert(both.last() == '\0');
    }
    only_white_space_is_trimmed_at_the_end(both, none);
    assert(both + none =~= both);
    parts_are_cut_again(hash, '\0', date);
    texts_are_cut_at_the_first(hash, '\0');
    texts_are_cut_at_the_first(date, '\0');
    if let Some(rest) = tail(hash, '\0') {
        assert((head(hash, '\0') + seq!['\0'] + rest)[head(hash, '\0').len() as int] == '\0');
    }
    if let Some(rest) = tail(date, '\0') {
        assert((head(date, '\0') + seq!['\0'] + rest)[head(date, '\0').len() as int] == '\0');
    }
}

} // verus!
