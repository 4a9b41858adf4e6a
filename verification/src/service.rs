//! The functions that the caller hands in: to run Git, and to look at the file system.

use crate::git::{Command, CommandView, Reply, ReplyView};
use vstd::prelude::*;

verus! {

/// Whether a function can be handed any command.
pub open spec fn can_run<G: FnMut(&Command) -> Reply>(git: G) -> bool {
    forall|command: Command| #[trigger] call_requires(git, (&command,))
}

/// Whether a function may give a reply to a command.
pub open spec fn replies<G: FnMut(&Command) -> Reply>(
    git: G,
    asked: CommandView,
    reply: ReplyView,
) -> bool {
    exists|command: Command, given: Reply|
        command@ == asked && given@ == reply && #[trigger] call_ensures(git, (&command,), given)
}

/// Whether Git has one reply to each command: the same exit code, output and words.
pub open spec fn replies_once<G: FnMut(&Command) -> Reply>(git: G) -> bool {
    forall|command: CommandView, a: ReplyView, b: ReplyView| #[trigger]
        replies(git, command, a) && #[trigger] replies(git, command, b) ==> a == b
}

/// What a path holds, or why it could not be read.
pub type Contents = Result<Vec<u8>, String>;

/// A [`Contents`] as its bytes and characters.
pub type ContentsView = Result<Seq<u8>, Seq<char>>;

/// What a path holds, or why it could not be read, as bytes and characters.
pub open spec fn contents_view(contents: Contents) -> ContentsView {
    match contents {
        Ok(bytes) => Ok(bytes@),
        Err(reason) => Err(reason@),
    }
}

/// Whether a path is a symbolic link, or why that is not known.
pub type Kind = Result<bool, String>;

/// Whether a path is a symbolic link, or why that is not known, as characters.
pub open spec fn kind_view(kind: Kind) -> Result<bool, Seq<char>> {
    match kind {
        Ok(is_link) => Ok(is_link),
        Err(reason) => Err(reason@),
    }
}

/// Whether a function can be asked what any path is.
pub open spec fn can_tell<K: FnMut(&Vec<u8>) -> Kind>(kind: K) -> bool {
    forall|path: Vec<u8>| #[trigger] call_requires(kind, (&path,))
}

/// Whether a function may say this of what a path is.
pub open spec fn tells<K: FnMut(&Vec<u8>) -> Kind>(
    kind: K,
    path: Seq<u8>,
    said: Result<bool, Seq<char>>,
) -> bool {
    exists|asked: Vec<u8>, given: Kind|
        asked@ == path && kind_view(given) == said && #[trigger] call_ensures(
            kind,
            (&asked,),
            given,
        )
}

/// Whether a function can be handed any path to read.
pub open spec fn can_read<R: FnMut(&Vec<u8>) -> Contents>(read: R) -> bool {
    forall|path: Vec<u8>| #[trigger] call_requires(read, (&path,))
}

/// Whether a function may give some contents for a path.
pub open spec fn reads<R: FnMut(&Vec<u8>) -> Contents>(
    read: R,
    path: Seq<u8>,
    contents: ContentsView,
) -> bool {
    exists|asked: Vec<u8>, given: Contents|
        asked@ == path && contents_view(given) == contents && #[trigger] call_ensures(
            read,
            (&asked,),
            given,
        )
}

// ---------------------------------------------------------------------------------------------
// Paths
// ---------------------------------------------------------------------------------------------

/// A path below a directory, or the path itself where it starts at the root.
pub open spec fn joined(directory: Seq<u8>, path: Seq<u8>) -> Seq<u8> {
    if path.len() > 0 && path[0] == 47 {
        path
    } else if directory.len() == 0 || directory.last() == 47 {
        directory + path
    } else {
        directory.push(47) + path
    }
}

/// A path below a directory, or the path itself where it starts at the root.
pub fn join_path(directory: &[u8], path: &[u8]) -> (result: Vec<u8>)
    ensures
        result@ == joined(directory@, path@),
{
    let mut result: Vec<u8> = Vec::new();
    if path.len() > 0 && path[0] == 47 {
        append_bytes(&mut result, path);
        assert(result@ == path@);
        return result;
    }
    append_bytes(&mut result, directory);
    if directory.len() > 0 && directory[directory.len() - 1] != 47 {
        result.push(47);
    }
    append_bytes(&mut result, path);
    assert(result@ == joined(directory@, path@));
    result
}

/// Puts bytes behind those of a list.
pub fn append_bytes(list: &mut Vec<u8>, bytes: &[u8])
    ensures
        final(list)@ == old(list)@ + bytes@,
{
    let ghost before = list@;
    for i in 0..bytes.len()
        invariant
            list@ == before + bytes@.take(i as int),
    {
        list.push(bytes[i]);
        assert(bytes@.take(i + 1) == bytes@.take(i as int).push(bytes@[i as int]));
    }
    assert(bytes@.take(bytes@.len() as int) == bytes@);
}

/// A path below a directory is the directory, a slash and the path; there is no second slash where
/// the directory ends with one, and a path that starts at the root stands for itself.
pub proof fn paths_are_joined_by_one_slash(directory: Seq<u8>, path: Seq<u8>)
    requires
        path.len() > 0,
    ensures
        path[0] == '/' as u8 ==> joined(directory, path) == path,
        path[0] != '/' as u8 && directory.len() > 0 && directory.last() != '/' as u8 ==> joined(
            directory,
            path,
        ) == directory + seq!['/' as u8] + path,
        path[0] != '/' as u8 && directory.len() > 0 && directory.last() == '/' as u8 ==> joined(
            directory,
            path,
        ) == directory + path,
        path[0] != '/' as u8 && directory.len() == 0 ==> joined(directory, path) == path,
{
    assert(directory.push(47) + path =~= directory + seq![47u8] + path);
    if directory.len() == 0 {
        assert(directory + path =~= path);
    }
}

} // verus!
