//! The tracked files of a repository, as something that is asked one thing after another.
//!
//! What is asked or told goes into a log. The functions behind it are private to the value that
//! calls them, and each is called in one place, right where the entry for that call is made.

use crate::git::{Command, Reply};
use crate::plan::{first_step, Act, Answer, Answers, Plan, Step};
use crate::service::{
    can_read, can_run, can_tell, contents_view, kind_view, reads, replies, tells, Contents,
    ContentsView, Kind,
};
use crate::world::{did, ends, starts, stepped, steps_on, Logged};
use vstd::prelude::*;

verus! {

// ---------------------------------------------------------------------------------------------
// Who is told of files
// ---------------------------------------------------------------------------------------------

/// One call that names a file: its path, its number, counted from one, and the number of all.
pub struct FileCall {
    pub path: Seq<u8>,
    pub index: nat,
    pub total: nat,
}

/// The files that were named, in this order.
pub open spec fn named_files(steps: Seq<Step>) -> Seq<FileCall>
    decreases steps.len(),
{
    if steps.len() == 0 {
        Seq::empty()
    } else {
        match steps.last().act {
            Act::Name { path, index, total } => named_files(steps.drop_last()).push(
                FileCall { path, index, total },
            ),
            _ => named_files(steps.drop_last()),
        }
    }
}

/// The files that were named by steps one after another are those of the earlier and then those
/// of the later.
pub proof fn named_files_add(a: Seq<Step>, b: Seq<Step>)
    ensures
        named_files(a + b) == named_files(a) + named_files(b),
    decreases b.len(),
{
    if b.len() == 0 {
        assert(a + b == a);
        assert(named_files(a) + named_files(b) == named_files(a));
    } else {
        assert((a + b).drop_last() == a + b.drop_last());
        assert((a + b).last() == b.last());
        named_files_add(a, b.drop_last());
        assert(named_files(a + b) =~= named_files(a) + named_files(b));
    }
}

proof fn one_more_name(steps: Seq<Step>, step: Step)
    ensures
        named_files(steps.push(step)) == match step.act {
            Act::Name { path, index, total } => named_files(steps).push(
                FileCall { path, index, total },
            ),
            _ => named_files(steps),
        },
{
    assert(steps.push(step).drop_last() == steps);
}

/// Whether a function can be told any file, with its number.
pub open spec fn can_hear<P: FnMut(&Vec<u8>, usize, usize)>(on_file: P) -> bool {
    forall|path: Vec<u8>, index: usize, total: usize| #[trigger]
        call_requires(on_file, (&path, index, total))
}

/// Whether a function may have been told a file, with its number.
pub open spec fn told<P: FnMut(&Vec<u8>, usize, usize)>(on_file: P, call: FileCall) -> bool {
    exists|path: Vec<u8>, index: usize, total: usize|
        path@ == call.path && index == call.index && total == call.total && #[trigger] call_ensures(
            on_file,
            (&path, index, total),
            (),
        )
}

/// Whether a function can be told any path.
pub open spec fn can_hear_path<P: FnMut(&Vec<u8>)>(on_file: P) -> bool {
    forall|path: Vec<u8>| #[trigger] call_requires(on_file, (&path,))
}

/// Whether a function may have been told a path.
pub open spec fn told_path<P: FnMut(&Vec<u8>)>(on_file: P, call: FileCall) -> bool {
    exists|path: Vec<u8>| path@ == call.path && #[trigger] call_ensures(on_file, (&path,), ())
}

/// One who is told of files, and keeps in mind which were passed on.
pub trait FileListener: Sized {
    /// Whether the listener can be told anything.
    spec fn listens(&self) -> bool;

    /// Whether files are passed on.
    spec fn passes(&self) -> bool;

    /// What may have been passed on.
    spec fn hears(&self) -> spec_fn(FileCall) -> bool;

    /// What was passed on so far: each entry one call of the function behind the listener, in
    /// this order.
    spec fn heard(&self) -> Seq<FileCall>;

    /// Tells the listener of a file.
    fn hear(&mut self, path: &Vec<u8>, index: usize, total: usize)
        requires
            old(self).listens(),
        ensures
            final(self).listens(),
            final(self).passes() == old(self).passes(),
            final(self).hears() == old(self).hears(),
            final(self).heard() == if old(self).passes() {
                old(self).heard().push(
                    FileCall { path: path@, index: index as nat, total: total as nat },
                )
            } else {
                old(self).heard()
            },
            old(self).passes() ==> (old(self).hears())(
                FileCall { path: path@, index: index as nat, total: total as nat },
            ),
    ;
}

/// A listener to whom each file is passed on with its number.
pub struct CountedFiles<P> {
    on_file: P,
    heard: Ghost<Seq<FileCall>>,
}

/// What a function may have been told of files with their numbers.
pub open spec fn counts_files<P: FnMut(&Vec<u8>, usize, usize)>(on_file: P) -> spec_fn(
    FileCall,
) -> bool {
    |call: FileCall| told(on_file, call)
}

impl<P: FnMut(&Vec<u8>, usize, usize)> CountedFiles<P> {
    /// A listener that was told nothing yet.
    pub fn new(on_file: P) -> (listener: CountedFiles<P>)
        ensures
            can_hear(on_file) ==> listener.listens(),
            listener.passes(),
            listener.hears() == counts_files(on_file),
            listener.heard() == Seq::<FileCall>::empty(),
    {
        CountedFiles { on_file, heard: Ghost(Seq::empty()) }
    }
}

impl<P: FnMut(&Vec<u8>, usize, usize)> FileListener for CountedFiles<P> {
    closed spec fn listens(&self) -> bool {
        can_hear(self.on_file)
    }

    open spec fn passes(&self) -> bool {
        true
    }

    closed spec fn hears(&self) -> spec_fn(FileCall) -> bool {
        counts_files(self.on_file)
    }

    closed spec fn heard(&self) -> Seq<FileCall> {
        self.heard@
    }

    fn hear(&mut self, path: &Vec<u8>, index: usize, total: usize) {
        let ghost call = FileCall { path: path@, index: index as nat, total: total as nat };
        (self.on_file)(path, index, total);
        self.heard = Ghost(self.heard@.push(call));
    }
}

/// A listener to whom the path of each file is passed on.
pub struct NamedFiles<P> {
    on_file: P,
    heard: Ghost<Seq<FileCall>>,
}

/// What a function may have been told of files.
pub open spec fn names_files<P: FnMut(&Vec<u8>)>(on_file: P) -> spec_fn(FileCall) -> bool {
    |call: FileCall| told_path(on_file, call)
}

impl<P: FnMut(&Vec<u8>)> NamedFiles<P> {
    /// A listener that was told nothing yet.
    pub fn new(on_file: P) -> (listener: NamedFiles<P>)
        ensures
            can_hear_path(on_file) ==> listener.listens(),
            listener.passes(),
            listener.hears() == names_files(on_file),
            listener.heard() == Seq::<FileCall>::empty(),
    {
        NamedFiles { on_file, heard: Ghost(Seq::empty()) }
    }
}

impl<P: FnMut(&Vec<u8>)> FileListener for NamedFiles<P> {
    closed spec fn listens(&self) -> bool {
        can_hear_path(self.on_file)
    }

    open spec fn passes(&self) -> bool {
        true
    }

    closed spec fn hears(&self) -> spec_fn(FileCall) -> bool {
        names_files(self.on_file)
    }

    closed spec fn heard(&self) -> Seq<FileCall> {
        self.heard@
    }

    fn hear(&mut self, path: &Vec<u8>, index: usize, total: usize) {
        let ghost call = FileCall { path: path@, index: index as nat, total: total as nat };
        (self.on_file)(path);
        self.heard = Ghost(self.heard@.push(call));
    }
}

/// A listener to whom nothing is passed on.
pub struct NoFiles;

/// No file is passed on.
pub open spec fn names_nothing() -> spec_fn(FileCall) -> bool {
    |call: FileCall| false
}

impl FileListener for NoFiles {
    open spec fn listens(&self) -> bool {
        true
    }

    open spec fn passes(&self) -> bool {
        false
    }

    open spec fn hears(&self) -> spec_fn(FileCall) -> bool {
        names_nothing()
    }

    open spec fn heard(&self) -> Seq<FileCall> {
        Seq::empty()
    }

    fn hear(&mut self, path: &Vec<u8>, index: usize, total: usize) {
    }
}

// ---------------------------------------------------------------------------------------------
// The tree
// ---------------------------------------------------------------------------------------------

/// A repository whose files are read: Git, the file system, and one who is told of files. It logs
/// everything that is asked of them or told to them.
pub trait Tree: Logged {
    /// Runs Git.
    fn run(&mut self, command: Command) -> (reply: Reply)
        requires
            old(self).ready(),
        ensures
            stepped(*old(self), *final(self), Act::Run(command@), Answer::Reply(reply@)),
    ;

    /// Tells of a file.
    fn name(&mut self, path: &Vec<u8>, index: usize, total: usize)
        requires
            old(self).ready(),
        ensures
            stepped(
                *old(self),
                *final(self),
                Act::Name { path: path@, index: index as nat, total: total as nat },
                Answer::Nothing,
            ),
    ;

    /// Asks whether a path is a symbolic link.
    fn is_link(&mut self, path: &Vec<u8>) -> (kind: Kind)
        requires
            old(self).ready(),
        ensures
            stepped(*old(self), *final(self), Act::Kind(path@), Answer::Kind(kind_view(kind))),
    ;

    /// Reads the value that a symbolic link stores.
    fn read_link(&mut self, path: &Vec<u8>) -> (contents: Contents)
        requires
            old(self).ready(),
        ensures
            stepped(
                *old(self),
                *final(self),
                Act::ReadLink(path@),
                Answer::Contents(contents_view(contents)),
            ),
    ;

    /// Reads the contents of a file, or of what a link leads to.
    fn read_file(&mut self, path: &Vec<u8>) -> (contents: Contents)
        requires
            old(self).ready(),
        ensures
            stepped(
                *old(self),
                *final(self),
                Act::ReadFile(path@),
                Answer::Contents(contents_view(contents)),
            ),
    ;
}

/// The file system, as three functions: whether a path is a symbolic link, what a link stores, and
/// what a file holds.
pub struct Disk<K, V, F> {
    pub is_link: K,
    pub read_link: V,
    pub read_file: F,
}

impl<
    K: FnMut(&Vec<u8>) -> Kind,
    V: FnMut(&Vec<u8>) -> Contents,
    F: FnMut(&Vec<u8>) -> Contents,
> Disk<K, V, F> {
    /// Whether anything can be asked of the file system.
    pub open spec fn answers(self) -> bool {
        can_tell(self.is_link) && can_read(self.read_link) && can_read(self.read_file)
    }
}

/// The tree that is made of a function to run Git, the file system, and a listener.
pub struct Files<G, K, V, F, L> {
    git: G,
    disk: Disk<K, V, F>,
    listener: L,
    log: Ghost<Seq<Step>>,
}

/// What may be answered by a function that runs Git, the file system, and a listener.
pub open spec fn tree_of<
    G: FnMut(&Command) -> Reply,
    K: FnMut(&Vec<u8>) -> Kind,
    V: FnMut(&Vec<u8>) -> Contents,
    F: FnMut(&Vec<u8>) -> Contents,
>(
    git: G,
    disk: Disk<K, V, F>,
    passes: bool,
    hears: spec_fn(FileCall) -> bool,
) -> Answers {
    |act: Act, answer: Answer|
        match act {
            Act::Run(command) => answer matches Answer::Reply(reply) && replies(
                git,
                command,
                reply,
            ),
            Act::Kind(path) => answer matches Answer::Kind(kind) && tells(
                disk.is_link,
                path,
                kind,
            ),
            Act::ReadLink(path) => answer matches Answer::Contents(contents) && reads(
                disk.read_link,
                path,
                contents,
            ),
            Act::ReadFile(path) => answer matches Answer::Contents(contents) && reads(
                disk.read_file,
                path,
                contents,
            ),
            Act::Name { path, index, total } => answer is Nothing && (passes ==> hears(
                FileCall { path, index, total },
            )),
            _ => false,
        }
}

impl<
    G: FnMut(&Command) -> Reply,
    K: FnMut(&Vec<u8>) -> Kind,
    V: FnMut(&Vec<u8>) -> Contents,
    F: FnMut(&Vec<u8>) -> Contents,
    L: FileListener,
> Files<G, K, V, F, L> {
    /// The listener, with what was passed on to it.
    pub closed spec fn listener(&self) -> L {
        self.listener
    }

    /// A tree of which nothing was asked yet.
    pub fn new(git: G, disk: Disk<K, V, F>, listener: L) -> (files: Files<G, K, V, F, L>)
        requires
            listener.heard() == Seq::<FileCall>::empty(),
        ensures
            can_run(git) && disk.answers() && listener.listens() ==> files.ready(),
            files.may() == tree_of(git, disk, listener.passes(), listener.hears()),
            files.log() == Seq::<Step>::empty(),
            files.listener() == listener,
    {
        Files { git, disk, listener, log: Ghost(Seq::empty()) }
    }

    /// To a listener that passes files on, exactly those were passed on that the log names, in
    /// their order.
    pub proof fn listener_heard_the_log(&self)
        requires
            self.ready(),
        ensures
            self.listener().passes() ==> self.listener().heard() == named_files(self.log()),
            !self.listener().passes() ==> self.listener().heard() == Seq::<FileCall>::empty(),
    {
    }
}

impl<
    G: FnMut(&Command) -> Reply,
    K: FnMut(&Vec<u8>) -> Kind,
    V: FnMut(&Vec<u8>) -> Contents,
    F: FnMut(&Vec<u8>) -> Contents,
    L: FileListener,
> Logged for Files<G, K, V, F, L> {
    closed spec fn ready(&self) -> bool {
        &&& can_run(self.git)
        &&& self.disk.answers()
        &&& self.listener.listens()
        &&& self.listener.heard() == if self.listener.passes() {
            named_files(self.log@)
        } else {
            Seq::empty()
        }
    }

    closed spec fn may(&self) -> Answers {
        tree_of(self.git, self.disk, self.listener.passes(), self.listener.hears())
    }

    closed spec fn log(&self) -> Seq<Step> {
        self.log@
    }
}

impl<
    G: FnMut(&Command) -> Reply,
    K: FnMut(&Vec<u8>) -> Kind,
    V: FnMut(&Vec<u8>) -> Contents,
    F: FnMut(&Vec<u8>) -> Contents,
    L: FileListener,
> Tree for Files<G, K, V, F, L> {
    fn run(&mut self, command: Command) -> (reply: Reply) {
        let reply = (self.git)(&command);
        let ghost step = Step { act: Act::Run(command@), answer: Answer::Reply(reply@) };
        proof {
            one_more_name(self.log@, step);
        }
        self.log = Ghost(self.log@.push(step));
        reply
    }

    fn name(&mut self, path: &Vec<u8>, index: usize, total: usize) {
        self.listener.hear(path, index, total);
        let ghost act = Act::Name { path: path@, index: index as nat, total: total as nat };
        let ghost step = Step { act, answer: Answer::Nothing };
        proof {
            one_more_name(self.log@, step);
        }
        self.log = Ghost(self.log@.push(step));
    }

    fn is_link(&mut self, path: &Vec<u8>) -> (kind: Kind) {
        let kind = (self.disk.is_link)(path);
        let ghost step = Step { act: Act::Kind(path@), answer: Answer::Kind(kind_view(kind)) };
        proof {
            one_more_name(self.log@, step);
        }
        self.log = Ghost(self.log@.push(step));
        kind
    }

    fn read_link(&mut self, path: &Vec<u8>) -> (contents: Contents) {
        let contents = (self.disk.read_link)(path);
        let ghost answer = Answer::Contents(contents_view(contents));
        let ghost step = Step { act: Act::ReadLink(path@), answer };
        proof {
            one_more_name(self.log@, step);
        }
        self.log = Ghost(self.log@.push(step));
        contents
    }

    fn read_file(&mut self, path: &Vec<u8>) -> (contents: Contents) {
        let contents = (self.disk.read_file)(path);
        let ghost answer = Answer::Contents(contents_view(contents));
        let ghost step = Step { act: Act::ReadFile(path@), answer };
        proof {
            one_more_name(self.log@, step);
        }
        self.log = Ghost(self.log@.push(step));
        contents
    }
}

// ---------------------------------------------------------------------------------------------
// What a tracked path stores
// ---------------------------------------------------------------------------------------------

/// What was read, as the end of a plan.
pub open spec fn contents_made() -> spec_fn(Answer) -> Plan<ContentsView> {
    |answer: Answer| Plan::Done(answer->Contents_0)
}

/// What follows by whether a path is a symbolic link: of a link its value is read, and nothing
/// else; of anything else, the contents of the file.
pub open spec fn read_next(path: Seq<u8>) -> spec_fn(Answer) -> Plan<ContentsView> {
    |answer: Answer|
        match answer {
            Answer::Kind(Err(reason)) => Plan::Done(Err(reason)),
            Answer::Kind(Ok(true)) => Plan::Do(Act::ReadLink(path), contents_made()),
            Answer::Kind(Ok(false)) => Plan::Do(Act::ReadFile(path), contents_made()),
            // The question has no other answers.
            _ => Plan::Done(Err(Seq::empty())),
        }
}

/// The plan to read what a tracked path stores.
pub open spec fn read_plan(path: Seq<u8>) -> Plan<ContentsView> {
    Plan::Do(Act::Kind(path), read_next(path))
}

/// A tracked path is read as what it stores: it is asked first whether it is a symbolic link; then
/// the value of a link is read, which is not followed, or the contents of a file.
pub proof fn tracked_paths_are_read_as_stored(
    path: Seq<u8>,
    steps: Seq<Step>,
    contents: ContentsView,
)
    requires
        read_plan(path).ran(steps, contents),
    ensures
        steps.len() >= 1,
        steps[0].act == Act::Kind(path),
        match steps[0].answer {
            Answer::Kind(Err(reason)) => steps.len() == 1 && contents == Err::<Seq<u8>, _>(reason),
            Answer::Kind(Ok(is_link)) => {
                &&& steps.len() == 2
                &&& steps[1].act == if is_link {
                    Act::ReadLink(path)
                } else {
                    Act::ReadFile(path)
                }
                &&& contents == steps[1].answer->Contents_0
            },
            _ => steps.len() == 1,
        },
{
    first_step(read_plan(path), steps, contents);
    let rest = steps.skip(1);
    let next = read_next(path)(steps[0].answer);
    first_step(next, rest, contents);
    if let Answer::Kind(Ok(is_link)) = steps[0].answer {
        first_step(contents_made()(rest[0].answer), rest.skip(1), contents);
        assert(rest[0] == steps[1]);
    }
}

/// Reads what a tracked path stores: the contents of a file, or the value of a symbolic link, which
/// is never followed.
pub fn read_tracked_path<T: Tree>(tree: &mut T, path: &Vec<u8>) -> (contents: Contents)
    requires
        old(tree).ready(),
    ensures
        did(*old(tree), *final(tree), read_plan(path@), contents_view(contents)),
{
    let ghost start = *tree;
    let ghost whole = read_plan(path@);
    let ghost next = read_next(path@);
    proof {
        starts(start, whole);
    }
    let kind = tree.is_link(path);
    let ghost said = Answer::Kind(kind_view(kind));
    let ghost asked = *tree;
    proof {
        steps_on(start, start, asked, whole, Act::Kind(path@), next, said);
    }
    match kind {
        Err(reason) => {
            proof {
                ends(start, asked, whole, Err(reason@));
            }
            Err(reason)
        },
        Ok(is_link) => {
            let contents = if is_link {
                tree.read_link(path)
            } else {
                tree.read_file(path)
            };
            proof {
                let view = contents_view(contents);
                let act = if is_link {
                    Act::ReadLink(path@)
                } else {
                    Act::ReadFile(path@)
                };
                let last = Answer::Contents(view);
                steps_on(start, asked, *tree, whole, act, contents_made(), last);
                ends(start, *tree, whole, view);
            }
            contents
        },
    }
}

} // verus!
