//! Who is told how far a check has come.

use crate::url::{SourceUrl, SourceUrlView};
use vstd::prelude::*;

verus! {

/// How far a check has come: the repository that is made ready, the link that is checked, how
/// many links have to be investigated, or the link that is investigated.
pub enum CheckProgress<'a> {
    Preparing { repository: &'a str, index: usize, total: usize },
    Checking { url: &'a SourceUrl, index: usize, total: usize },
    InvestigationCount { total: usize },
    Investigating { url: &'a SourceUrl, index: usize, total: usize },
}

/// A [`CheckProgress`] as its parts.
pub enum ProgressView {
    Preparing { repository: Seq<char>, index: nat, total: nat },
    Checking { url: SourceUrlView, index: nat, total: nat },
    InvestigationCount { total: nat },
    Investigating { url: SourceUrlView, index: nat, total: nat },
}

impl<'a> View for CheckProgress<'a> {
    type V = ProgressView;

    open spec fn view(&self) -> ProgressView {
        match *self {
            CheckProgress::Preparing { repository, index, total } => ProgressView::Preparing {
                repository: repository@,
                index: index as nat,
                total: total as nat,
            },
            CheckProgress::Checking { url, index, total } => ProgressView::Checking {
                url: url@,
                index: index as nat,
                total: total as nat,
            },
            CheckProgress::InvestigationCount {
                total,
            } => ProgressView::InvestigationCount { total: total as nat },
            CheckProgress::Investigating { url, index, total } => ProgressView::Investigating {
                url: url@,
                index: index as nat,
                total: total as nat,
            },
        }
    }
}

/// Whether a function can be told anything.
pub open spec fn can_follow<P: FnMut(CheckProgress<'_>)>(on_progress: P) -> bool {
    forall|progress: CheckProgress<'_>| #[trigger] call_requires(on_progress, (progress,))
}

/// Whether a function may have been told how far a check has come.
pub open spec fn followed<P: FnMut(CheckProgress<'_>)>(
    on_progress: P,
    progress: ProgressView,
) -> bool {
    exists|said: CheckProgress<'_>|
        said@ == progress && #[trigger] call_ensures(on_progress, (said,), ())
}

/// Whether a function can be told of any link.
pub open spec fn can_count<P: FnMut(&SourceUrl, usize, usize)>(on_url: P) -> bool {
    forall|url: SourceUrl, index: usize, total: usize| #[trigger]
        call_requires(on_url, (&url, index, total))
}

/// Whether a function may have been told of a link, with its number and the number of all links.
pub open spec fn counted<P: FnMut(&SourceUrl, usize, usize)>(
    on_url: P,
    url: SourceUrlView,
    index: nat,
    total: nat,
) -> bool {
    exists|named: SourceUrl, i: usize, n: usize|
        named@ == url && i == index && n == total && #[trigger] call_ensures(
            on_url,
            (&named, i, n),
            (),
        )
}

/// One who is told how far a check has come, and keeps in mind which of that was passed on.
pub trait Listener: Sized {
    /// Whether the listener can be told anything.
    spec fn listens(&self) -> bool;

    /// What the listener passes on.
    spec fn passes(&self) -> spec_fn(ProgressView) -> bool;

    /// What may have been passed on.
    spec fn hears(&self) -> spec_fn(ProgressView) -> bool;

    /// What was passed on so far: each entry one call of the function behind the listener, in
    /// this order.
    spec fn heard(&self) -> Seq<ProgressView>;

    /// Tells the listener something.
    fn hear(&mut self, progress: CheckProgress<'_>)
        requires
            old(self).listens(),
        ensures
            final(self).listens(),
            final(self).passes() == old(self).passes(),
            final(self).hears() == old(self).hears(),
            final(self).heard() == if (old(self).passes())(progress@) {
                old(self).heard().push(progress@)
            } else {
                old(self).heard()
            },
            (old(self).passes())(progress@) ==> (old(self).hears())(progress@),
    ;
}

/// A listener to whom everything is passed on.
pub struct Everything<P> {
    on_progress: P,
    heard: Ghost<Seq<ProgressView>>,
}

/// Everything is passed on.
pub open spec fn all_events() -> spec_fn(ProgressView) -> bool {
    |progress: ProgressView| true
}

/// What a function may have been told.
pub open spec fn followed_by<P: FnMut(CheckProgress<'_>)>(on_progress: P) -> spec_fn(
    ProgressView,
) -> bool {
    |progress: ProgressView| followed(on_progress, progress)
}

impl<P: FnMut(CheckProgress<'_>)> Everything<P> {
    /// A listener that was told nothing yet.
    pub fn new(on_progress: P) -> (listener: Everything<P>)
        ensures
            can_follow(on_progress) ==> listener.listens(),
            listener.passes() == all_events(),
            listener.hears() == followed_by(on_progress),
            listener.heard() == Seq::<ProgressView>::empty(),
    {
        Everything { on_progress, heard: Ghost(Seq::empty()) }
    }
}

impl<P: FnMut(CheckProgress<'_>)> Listener for Everything<P> {
    closed spec fn listens(&self) -> bool {
        can_follow(self.on_progress)
    }

    open spec fn passes(&self) -> spec_fn(ProgressView) -> bool {
        all_events()
    }

    closed spec fn hears(&self) -> spec_fn(ProgressView) -> bool {
        followed_by(self.on_progress)
    }

    closed spec fn heard(&self) -> Seq<ProgressView> {
        self.heard@
    }

    fn hear(&mut self, progress: CheckProgress<'_>) {
        let ghost view = progress@;
        (self.on_progress)(progress);
        self.heard = Ghost(self.heard@.push(view));
    }
}

/// A listener to whom only the links that are checked are passed on.
pub struct CheckedLinks<P> {
    on_url: P,
    heard: Ghost<Seq<ProgressView>>,
}

/// Only the links that are checked are passed on.
pub open spec fn checked_links() -> spec_fn(ProgressView) -> bool {
    |progress: ProgressView| progress is Checking
}

/// What a function may have been told of links that are checked.
pub open spec fn counted_by<P: FnMut(&SourceUrl, usize, usize)>(on_url: P) -> spec_fn(
    ProgressView,
) -> bool {
    |progress: ProgressView|
        progress matches ProgressView::Checking { url, index, total } && counted(
            on_url,
            url,
            index,
            total,
        )
}

impl<P: FnMut(&SourceUrl, usize, usize)> CheckedLinks<P> {
    /// A listener that was told nothing yet.
    pub fn new(on_url: P) -> (listener: CheckedLinks<P>)
        ensures
            can_count(on_url) ==> listener.listens(),
            listener.passes() == checked_links(),
            listener.hears() == counted_by(on_url),
            listener.heard() == Seq::<ProgressView>::empty(),
    {
        CheckedLinks { on_url, heard: Ghost(Seq::empty()) }
    }

    /// Passes on one link.
    fn count(&mut self, url: &SourceUrl, index: usize, total: usize)
        requires
            old(self).listens(),
        ensures
            final(self).listens(),
            final(self).hears() == old(self).hears(),
            final(self).heard() == old(self).heard().push(
                ProgressView::Checking { url: url@, index: index as nat, total: total as nat },
            ),
            counted(old(self).on_url, url@, index as nat, total as nat),
    {
        (self.on_url)(url, index, total);
        self.heard =
        Ghost(
            self.heard@.push(
                ProgressView::Checking { url: url@, index: index as nat, total: total as nat },
            ),
        );
    }
}

impl<P: FnMut(&SourceUrl, usize, usize)> Listener for CheckedLinks<P> {
    closed spec fn listens(&self) -> bool {
        can_count(self.on_url)
    }

    open spec fn passes(&self) -> spec_fn(ProgressView) -> bool {
        checked_links()
    }

    closed spec fn hears(&self) -> spec_fn(ProgressView) -> bool {
        counted_by(self.on_url)
    }

    closed spec fn heard(&self) -> Seq<ProgressView> {
        self.heard@
    }

    fn hear(&mut self, progress: CheckProgress<'_>) {
        match progress {
            CheckProgress::Checking { url, index, total } => self.count(url, index, total),
            _ => {},
        }
    }
}

/// A listener to whom nothing is passed on.
pub struct Nobody;

/// Nothing is passed on.
pub open spec fn no_events() -> spec_fn(ProgressView) -> bool {
    |progress: ProgressView| false
}

impl Listener for Nobody {
    open spec fn listens(&self) -> bool {
        true
    }

    open spec fn passes(&self) -> spec_fn(ProgressView) -> bool {
        no_events()
    }

    open spec fn hears(&self) -> spec_fn(ProgressView) -> bool {
        no_events()
    }

    open spec fn heard(&self) -> Seq<ProgressView> {
        Seq::empty()
    }

    fn hear(&mut self, progress: CheckProgress<'_>) {
    }
}

/// Who hears what: one listener everything, one the links that are checked and nothing else, and
/// one nothing.
pub proof fn listeners_hear_what_they_are_for(progress: ProgressView)
    ensures
        all_events()(progress),
        checked_links()(progress) <==> progress is Checking,
        !no_events()(progress),
{
}

} // verus!
