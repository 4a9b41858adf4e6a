//! The links of each repository.

use crate::index::{found_views, FoundUrl, FoundUrlView};
use crate::order::{rank_texts, text_before, text_before_chains, texts_are_comparable, Rank};
use vstd::prelude::*;

verus! {

/// The links of one repository.
#[derive(Debug)]
pub struct Group {
    pub owner: String,
    pub repo: String,
    pub members: Vec<FoundUrl>,
}

/// What a repository goes by.
pub struct Key {
    pub owner: Seq<char>,
    pub repo: Seq<char>,
}

/// A [`Group`] as its parts.
pub struct GroupView {
    pub key: Key,
    pub members: Seq<FoundUrlView>,
}

impl View for Group {
    type V = GroupView;

    open spec fn view(&self) -> GroupView {
        GroupView {
            key: Key { owner: self.owner@, repo: self.repo@ },
            members: found_views(self.members@),
        }
    }
}

/// The groups of a list.
pub open spec fn group_views(list: Seq<Group>) -> Seq<GroupView> {
    list.map_values(|g: Group| g@)
}

impl Key {
    /// Whether a repository comes before another: by its owner, and then by its name.
    pub open spec fn before(self, other: Key) -> bool {
        text_before(self.owner, other.owner) || self.owner == other.owner && text_before(
            self.repo,
            other.repo,
        )
    }
}

/// The repository of a link.
pub open spec fn key_of(found: FoundUrlView) -> Key {
    Key { owner: found.url.owner, repo: found.url.repo }
}

/// The order of repositories is strict and total.
pub proof fn keys_are_comparable(a: Key, b: Key)
    ensures
        a.before(b) ==> !b.before(a) && a != b,
        !a.before(b) && !b.before(a) ==> a == b,
{
    texts_are_comparable(a.owner, b.owner);
    texts_are_comparable(a.repo, b.repo);
}

/// The order of repositories chains.
pub proof fn key_order_chains(a: Key, b: Key, c: Key)
    requires
        a.before(b),
        b.before(c),
    ensures
        a.before(c),
{
    if text_before(a.owner, b.owner) && text_before(b.owner, c.owner) {
        text_before_chains(a.owner, b.owner, c.owner);
    }
    if text_before(a.repo, b.repo) && text_before(b.repo, c.repo) {
        text_before_chains(a.repo, b.repo, c.repo);
    }
}

/// The links of a repository, in the order in which they stand in a list.
pub open spec fn members_of(urls: Seq<FoundUrlView>, key: Key) -> Seq<FoundUrlView>
    decreases urls.len(),
{
    if urls.len() == 0 {
        Seq::empty()
    } else if key_of(urls.last()) == key {
        members_of(urls.drop_last(), key).push(urls.last())
    } else {
        members_of(urls.drop_last(), key)
    }
}

/// Whether groups stand in order, each once.
pub open spec fn groups_in_order(groups: Seq<GroupView>) -> bool {
    forall|i: int, j: int|
        #![trigger groups[i], groups[j]]
        0 <= i < j < groups.len() ==> groups[i].key.before(groups[j].key)
}

/// Whether a repository has a group.
pub open spec fn has_group(groups: Seq<GroupView>, key: Key) -> bool {
    exists|i: int| #![trigger groups[i]] 0 <= i < groups.len() && groups[i].key == key
}

/// Whether `groups` sorts out a list of links: a group for each repository that has links there,
/// in order, with its links as they stand in the list.
pub open spec fn is_grouping(groups: Seq<GroupView>, urls: Seq<FoundUrlView>) -> bool {
    &&& groups_in_order(groups)
    &&& forall|i: int|
        #![trigger groups[i]]
        0 <= i < groups.len() ==> groups[i].members.len() > 0 && groups[i].members == members_of(
            urls,
            groups[i].key,
        )
    &&& forall|k: int|
        #![trigger urls[k]]
        0 <= k < urls.len() ==> has_group(groups, key_of(urls[k]))
}

proof fn member_key(urls: Seq<FoundUrlView>, key: Key) -> (k: int)
    requires
        members_of(urls, key).len() > 0,
    ensures
        0 <= k < urls.len(),
        key_of(urls[k]) == key,
    decreases urls.len(),
{
    if key_of(urls.last()) == key {
        urls.len() - 1
    } else {
        member_key(urls.drop_last(), key)
    }
}

/// Every link of a group belongs to its repository.
pub proof fn members_belong(urls: Seq<FoundUrlView>, key: Key)
    ensures
        forall|k: int|
            #![trigger members_of(urls, key)[k]]
            0 <= k < members_of(urls, key).len() ==> key_of(members_of(urls, key)[k]) == key,
    decreases urls.len(),
{
    if urls.len() > 0 {
        let front = members_of(urls.drop_last(), key);
        members_belong(urls.drop_last(), key);
        assert forall|k: int| #![trigger members_of(urls, key)[k]] 0 <= k < members_of(
            urls,
            key,
        ).len() implies key_of(members_of(urls, key)[k]) == key by {
            if k < front.len() {
                assert(members_of(urls, key)[k] == front[k]);
            }
        }
    }
}

/// There is only one way to sort out a list of links.
pub proof fn grouping_is_unique(a: Seq<GroupView>, b: Seq<GroupView>, urls: Seq<FoundUrlView>)
    requires
        is_grouping(a, urls),
        is_grouping(b, urls),
    ensures
        a == b,
{
    let n = if a.len() < b.len() {
        a.len() as int
    } else {
        b.len() as int
    };
    same_groups(a, b, urls, n);
    if a.len() < b.len() {
        group_is_shared(b, a, urls, n);
        let k = choose|k: int| #![trigger a[k]] 0 <= k < a.len() && a[k].key == b[n].key;
        assert(a[k] == b[k]);
        keys_are_comparable(b[k].key, b[n].key);
    } else if b.len() < a.len() {
        group_is_shared(a, b, urls, n);
        let k = choose|k: int| #![trigger b[k]] 0 <= k < b.len() && b[k].key == a[n].key;
        assert(a[k] == b[k]);
        keys_are_comparable(a[k].key, a[n].key);
    }
    assert(a =~= b);
}

proof fn group_is_shared(
    a: Seq<GroupView>,
    b: Seq<GroupView>,
    urls: Seq<FoundUrlView>,
    i: int,
)
    requires
        is_grouping(a, urls),
        is_grouping(b, urls),
        0 <= i < a.len(),
    ensures
        has_group(b, a[i].key),
{
    let group = a[i];
    let k = member_key(urls, group.key);
    let member = urls[k];
}

proof fn same_groups(a: Seq<GroupView>, b: Seq<GroupView>, urls: Seq<FoundUrlView>, n: int)
    requires
        is_grouping(a, urls),
        is_grouping(b, urls),
        0 <= n <= a.len(),
        n <= b.len(),
    ensures
        forall|i: int| 0 <= i < n ==> a[i] == b[i],
    decreases n,
{
    if n > 0 {
        same_groups(a, b, urls, n - 1);
        let m = n - 1;
        group_is_shared(a, b, urls, m);
        group_is_shared(b, a, urls, m);
        let k = choose|k: int| #![trigger b[k]] 0 <= k < b.len() && b[k].key == a[m].key;
        let l = choose|l: int| #![trigger a[l]] 0 <= l < a.len() && a[l].key == b[m].key;
        keys_are_comparable(a[m].key, b[m].key);
        if k < m {
            assert(a[k] == b[k]);
            keys_are_comparable(a[k].key, a[m].key);
        }
        if l < m {
            assert(a[l] == b[l]);
            keys_are_comparable(b[l].key, b[m].key);
        }
        if k > m && l > m {
            assert(b[m].key.before(b[k].key));
            assert(a[m].key.before(a[l].key));
        }
        assert(a[m].key == b[m].key);
    }
}

/// How the repository of a group stands to another.
fn rank_group(group: &Group, owner: &str, repo: &str) -> (rank: Rank)
    ensures
        match rank {
            Rank::Before => group@.key.before(Key { owner: owner@, repo: repo@ }),
            Rank::Same => group@.key == (Key { owner: owner@, repo: repo@ }),
            Rank::After => (Key { owner: owner@, repo: repo@ }).before(group@.key),
        },
{
    proof {
        texts_are_comparable(group.owner@, owner@);
        texts_are_comparable(group.repo@, repo@);
    }
    match rank_texts(group.owner.as_str(), owner) {
        Rank::Same => rank_texts(group.repo.as_str(), repo),
        other => other,
    }
}

/// Where the group of a repository stands, or where it would go.
fn group_position(groups: &Vec<Group>, owner: &str, repo: &str) -> (at: Result<usize, usize>)
    requires
        groups_in_order(group_views(groups@)),
    ensures
        match at {
            Ok(i) => i < groups@.len() && groups@[i as int]@.key == (Key {
                owner: owner@,
                repo: repo@,
            }),
            Err(i) => {
                &&& i <= groups@.len()
                &&& forall|k: int|
                    #![trigger groups@[k]]
                    0 <= k < i ==> groups@[k]@.key.before(Key { owner: owner@, repo: repo@ })
                &&& forall|k: int|
                    #![trigger groups@[k]]
                    i <= k < groups@.len() ==> (Key { owner: owner@, repo: repo@ }).before(
                        groups@[k]@.key,
                    )
            },
        },
{
    let ghost key = Key { owner: owner@, repo: repo@ };
    let ghost list = group_views(groups@);
    let mut i: usize = 0;
    while i < groups.len()
        invariant
            list == group_views(groups@),
            groups_in_order(list),
            key == (Key { owner: owner@, repo: repo@ }),
            i <= groups@.len(),
            forall|k: int| #![trigger groups@[k]] 0 <= k < i ==> groups@[k]@.key.before(key),
        decreases groups.len() - i,
    {
        match rank_group(&groups[i], owner, repo) {
            Rank::Same => {
                return Ok(i);
            },
            Rank::After => {
                assert forall|k: int| #![trigger groups@[k]] i <= k < groups@.len() implies
                    key.before(groups@[k]@.key) by {
                    if i < k {
                        assert(list[i as int].key.before(list[k].key));
                        key_order_chains(key, list[i as int].key, list[k].key);
                    }
                }
                return Err(i);
            },
            Rank::Before => {},
        }
        i = i + 1;
    }
    Err(i)
}

proof fn grouping_takes_a_member(
    before: Seq<GroupView>,
    after: Seq<GroupView>,
    urls: Seq<FoundUrlView>,
    found: FoundUrlView,
    at: int,
)
    requires
        is_grouping(before, urls),
        0 <= at < before.len(),
        before[at].key == key_of(found),
        after == before.update(
            at,
            GroupView { key: before[at].key, members: before[at].members.push(found) },
        ),
    ensures
        is_grouping(after, urls.push(found)),
{
    let all = urls.push(found);
    assert(all.drop_last() == urls);
    assert forall|i: int, j: int| #![trigger after[i], after[j]] 0 <= i < j < after.len() implies
        after[i].key.before(after[j].key) by {
        assert(after[i].key == before[i].key);
        assert(after[j].key == before[j].key);
    }
    assert forall|i: int| #![trigger after[i]] 0 <= i < after.len() implies after[i].members.len()
        > 0 && after[i].members == members_of(all, after[i].key) by {
        assert(after[i].key == before[i].key);
        if i < at {
            keys_are_comparable(before[i].key, before[at].key);
        } else if i > at {
            keys_are_comparable(before[at].key, before[i].key);
        }
    }
    assert forall|k: int| #![trigger all[k]] 0 <= k < all.len() implies has_group(
        after,
        key_of(all[k]),
    ) by {
        if k == urls.len() {
            assert(after[at].key == key_of(all[k]));
        } else {
            assert(all[k] == urls[k]);
            let i = choose|i: int| #![trigger before[i]] 0 <= i < before.len() && before[i].key
                == key_of(urls[k]);
            assert(after[i].key == before[i].key);
        }
    }
}

proof fn grouping_takes_a_group(
    before: Seq<GroupView>,
    after: Seq<GroupView>,
    urls: Seq<FoundUrlView>,
    found: FoundUrlView,
    at: int,
)
    requires
        is_grouping(before, urls),
        0 <= at <= before.len(),
        forall|k: int|
            #![trigger before[k]]
            0 <= k < at ==> before[k].key.before(key_of(found)),
        forall|k: int|
            #![trigger before[k]]
            at <= k < before.len() ==> key_of(found).before(before[k].key),
        after == before.insert(at, GroupView { key: key_of(found), members: seq![found] }),
    ensures
        is_grouping(after, urls.push(found)),
{
    let all = urls.push(found);
    let key = key_of(found);
    assert(all.drop_last() == urls);
    if members_of(urls, key).len() > 0 {
        let k = member_key(urls, key);
        let member = urls[k];
        let i = choose|i: int| #![trigger before[i]] 0 <= i < before.len() && before[i].key == key;
        keys_are_comparable(before[i].key, key);
        assert(false);
    }
    assert(members_of(all, key) == seq![found]);
    assert forall|i: int| 0 <= i < before.len() implies (if i < at {
        #[trigger] before[i] == after[i]
    } else {
        before[i] == after[i + 1]
    }) by {}
    assert forall|i: int, j: int| #![trigger after[i], after[j]] 0 <= i < j < after.len() implies
        after[i].key.before(after[j].key) by {
        let bi = if i < at {
            before[i]
        } else {
            before[i - 1]
        };
        let bj = if j < at {
            before[j]
        } else {
            before[j - 1]
        };
    }
    assert forall|i: int| #![trigger after[i]] 0 <= i < after.len() implies after[i].members.len()
        > 0 && after[i].members == members_of(all, after[i].key) by {
        if i < at {
            assert(after[i] == before[i]);
            keys_are_comparable(before[i].key, key);
        } else if i > at {
            assert(after[i] == before[i - 1]);
            keys_are_comparable(key, before[i - 1].key);
        }
    }
    assert forall|k: int| #![trigger all[k]] 0 <= k < all.len() implies has_group(
        after,
        key_of(all[k]),
    ) by {
        if k == urls.len() {
            assert(after[at].key == key_of(all[k]));
        } else {
            assert(all[k] == urls[k]);
            let i = choose|i: int| #![trigger before[i]] 0 <= i < before.len() && before[i].key
                == key_of(urls[k]);
            if i < at {
                assert(after[i] == before[i]);
            } else {
                assert(after[i + 1] == before[i]);
            }
        }
    }
}

/// Where a key stands among groups in order: at a group of its own, or right before a later one.
proof fn place_of(groups: Seq<GroupView>, key: Key, n: int) -> (at: int)
    requires
        groups_in_order(groups),
        0 <= n <= groups.len(),
        forall|k: int| #![trigger groups[k]] 0 <= k < n ==> groups[k].key.before(key),
    ensures
        0 <= at <= groups.len(),
        forall|k: int| #![trigger groups[k]] 0 <= k < at ==> groups[k].key.before(key),
        at < groups.len() && groups[at].key == key || (forall|k: int|
            #![trigger groups[k]]
            at <= k < groups.len() ==> key.before(groups[k].key)),
    decreases groups.len() - n,
{
    if n == groups.len() || groups[n].key == key {
        n
    } else {
        keys_are_comparable(groups[n].key, key);
        if groups[n].key.before(key) {
            place_of(groups, key, n + 1)
        } else {
            assert forall|k: int| #![trigger groups[k]] n <= k < groups.len() implies key.before(
                groups[k].key,
            ) by {
                if n < k {
                    assert(groups[n].key.before(groups[k].key));
                    key_order_chains(key, groups[n].key, groups[k].key);
                }
            }
            n
        }
    }
}

/// Every list of links can be sorted out.
pub proof fn every_list_has_a_grouping(urls: Seq<FoundUrlView>)
    ensures
        exists|groups: Seq<GroupView>| is_grouping(groups, urls),
    decreases urls.len(),
{
    if urls.len() == 0 {
        assert(is_grouping(Seq::empty(), urls));
    } else {
        let front = urls.drop_last();
        let found = urls.last();
        every_list_has_a_grouping(front);
        let groups = choose|groups: Seq<GroupView>| is_grouping(groups, front);
        let key = key_of(found);
        let at = place_of(groups, key, 0);
        assert(front.push(found) == urls);
        if at < groups.len() && groups[at].key == key {
            let entry = GroupView { key, members: groups[at].members.push(found) };
            grouping_takes_a_member(groups, groups.update(at, entry), front, found, at);
            assert(is_grouping(groups.update(at, entry), urls));
        } else {
            let entry = GroupView { key, members: seq![found] };
            grouping_takes_a_group(groups, groups.insert(at, entry), front, found, at);
            assert(is_grouping(groups.insert(at, entry), urls));
        }
    }
}

/// A list without the links of one repository.
pub open spec fn without(urls: Seq<FoundUrlView>, key: Key) -> Seq<FoundUrlView>
    decreases urls.len(),
{
    if urls.len() == 0 {
        Seq::empty()
    } else if key_of(urls.last()) == key {
        without(urls.drop_last(), key)
    } else {
        without(urls.drop_last(), key).push(urls.last())
    }
}

proof fn without_one_keeps_the_others(urls: Seq<FoundUrlView>, key: Key, other: Key)
    requires
        other != key,
    ensures
        members_of(without(urls, key), other) == members_of(urls, other),
    decreases urls.len(),
{
    if urls.len() > 0 {
        without_one_keeps_the_others(urls.drop_last(), key, other);
        let front = without(urls.drop_last(), key);
        if key_of(urls.last()) != key {
            assert(front.push(urls.last()).drop_last() == front);
        }
    }
}

proof fn without_leaves_links(urls: Seq<FoundUrlView>, key: Key)
    ensures
        forall|k: int|
            #![trigger without(urls, key)[k]]
            0 <= k < without(urls, key).len() ==> urls.contains(without(urls, key)[k]) && key_of(
                without(urls, key)[k],
            ) != key,
    decreases urls.len(),
{
    if urls.len() > 0 {
        let front = without(urls.drop_last(), key);
        let list = without(urls, key);
        without_leaves_links(urls.drop_last(), key);
        assert forall|k: int| #![trigger list[k]] 0 <= k < list.len() implies urls.contains(
            list[k],
        ) && key_of(list[k]) != key by {
            if k < front.len() {
                assert(list[k] == front[k]);
                let i = urls.drop_last().index_of(front[k]);
                assert(urls.drop_last().contains(front[k]));
                assert(urls[i] == front[k]);
            } else {
                assert(urls[urls.len() - 1] == list[k]);
            }
        }
    }
}

/// The groups of a list without the links of one repository are the groups of the list without
/// that of the repository.
pub proof fn groups_without_one(groups: Seq<GroupView>, urls: Seq<FoundUrlView>, g: int)
    requires
        is_grouping(groups, urls),
        0 <= g < groups.len(),
    ensures
        is_grouping(groups.remove(g), without(urls, groups[g].key)),
{
    let key = groups[g].key;
    let rest = groups.remove(g);
    let links = without(urls, key);
    assert forall|i: int| 0 <= i < rest.len() implies #[trigger] rest[i] == (if i < g {
        groups[i]
    } else {
        groups[i + 1]
    }) by {}
    assert forall|i: int| #![trigger rest[i]] 0 <= i < rest.len() implies rest[i].members.len() > 0
        && rest[i].members == members_of(links, rest[i].key) by {
        let old_at = if i < g {
            i
        } else {
            i + 1
        };
        assert(rest[i] == groups[old_at]);
        keys_are_comparable(groups[old_at].key, key);
        without_one_keeps_the_others(urls, key, rest[i].key);
    }
    assert forall|k: int| #![trigger links[k]] 0 <= k < links.len() implies has_group(
        rest,
        key_of(links[k]),
    ) by {
        without_leaves_links(urls, key);
        let one = links[k];
        let j = urls.index_of(one);
        assert(urls.contains(one));
        assert(urls[j] == one);
        let i = choose|i: int|
            #![trigger groups[i]]
            0 <= i < groups.len() && groups[i].key == key_of(urls[j]);
        assert(i != g);
        if i < g {
            assert(rest[i] == groups[i]);
        } else {
            assert(rest[i - 1] == groups[i]);
        }
    }
}

/// Puts a link into the group of its repository.
fn add_to_group(groups: &mut Vec<Group>, found: FoundUrl, Ghost(urls): Ghost<Seq<FoundUrlView>>)
    requires
        is_grouping(group_views(old(groups)@), urls),
    ensures
        is_grouping(group_views(final(groups)@), urls.push(found@)),
{
    let ghost before = group_views(groups@);
    let ghost added = found@;
    match group_position(groups, found.url.owner.as_str(), found.url.repo.as_str()) {
        Ok(i) => {
            let ghost at = i as int;
            let ghost known = groups@[at]@;
            groups[i].members.push(found);
            proof {
                assert(groups@[at]@.members == known.members.push(added));
                assert(groups@[at]@.key == known.key);
                let after = group_views(groups@);
                let entry = GroupView {
                    key: before[at].key,
                    members: before[at].members.push(added),
                };
                assert(after == before.update(at, entry));
                grouping_takes_a_member(before, after, urls, added, at);
            }
        },
        Err(i) => {
            let ghost at = i as int;
            let owner = found.url.owner.clone();
            let repo = found.url.repo.clone();
            let mut members: Vec<FoundUrl> = Vec::new();
            members.push(found);
            let group = Group { owner, repo, members };
            assert(group@.members == seq![added]);
            assert(group@.key == key_of(added));
            let ghost entry = group@;
            assert forall|k: int| #![trigger before[k]] 0 <= k < at implies before[k].key.before(
                key_of(added),
            ) by {
                assert(before[k] == groups@[k]@);
            }
            assert forall|k: int| #![trigger before[k]] at <= k < before.len() implies key_of(
                added,
            ).before(before[k].key) by {
                assert(before[k] == groups@[k]@);
            }
            groups.insert(i, group);
            proof {
                let after = group_views(groups@);
                assert(after == before.insert(at, entry));
                grouping_takes_a_group(before, after, urls, added, at);
            }
        },
    }
}

/// Sorts out links by their repositories.
pub fn group_urls(urls: Vec<FoundUrl>) -> (groups: Vec<Group>)
    ensures
        is_grouping(group_views(groups@), found_views(urls@)),
{
    let ghost all = found_views(urls@);
    let mut groups: Vec<Group> = Vec::new();
    let ghost mut seen: Seq<FoundUrlView> = Seq::empty();
    for found in each: urls
        invariant
            all == found_views(each.seq()),
            seen == all.take(each.index() as int),
            is_grouping(group_views(groups@), seen),
    {
        let ghost added = found@;
        add_to_group(&mut groups, found, Ghost(seen));
        proof {
            seen = seen.push(added);
            let at = each.index() as int;
            assert(all.take(at + 1) == all.take(at).push(all[at]));
        }
    }
    assert(all.take(all.len() as int) == all);
    groups
}

/// Whether a group is that of the repository of a link.
pub open spec fn gathers(group: GroupView, found: FoundUrlView) -> bool {
    group.key.owner == found.url.owner && group.key.repo == found.url.repo
}

/// Whether a link has its group.
pub open spec fn is_gathered(groups: Seq<GroupView>, found: FoundUrlView) -> bool {
    exists|g: int| 0 <= g < groups.len() && #[trigger] gathers(groups[g], found)
}

/// Groups gather the links of one repository: all links with its owner and its name, in the order
/// in which they were found, and no other. Each link has its group, and the groups are ordered by
/// owner and then by name, so no repository has two.
pub proof fn groups_gather_the_links_of_one_repository(
    groups: Seq<GroupView>,
    urls: Seq<FoundUrlView>,
)
    requires
        is_grouping(groups, urls),
    ensures
        forall|g: int|
            #![trigger groups[g]]
            0 <= g < groups.len() ==> {
                let owner = groups[g].key.owner;
                let repo = groups[g].key.repo;
                &&& groups[g].members.len() > 0
                &&& groups[g].members == urls.filter(
                    |found: FoundUrlView| found.url.owner == owner && found.url.repo == repo,
                )
            },
        forall|k: int|
            #![trigger urls[k]]
            0 <= k < urls.len() ==> is_gathered(groups, urls[k]),
        forall|g: int, h: int|
            #![trigger groups[g], groups[h]]
            0 <= g < h < groups.len() ==> {
                let (a, b) = (groups[g].key, groups[h].key);
                text_before(a.owner, b.owner) || a.owner == b.owner && text_before(a.repo, b.repo)
            },
{
    assert forall|g: int| #![trigger groups[g]] 0 <= g < groups.len() implies {
        let owner = groups[g].key.owner;
        let repo = groups[g].key.repo;
        &&& groups[g].members.len() > 0
        &&& groups[g].members == urls.filter(
            |found: FoundUrlView| found.url.owner == owner && found.url.repo == repo,
        )
    } by {
        members_are_filtered(urls, groups[g].key);
    }
    assert forall|k: int| #![trigger urls[k]] 0 <= k < urls.len() implies is_gathered(
        groups,
        urls[k],
    ) by {
        let g = choose|g: int|
            #![trigger groups[g]]
            0 <= g < groups.len() && groups[g].key == key_of(urls[k]);
        assert(has_group(groups, key_of(urls[k])));
        assert(gathers(groups[g], urls[k]));
    }
}

proof fn members_are_filtered(urls: Seq<FoundUrlView>, key: Key)
    ensures
        ({
            let owner = key.owner;
            let repo = key.repo;
            members_of(urls, key) == urls.filter(
                |found: FoundUrlView| found.url.owner == owner && found.url.repo == repo,
            )
        }),
    decreases urls.len(),
{
    let owner = key.owner;
    let repo = key.repo;
    let same = |found: FoundUrlView| found.url.owner == owner && found.url.repo == repo;
    reveal(Seq::filter);
    if urls.len() > 0 {
        let front = urls.drop_last();
        members_are_filtered(front, key);
        front.lemma_filter_push(urls.last(), same);
        assert(front.push(urls.last()) =~= urls);
        assert(same(urls.last()) <==> key_of(urls.last()) == key);
    } else {
        assert(urls.filter(same) =~= Seq::<FoundUrlView>::empty());
    }
}

} // verus!
