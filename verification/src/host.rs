//! Hosts of feed links.

use vstd::prelude::*;
use vstd::string::*;
use crate::feed::{Feed, FeedView};

verus! {

/// The pattern that finds the host in a link: an optional `http://` or
/// `https://`, and then, as its first group, everything up to the first
/// slash. That group is the host.
pub const HOST_PATTERN: &'static str = "^(?:https?://)?([^/]+)";

/// The group of [`HOST_PATTERN`] that holds the host.
pub const HOST_GROUP: usize = 1;

/// The text that capture group `group` takes in the first match of the
/// regular expression `pattern` in `text`. It is `None` where the expression
/// matches nowhere in `text`, where it has no such group or the group took
/// no part in the match, and where `pattern` is no regular expression at
/// all.
pub uninterp spec fn regex_capture(pattern: Seq<char>, text: Seq<char>, group: nat) -> Option<
    Seq<char>,
>;

/// Compiles `pattern` with `regex::Regex::new`, searches `text` with
/// `Regex::captures` and takes the group with `Captures::get`. The contract
/// names the text of the group and claims that it is a contiguous part of
/// `text`; a pattern that does not compile captures nothing.
#[verifier::external_body]
fn capture_first(pattern: &str, text: &str, group: usize) -> (found: Option<String>)
    ensures
        match found {
            Some(m) => regex_capture(pattern@, text@, group as nat) == Some(m@),
            None => regex_capture(pattern@, text@, group as nat) is None,
        },
        found matches Some(m) ==> exists|from: int, to: int|
            0 <= from <= to <= text@.len() && m@ == #[trigger] text@.subrange(from, to),
{
    match regex::Regex::new(pattern) {
        Ok(re) => match re.captures(text) {
            Some(caps) => match caps.get(group) {
                Some(m) => Some(m.as_str().to_owned()),
                None => None,
            },
            None => None,
        },
        Err(_) => None,
    }
}

/// The host of `link`: what the host group of the host pattern takes in it.
/// A link in which the pattern finds no host stands for itself.
pub open spec fn host_of(link: Seq<char>) -> Seq<char> {
    match regex_capture(HOST_PATTERN@, link, HOST_GROUP as nat) {
        Some(host) => host,
        None => link,
    }
}

/// Picks the host out of what the host group has captured: the captured
/// text, or the whole link where nothing was captured.
pub fn host_from_match(link: &str, found: Option<String>) -> (host: String)
    ensures
        host@ == match found {
            Some(m) => m@,
            None => link@,
        },
{
    match found {
        Some(m) => m,
        None => String::from_str(link),
    }
}

/// The host of `link`: what the host group of the host pattern takes in it,
/// or the link itself where the pattern finds no host. It is always a part
/// of the link.
pub fn get_host(link: &str) -> (host: String)
    ensures
        host@ == host_of(link@),
        exists|from: int, to: int|
            0 <= from <= to <= link@.len() && host@ == #[trigger] link@.subrange(from, to),
{
    let found = capture_first(HOST_PATTERN, link, HOST_GROUP);
    proof {
        if found is None {
            assert(link@ =~= link@.subrange(0, link@.len() as int));
        }
    }
    host_from_match(link, found)
}

/// Whether a feed lives on `host`.
pub open spec fn on_host(host: Seq<char>) -> spec_fn(FeedView) -> bool {
    |feed: FeedView| host_of(feed.link) == host
}

/// The feeds that live on `host`, in their order.
pub open spec fn feeds_of_host(feeds: Seq<FeedView>, host: Seq<char>) -> Seq<FeedView> {
    feeds.filter(on_host(host))
}

/// The hosts of the feeds, each once, in the order in which they first
/// occur.
pub open spec fn hosts_of(feeds: Seq<FeedView>) -> Seq<Seq<char>>
    decreases feeds.len(),
{
    if feeds.len() == 0 {
        Seq::empty()
    } else {
        let before = hosts_of(feeds.drop_last());
        let host = host_of(feeds.last().link);
        if before.contains(host) {
            before
        } else {
            before.push(host)
        }
    }
}

/// The feeds in groups, one group per host: the hosts in the order in which
/// they first occur, and the feeds of a host in the order in which they
/// came.
pub open spec fn grouped_by_host(feeds: Seq<FeedView>) -> Seq<Seq<FeedView>> {
    let hosts = hosts_of(feeds);
    Seq::new(hosts.len(), |g: int| feeds_of_host(feeds, hosts[g]))
}

/// No host is listed twice.
proof fn lemma_hosts_distinct(feeds: Seq<FeedView>)
    ensures
        hosts_of(feeds).no_duplicates(),
    decreases feeds.len(),
{
    if feeds.len() > 0 {
        lemma_hosts_distinct(feeds.drop_last());
    }
}

/// The host of every feed is listed.
proof fn lemma_hosts_complete(feeds: Seq<FeedView>, i: int)
    requires
        0 <= i < feeds.len(),
    ensures
        hosts_of(feeds).contains(host_of(feeds[i].link)),
    decreases feeds.len(),
{
    let before = hosts_of(feeds.drop_last());
    let host = host_of(feeds.last().link);
    if i < feeds.len() - 1 {
        lemma_hosts_complete(feeds.drop_last(), i);
        let j = choose|j: int| 0 <= j < before.len() && before[j] == host_of(feeds[i].link);
        assert(hosts_of(feeds)[j] == host_of(feeds[i].link));
    } else if before.contains(host) {
    } else {
        assert(before.push(host)[before.len() as int] == host);
    }
}

/// Every listed host is the host of a feed.
proof fn lemma_hosts_sound(feeds: Seq<FeedView>, g: int) -> (i: int)
    requires
        0 <= g < hosts_of(feeds).len(),
    ensures
        0 <= i < feeds.len(),
        host_of(feeds[i].link) == hosts_of(feeds)[g],
    decreases feeds.len(),
{
    let before = hosts_of(feeds.drop_last());
    if g < before.len() {
        lemma_hosts_sound(feeds.drop_last(), g)
    } else {
        feeds.len() - 1
    }
}

/// A host that is not listed has no feed.
proof fn lemma_unlisted_host_has_no_feed(feeds: Seq<FeedView>, host: Seq<char>)
    requires
        !hosts_of(feeds).contains(host),
    ensures
        feeds_of_host(feeds, host) == Seq::<FeedView>::empty(),
    decreases feeds.len(),
{
    if feeds.len() == 0 {
        assert(feeds_of_host(feeds, host) =~= Seq::<FeedView>::empty());
    } else {
        let rest = feeds.drop_last();
        let before = hosts_of(rest);
        let last = host_of(feeds.last().link);
        assert(feeds =~= rest.push(feeds.last()));
        rest.lemma_filter_push(feeds.last(), on_host(host));
        if before.contains(last) {
            assert(last != host);
        } else {
            assert(before.push(last)[before.len() as int] == last);
            assert(last != host);
            assert forall|j: int| 0 <= j < before.len() implies before[j] != host by {
                assert(before.push(last)[j] == before[j]);
            }
        }
        lemma_unlisted_host_has_no_feed(rest, host);
    }
}

/// Grouping sorts the feeds by host. No group is empty, and no host has two
/// groups. The feeds of group `g` all live on host `g`. Every feed is in
/// the group of its host, so two feeds of one host share a group, and two
/// feeds of different hosts never do.
pub proof fn lemma_groups_keep_hosts_apart(feeds: Seq<FeedView>)
    ensures
        hosts_of(feeds).no_duplicates(),
        grouped_by_host(feeds).len() == hosts_of(feeds).len(),
        forall|g: int|
            0 <= g < grouped_by_host(feeds).len() ==> (#[trigger] grouped_by_host(feeds)[g]).len()
                > 0,
        forall|g: int, a: int|
            0 <= g < grouped_by_host(feeds).len() && 0 <= a < grouped_by_host(feeds)[g].len()
                ==> host_of((#[trigger] grouped_by_host(feeds)[g][a]).link) == hosts_of(feeds)[g],
        forall|i: int|
            #![trigger feeds[i]]
            0 <= i < feeds.len() ==> exists|g: int|
                0 <= g < grouped_by_host(feeds).len() && hosts_of(feeds)[g] == host_of(
                    feeds[i].link,
                ) && (#[trigger] grouped_by_host(feeds)[g]).contains(feeds[i]),
{
    let hosts = hosts_of(feeds);
    let groups = grouped_by_host(feeds);
    lemma_hosts_distinct(feeds);
    assert forall|g: int| 0 <= g < groups.len() implies (#[trigger] groups[g]).len() > 0 by {
        let i = lemma_hosts_sound(feeds, g);
        feeds.lemma_filter_contains(on_host(hosts[g]), i);
    }
    assert forall|g: int, a: int| 0 <= g < groups.len() && 0 <= a < groups[g].len() implies host_of(
        (#[trigger] groups[g][a]).link,
    ) == hosts[g] by {
        feeds.lemma_filter_pred(on_host(hosts[g]), a);
    }
    assert forall|i: int| #![trigger feeds[i]] 0 <= i < feeds.len() implies exists|g: int|
        0 <= g < groups.len() && hosts[g] == host_of(feeds[i].link) && (#[trigger] groups[g]).contains(
            feeds[i],
        ) by {
        lemma_hosts_complete(feeds, i);
        let g = choose|g: int| 0 <= g < hosts.len() && hosts[g] == host_of(feeds[i].link);
        feeds.lemma_filter_contains(on_host(hosts[g]), i);
        assert(groups[g].contains(feeds[i]));
    }
}

/// Where `host` stands among `hosts`.
fn position_of_host(hosts: &Vec<String>, host: &String) -> (at: Option<usize>)
    ensures
        match at {
            Some(g) => g < hosts.len() && hosts[g as int]@ == host@,
            None => !hosts.deep_view().contains(host@),
        },
{
    let mut g: usize = 0;
    while g < hosts.len()
        invariant
            g <= hosts.len(),
            forall|j: int| 0 <= j < g ==> (#[trigger] hosts.deep_view()[j]) != host@,
        decreases hosts.len() - g,
    {
        if hosts[g] == *host {
            return Some(g);
        }
        g += 1;
    }
    None
}

/// Puts the feeds in groups, one group per host, so that the feeds of one
/// host can be fetched one after the other.
pub fn grouping_by_host(feeds: Vec<Feed>) -> (groups: Vec<Vec<Feed>>)
    ensures
        groups.deep_view() == grouped_by_host(feeds.deep_view()),
{
    let ghost all = feeds.deep_view();
    let mut hosts: Vec<String> = Vec::new();
    let mut groups: Vec<Vec<Feed>> = Vec::new();
    assert(hosts.deep_view() =~= hosts_of(all.take(0)));
    for feed in it: feeds
        invariant
            it.seq() == feeds@,
            all == feeds.deep_view(),
            hosts.deep_view() == hosts_of(all.take(it.index())),
            groups.len() == hosts.len(),
            forall|g: int|
                0 <= g < groups.len() ==> (#[trigger] groups.deep_view()[g]) == feeds_of_host(
                    all.take(it.index()),
                    hosts.deep_view()[g],
                ),
    {
        let ghost done = all.take(it.index());
        let ghost next = all.take(it.index() + 1);
        let ghost listed = hosts.deep_view();
        let ghost grouped = groups.deep_view();
        let host = get_host(feed.link());
        proof {
            assert(next =~= done.push(feed@));
            assert(next.drop_last() =~= done);
            lemma_hosts_distinct(done);
            assert forall|g: int| 0 <= g < listed.len() implies feeds_of_host(next, listed[g])
                == if listed[g] == host@ {
                feeds_of_host(done, listed[g]).push(feed@)
            } else {
                feeds_of_host(done, listed[g])
            } by {
                done.lemma_filter_push(feed@, on_host(listed[g]));
            }
        }
        match position_of_host(&hosts, &host) {
            Some(at) => {
                let ghost earlier = groups[at as int].deep_view();
                groups[at].push(feed);
                proof {
                    assert(listed[at as int] == host@);
                    assert(earlier == grouped[at as int]);
                    assert(groups[at as int].deep_view() =~= earlier.push(feed@));
                    assert(groups.deep_view() =~= grouped.update(
                        at as int,
                        groups[at as int].deep_view(),
                    ));
                    assert forall|g: int| 0 <= g < groups.len() implies (#[trigger] groups.deep_view()[g])
                        == feeds_of_host(next, hosts.deep_view()[g]) by {
                        if g != at {
                            assert(listed[g] != listed[at as int]);
                            assert(grouped[g] == feeds_of_host(done, listed[g]));
                        }
                    }
                }
            },
            None => {
                proof {
                    lemma_unlisted_host_has_no_feed(done, host@);
                    done.lemma_filter_push(feed@, on_host(host@));
                }
                hosts.push(host);
                let mut group: Vec<Feed> = Vec::new();
                group.push(feed);
                groups.push(group);
                proof {
                    assert(hosts.deep_view() =~= listed.push(host@));
                    assert(group.deep_view() =~= seq![feed@]);
                    assert(groups.deep_view() =~= grouped.push(group.deep_view()));
                    assert forall|g: int| 0 <= g < groups.len() implies (#[trigger] groups.deep_view()[g])
                        == feeds_of_host(next, hosts.deep_view()[g]) by {
                        if g < listed.len() {
                            assert(listed.contains(listed[g]));
                            assert(grouped[g] == feeds_of_host(done, listed[g]));
                        } else {
                            assert(Seq::<FeedView>::empty().push(feed@) =~= seq![feed@]);
                        }
                    }
                }
            },
        }
    }
    proof {
        assert(all.take(all.len() as int) =~= all);
        assert(groups.deep_view() =~= grouped_by_host(all));
    }
    groups
}

} // verus!
