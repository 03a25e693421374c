//! The feeds that are watched, each under a link of its own.

use vstd::prelude::*;
use vstd::string::*;
use crate::feed::{ids_of, moved, Document, DocumentView, Feed, FeedView, FetchError};
use crate::poll::{
    dispatch_after_fetch,
    feed_after_fetch,
    fetch_feed_updates,
    fetched_view,
    Dispatch,
};
use crate::text::same_text;

verus! {

/// Whether no two of the feeds have the same link.
pub open spec fn links_distinct(feeds: Seq<FeedView>) -> bool {
    forall|i: int, j: int|
        0 <= i < j < feeds.len() ==> (#[trigger] feeds[i]).link != (#[trigger] feeds[j]).link
}

/// Where the feed with this link stands among `feeds`.
pub open spec fn find_feed(feeds: Seq<FeedView>, link: Seq<char>) -> Option<int> {
    if exists|i: int| 0 <= i < feeds.len() && (#[trigger] feeds[i]).link == link {
        Some(choose|i: int| 0 <= i < feeds.len() && (#[trigger] feeds[i]).link == link)
    } else {
        None
    }
}

/// Among feeds with links of their own, a link is found exactly where the
/// feed with that link stands, and nowhere where there is none.
pub proof fn lemma_find_feed(feeds: Seq<FeedView>, link: Seq<char>)
    requires
        links_distinct(feeds),
    ensures
        match find_feed(feeds, link) {
            Some(at) => 0 <= at < feeds.len() && feeds[at].link == link,
            None => forall|i: int| 0 <= i < feeds.len() ==> (#[trigger] feeds[i]).link != link,
        },
        forall|i: int|
            0 <= i < feeds.len() && (#[trigger] feeds[i]).link == link ==> find_feed(feeds, link)
                == Some(i),
{
}

/// The feeds after `subscriber` has left the feed with this link.
pub open spec fn unsubscribed(feeds: Seq<FeedView>, subscriber: i64, link: Seq<char>) -> Seq<
    FeedView,
> {
    match find_feed(feeds, link) {
        Some(at) => feeds.update(
            at,
            FeedView { subscribers: feeds[at].subscribers.remove(subscriber), ..feeds[at] },
        ),
        None => feeds,
    }
}

/// The feed that a first subscriber and an already fetched document start.
pub open spec fn started_feed(subscriber: i64, link: Seq<char>, document: DocumentView) -> FeedView {
    FeedView {
        link,
        title: document.title,
        error_count: 0,
        subscribers: Set::empty().insert(subscriber),
        seen: ids_of(document.items),
    }
}

/// The feeds after `subscriber` has joined the feed with this link. A link
/// that was not watched yet gets a feed that starts from `document`.
pub open spec fn subscribed(
    feeds: Seq<FeedView>,
    subscriber: i64,
    link: Seq<char>,
    document: DocumentView,
) -> Seq<FeedView> {
    match find_feed(feeds, link) {
        Some(at) => feeds.update(
            at,
            FeedView { subscribers: feeds[at].subscribers.insert(subscriber), ..feeds[at] },
        ),
        None => feeds.push(started_feed(subscriber, link, document)),
    }
}

/// The feeds after the subscriber at `from` has moved to `to`, in every feed
/// that it subscribes to.
pub open spec fn readdressed(feeds: Seq<FeedView>, from: i64, to: i64) -> Seq<FeedView> {
    Seq::new(
        feeds.len(),
        |i: int| FeedView { subscribers: moved(feeds[i].subscribers, from, to), ..feeds[i] },
    )
}

/// The feeds after the feed with this link was polled.
pub open spec fn polled(
    feeds: Seq<FeedView>,
    link: Seq<char>,
    fetched: Result<DocumentView, Seq<char>>,
) -> Seq<FeedView> {
    match find_feed(feeds, link) {
        Some(at) => feeds.update(at, feed_after_fetch(feeds[at], fetched)),
        None => feeds,
    }
}

/// The feeds, each under a link of its own.
pub struct Store {
    feeds: Vec<Feed>,
}

impl View for Store {
    type V = Seq<FeedView>;

    closed spec fn view(&self) -> Seq<FeedView> {
        self.feeds.deep_view()
    }
}

/// Where the feed with this link stands.
fn locate(feeds: &Vec<Feed>, link: &str) -> (at: Option<usize>)
    requires
        links_distinct(feeds.deep_view()),
    ensures
        match at {
            Some(i) => find_feed(feeds.deep_view(), link@) == Some(i as int) && i < feeds.len()
                && feeds[i as int]@.link == link@,
            None => find_feed(feeds.deep_view(), link@) is None,
        },
{
    let mut i: usize = 0;
    while i < feeds.len()
        invariant
            i <= feeds.len(),
            links_distinct(feeds.deep_view()),
            forall|j: int| 0 <= j < i ==> (#[trigger] feeds.deep_view()[j]).link != link@,
        decreases feeds.len() - i,
    {
        if same_text(feeds[i].link(), link) {
            proof {
                let all = feeds.deep_view();
                assert(all[i as int].link == link@);
                let j = choose|j: int| 0 <= j < all.len() && (#[trigger] all[j]).link == link@;
                assert(j == i);
            }
            return Some(i);
        }
        i += 1;
    }
    None
}

impl Store {
    /// What holds of every store: no two of its feeds have the same link.
    #[verifier::type_invariant]
    pub open spec fn distinct(self) -> bool {
        links_distinct(self@)
    }

    /// A store without feeds.
    pub fn new() -> (store: Store)
        ensures
            store@ == Seq::<FeedView>::empty(),
    {
        let store = Store { feeds: Vec::new() };
        assert(store.feeds.deep_view() =~= Seq::<FeedView>::empty());
        store
    }

    /// A copy of every feed, in the store's order.
    pub fn get_all_feeds(&self) -> (feeds: Vec<Feed>)
        ensures
            feeds.deep_view() == self@,
            links_distinct(self@),
    {
        proof {
            use_type_invariant(self);
        }
        let mut feeds: Vec<Feed> = Vec::new();
        for i in 0..self.feeds.len()
            invariant
                feeds.deep_view() == self.feeds.deep_view().take(i as int),
        {
            let ghost earlier = feeds.deep_view();
            let feed = self.feeds[i].clone();
            feeds.push(feed);
            assert(feeds.deep_view() =~= earlier.push(feed@));
            assert(self.feeds.deep_view().take(i + 1) =~= self.feeds.deep_view().take(
                i as int,
            ).push(self.feeds[i as int]@));
        }
        assert(self.feeds.deep_view().take(self.feeds.len() as int) =~= self.feeds.deep_view());
        feeds
    }

    /// A copy of the feed with this link.
    pub fn get_feed(&self, link: &str) -> (feed: Option<Feed>)
        ensures
            match find_feed(self@, link@) {
                Some(at) => feed matches Some(found) && found@ == self@[at],
                None => feed is None,
            },
    {
        proof {
            use_type_invariant(self);
        }
        match locate(&self.feeds, link) {
            Some(at) => Some(self.feeds[at].clone()),
            None => None,
        }
    }

    /// Subscribes `subscriber` to the feed with this link. A link that is
    /// not watched yet gets a feed that starts from `document`. The result
    /// says whether the subscription is new.
    pub fn subscribe(&mut self, subscriber: i64, link: &str, document: &Document) -> (added: bool)
        ensures
            links_distinct(final(self)@),
            final(self)@ == subscribed(old(self)@, subscriber, link@, document@),
            added == match find_feed(old(self)@, link@) {
                Some(at) => !old(self)@[at].subscribers.contains(subscriber),
                None => true,
            },
    {
        proof {
            use_type_invariant(&*self);
        }
        let mut feeds: Vec<Feed> = Vec::new();
        std::mem::swap(&mut feeds, &mut self.feeds);
        let ghost before = feeds.deep_view();
        let added = match locate(&feeds, link) {
            Some(at) => {
                let added = feeds[at].add_subscriber(subscriber);
                assert(feeds.deep_view() =~= before.update(at as int, feeds[at as int]@));
                added
            },
            None => {
                let mut feed = Feed::from_document(String::from_str(link), document);
                feed.add_subscriber(subscriber);
                feeds.push(feed);
                assert(feeds.deep_view() =~= before.push(feed@));
                true
            },
        };
        self.feeds = feeds;
        added
    }

    /// Takes `subscriber` off the feed with this link. The result says
    /// whether it was on it.
    pub fn unsubscribe(&mut self, subscriber: i64, link: &str) -> (removed: bool)
        ensures
            links_distinct(final(self)@),
            final(self)@ == unsubscribed(old(self)@, subscriber, link@),
            removed == match find_feed(old(self)@, link@) {
                Some(at) => old(self)@[at].subscribers.contains(subscriber),
                None => false,
            },
    {
        proof {
            use_type_invariant(&*self);
        }
        let mut feeds: Vec<Feed> = Vec::new();
        std::mem::swap(&mut feeds, &mut self.feeds);
        let ghost before = feeds.deep_view();
        let removed = match locate(&feeds, link) {
            Some(at) => {
                let removed = feeds[at].remove_subscriber(subscriber);
                assert(feeds.deep_view() =~= before.update(at as int, feeds[at as int]@));
                removed
            },
            None => false,
        };
        self.feeds = feeds;
        removed
    }

    /// Notes that the subscriber at `from` has moved to `to`: in every feed
    /// that it subscribes to, `to` takes its place.
    pub fn update_subscriber(&mut self, from: i64, to: i64)
        ensures
            links_distinct(final(self)@),
            final(self)@ == readdressed(old(self)@, from, to),
    {
        proof {
            use_type_invariant(&*self);
        }
        let mut feeds: Vec<Feed> = Vec::new();
        std::mem::swap(&mut feeds, &mut self.feeds);
        let ghost before = feeds.deep_view();
        let count = feeds.len();
        for i in 0..count
            invariant
                count == feeds.len(),
                feeds.len() == before.len(),
                forall|j: int|
                    0 <= j < i ==> (#[trigger] feeds.deep_view()[j]) == readdressed(
                        before,
                        from,
                        to,
                    )[j],
                forall|j: int| i <= j < feeds.len() ==> (#[trigger] feeds.deep_view()[j]) == before[j],
        {
            let ghost earlier = feeds.deep_view();
            assert(earlier[i as int] == before[i as int]);
            feeds[i].replace_subscriber(from, to);
            assert(feeds.deep_view() =~= earlier.update(i as int, feeds[i as int]@));
            assert(feeds.deep_view()[i as int] == readdressed(before, from, to)[i as int]);
            assert forall|j: int| 0 <= j < i + 1 implies (#[trigger] feeds.deep_view()[j])
                == readdressed(before, from, to)[j] by {
                if j < i {
                    assert(earlier[j] == readdressed(before, from, to)[j]);
                }
            }
        }
        assert(feeds.deep_view() =~= readdressed(before, from, to));
        self.feeds = feeds;
    }

    /// Takes the result of fetching the feed with this link: the feed is
    /// brought up to date, and the result says what is to be sent to whom.
    /// A link that is not watched leaves the store as it is and gives `None`.
    pub fn apply_fetch(&mut self, link: &str, fetched: Result<Document, FetchError>) -> (plan:
        Option<Dispatch>)
        ensures
            links_distinct(final(self)@),
            final(self)@ == polled(old(self)@, link@, fetched_view(fetched)),
            match find_feed(old(self)@, link@) {
                Some(at) => plan matches Some(dispatch) && dispatch@ == dispatch_after_fetch(
                    old(self)@[at],
                    fetched_view(fetched),
                ) && dispatch.recipients@.no_duplicates(),
                None => plan is None,
            },
    {
        proof {
            use_type_invariant(&*self);
        }
        let mut feeds: Vec<Feed> = Vec::new();
        std::mem::swap(&mut feeds, &mut self.feeds);
        let ghost before = feeds.deep_view();
        let plan = match locate(&feeds, link) {
            Some(at) => {
                let dispatch = fetch_feed_updates(&mut feeds[at], fetched);
                assert(feeds.deep_view() =~= before.update(at as int, feeds[at as int]@));
                Some(dispatch)
            },
            None => None,
        };
        self.feeds = feeds;
        plan
    }
}

} // verus!
