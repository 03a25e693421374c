//! Feeds, the documents fetched for them, and what a feed remembers from one
//! poll to the next.

use vstd::prelude::*;
use vstd::string::*;

verus! {

/// How many consecutive failed fetches a feed may have before its
/// subscribers are told that it is probably dead: five days of polls that
/// are five minutes apart.
pub const FAILURE_THRESHOLD: u32 = 1440;

/// One entry of a fetched document.
#[derive(Debug, PartialEq, Eq)]
pub struct Item {
    /// The identity by which an entry is recognised from one fetch to the
    /// next.
    pub id: u64,
    pub title: Option<String>,
    pub link: Option<String>,
}

/// What an [`Item`] is in contracts.
pub struct ItemView {
    pub id: u64,
    pub title: Option<Seq<char>>,
    pub link: Option<Seq<char>>,
}

/// The text of an optional string.
pub open spec fn text_of(s: Option<String>) -> Option<Seq<char>> {
    match s {
        Some(t) => Some(t@),
        None => None,
    }
}

impl View for Item {
    type V = ItemView;

    open spec fn view(&self) -> ItemView {
        ItemView { id: self.id, title: text_of(self.title), link: text_of(self.link) }
    }
}

impl DeepView for Item {
    type V = ItemView;

    open spec fn deep_view(&self) -> ItemView {
        self.view()
    }
}

impl Clone for Item {
    fn clone(&self) -> (copy: Self)
        ensures
            copy@ == self@,
    {
        Item { id: self.id, title: self.title.clone(), link: self.link.clone() }
    }
}

/// A fetched and parsed feed document.
#[derive(Debug, PartialEq, Eq)]
pub struct Document {
    pub title: String,
    /// The link under which the document says the feed lives.
    pub link: String,
    pub items: Vec<Item>,
}

/// What a [`Document`] is in contracts.
pub struct DocumentView {
    pub title: Seq<char>,
    pub link: Seq<char>,
    pub items: Seq<ItemView>,
}

impl View for Document {
    type V = DocumentView;

    open spec fn view(&self) -> DocumentView {
        DocumentView { title: self.title@, link: self.link@, items: self.items.deep_view() }
    }
}

impl DeepView for Document {
    type V = DocumentView;

    open spec fn deep_view(&self) -> DocumentView {
        self.view()
    }
}

/// A copy of `items`.
pub fn copy_items(items: &Vec<Item>) -> (copy: Vec<Item>)
    ensures
        copy.deep_view() == items.deep_view(),
{
    let mut copy: Vec<Item> = Vec::new();
    for i in 0..items.len()
        invariant
            copy.deep_view() == items.deep_view().take(i as int),
    {
        let ghost earlier = copy.deep_view();
        let item = items[i].clone();
        copy.push(item);
        assert(copy.deep_view() =~= earlier.push(item@));
        assert(items.deep_view().take(i + 1) =~= items.deep_view().take(i as int).push(
            items[i as int]@,
        ));
    }
    assert(items.deep_view().take(items.len() as int) =~= items.deep_view());
    copy
}

impl Clone for Document {
    fn clone(&self) -> (copy: Self)
        ensures
            copy@ == self@,
    {
        Document {
            title: self.title.clone(),
            link: self.link.clone(),
            items: copy_items(&self.items),
        }
    }
}

/// Why a fetch failed, with a description fit for a reader.
#[derive(Debug, PartialEq, Eq)]
pub enum FetchError {
    /// The document could not be retrieved.
    Network(String),
    /// What was retrieved is no feed document.
    Parse(String),
}

impl FetchError {
    /// The description that the error carries.
    pub open spec fn reason(self) -> Seq<char> {
        match self {
            FetchError::Network(text) => text@,
            FetchError::Parse(text) => text@,
        }
    }

    /// The description that the error carries.
    pub fn description(&self) -> (text: &str)
        ensures
            text@ == self.reason(),
    {
        match self {
            FetchError::Network(text) => text.as_str(),
            FetchError::Parse(text) => text.as_str(),
        }
    }
}

/// The id of an item.
pub open spec fn item_id() -> spec_fn(ItemView) -> u64 {
    |item: ItemView| item.id
}

/// The ids of `items`.
pub open spec fn ids_of(items: Seq<ItemView>) -> Set<u64> {
    items.map_values(item_id()).to_set()
}

/// Whether `seen` does not hold the id of an item.
pub open spec fn is_unseen(seen: Set<u64>) -> spec_fn(ItemView) -> bool {
    |item: ItemView| !seen.contains(item.id)
}

/// The items whose id is not in `seen`, in their order.
pub open spec fn unseen(items: Seq<ItemView>, seen: Set<u64>) -> Seq<ItemView> {
    items.filter(is_unseen(seen))
}

/// Whether one more failure after `count` consecutive ones goes past the
/// threshold.
pub open spec fn crosses_threshold(count: nat) -> bool {
    count + 1 > FAILURE_THRESHOLD
}

/// The failure counter after one more failure: one more, or zero again where
/// the threshold was crossed.
pub open spec fn count_after_failure(count: nat) -> nat {
    if crosses_threshold(count) {
        0
    } else {
        count + 1
    }
}

/// A subscribed feed: its link and title, who subscribes to it, how often in
/// a row its fetch has failed, and which items it has seen.
#[derive(Debug)]
pub struct Feed {
    link: String,
    title: String,
    error_count: u32,
    subscribers: Vec<i64>,
    seen: Vec<u64>,
}

/// What a [`Feed`] is in contracts.
pub struct FeedView {
    pub link: Seq<char>,
    pub title: Seq<char>,
    pub error_count: nat,
    pub subscribers: Set<i64>,
    pub seen: Set<u64>,
}

impl View for Feed {
    type V = FeedView;

    closed spec fn view(&self) -> FeedView {
        FeedView {
            link: self.link@,
            title: self.title@,
            error_count: self.error_count as nat,
            subscribers: self.subscribers@.to_set(),
            seen: self.seen@.to_set(),
        }
    }
}

impl DeepView for Feed {
    type V = FeedView;

    open spec fn deep_view(&self) -> FeedView {
        self.view()
    }
}

/// A sequence without duplicates stays one when it gets an element that it
/// did not hold.
proof fn lemma_push_distinct<T>(s: Seq<T>, x: T)
    requires
        s.no_duplicates(),
        !s.contains(x),
    ensures
        s.push(x).no_duplicates(),
        s.push(x).to_set() == s.to_set().insert(x),
{
    s.lemma_push_to_set_commute(x);
    assert forall|i: int, j: int|
        0 <= i < s.push(x).len() && 0 <= j < s.push(x).len() && i != j implies s.push(x)[i]
        != s.push(x)[j] by {
        if i < s.len() {
            assert(s.contains(s[i]));
        }
        if j < s.len() {
            assert(s.contains(s[j]));
        }
    }
}

/// A sequence without duplicates stays one when an element is taken out, and
/// then no longer holds that element.
proof fn lemma_remove_distinct<T>(s: Seq<T>, at: int)
    requires
        s.no_duplicates(),
        0 <= at < s.len(),
    ensures
        s.remove(at).no_duplicates(),
        s.remove(at).to_set() == s.to_set().remove(s[at]),
{
    let r = s.remove(at);
    assert forall|x: T| r.to_set().contains(x) <==> s.to_set().remove(s[at]).contains(x) by {
        if r.contains(x) {
            let i = choose|i: int| 0 <= i < r.len() && r[i] == x;
            if i < at {
                assert(s[i] == x);
            } else {
                assert(s[i + 1] == x);
            }
        }
        if s.contains(x) && x != s[at] {
            let i = choose|i: int| 0 <= i < s.len() && s[i] == x;
            if i < at {
                assert(r[i] == x);
            } else {
                assert(r[i - 1] == x);
            }
        }
    }
    assert(r.to_set() =~= s.to_set().remove(s[at]));
}

/// The items that had not been seen bring every id that was not yet seen.
proof fn lemma_unseen_ids(items: Seq<ItemView>, seen: Set<u64>)
    ensures
        seen.union(ids_of(unseen(items, seen))) == seen.union(ids_of(items)),
    decreases items.len(),
{
    let id_of = item_id();
    if items.len() == 0 {
        assert(unseen(items, seen) =~= items);
    } else {
        let init = items.drop_last();
        let last = items.last();
        lemma_unseen_ids(init, seen);
        assert(items =~= init.push(last));
        init.lemma_filter_push(last, is_unseen(seen));
        init.lemma_push_map_commute(id_of, last);
        init.map_values(id_of).lemma_push_to_set_commute(id_of(last));
        assert(ids_of(items) == ids_of(init).insert(last.id));
        if !seen.contains(last.id) {
            assert(is_unseen(seen)(last));
            assert(unseen(items, seen) == unseen(init, seen).push(last));
            unseen(init, seen).lemma_push_map_commute(id_of, last);
            unseen(init, seen).map_values(id_of).lemma_push_to_set_commute(id_of(last));
            assert(ids_of(unseen(items, seen)) == ids_of(unseen(init, seen)).insert(last.id));
            assert(seen.union(ids_of(unseen(items, seen))) =~= seen.union(
                ids_of(unseen(init, seen)),
            ).insert(last.id));
            assert(seen.union(ids_of(items)) =~= seen.union(ids_of(init)).insert(last.id));
        } else {
            assert(!is_unseen(seen)(last));
            assert(unseen(items, seen) == unseen(init, seen));
            assert(seen.union(ids_of(items)) =~= seen.union(ids_of(init)));
        }
    }
}

/// Where `id` stands in `ids`.
fn position_of(ids: &Vec<i64>, id: i64) -> (at: Option<usize>)
    ensures
        match at {
            Some(i) => i < ids.len() && ids[i as int] == id,
            None => !ids@.contains(id),
        },
{
    let mut i: usize = 0;
    while i < ids.len()
        invariant
            i <= ids.len(),
            forall|j: int| 0 <= j < i ==> ids[j] != id,
        decreases ids.len() - i,
    {
        if ids[i] == id {
            return Some(i);
        }
        i += 1;
    }
    None
}

/// Whether `id` is among `seen`.
fn is_among(seen: &Vec<u64>, id: u64) -> (found: bool)
    ensures
        found == seen@.contains(id),
{
    let mut i: usize = 0;
    while i < seen.len()
        invariant
            i <= seen.len(),
            forall|j: int| 0 <= j < i ==> seen[j] != id,
        decreases seen.len() - i,
    {
        if seen[i] == id {
            return true;
        }
        i += 1;
    }
    false
}

/// Adds the ids of `items` to `seen`, each once.
fn remember(seen: &mut Vec<u64>, items: &Vec<Item>)
    requires
        old(seen)@.no_duplicates(),
    ensures
        final(seen)@.no_duplicates(),
        final(seen)@.to_set() == old(seen)@.to_set().union(ids_of(items.deep_view())),
{
    let ghost ids = items.deep_view().map_values(item_id());
    for i in 0..items.len()
        invariant
            ids == items.deep_view().map_values(item_id()),
            seen@.no_duplicates(),
            seen@.to_set() == old(seen)@.to_set().union(ids.take(i as int).to_set()),
    {
        let id = items[i].id;
        proof {
            ids.lemma_take_succ_push(i as int);
            ids.take(i as int).lemma_push_to_set_commute(id);
        }
        if !is_among(seen, id) {
            proof {
                lemma_push_distinct(seen@, id);
            }
            seen.push(id);
        }
        assert(seen@.to_set() =~= old(seen)@.to_set().union(ids.take(i + 1).to_set()));
    }
    assert(ids.take(items.len() as int) =~= ids);
}

impl Feed {
    #[verifier::type_invariant]
    spec fn distinct(self) -> bool {
        self.subscribers@.no_duplicates() && self.seen@.no_duplicates()
    }

    /// A feed without subscribers that has seen nothing and never failed.
    pub fn new(link: String, title: String) -> (feed: Feed)
        ensures
            feed@ == (FeedView {
                link: link@,
                title: title@,
                error_count: 0,
                subscribers: Set::empty(),
                seen: Set::empty(),
            }),
    {
        let feed = Feed { link, title, error_count: 0, subscribers: Vec::new(), seen: Vec::new() };
        assert(feed.subscribers@.to_set() =~= Set::<i64>::empty());
        assert(feed.seen@.to_set() =~= Set::<u64>::empty());
        feed
    }

    /// A feed under `link` that starts from an already fetched document: it
    /// has the document's title and has seen the document's items.
    pub fn from_document(link: String, document: &Document) -> (feed: Feed)
        ensures
            feed@ == (FeedView {
                link: link@,
                title: document@.title,
                error_count: 0,
                subscribers: Set::empty(),
                seen: ids_of(document@.items),
            }),
    {
        let mut seen: Vec<u64> = Vec::new();
        remember(&mut seen, &document.items);
        let feed = Feed {
            link,
            title: document.title.clone(),
            error_count: 0,
            subscribers: Vec::new(),
            seen,
        };
        assert(feed.subscribers@.to_set() =~= Set::<i64>::empty());
        assert(feed.seen@.to_set() =~= ids_of(document@.items));
        feed
    }

    /// The link that identifies the feed.
    pub fn link(&self) -> (link: &str)
        ensures
            link@ == self@.link,
    {
        self.link.as_str()
    }

    /// The title that the feed was last seen with.
    pub fn title(&self) -> (title: &str)
        ensures
            title@ == self@.title,
    {
        self.title.as_str()
    }

    /// How many fetches in a row have failed.
    pub fn error_count(&self) -> (count: u32)
        ensures
            count == self@.error_count,
    {
        self.error_count
    }

    /// The subscribers, each once, in no particular order.
    pub fn subscribers(&self) -> (ids: Vec<i64>)
        ensures
            ids@.no_duplicates(),
            ids@.to_set() == self@.subscribers,
    {
        proof {
            use_type_invariant(self);
        }
        self.subscribers.clone()
    }

    /// Whether `subscriber` subscribes to the feed.
    pub fn is_subscribed(&self, subscriber: i64) -> (found: bool)
        ensures
            found == self@.subscribers.contains(subscriber),
    {
        position_of(&self.subscribers, subscriber).is_some()
    }

    /// Whether the feed has seen an item with this id.
    pub fn has_seen(&self, id: u64) -> (found: bool)
        ensures
            found == self@.seen.contains(id),
    {
        is_among(&self.seen, id)
    }

    /// Gives the feed a new title.
    pub fn set_title(&mut self, title: String)
        ensures
            final(self)@ == (FeedView { title: title@, ..old(self)@ }),
    {
        proof {
            use_type_invariant(&*self);
        }
        self.title = title;
    }

    /// Counts one more failed fetch. Where that goes past the threshold the
    /// counter starts again at zero and the result is `true`: the
    /// subscribers are due a notice.
    pub fn record_failure(&mut self) -> (crossed: bool)
        ensures
            crossed == crosses_threshold(old(self)@.error_count),
            final(self)@ == (FeedView {
                error_count: count_after_failure(old(self)@.error_count),
                ..old(self)@
            }),
    {
        proof {
            use_type_invariant(&*self);
        }
        if self.error_count >= FAILURE_THRESHOLD {
            self.error_count = 0;
            true
        } else {
            self.error_count = self.error_count + 1;
            false
        }
    }

    /// Notes a fetch that succeeded: no failure is counted any more.
    pub fn record_success(&mut self)
        ensures
            final(self)@ == (FeedView { error_count: 0, ..old(self)@ }),
    {
        proof {
            use_type_invariant(&*self);
        }
        self.error_count = 0;
    }

    /// Takes the items of a fetched document and hands back those that the
    /// feed had not seen, in their order. After the call the feed has seen
    /// them all.
    pub fn take_updates(&mut self, items: Vec<Item>) -> (updates: Vec<Item>)
        ensures
            updates.deep_view() == unseen(items.deep_view(), old(self)@.seen),
            final(self)@ == (FeedView {
                seen: old(self)@.seen.union(ids_of(items.deep_view())),
                ..old(self)@
            }),
    {
        proof {
            use_type_invariant(&*self);
        }
        let ghost before = self.seen@.to_set();
        let ghost all = items.deep_view();
        let mut updates: Vec<Item> = Vec::new();
        for item in it: items
            invariant
                it.seq() == items@,
                all == items.deep_view(),
                before == self.seen@.to_set(),
                updates.deep_view() == unseen(all.take(it.index()), before),
        {
            proof {
                all.lemma_take_succ_push(it.index());
                all.take(it.index()).lemma_filter_push(item@, is_unseen(before));
            }
            let ghost earlier = updates.deep_view();
            if !is_among(&self.seen, item.id) {
                updates.push(item);
                assert(updates.deep_view() =~= earlier.push(item@));
            }
        }
        assert(all.take(all.len() as int) =~= all);
        let mut seen: Vec<u64> = Vec::new();
        std::mem::swap(&mut seen, &mut self.seen);
        remember(&mut seen, &updates);
        self.seen = seen;
        proof {
            lemma_unseen_ids(all, before);
        }
        updates
    }

    /// Subscribes `subscriber`. The result says whether that was new.
    pub fn add_subscriber(&mut self, subscriber: i64) -> (added: bool)
        ensures
            added == !old(self)@.subscribers.contains(subscriber),
            final(self)@ == (FeedView {
                subscribers: old(self)@.subscribers.insert(subscriber),
                ..old(self)@
            }),
    {
        proof {
            use_type_invariant(&*self);
        }
        match position_of(&self.subscribers, subscriber) {
            Some(_) => {
                assert(self.subscribers@.to_set() =~= self.subscribers@.to_set().insert(
                    subscriber,
                ));
                false
            },
            None => {
                let mut subscribers = Vec::new();
                std::mem::swap(&mut subscribers, &mut self.subscribers);
                proof {
                    lemma_push_distinct(subscribers@, subscriber);
                }
                subscribers.push(subscriber);
                self.subscribers = subscribers;
                true
            },
        }
    }

    /// Takes `subscriber` off the feed. The result says whether it was on it.
    pub fn remove_subscriber(&mut self, subscriber: i64) -> (removed: bool)
        ensures
            removed == old(self)@.subscribers.contains(subscriber),
            final(self)@ == (FeedView {
                subscribers: old(self)@.subscribers.remove(subscriber),
                ..old(self)@
            }),
    {
        proof {
            use_type_invariant(&*self);
        }
        match position_of(&self.subscribers, subscriber) {
            Some(at) => {
                let mut subscribers = Vec::new();
                std::mem::swap(&mut subscribers, &mut self.subscribers);
                proof {
                    lemma_remove_distinct(subscribers@, at as int);
                }
                subscribers.remove(at);
                self.subscribers = subscribers;
                true
            },
            None => {
                assert(self.subscribers@.to_set() =~= self.subscribers@.to_set().remove(
                    subscriber,
                ));
                false
            },
        }
    }

    /// Puts the address `to` in the place of the subscriber `from`, who has
    /// moved there. A feed that `from` does not subscribe to stays as it is.
    pub fn replace_subscriber(&mut self, from: i64, to: i64) -> (replaced: bool)
        ensures
            replaced == old(self)@.subscribers.contains(from),
            final(self)@ == (FeedView {
                subscribers: moved(old(self)@.subscribers, from, to),
                ..old(self)@
            }),
    {
        if self.remove_subscriber(from) {
            self.add_subscriber(to);
            true
        } else {
            assert(old(self)@.subscribers.remove(from) =~= old(self)@.subscribers);
            false
        }
    }
}

/// The subscribers after the one at `from` has moved to `to`.
pub open spec fn moved(subscribers: Set<i64>, from: i64, to: i64) -> Set<i64> {
    if subscribers.contains(from) {
        subscribers.remove(from).insert(to)
    } else {
        subscribers
    }
}

impl Clone for Feed {
    fn clone(&self) -> (copy: Self)
        ensures
            copy@ == self@,
    {
        proof {
            use_type_invariant(self);
        }
        Feed {
            link: self.link.clone(),
            title: self.title.clone(),
            error_count: self.error_count,
            subscribers: self.subscribers.clone(),
            seen: self.seen.clone(),
        }
    }
}

} // verus!
