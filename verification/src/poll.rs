//! What one poll of one feed leads to: the feed's new state and what is to
//! be sent to whom.

use vstd::prelude::*;
use vstd::string::*;
use crate::feed::{
    count_after_failure,
    crosses_threshold,
    ids_of,
    is_unseen,
    item_id,
    unseen,
    Document,
    DocumentView,
    Feed,
    FeedView,
    FetchError,
    FAILURE_THRESHOLD,
};
use crate::message::{dead_feed_notice, format_dead_feed_notice, format_updates, update_messages};
use crate::text::same_text;

verus! {

/// How the poll of a feed ended.
#[derive(Clone, Copy, Debug, PartialEq, Eq, Structural)]
pub enum FetchOutcome {
    /// The document held items that the feed had not seen: the subscribers
    /// are to be told.
    UpdatesDelivered,
    /// The document held nothing new.
    NoUpdates,
    /// The fetch failed, and the failure has been counted.
    HandledFailure,
}

/// What is to be done after the poll of a feed.
#[derive(Debug)]
pub struct Dispatch {
    pub outcome: FetchOutcome,
    /// The messages that each recipient is to get, in this order.
    pub messages: Vec<String>,
    /// Who is to get the messages: each subscriber once.
    pub recipients: Vec<i64>,
    /// The fetched document, where it names another link than the feed's as
    /// its own: each recipient's subscription is to move there.
    pub moved_to: Option<Document>,
}

/// What a [`Dispatch`] is in contracts.
pub struct DispatchView {
    pub outcome: FetchOutcome,
    pub messages: Seq<Seq<char>>,
    pub recipients: Set<i64>,
    pub moved_to: Option<DocumentView>,
}

impl View for Dispatch {
    type V = DispatchView;

    open spec fn view(&self) -> DispatchView {
        DispatchView {
            outcome: self.outcome,
            messages: self.messages.deep_view(),
            recipients: self.recipients@.to_set(),
            moved_to: match self.moved_to {
                Some(document) => Some(document@),
                None => None,
            },
        }
    }
}

/// What came back from a fetch, as contracts see it: the document, or the
/// description of what went wrong.
pub open spec fn fetched_view(fetched: Result<Document, FetchError>) -> Result<
    DocumentView,
    Seq<char>,
> {
    match fetched {
        Ok(document) => Ok(document@),
        Err(error) => Err(error.reason()),
    }
}

/// The feed after a poll. A failure is counted. A success clears the count,
/// brings the document's title, and leaves every item of the document seen.
pub open spec fn feed_after_fetch(feed: FeedView, fetched: Result<DocumentView, Seq<char>>) -> FeedView {
    match fetched {
        Ok(document) => FeedView {
            title: document.title,
            error_count: 0,
            seen: feed.seen.union(ids_of(document.items)),
            ..feed
        },
        Err(_) => FeedView { error_count: count_after_failure(feed.error_count), ..feed },
    }
}

/// What is to be done after a poll. Nothing is sent after a failure short of
/// the threshold, nor after a document without new items. The failure that
/// crosses the threshold sends the notice that the feed is probably dead. New
/// items are announced under the document's title, and where the document
/// names another link than the feed's it goes along.
pub open spec fn dispatch_after_fetch(
    feed: FeedView,
    fetched: Result<DocumentView, Seq<char>>,
) -> DispatchView {
    match fetched {
        Ok(document) => {
            let updates = unseen(document.items, feed.seen);
            if updates.len() == 0 {
                DispatchView {
                    outcome: FetchOutcome::NoUpdates,
                    messages: Seq::empty(),
                    recipients: Set::empty(),
                    moved_to: None,
                }
            } else {
                DispatchView {
                    outcome: FetchOutcome::UpdatesDelivered,
                    messages: update_messages(document.title, feed.link, updates),
                    recipients: feed.subscribers,
                    moved_to: if document.link != feed.link {
                        Some(document)
                    } else {
                        None
                    },
                }
            }
        },
        Err(reason) => {
            if crosses_threshold(feed.error_count) {
                DispatchView {
                    outcome: FetchOutcome::HandledFailure,
                    messages: seq![dead_feed_notice(feed.link, feed.title, reason)],
                    recipients: feed.subscribers,
                    moved_to: None,
                }
            } else {
                DispatchView {
                    outcome: FetchOutcome::HandledFailure,
                    messages: Seq::empty(),
                    recipients: Set::empty(),
                    moved_to: None,
                }
            }
        },
    }
}

/// A dispatch that sends nothing.
fn nothing_to_send(outcome: FetchOutcome) -> (plan: Dispatch)
    ensures
        plan@ == (DispatchView {
            outcome,
            messages: Seq::empty(),
            recipients: Set::empty(),
            moved_to: None,
        }),
        plan.recipients@.no_duplicates(),
{
    let plan = Dispatch { outcome, messages: Vec::new(), recipients: Vec::new(), moved_to: None };
    assert(plan.messages.deep_view() =~= Seq::<Seq<char>>::empty());
    assert(plan.recipients@.to_set() =~= Set::<i64>::empty());
    plan
}

/// Takes the result of fetching `feed` and decides what follows: it brings
/// the feed up to date and says what is to be sent to whom.
pub fn fetch_feed_updates(feed: &mut Feed, fetched: Result<Document, FetchError>) -> (plan:
    Dispatch)
    ensures
        final(feed)@ == feed_after_fetch(old(feed)@, fetched_view(fetched)),
        plan@ == dispatch_after_fetch(old(feed)@, fetched_view(fetched)),
        plan.recipients@.no_duplicates(),
{
    match fetched {
        Err(error) => {
            if feed.record_failure() {
                let notice = format_dead_feed_notice(
                    feed.link(),
                    feed.title(),
                    error.description(),
                );
                let mut messages: Vec<String> = Vec::new();
                messages.push(notice);
                assert(messages.deep_view() =~= seq![notice@]);
                Dispatch {
                    outcome: FetchOutcome::HandledFailure,
                    messages,
                    recipients: feed.subscribers(),
                    moved_to: None,
                }
            } else {
                nothing_to_send(FetchOutcome::HandledFailure)
            }
        },
        Ok(document) => {
            let moved = !same_text(document.link.as_str(), feed.link());
            let kept = if moved {
                Some(document.clone())
            } else {
                None
            };
            let Document { title, link: _, items } = document;
            feed.record_success();
            feed.set_title(title);
            let updates = feed.take_updates(items);
            if updates.len() == 0 {
                nothing_to_send(FetchOutcome::NoUpdates)
            } else {
                Dispatch {
                    outcome: FetchOutcome::UpdatesDelivered,
                    messages: format_updates(feed.title(), feed.link(), &updates),
                    recipients: feed.subscribers(),
                    moved_to: kept,
                }
            }
        },
    }
}

/// The feed after one failed poll for each of `reasons`, in a row.
pub open spec fn after_failures(feed: FeedView, reasons: Seq<Seq<char>>) -> FeedView
    decreases reasons.len(),
{
    if reasons.len() == 0 {
        feed
    } else {
        feed_after_fetch(after_failures(feed, reasons.drop_last()), Err(reasons.last()))
    }
}

/// A document without new items sends nothing to anybody, and the feed's
/// failure count is zero afterwards.
pub proof fn lemma_no_updates_no_message(feed: FeedView, document: DocumentView)
    requires
        unseen(document.items, feed.seen).len() == 0,
    ensures
        dispatch_after_fetch(feed, Ok(document)).messages.len() == 0,
        dispatch_after_fetch(feed, Ok(document)).recipients == Set::<i64>::empty(),
        dispatch_after_fetch(feed, Ok(document)).outcome == FetchOutcome::NoUpdates,
        feed_after_fetch(feed, Ok(document)).error_count == 0,
{
}

/// A document that has been taken in announces nothing when it comes again:
/// all of its items have been seen.
pub proof fn lemma_same_document_is_not_announced_twice(feed: FeedView, document: DocumentView)
    ensures
        dispatch_after_fetch(feed_after_fetch(feed, Ok(document)), Ok(document)).outcome
            == FetchOutcome::NoUpdates,
        dispatch_after_fetch(feed_after_fetch(feed, Ok(document)), Ok(document)).messages.len()
            == 0,
{
    let items = document.items;
    let seen = feed_after_fetch(feed, Ok(document)).seen;
    let ids = items.map_values(item_id());
    assert forall|i: int| 0 <= i < items.len() implies !is_unseen(seen)(#[trigger] items[i]) by {
        assert(ids[i] == items[i].id);
        assert(ids.contains(ids[i]));
    }
    items.lemma_all_neg_filter_empty(is_unseen(seen));
}

/// Short of the threshold every failed poll adds one to the failure count,
/// and whatever the count was, a poll that succeeds leaves it at zero.
pub proof fn lemma_failure_count_steps(feed: FeedView, reason: Seq<char>, document: DocumentView)
    ensures
        feed.error_count < FAILURE_THRESHOLD ==> feed_after_fetch(feed, Err(reason)).error_count
            == feed.error_count + 1,
        feed_after_fetch(feed, Ok(document)).error_count == 0,
        feed_after_fetch(feed_after_fetch(feed, Err(reason)), Ok(document)).error_count == 0,
{
}

/// Failures alone change nothing of a feed but its failure count, and up to
/// the threshold the count is the number of failures in a row.
pub proof fn lemma_failures_in_a_row(feed: FeedView, reasons: Seq<Seq<char>>)
    requires
        feed.error_count + reasons.len() <= FAILURE_THRESHOLD,
    ensures
        after_failures(feed, reasons) == (FeedView {
            error_count: feed.error_count + reasons.len(),
            ..feed
        }),
    decreases reasons.len(),
{
    if reasons.len() > 0 {
        lemma_failures_in_a_row(feed, reasons.drop_last());
    }
}

/// A feed that fails one time more than the threshold allows, counted from
/// zero: none of the failures before the last sends anything, the last one
/// sends the one notice that the feed is probably dead to each subscriber,
/// and the count is zero again right after it.
pub proof fn lemma_threshold_crossing(feed: FeedView, reasons: Seq<Seq<char>>)
    requires
        feed.error_count == 0,
        reasons.len() == FAILURE_THRESHOLD + 1,
    ensures
        forall|k: int|
            0 <= k < FAILURE_THRESHOLD ==> (#[trigger] dispatch_after_fetch(
                after_failures(feed, reasons.take(k)),
                Err(reasons[k]),
            )).messages.len() == 0,
        dispatch_after_fetch(
            after_failures(feed, reasons.drop_last()),
            Err(reasons.last()),
        ).messages == seq![dead_feed_notice(feed.link, feed.title, reasons.last())],
        dispatch_after_fetch(
            after_failures(feed, reasons.drop_last()),
            Err(reasons.last()),
        ).recipients == feed.subscribers,
        after_failures(feed, reasons).error_count == 0,
{
    assert forall|k: int| 0 <= k < FAILURE_THRESHOLD implies (#[trigger] dispatch_after_fetch(
        after_failures(feed, reasons.take(k)),
        Err(reasons[k]),
    )).messages.len() == 0 by {
        lemma_failures_in_a_row(feed, reasons.take(k));
    }
    lemma_failures_in_a_row(feed, reasons.drop_last());
}

} // verus!
