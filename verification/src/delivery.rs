//! What the outcome of a delivery does to the subscriptions.

use vstd::prelude::*;
use crate::feed::{Document, DocumentView, FeedView};
use crate::store::{
    lemma_find_feed,
    links_distinct,
    readdressed,
    subscribed,
    unsubscribed,
    Store,
};
use crate::text::same_text;

verus! {

/// Why a message did not reach its recipient.
#[derive(Clone, Copy, Debug, PartialEq, Eq, Structural)]
pub enum DeliveryError {
    /// The recipient is gone for good: it has blocked the sender, was
    /// removed, or no longer exists.
    Unavailable,
    /// The recipient has moved to another address.
    Migrated(i64),
    /// Anything else, such as a failure that may pass.
    Other,
}

/// What the messaging service adds to the description of a failure.
#[derive(Clone, Copy, Debug, PartialEq, Eq, Structural)]
pub struct ResponseParameters {
    /// The address that the chat has moved to.
    pub migrate_to_chat_id: Option<i64>,
}

/// Whether `needle` occurs somewhere in `text`.
pub open spec fn occurs_in(needle: Seq<char>, text: Seq<char>) -> bool {
    exists|at: int|
        0 <= at <= text.len() - needle.len() && #[trigger] text.subrange(at, at + needle.len())
            == needle
}

/// `str::contains` with a text as the pattern: whether `needle` is a part of
/// `text`.
#[verifier::external_body]
fn contains_text(text: &str, needle: &str) -> (found: bool)
    ensures
        found == occurs_in(needle@, text@),
{
    text.contains(needle)
}

/// Whether the description of a failure says that the chat is gone for good:
/// the sender was blocked or removed, or the chat does not exist.
pub open spec fn says_unavailable(description: Seq<char>) -> bool {
    occurs_in("Forbidden"@, description) || occurs_in("chat not found"@, description)
}

/// Whether the description of a failure says that the chat is gone for good.
pub fn chat_is_unavailable(description: &str) -> (gone: bool)
    ensures
        gone == says_unavailable(description@),
{
    contains_text(description, "Forbidden") || contains_text(description, "chat not found")
}

/// The kind of a failure that the messaging service reports with this
/// description and these parameters. A failure without parameters whose
/// description says so is a recipient that is gone. Parameters that name a
/// new address are a recipient that has moved. Everything else may pass.
pub open spec fn failure_kind(
    description: Seq<char>,
    parameters: Option<ResponseParameters>,
) -> DeliveryError {
    match parameters {
        None => if says_unavailable(description) {
            DeliveryError::Unavailable
        } else {
            DeliveryError::Other
        },
        Some(parameters) => match parameters.migrate_to_chat_id {
            Some(to) => DeliveryError::Migrated(to),
            None => DeliveryError::Other,
        },
    }
}

/// Tells what kind of failure the messaging service has reported.
pub fn classify_failure(description: &str, parameters: Option<ResponseParameters>) -> (kind:
    DeliveryError)
    ensures
        kind == failure_kind(description@, parameters),
{
    match parameters {
        None => {
            if chat_is_unavailable(description) {
                DeliveryError::Unavailable
            } else {
                DeliveryError::Other
            }
        },
        Some(parameters) => match parameters.migrate_to_chat_id {
            Some(to) => DeliveryError::Migrated(to),
            None => DeliveryError::Other,
        },
    }
}

/// The feeds after the outcome of a delivery to `subscriber` for the feed
/// with this link. A recipient that is gone leaves that feed. A recipient
/// that has moved is known under its new address from then on. Any other
/// outcome changes nothing.
pub open spec fn after_outcome(
    feeds: Seq<FeedView>,
    link: Seq<char>,
    subscriber: i64,
    outcome: Result<(), DeliveryError>,
) -> Seq<FeedView> {
    match outcome {
        Err(DeliveryError::Unavailable) => unsubscribed(feeds, subscriber, link),
        Err(DeliveryError::Migrated(to)) => readdressed(feeds, subscriber, to),
        _ => feeds,
    }
}

/// The feeds after the subscription of `subscriber` to the feed with this
/// link has moved to the link that `document` names.
pub open spec fn subscription_moved(
    feeds: Seq<FeedView>,
    link: Seq<char>,
    subscriber: i64,
    document: DocumentView,
) -> Seq<FeedView> {
    subscribed(unsubscribed(feeds, subscriber, link), subscriber, document.link, document)
}

/// Whether the fetched document names another link than the feed's, so that
/// subscriptions move there.
pub open spec fn moves_subscription(link: Seq<char>, moved_to: Option<DocumentView>) -> bool {
    match moved_to {
        Some(document) => document.link != link,
        None => false,
    }
}

/// The feeds after a delivery to `subscriber` for the feed with this link
/// has been dealt with: first the outcome, then, where the fetched document
/// names another link than the feed's, the move of the subscription.
pub open spec fn after_delivery(
    feeds: Seq<FeedView>,
    link: Seq<char>,
    subscriber: i64,
    outcome: Result<(), DeliveryError>,
    moved_to: Option<DocumentView>,
) -> Seq<FeedView> {
    let handled = after_outcome(feeds, link, subscriber, outcome);
    if moves_subscription(link, moved_to) {
        subscription_moved(handled, link, subscriber, moved_to->0)
    } else {
        handled
    }
}

/// The address that the messages are to be sent to once more: the one that
/// the recipient has moved to.
pub open spec fn redelivery(outcome: Result<(), DeliveryError>) -> Option<i64> {
    match outcome {
        Err(DeliveryError::Migrated(to)) => Some(to),
        _ => None,
    }
}

/// What a borrowed document is in contracts.
pub open spec fn document_view(document: Option<&Document>) -> Option<DocumentView> {
    match document {
        Some(document) => Some(document@),
        None => None,
    }
}

/// Deals with the outcome of delivering the messages of the feed with this
/// link to `subscriber`, and says where the messages are to be sent once
/// more. `moved_to` is the fetched document where it names another link
/// than the feed's.
pub fn handle_delivery(
    store: &mut Store,
    link: &str,
    subscriber: i64,
    outcome: Result<(), DeliveryError>,
    moved_to: Option<&Document>,
) -> (redeliver_to: Option<i64>)
    ensures
        links_distinct(final(store)@),
        final(store)@ == after_delivery(
            old(store)@,
            link@,
            subscriber,
            outcome,
            document_view(moved_to),
        ),
        redeliver_to == redelivery(outcome),
{
    proof {
        use_type_invariant(&*store);
    }
    let redeliver_to = match outcome {
        Err(DeliveryError::Unavailable) => {
            store.unsubscribe(subscriber, link);
            None
        },
        Err(DeliveryError::Migrated(to)) => {
            store.update_subscriber(subscriber, to);
            Some(to)
        },
        Err(DeliveryError::Other) => None,
        Ok(()) => None,
    };
    match moved_to {
        Some(document) => {
            if !same_text(document.link.as_str(), link) {
                store.unsubscribe(subscriber, link);
                store.subscribe(subscriber, document.link.as_str(), document);
            }
        },
        None => {},
    }
    redeliver_to
}

/// A recipient that turns out to be gone is off the feed that the delivery
/// was for, whatever else happens, and every other feed keeps all of its
/// subscribers.
pub proof fn lemma_unavailable_leaves_one_feed(
    feeds: Seq<FeedView>,
    link: Seq<char>,
    subscriber: i64,
    moved_to: Option<DocumentView>,
)
    requires
        links_distinct(feeds),
    ensures
        ({
            let after = after_delivery(
                feeds,
                link,
                subscriber,
                Err(DeliveryError::Unavailable),
                moved_to,
            );
            &&& after.len() >= feeds.len()
            &&& forall|i: int|
                0 <= i < feeds.len() ==> (#[trigger] after[i]).link == feeds[i].link
            &&& forall|i: int|
                0 <= i < feeds.len() && feeds[i].link == link ==> !(#[trigger] after[i])
                    .subscribers.contains(subscriber)
            &&& forall|i: int|
                0 <= i < feeds.len() && feeds[i].link != link ==> feeds[i].subscribers.subset_of(
                    (#[trigger] after[i]).subscribers,
                )
        }),
{
    let handled = unsubscribed(feeds, subscriber, link);
    lemma_find_feed(feeds, link);
    match moved_to {
        Some(document) => {
            if document.link != link {
                lemma_find_feed(handled, link);
                let left = unsubscribed(handled, subscriber, link);
                lemma_find_feed(left, document.link);
            }
        },
        None => {},
    }
}

/// A subscriber that has moved to another address is on the feed under that
/// address from then on, and the messages that found it moved are sent to
/// the new address once more. Left out is the one case in which the new
/// address is the old one while the subscription itself moves to another
/// link.
pub proof fn lemma_migrated_is_followed(
    feeds: Seq<FeedView>,
    link: Seq<char>,
    subscriber: i64,
    to: i64,
    moved_to: Option<DocumentView>,
)
    requires
        links_distinct(feeds),
        to != subscriber || !moves_subscription(link, moved_to),
    ensures
        redelivery(Err(DeliveryError::Migrated(to))) == Some(to),
        ({
            let after = after_delivery(
                feeds,
                link,
                subscriber,
                Err(DeliveryError::Migrated(to)),
                moved_to,
            );
            forall|i: int|
                0 <= i < feeds.len() && feeds[i].link == link && feeds[i].subscribers.contains(
                    subscriber,
                ) ==> (#[trigger] after[i]).subscribers.contains(to) && (to != subscriber
                    ==> !after[i].subscribers.contains(subscriber))
        }),
{
    let handled = readdressed(feeds, subscriber, to);
    assert(links_distinct(handled));
    match moved_to {
        Some(document) => {
            if document.link != link {
                lemma_find_feed(handled, link);
                let left = unsubscribed(handled, subscriber, link);
                lemma_find_feed(left, document.link);
            }
        },
        None => {},
    }
}

} // verus!
