use fetcher::feed::{Document, FetchError, Item};
use fetcher::poll::FetchOutcome;
use fetcher::store::Store;

fn entry(id: u64) -> Item {
    Item { id, title: Some(format!("item {}", id)), link: Some(format!("http://e/{}", id)) }
}

fn document(title: &str, link: &str, ids: &[u64]) -> Document {
    Document {
        title: title.to_string(),
        link: link.to_string(),
        items: ids.iter().map(|id| entry(*id)).collect(),
    }
}

fn subscribers(store: &Store, link: &str) -> Vec<i64> {
    let mut ids = store.get_feed(link).unwrap().subscribers();
    ids.sort();
    ids
}

#[test]
fn new_store_has_no_feeds() {
    let store = Store::new();
    assert!(store.get_all_feeds().is_empty());
    assert!(store.get_feed("http://a/feed").is_none());
}

#[test]
fn first_subscription_starts_the_feed_from_the_document() {
    let mut store = Store::new();
    assert!(store.subscribe(1, "http://a/feed", &document("A", "http://a/feed", &[1, 2])));
    let feeds = store.get_all_feeds();
    assert_eq!(feeds.len(), 1);
    assert_eq!(feeds[0].link(), "http://a/feed");
    assert_eq!(feeds[0].title(), "A");
    assert_eq!(feeds[0].error_count(), 0);
    assert_eq!(feeds[0].subscribers(), vec![1]);
    assert!(feeds[0].has_seen(1) && feeds[0].has_seen(2) && !feeds[0].has_seen(3));
}

#[test]
fn later_subscription_joins_the_feed_as_it_is() {
    let mut store = Store::new();
    store.subscribe(1, "http://a/feed", &document("A", "http://a/feed", &[1]));
    assert!(store.subscribe(2, "http://a/feed", &document("Other", "http://a/feed", &[9])));
    assert!(!store.subscribe(2, "http://a/feed", &document("A", "http://a/feed", &[1])));
    let feeds = store.get_all_feeds();
    assert_eq!(feeds.len(), 1);
    assert_eq!(feeds[0].title(), "A");
    assert!(!feeds[0].has_seen(9));
    assert_eq!(subscribers(&store, "http://a/feed"), vec![1, 2]);
}

#[test]
fn feeds_come_in_the_order_of_their_first_subscription() {
    let mut store = Store::new();
    store.subscribe(1, "http://b/feed", &document("B", "http://b/feed", &[]));
    store.subscribe(1, "http://a/feed", &document("A", "http://a/feed", &[]));
    store.subscribe(2, "http://b/feed", &document("B", "http://b/feed", &[]));
    let links: Vec<String> =
        store.get_all_feeds().iter().map(|f| f.link().to_string()).collect();
    assert_eq!(links, vec!["http://b/feed", "http://a/feed"]);
}

#[test]
fn unsubscribing_leaves_other_feeds_alone() {
    let mut store = Store::new();
    store.subscribe(1, "http://a/feed", &document("A", "http://a/feed", &[]));
    store.subscribe(1, "http://b/feed", &document("B", "http://b/feed", &[]));
    store.subscribe(2, "http://a/feed", &document("A", "http://a/feed", &[]));
    assert!(store.unsubscribe(1, "http://a/feed"));
    assert!(!store.unsubscribe(1, "http://a/feed"));
    assert!(!store.unsubscribe(1, "http://nowhere/feed"));
    assert_eq!(subscribers(&store, "http://a/feed"), vec![2]);
    assert_eq!(subscribers(&store, "http://b/feed"), vec![1]);
}

#[test]
fn a_moved_subscriber_is_followed_in_every_feed() {
    let mut store = Store::new();
    store.subscribe(1, "http://a/feed", &document("A", "http://a/feed", &[]));
    store.subscribe(2, "http://a/feed", &document("A", "http://a/feed", &[]));
    store.subscribe(1, "http://b/feed", &document("B", "http://b/feed", &[]));
    store.subscribe(3, "http://c/feed", &document("C", "http://c/feed", &[]));
    store.update_subscriber(1, 100);
    assert_eq!(subscribers(&store, "http://a/feed"), vec![2, 100]);
    assert_eq!(subscribers(&store, "http://b/feed"), vec![100]);
    assert_eq!(subscribers(&store, "http://c/feed"), vec![3]);
    store.update_subscriber(2, 100);
    assert_eq!(subscribers(&store, "http://a/feed"), vec![100]);
}

#[test]
fn fetch_result_reaches_the_feed_with_that_link() {
    let mut store = Store::new();
    store.subscribe(1, "http://a/feed", &document("A", "http://a/feed", &[1]));
    store.subscribe(2, "http://b/feed", &document("B", "http://b/feed", &[1]));
    let plan = store
        .apply_fetch("http://b/feed", Ok(document("B", "http://b/feed", &[1, 2])))
        .unwrap();
    assert_eq!(plan.outcome, FetchOutcome::UpdatesDelivered);
    assert_eq!(plan.messages, vec!["<b>B</b>\nitem 2\nhttp://e/2".to_string()]);
    assert_eq!(plan.recipients, vec![2]);
    assert!(store.get_feed("http://b/feed").unwrap().has_seen(2));
    assert!(!store.get_feed("http://a/feed").unwrap().has_seen(2));
}

#[test]
fn fetch_failure_is_counted_on_that_feed_only() {
    let mut store = Store::new();
    store.subscribe(1, "http://a/feed", &document("A", "http://a/feed", &[1]));
    store.subscribe(2, "http://b/feed", &document("B", "http://b/feed", &[1]));
    let plan =
        store.apply_fetch("http://a/feed", Err(FetchError::Network("down".to_string()))).unwrap();
    assert_eq!(plan.outcome, FetchOutcome::HandledFailure);
    assert!(plan.messages.is_empty());
    assert_eq!(store.get_feed("http://a/feed").unwrap().error_count(), 1);
    assert_eq!(store.get_feed("http://b/feed").unwrap().error_count(), 0);
}

#[test]
fn fetch_result_for_an_unknown_link_changes_nothing() {
    let mut store = Store::new();
    store.subscribe(1, "http://a/feed", &document("A", "http://a/feed", &[1]));
    assert!(store
        .apply_fetch("http://nowhere/feed", Ok(document("N", "http://nowhere/feed", &[5])))
        .is_none());
    assert!(store
        .apply_fetch("http://nowhere/feed", Err(FetchError::Parse("bad".to_string())))
        .is_none());
    let feeds = store.get_all_feeds();
    assert_eq!(feeds.len(), 1);
    assert_eq!(feeds[0].error_count(), 0);
    assert!(!feeds[0].has_seen(5));
}
