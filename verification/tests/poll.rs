use fetcher::feed::{Document, Feed, FetchError, Item, FAILURE_THRESHOLD};
use fetcher::poll::{fetch_feed_updates, FetchOutcome};

fn entry(id: u64) -> Item {
    Item { id, title: Some(format!("item {}", id)), link: Some(format!("http://e/{}", id)) }
}

fn document(link: &str, ids: &[u64]) -> Document {
    Document {
        title: "F".to_string(),
        link: link.to_string(),
        items: ids.iter().map(|id| entry(*id)).collect(),
    }
}

fn feed_with(link: &str, subscribers: &[i64], seen: &[u64]) -> Feed {
    let mut feed = Feed::from_document(link.to_string(), &document(link, seen));
    for s in subscribers {
        feed.add_subscriber(*s);
    }
    feed
}

fn sorted(mut ids: Vec<i64>) -> Vec<i64> {
    ids.sort();
    ids
}

#[test]
fn new_item_is_announced_to_every_subscriber() {
    let mut feed = feed_with("http://e/feed", &[10, 20], &[1, 2]);
    let plan = fetch_feed_updates(&mut feed, Ok(document("http://e/feed", &[1, 2, 3])));
    assert_eq!(plan.outcome, FetchOutcome::UpdatesDelivered);
    assert_eq!(plan.messages, vec!["<b>F</b>\nitem 3\nhttp://e/3".to_string()]);
    assert_eq!(sorted(plan.recipients), vec![10, 20]);
    assert!(plan.moved_to.is_none());
    assert!(feed.has_seen(3));
    assert_eq!(feed.error_count(), 0);
}

#[test]
fn nothing_new_sends_nothing() {
    let mut feed = feed_with("http://e/feed", &[10, 20], &[1, 2]);
    feed.record_failure();
    let plan = fetch_feed_updates(&mut feed, Ok(document("http://e/feed", &[2, 1])));
    assert_eq!(plan.outcome, FetchOutcome::NoUpdates);
    assert!(plan.messages.is_empty());
    assert!(plan.recipients.is_empty());
    assert!(plan.moved_to.is_none());
    assert_eq!(feed.error_count(), 0);
}

#[test]
fn empty_document_sends_nothing() {
    let mut feed = feed_with("http://e/feed", &[10], &[]);
    let plan = fetch_feed_updates(&mut feed, Ok(document("http://e/feed", &[])));
    assert_eq!(plan.outcome, FetchOutcome::NoUpdates);
    assert!(plan.messages.is_empty());
    assert!(plan.recipients.is_empty());
    assert_eq!(feed.error_count(), 0);
}

#[test]
fn failure_is_counted_and_sends_nothing() {
    let mut feed = feed_with("http://e/feed", &[10], &[1]);
    for n in 1..=3 {
        let plan =
            fetch_feed_updates(&mut feed, Err(FetchError::Network("timed out".to_string())));
        assert_eq!(plan.outcome, FetchOutcome::HandledFailure);
        assert!(plan.messages.is_empty());
        assert!(plan.recipients.is_empty());
        assert!(plan.moved_to.is_none());
        assert_eq!(feed.error_count(), n);
    }
    assert_eq!(feed.title(), "F");
    assert!(feed.has_seen(1));
    assert_eq!(feed.subscribers(), vec![10]);
}

#[test]
fn success_after_failures_clears_the_count() {
    let mut feed = feed_with("http://e/feed", &[10], &[1]);
    fetch_feed_updates(&mut feed, Err(FetchError::Parse("bad".to_string())));
    fetch_feed_updates(&mut feed, Err(FetchError::Parse("bad".to_string())));
    assert_eq!(feed.error_count(), 2);
    fetch_feed_updates(&mut feed, Ok(document("http://e/feed", &[1, 2])));
    assert_eq!(feed.error_count(), 0);
    fetch_feed_updates(&mut feed, Err(FetchError::Parse("bad".to_string())));
    assert_eq!(feed.error_count(), 1);
}

#[test]
fn dead_feed_notice_goes_out_once_at_the_crossing() {
    let mut feed = feed_with("http://g/feed", &[10, 20, 30], &[1]);
    for n in 1..=FAILURE_THRESHOLD {
        let plan =
            fetch_feed_updates(&mut feed, Err(FetchError::Network("timed out".to_string())));
        assert!(plan.messages.is_empty());
        assert!(plan.recipients.is_empty());
        assert_eq!(feed.error_count(), n);
    }
    let plan = fetch_feed_updates(&mut feed, Err(FetchError::Network("no <route>".to_string())));
    assert_eq!(plan.outcome, FetchOutcome::HandledFailure);
    assert_eq!(
        plan.messages,
        vec![
            "《<a href=\"http://g/feed\">F</a>》已经连续 5 天拉取出错 (no &lt;route&gt;),可能已经关闭, 请取消订阅"
                .to_string()
        ]
    );
    assert_eq!(sorted(plan.recipients), vec![10, 20, 30]);
    assert!(plan.moved_to.is_none());
    assert_eq!(feed.error_count(), 0);
    let next = fetch_feed_updates(&mut feed, Err(FetchError::Network("timed out".to_string())));
    assert!(next.messages.is_empty());
    assert_eq!(feed.error_count(), 1);
}

#[test]
fn document_title_replaces_the_feed_title() {
    let mut feed = Feed::new("http://e/feed".to_string(), "Old".to_string());
    feed.add_subscriber(1);
    let mut doc = document("http://e/feed", &[1]);
    doc.title = "New & shiny".to_string();
    let plan = fetch_feed_updates(&mut feed, Ok(doc));
    assert_eq!(feed.title(), "New & shiny");
    assert_eq!(plan.messages, vec!["<b>New &amp; shiny</b>\nitem 1\nhttp://e/1".to_string()]);
}

#[test]
fn title_changes_even_without_updates() {
    let mut feed = feed_with("http://e/feed", &[1], &[1]);
    let mut doc = document("http://e/feed", &[1]);
    doc.title = "Renamed".to_string();
    let plan = fetch_feed_updates(&mut feed, Ok(doc));
    assert_eq!(plan.outcome, FetchOutcome::NoUpdates);
    assert_eq!(feed.title(), "Renamed");
}

#[test]
fn items_without_title_or_link_use_the_feed() {
    let mut feed = feed_with("http://e/feed", &[1], &[]);
    let doc = Document {
        title: "F".to_string(),
        link: "http://e/feed".to_string(),
        items: vec![Item { id: 1, title: None, link: None }],
    };
    let plan = fetch_feed_updates(&mut feed, Ok(doc));
    assert_eq!(plan.messages, vec!["<b>F</b>\nF\nhttp://e/feed".to_string()]);
}

#[test]
fn document_under_another_link_goes_along_with_updates() {
    let mut feed = feed_with("http://old/feed", &[1], &[1]);
    let doc = document("http://new/feed", &[1, 2]);
    let plan = fetch_feed_updates(&mut feed, Ok(doc));
    assert_eq!(plan.outcome, FetchOutcome::UpdatesDelivered);
    assert_eq!(plan.moved_to, Some(document("http://new/feed", &[1, 2])));
    assert_eq!(plan.messages, vec!["<b>F</b>\nitem 2\nhttp://e/2".to_string()]);
    assert_eq!(feed.link(), "http://old/feed");
}

#[test]
fn document_under_another_link_without_updates_moves_nothing() {
    let mut feed = feed_with("http://old/feed", &[1], &[1]);
    let plan = fetch_feed_updates(&mut feed, Ok(document("http://new/feed", &[1])));
    assert_eq!(plan.outcome, FetchOutcome::NoUpdates);
    assert!(plan.moved_to.is_none());
}

#[test]
fn feed_without_subscribers_has_no_recipients() {
    let mut feed = feed_with("http://e/feed", &[], &[]);
    let plan = fetch_feed_updates(&mut feed, Ok(document("http://e/feed", &[1])));
    assert_eq!(plan.outcome, FetchOutcome::UpdatesDelivered);
    assert_eq!(plan.messages.len(), 1);
    assert!(plan.recipients.is_empty());
}
