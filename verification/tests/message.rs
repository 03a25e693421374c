use fetcher::feed::Item;
use fetcher::message::{
    format_and_split_msgs, format_dead_feed_notice, format_header, format_item, format_updates,
    MAX_HEADER_TITLE_LEN, MAX_MSG_LEN,
};

fn strings(items: &[&str]) -> Vec<String> {
    items.iter().map(|s| s.to_string()).collect()
}

fn item(id: u64, title: Option<&str>, link: Option<&str>) -> Item {
    Item { id, title: title.map(|s| s.to_string()), link: link.map(|s| s.to_string()) }
}

#[test]
fn limits_have_their_values() {
    assert_eq!(MAX_MSG_LEN, 4096);
    assert_eq!(MAX_HEADER_TITLE_LEN, 4089);
}

#[test]
fn blocks_that_fit_share_one_message() {
    let msgs = format_and_split_msgs("head".to_string(), &strings(&["a", "b"]), 100);
    assert_eq!(msgs, strings(&["head\na\nb"]));
}

#[test]
fn head_alone_is_one_message() {
    let msgs = format_and_split_msgs("head".to_string(), &Vec::new(), 100);
    assert_eq!(msgs, strings(&["head"]));
}

#[test]
fn block_that_does_not_fit_starts_the_next_message() {
    let msgs = format_and_split_msgs("12345".to_string(), &strings(&["abcde", "xyz"]), 10);
    assert_eq!(msgs, strings(&["12345", "abcde\nxyz"]));
}

#[test]
fn block_that_fits_exactly_stays() {
    let msgs = format_and_split_msgs("12345".to_string(), &strings(&["abcd"]), 10);
    assert_eq!(msgs, strings(&["12345\nabcd"]));
    let msgs = format_and_split_msgs("12345".to_string(), &strings(&["abcde"]), 10);
    assert_eq!(msgs, strings(&["12345", "abcde"]));
}

#[test]
fn oversized_block_is_truncated_not_split() {
    let msgs = format_and_split_msgs("h".to_string(), &strings(&["abcdefghij", "k"]), 6);
    assert_eq!(msgs, strings(&["h", "abc...", "k"]));
}

#[test]
fn oversized_head_is_truncated() {
    let msgs = format_and_split_msgs("0123456789".to_string(), &strings(&["a"]), 6);
    assert_eq!(msgs, strings(&["012...", "a"]));
}

#[test]
fn split_with_zero_limit_sends_empty_messages() {
    let msgs = format_and_split_msgs("head".to_string(), &strings(&["a"]), 0);
    assert_eq!(msgs, strings(&["", ""]));
}

#[test]
fn long_update_is_split_within_the_limit() {
    let head = "head".to_string();
    let lines: Vec<String> = (0..10).map(|i| format!("{}{}", i, "x".repeat(999))).collect();
    let combined = head.len() + lines.iter().map(|l| l.len() + 1).sum::<usize>();
    assert!(combined > MAX_MSG_LEN);
    let msgs = format_and_split_msgs(head.clone(), &lines, MAX_MSG_LEN);
    assert!(msgs.len() >= 2);
    for msg in &msgs {
        assert!(msg.chars().count() <= MAX_MSG_LEN);
    }
    let mut blocks = vec![head];
    blocks.extend(lines.iter().cloned());
    assert_eq!(msgs.join("\n"), blocks.join("\n"));
    assert_eq!(msgs.len(), 3);
    assert_eq!(msgs[0], blocks[0..5].join("\n"));
    assert_eq!(msgs[1], blocks[5..9].join("\n"));
    assert_eq!(msgs[2], blocks[9..11].join("\n"));
}

#[test]
fn header_is_the_escaped_title_in_bold() {
    assert_eq!(format_header("News"), "<b>News</b>");
    assert_eq!(format_header("a<b & c"), "<b>a&lt;b &amp; c</b>");
}

#[test]
fn item_block_is_title_over_link() {
    let it = item(1, Some("Title <1>"), Some("http://example.com/?q=\"x\""));
    assert_eq!(
        format_item(&it, "Feed", "http://feed.example"),
        "Title &lt;1&gt;\nhttp://example.com/?q=%22x%22"
    );
}

#[test]
fn item_block_falls_back_to_the_feed() {
    let it = item(1, None, None);
    assert_eq!(format_item(&it, "Feed", "http://feed.example"), "Feed\nhttp://feed.example");
    let it = item(1, Some("T"), None);
    assert_eq!(format_item(&it, "Feed", "http://feed.example"), "T\nhttp://feed.example");
    let it = item(1, None, Some("http://item.example"));
    assert_eq!(format_item(&it, "Feed", "http://feed.example"), "Feed\nhttp://item.example");
}

#[test]
fn item_that_fits_is_shown_whole() {
    let link = "http://item.example";
    for len in [3600, 4000, 4076] {
        let title = "t".repeat(len);
        let it = item(1, Some(&title), Some(link));
        let block = format_item(&it, "Feed", "http://feed.example");
        assert_eq!(block, format!("{}\n{}", title, link));
        assert!(block.chars().count() <= MAX_MSG_LEN);
    }
    let title = "t".repeat(4076);
    let it = item(1, Some(&title), Some(link));
    assert_eq!(format_item(&it, "Feed", "x").chars().count(), MAX_MSG_LEN);
}

#[test]
fn item_title_is_cut_by_as_much_as_makes_the_block_fit() {
    let link = "http://item.example";
    let it = item(1, Some(&"t".repeat(4077)), Some(link));
    let block = format_item(&it, "Feed", "http://feed.example");
    assert_eq!(block, format!("{}...\n{}", "t".repeat(4073), link));
    assert_eq!(block.chars().count(), MAX_MSG_LEN);
    let it = item(1, Some(&"t".repeat(9000)), Some(link));
    assert_eq!(format_item(&it, "Feed", "x"), format!("{}...\n{}", "t".repeat(4073), link));
}

#[test]
fn item_title_is_cut_between_characters_not_inside_an_entity() {
    let link = "http://item.example";
    let it = item(1, Some(&"&".repeat(2000)), Some(link));
    let block = format_item(&it, "Feed", "http://feed.example");
    assert_eq!(block, format!("{}...\n{}", "&amp;".repeat(814), link));
    assert_eq!(block.chars().count(), 4093);
    let it = item(1, Some(&"&".repeat(815)), Some(link));
    assert_eq!(format_item(&it, "Feed", "x"), format!("{}\n{}", "&amp;".repeat(815), link));
    let it = item(1, Some(&"&".repeat(816)), Some(link));
    assert_eq!(format_item(&it, "Feed", "x"), format!("{}...\n{}", "&amp;".repeat(814), link));
}

#[test]
fn long_link_leaves_little_or_no_room_for_the_title() {
    let link = "l".repeat(4090);
    let it = item(1, Some("Title"), Some(&link));
    assert_eq!(format_item(&it, "Feed", "x"), format!("Title\n{}", link));
    let link = "l".repeat(4091);
    let it = item(1, Some("Title"), Some(&link));
    assert_eq!(format_item(&it, "Feed", "x"), format!("T...\n{}", link));
    let link = "l".repeat(4092);
    let it = item(1, Some("Title"), Some(&link));
    assert_eq!(format_item(&it, "Feed", "x"), format!("...\n{}", link));
    let it = item(1, Some("Tit"), Some(&link));
    assert_eq!(format_item(&it, "Feed", "x"), format!("Tit\n{}", link));
    let link = "l".repeat(4093);
    let it = item(1, Some("Title"), Some(&link));
    assert_eq!(format_item(&it, "Feed", "x"), format!("\n{}", link));
    let link = "l".repeat(4095);
    let it = item(1, Some("Title"), Some(&link));
    let block = format_item(&it, "Feed", "x");
    assert_eq!(block, format!("\n{}", link));
    assert_eq!(block.chars().count(), MAX_MSG_LEN);
    let link = "l".repeat(5000);
    let it = item(1, Some("Title"), Some(&link));
    assert_eq!(format_item(&it, "Feed", "x"), format!("\n{}", link));
}

#[test]
fn long_feed_title_is_cut_to_fit_the_head() {
    let head = format_header(&"t".repeat(4089));
    assert_eq!(head, format!("<b>{}</b>", "t".repeat(4089)));
    assert_eq!(head.chars().count(), MAX_MSG_LEN);
    let head = format_header(&"t".repeat(4090));
    assert_eq!(head, format!("<b>{}...</b>", "t".repeat(4086)));
    assert_eq!(head.chars().count(), MAX_MSG_LEN);
    let head = format_header(&"<".repeat(3000));
    assert_eq!(head, format!("<b>{}...</b>", "&lt;".repeat(1021)));
}

#[test]
fn update_with_a_long_title_keeps_its_link() {
    let updates = vec![item(1, Some(&"&".repeat(3000)), Some("http://e/1"))];
    let msgs = format_updates("Feed", "http://feed.example", &updates);
    assert_eq!(msgs.len(), 2);
    assert_eq!(msgs[0], "<b>Feed</b>");
    assert!(msgs[1].ends_with("&amp;...\nhttp://e/1"));
    assert!(msgs[1].chars().count() <= MAX_MSG_LEN);
}

#[test]
fn updates_are_head_and_items() {
    let updates = vec![item(1, Some("One"), Some("http://e/1")), item(2, None, None)];
    let msgs = format_updates("Feed & Co", "http://feed.example", &updates);
    assert_eq!(
        msgs,
        strings(&["<b>Feed &amp; Co</b>\nOne\nhttp://e/1\nFeed &amp; Co\nhttp://feed.example"])
    );
}

#[test]
fn many_updates_take_several_messages() {
    let updates: Vec<Item> = (0..5)
        .map(|i| item(i, Some(&"t".repeat(2000)), Some("http://item.example")))
        .collect();
    let msgs = format_updates("Feed", "http://feed.example", &updates);
    assert_eq!(msgs.len(), 3);
    for msg in &msgs {
        assert!(msg.chars().count() <= MAX_MSG_LEN);
    }
    let block = format!("{}\nhttp://item.example", "t".repeat(2000));
    assert_eq!(msgs[0], format!("<b>Feed</b>\n{}\n{}", block, block));
    assert_eq!(msgs[1], format!("{}\n{}", block, block));
    assert_eq!(msgs[2], block);
}

#[test]
fn dead_feed_notice_names_feed_and_reason() {
    let notice = format_dead_feed_notice("http://e/?a=\"b\"", "T<1>", "timed out & gone");
    assert_eq!(
        notice,
        "《<a href=\"http://e/?a=%22b%22\">T&lt;1&gt;</a>》已经连续 5 天拉取出错 (timed out &amp; gone),可能已经关闭, 请取消订阅"
    );
}
