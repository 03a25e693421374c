use fetcher::feed::Feed;
use fetcher::host::{get_host, grouping_by_host, host_from_match, HOST_GROUP, HOST_PATTERN};

fn feed(link: &str) -> Feed {
    Feed::new(link.to_string(), format!("title of {}", link))
}

fn links(group: &Vec<Feed>) -> Vec<String> {
    group.iter().map(|f| f.link().to_string()).collect()
}

#[test]
fn host_pattern_is_the_documented_one() {
    assert_eq!(HOST_PATTERN, r"^(?:https?://)?([^/]+)");
    assert_eq!(HOST_GROUP, 1);
}

#[test]
fn host_is_without_the_scheme() {
    assert_eq!(get_host("http://example.com/feed.xml"), "example.com");
    assert_eq!(get_host("https://example.com/feed.xml"), "example.com");
    assert_eq!(get_host("https://example.com/a/b?c=d"), "example.com");
    assert_eq!(get_host("https://example.com"), "example.com");
}

#[test]
fn host_without_scheme() {
    assert_eq!(get_host("example.com/rss.xml"), "example.com");
    assert_eq!(get_host("example.com"), "example.com");
    assert_eq!(get_host("example.com:8080/rss"), "example.com:8080");
}

#[test]
fn scheme_does_not_change_the_host() {
    for rest in ["a.com", "a.com/x", "sub.a.com:81/x/y", "a"] {
        let bare = get_host(rest);
        assert_eq!(get_host(&format!("http://{}", rest)), bare);
        assert_eq!(get_host(&format!("https://{}", rest)), bare);
        assert!(!bare.is_empty());
        assert!(!bare.contains('/'));
    }
}

#[test]
fn host_is_found_again_in_itself() {
    for link in ["http://a.com/x", "https://b.org", "c.net/feed", "d:8080/x"] {
        let host = get_host(link);
        assert_eq!(get_host(&host), host);
    }
}

#[test]
fn host_of_other_schemes_stops_at_the_first_slash() {
    assert_eq!(get_host("ftp://example.com/x"), "ftp:");
    assert_eq!(get_host("http:///x"), "http:");
}

#[test]
fn host_of_a_link_without_match_is_the_link() {
    assert_eq!(get_host("/relative/path"), "/relative/path");
    assert_eq!(get_host(""), "");
}

#[test]
fn host_from_match_prefers_the_match() {
    assert_eq!(host_from_match("http://a/b", Some("a".to_string())), "a");
    assert_eq!(host_from_match("http://a/b", None), "http://a/b");
}

#[test]
fn grouping_puts_feeds_of_one_host_together() {
    let feeds = vec![
        feed("http://a.example/1"),
        feed("http://b.example/1"),
        feed("http://a.example/2"),
        feed("b.example/2"),
        feed("https://a.example/3"),
        feed("http://c.example/1"),
    ];
    let groups = grouping_by_host(feeds);
    assert_eq!(groups.len(), 3);
    assert_eq!(
        links(&groups[0]),
        vec!["http://a.example/1", "http://a.example/2", "https://a.example/3"]
    );
    assert_eq!(links(&groups[1]), vec!["http://b.example/1", "b.example/2"]);
    assert_eq!(links(&groups[2]), vec!["http://c.example/1"]);
}

#[test]
fn one_host_under_three_schemes_is_one_group() {
    let groups =
        grouping_by_host(vec![feed("http://a.com/1"), feed("https://a.com/2"), feed("a.com/3")]);
    assert_eq!(groups.len(), 1);
    assert_eq!(links(&groups[0]), vec!["http://a.com/1", "https://a.com/2", "a.com/3"]);
}

#[test]
fn grouping_nothing_gives_no_group() {
    let groups = grouping_by_host(Vec::new());
    assert!(groups.is_empty());
}

#[test]
fn grouping_keeps_every_feed_once() {
    let schemes = ["http://", "https://", ""];
    let all: Vec<String> = (0..20)
        .map(|i| format!("{}h{}.example/feed/{}", schemes[i % 3], i % 4, i))
        .collect();
    let groups = grouping_by_host(all.iter().map(|l| feed(l)).collect());
    assert_eq!(groups.len(), 4);
    let mut hosts: Vec<String> = Vec::new();
    let mut seen: Vec<String> = Vec::new();
    for group in &groups {
        assert!(!group.is_empty());
        let host = get_host(group[0].link());
        assert!(!hosts.contains(&host));
        for f in group {
            assert_eq!(get_host(f.link()), host);
            seen.push(f.link().to_string());
        }
        hosts.push(host);
    }
    assert_eq!(hosts, vec!["h0.example", "h1.example", "h2.example", "h3.example"]);
    seen.sort();
    let mut expected = all.clone();
    expected.sort();
    assert_eq!(seen, expected);
}
