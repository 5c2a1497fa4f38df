use feedreader::auth::{digests_match, generate_jwt};
use feedreader::models::{CompositeFeedItem, ParsedFeed, ParsedItem, User};
use feedreader::router::{Handler, Method};
use feedreader::store::{Store, StoreError};
use feedreader::web::{
    add_feed, add_feed_reply, authenticate, fetched_feed, FeedError, cors_headers, param, parse_id, router, show_channel, show_item,
    show_items,
};

fn entry(guid: &str, title: &str, published_at: i64) -> ParsedItem {
    ParsedItem {
        guid: guid.to_string(),
        title: title.to_string(),
        link: format!("https://example.com/{}", guid),
        description: format!("about {}", title),
        content: None,
        published_at,
    }
}

fn feed(link: &str, guids: &[&str]) -> ParsedFeed {
    let mut items = Vec::new();
    for (i, g) in guids.iter().enumerate() {
        items.push(entry(g, &format!("title {}", g), 1_000 + i as i64));
    }
    ParsedFeed {
        title: "Example".to_string(),
        site_link: "https://example.com/".to_string(),
        feed_link: link.to_string(),
        description: "An example feed".to_string(),
        items,
    }
}

fn store_with_users() -> (Store, i32, i32) {
    let mut s = Store::new();
    let a = s.add_user("alice".to_string(), User::hash_pw("correct").into_bytes()).unwrap();
    let b = s.add_user("bob".to_string(), User::hash_pw("hunter2").into_bytes()).unwrap();
    (s, a, b)
}

#[test]
fn ingest_twice_is_idempotent() {
    let mut s = Store::new();
    let f = feed("https://example.com/rss.xml", &["a", "b", "c"]);
    let (c1, n1) = s.ingest(&f, 10);
    let (c2, n2) = s.ingest(&f, 10);
    assert_eq!(c1, c2);
    assert_eq!(n1, 3);
    assert_eq!(n2, 0);
    let chans = s.get_channels();
    assert_eq!(chans.len(), 1);
    assert_eq!(chans[0].title, "Example");
    assert_eq!(chans[0].feed_link, "https://example.com/rss.xml");
    let (_, items) = s.get_channel_with_items(c1).unwrap();
    assert_eq!(items.len(), 3);
}

#[test]
fn reingest_refreshes_metadata_but_keeps_first_item() {
    let mut s = Store::new();
    let f = feed("https://example.com/rss.xml", &["a"]);
    let (c, _) = s.ingest(&f, 10);
    let mut g = feed("https://example.com/rss.xml", &["a", "b"]);
    g.title = "Renamed".to_string();
    g.items[0].title = "changed upstream".to_string();
    let (c2, added) = s.ingest(&g, 20);
    assert_eq!(c, c2);
    assert_eq!(added, 1);
    let (ch, items) = s.get_channel_with_items(c).unwrap();
    assert_eq!(ch.title, "Renamed");
    assert_eq!(ch.updated_at, 20);
    assert_eq!(items.len(), 2);
    assert_eq!(items[0].title, "title a");
}

#[test]
fn repeated_ingestion_keeps_one_row_each() {
    let mut s = Store::new();
    let f = feed("https://example.com/rss.xml", &["x", "y", "y", "z"]);
    for t in 0..5 {
        s.ingest(&f, t);
    }
    assert_eq!(s.get_channels().len(), 1);
    let (_, items) = s.get_channel_with_items(1).unwrap();
    let mut guids: Vec<String> = items.iter().map(|i| i.guid.clone()).collect();
    guids.sort();
    assert_eq!(guids, vec!["x", "y", "z"]);
}

#[test]
fn same_guid_in_two_channels() {
    let mut s = Store::new();
    let (c1, n1) = s.ingest(&feed("https://one.example/rss", &["shared"]), 1);
    let (c2, n2) = s.ingest(&feed("https://two.example/rss", &["shared"]), 2);
    assert_ne!(c1, c2);
    assert_eq!((n1, n2), (1, 1));
    assert_eq!(s.get_channel_with_items(c1).unwrap().1.len(), 1);
    assert_eq!(s.get_channel_with_items(c2).unwrap().1.len(), 1);
}

#[test]
fn seen_state_is_per_user() {
    let (mut s, a, b) = store_with_users();
    s.ingest(&feed("https://example.com/rss.xml", &["a"]), 1);
    assert!(!s.get_seen(a, 1));
    assert!(!s.get_seen(b, 1));
    assert_eq!(s.set_seen(a, 1, true), Ok(()));
    assert!(s.get_seen(a, 1));
    assert!(!s.get_seen(b, 1));
    assert_eq!(s.set_seen(a, 1, false), Ok(()));
    assert!(!s.get_seen(a, 1));
}

#[test]
fn set_seen_on_missing_item_fails() {
    let (mut s, a, _) = store_with_users();
    assert_eq!(s.set_seen(a, 7, true), Err(StoreError::NotFound));
    assert_eq!(s.set_seen(99, 1, true), Err(StoreError::NotFound));
}

#[test]
fn subscriptions_are_idempotent() {
    let (mut s, a, _) = store_with_users();
    let (c, _) = s.ingest(&feed("https://example.com/rss.xml", &["a"]), 1);
    assert_eq!(s.ensure_subscription(a, c), Ok(()));
    assert_eq!(s.ensure_subscription(a, c), Ok(()));
    assert_eq!(s.ensure_subscription(a, c + 1), Err(StoreError::NotFound));
}

#[test]
fn duplicate_username_is_refused() {
    let (mut s, _, _) = store_with_users();
    assert_eq!(s.add_user("alice".to_string(), Vec::new()), Err(StoreError::Duplicate));
}

#[test]
fn listing_is_newest_first() {
    let (mut s, a, _) = store_with_users();
    let mut f = feed("https://example.com/rss.xml", &[]);
    f.items.push(entry("t2", "two", 200));
    f.items.push(entry("t1", "one", 100));
    f.items.push(entry("t3", "three", 300));
    let (c, _) = s.ingest(&f, 1);
    s.set_seen(a, 1, true).unwrap();
    let list = s.list_composite(c, a);
    let times: Vec<i64> = list.iter().map(|i| i.published_at).collect();
    assert_eq!(times, vec![300, 200, 100]);
    assert_eq!(list[1].title, "two");
    assert!(list[1].seen);
    assert!(!list[0].seen);
    assert_eq!(list[0].link.as_deref(), Some("https://example.com/t3"));
}

#[test]
fn listing_keeps_stored_order_on_ties() {
    let (mut s, a, _) = store_with_users();
    let mut f = feed("https://example.com/rss.xml", &[]);
    f.items.push(entry("p", "first", 50));
    f.items.push(entry("q", "second", 50));
    let (c, _) = s.ingest(&f, 1);
    let list = s.list_composite(c, a);
    assert_eq!(list[0].title, "first");
    assert_eq!(list[1].title, "second");
}

#[test]
fn routing_matches_method_and_path() {
    let r = router();
    let (h, caps) = r.dispatch(Method::Get, "/feed/5").unwrap();
    assert_eq!(h, Handler::ShowChannel);
    assert_eq!(caps, vec![b"5".to_vec()]);
    assert!(r.dispatch(Method::Post, "/feed/5").is_none());
    assert!(r.dispatch(Method::Get, "/unknown").is_none());
    assert!(r.dispatch(Method::Get, "/feed/").is_none());
    assert!(r.dispatch(Method::Get, "/feed/5x").is_none());
    let (h, caps) = r.dispatch(Method::Get, "/static/js/app.js").unwrap();
    assert_eq!(h, Handler::ShowAsset);
    assert_eq!(caps, vec![b"js/app.js".to_vec()]);
    assert_eq!(r.dispatch(Method::Get, "/items/12").unwrap().0, Handler::ShowItems);
    assert_eq!(r.dispatch(Method::Get, "/feeds").unwrap().0, Handler::Index);
    assert_eq!(r.dispatch(Method::Post, "/add_feed").unwrap().0, Handler::AddFeed);
    assert_eq!(r.len(), 8);
}

#[test]
fn credentials_are_checked() {
    let (s, a, _) = store_with_users();
    let u = User::check_user(&s, "alice", "correct").unwrap();
    assert_eq!(u.id, a);
    assert_eq!(u.username, "alice");
    assert!(User::check_user(&s, "alice", "wrong").is_none());
    assert!(User::check_user(&s, "nobody", "correct").is_none());
}

#[test]
fn password_hash_is_base64_sha256() {
    assert_eq!(User::hash_pw("password"), "XohImNooBHFR0OVvjcYpJ3NgPQ1qq73WKhHvch0VQtg=");
    let u = User { id: 1, username: "x".to_string(), password_hash: b"not base64!".to_vec() };
    assert!(!u.verifies("password"));
}

#[test]
fn digests_compare_exactly() {
    assert!(digests_match(&[1, 2, 3], &[1, 2, 3]));
    assert!(!digests_match(&[1, 2, 3], &[1, 2, 4]));
    assert!(!digests_match(&[1, 2], &[1, 2, 3]));
    assert!(digests_match(&[], &[]));
}

#[test]
fn login_without_fields_is_bad_request() {
    let (s, _, _) = store_with_users();
    let r = authenticate(&s, b"username=alice", 0, Some("secret"));
    assert_eq!(r.status, 400);
    let r = authenticate(&s, b"password=correct", 0, Some("secret"));
    assert_eq!(r.status, 400);
}

#[test]
fn login_replies() {
    let (s, _, _) = store_with_users();
    let r = authenticate(&s, b"username=alice&password=wrong", 0, Some("secret"));
    assert_eq!(r.status, 401);
    assert!(r.body.is_empty());
    let r = authenticate(&s, b"username=alice&password=correct", 1_500_000_000, Some("secret"));
    assert_eq!(r.status, 200);
    assert!(r.cors);
    assert_eq!(r.body.split('.').count(), 3);
    let again = authenticate(&s, b"username=alice&password=correct", 1_500_000_000, Some("secret"));
    assert_eq!(r.body, again.body);
    let r = authenticate(&s, b"username=alice&password=correct", 0, None);
    assert_eq!(r.status, 500);
}

#[test]
fn token_needs_a_secret() {
    assert!(generate_jwt("alice", 5, None).is_none());
    let t = generate_jwt("alice", 5, Some("k")).unwrap();
    assert_ne!(t, "alice");
    assert_eq!(t.split('.').count(), 3);
    assert_ne!(t, generate_jwt("alice", 6, Some("k")).unwrap());
}

#[test]
fn form_parameters() {
    let pairs = vec![
        ("a".to_string(), "1".to_string()),
        ("b".to_string(), "x y".to_string()),
        ("a".to_string(), "2".to_string()),
    ];
    assert_eq!(param(&pairs, "a"), Some("2".to_string()));
    assert_eq!(param(&pairs, "b"), Some("x y".to_string()));
    assert_eq!(param(&pairs, "c"), None);
}

#[test]
fn add_feed_requests() {
    assert_eq!(
        add_feed(b"feed_url=https%3A%2F%2Fexample.com%2Frss.xml").ok(),
        Some("https://example.com/rss.xml".to_string())
    );
    let e = add_feed(b"other=1").unwrap_err();
    assert_eq!(e.status, 400);
    assert_eq!(e.body, "parameter 'feed_url' missing");
    let e = add_feed(b"feed_url=not+a+url").unwrap_err();
    assert_eq!(e.status, 400);
    assert_eq!(e.body, "parameter 'feed_url' invalid");
}

#[test]
fn ids_in_paths() {
    assert_eq!(parse_id(b"42"), Some(42));
    assert_eq!(parse_id(b"0"), Some(0));
    assert_eq!(parse_id(b"2147483647"), Some(2147483647));
    assert_eq!(parse_id(b"2147483648"), None);
    assert_eq!(parse_id(b"99999999999999999999"), None);
    assert_eq!(parse_id(b""), None);
    assert_eq!(parse_id(b"4a"), None);
}

#[test]
fn add_feed_then_list_items() {
    let (mut s, a, _) = store_with_users();
    let url = add_feed(b"feed_url=https://example.com/rss.xml").unwrap();
    let f = feed(&url, &["1", "2", "3"]);
    let (c, added) = s.ingest(&f, 100);
    assert_eq!(added, 3);
    s.ensure_subscription(a, c).unwrap();
    let id = c.to_string();
    let items = show_items(&s, id.as_bytes(), a);
    assert_eq!(items.len(), 3);
    assert!(items.iter().all(|i| !i.seen));
    // the same URL again: nothing grows
    let url2 = add_feed(b"feed_url=https://example.com/rss.xml").unwrap();
    assert_eq!(url, url2);
    let (c2, added2) = s.ingest(&feed(&url2, &["1", "2", "3"]), 200);
    assert_eq!((c2, added2), (c, 0));
    assert_eq!(show_items(&s, id.as_bytes(), a).len(), 3);
    assert!(show_items(&s, b"x", a).is_empty());
}

#[test]
fn read_endpoints_look_up_by_id() {
    let mut s = Store::new();
    s.ingest(&feed("https://example.com/rss.xml", &["a", "b"]), 1);
    let (ch, items) = show_channel(&s, b"1").unwrap();
    assert_eq!(ch.id, 1);
    assert_eq!(items.len(), 2);
    assert!(show_channel(&s, b"2").is_none());
    assert_eq!(show_item(&s, b"2").unwrap().guid, "b");
    assert!(show_item(&s, b"3").is_none());
    assert!(show_item(&s, b"0").is_none());
}

#[test]
fn preflight_headers() {
    let h = cors_headers();
    assert_eq!(h.len(), 6);
    assert_eq!(h[0], ("Access-Control-Allow-Origin".to_string(), "*".to_string()));
    assert_eq!(h[5].0, "Allow");
}

#[test]
fn partial_composite() {
    let c = CompositeFeedItem::partial(&(3, "t".to_string(), "d".to_string(), 77, true));
    assert_eq!(c.item_id, 3);
    assert_eq!(c.title, "t");
    assert_eq!(c.description, "d");
    assert_eq!(c.published_at, 77);
    assert!(c.link.is_none() && c.content.is_none() && c.seen);
}

#[test]
fn fetch_outcomes() {
    let f = || Some(feed("https://example.com/rss.xml", &["a"]));
    assert_eq!(fetched_feed(None, f()).unwrap_err(), FeedError::Unreachable);
    assert_eq!(fetched_feed(Some(404), f()).unwrap_err(), FeedError::Status(404));
    assert_eq!(fetched_feed(Some(301), f()).unwrap_err(), FeedError::Status(301));
    assert_eq!(fetched_feed(Some(200), None).unwrap_err(), FeedError::NotAFeed);
    assert_eq!(fetched_feed(Some(200), f()).unwrap().items.len(), 1);
}

#[test]
fn adding_a_feed_subscribes_the_user() {
    let (mut s, a, _) = store_with_users();
    let r = add_feed_reply(&mut s, Err(FeedError::Unreachable), 1, a);
    assert_eq!(r.status, 502);
    assert_eq!(s.channel_count(), 0);
    let r = add_feed_reply(&mut s, Ok(feed("https://example.com/rss.xml", &["a", "b"])), 1, a);
    assert_eq!(r.status, 200);
    assert!(r.body.is_empty());
    assert_eq!(s.channel_count(), 1);
    assert_eq!(s.item_count(), 2);
    assert_eq!(s.subscription_count(), 1);
    let r = add_feed_reply(&mut s, Ok(feed("https://example.com/rss.xml", &["a", "b"])), 2, a);
    assert_eq!(r.status, 200);
    assert_eq!((s.channel_count(), s.item_count(), s.subscription_count()), (1, 2, 1));
    let r = add_feed_reply(&mut s, Ok(feed("https://other.example/rss.xml", &["a"])), 3, 0);
    assert_eq!(r.status, 200);
    assert_eq!((s.channel_count(), s.item_count(), s.subscription_count()), (2, 3, 1));
}

#[test]
fn try_ingest_reports_counts() {
    let mut s = Store::new();
    assert_eq!(s.try_ingest(&feed("https://example.com/rss.xml", &["a", "b"]), 5), Ok((1, 2)));
    assert_eq!(s.try_ingest(&feed("https://example.com/rss.xml", &["b", "c"]), 6), Ok((1, 1)));
    assert_eq!(s.user_count(), 0);
    assert_eq!(s.seen_count(), 0);
}
