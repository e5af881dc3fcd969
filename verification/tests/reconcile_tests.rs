use republisher::article::{ArticleType, TrackedArticle};
use republisher::feed::{FeedItem, OutputFeed};
use republisher::reconcile::{fresh_upstream, has_guid, reconcile};

fn item(guid: &str) -> FeedItem {
    FeedItem {
        guid: guid.to_string(),
        title: Some(format!("Title {}", guid)),
        link: Some(format!("http://example.org/{}", guid)),
        payload: rss::Item::default(),
    }
}

fn tracked_rec(guid: &str, article_type: ArticleType, published: Option<i64>) -> TrackedArticle {
    let mut a = TrackedArticle::new(item(guid), article_type);
    a.published = published;
    a
}

fn guids(items: &[FeedItem]) -> Vec<String> {
    items.iter().map(|i| i.guid.clone()).collect()
}

#[test]
fn fresh_upstream_skips_tracked_and_duplicate_guids() {
    let input = vec![item("a"), item("b"), item("a"), item("c")];
    let known = vec![tracked_rec("b", ArticleType::Free, None)];
    let fresh = fresh_upstream(&input, &known);
    assert_eq!(guids(&fresh), vec!["a".to_string(), "c".to_string()]);
}

#[test]
fn free_item_publishes_in_its_first_run() {
    let fresh = vec![tracked_rec("a", ArticleType::Free, None)];
    let (tracked_set, output) = reconcile(&Vec::new(), &Vec::new(), &fresh, 100);
    assert_eq!(tracked_set.len(), 1);
    assert_eq!(tracked_set[0].guid, "a");
    assert_eq!(tracked_set[0].published, Some(100));
    assert_eq!(guids(&output), vec!["a".to_string()]);
}

#[test]
fn paid_item_waits_then_releases() {
    let fresh = vec![tracked_rec("p", ArticleType::Paid(1000), None)];
    let (t1, o1) = reconcile(&Vec::new(), &Vec::new(), &fresh, 500);
    assert_eq!(t1.len(), 1);
    assert_eq!(t1[0].published, None);
    assert!(o1.is_empty());

    let (t2, o2) = reconcile(&t1, &o1, &Vec::new(), 1000);
    assert_eq!(t2.len(), 1);
    assert_eq!(t2[0].published, Some(1000));
    assert_eq!(guids(&o2), vec!["p".to_string()]);
}

#[test]
fn published_item_is_kept_for_a_week_then_forgotten() {
    let t0 = vec![tracked_rec("a", ArticleType::Free, Some(0))];
    let o0 = vec![item("a")];

    let (t1, o1) = reconcile(&t0, &o0, &Vec::new(), 604800);
    assert_eq!(t1.len(), 1);
    assert_eq!(guids(&o1), vec!["a".to_string()]);

    let (t2, o2) = reconcile(&t0, &o0, &Vec::new(), 604801);
    assert!(t2.is_empty());
    assert!(o2.is_empty());
}

#[test]
fn stray_output_items_are_removed() {
    let t0 = vec![tracked_rec("a", ArticleType::Free, Some(10))];
    let o0 = vec![item("ghost"), item("a")];
    let (t1, o1) = reconcile(&t0, &o0, &Vec::new(), 20);
    assert_eq!(t1.len(), 1);
    assert_eq!(guids(&o1), vec!["a".to_string()]);
}

#[test]
fn output_matches_published_tracked_items_exactly() {
    // three records: one already published, one newly due, one still
    // embargoed; the output holds exactly the two published payloads
    let t0 = vec![
        tracked_rec("old", ArticleType::Free, Some(100)),
        tracked_rec("due", ArticleType::Paid(150), None),
        tracked_rec("wait", ArticleType::Paid(10_000), None),
    ];
    let o0 = vec![item("old")];
    let (t1, o1) = reconcile(&t0, &o0, &Vec::new(), 200);
    assert_eq!(t1.len(), 3);
    assert_eq!(guids(&o1), vec!["due".to_string(), "old".to_string()]);
    for a in &t1 {
        let in_output = o1.iter().any(|i| i.guid == a.guid);
        assert_eq!(a.published.is_some(), in_output);
    }
}

#[test]
fn newly_published_items_go_to_the_front_in_upstream_order() {
    let fresh = vec![
        tracked_rec("n1", ArticleType::Free, None),
        tracked_rec("n2", ArticleType::Free, None),
    ];
    let t0 = vec![tracked_rec("old", ArticleType::Free, Some(1))];
    let o0 = vec![item("old")];
    let (_, o1) = reconcile(&t0, &o0, &fresh, 2);
    assert_eq!(
        guids(&o1),
        vec!["n2".to_string(), "n1".to_string(), "old".to_string()]
    );
}

#[test]
fn rerun_without_upstream_change_is_a_no_op() {
    let fresh = vec![
        tracked_rec("a", ArticleType::Free, None),
        tracked_rec("p", ArticleType::Paid(10_000), None),
    ];
    let t0 = vec![tracked_rec("old", ArticleType::Free, Some(100))];
    let o0 = vec![item("old")];
    let now = 200;
    let (t1, o1) = reconcile(&t0, &o0, &fresh, now);

    let input = vec![item("a"), item("p"), item("old")];
    let second_fresh = fresh_upstream(&input, &t1);
    assert!(second_fresh.is_empty());

    let no_new_articles: Vec<TrackedArticle> = Vec::new();
    let (t2, o2) = reconcile(&t1, &o1, &no_new_articles, now);
    assert_eq!(t1.len(), t2.len());
    for (x, y) in t1.iter().zip(t2.iter()) {
        assert_eq!(x.guid, y.guid);
        assert_eq!(x.published, y.published);
        assert_eq!(x.article_type, y.article_type);
    }
    assert_eq!(guids(&o1), guids(&o2));
}

#[test]
fn has_guid_finds_only_present_guids() {
    let t = vec![tracked_rec("a", ArticleType::Free, None)];
    assert!(has_guid(&t, &"a".to_string()));
    assert!(!has_guid(&t, &"b".to_string()));
}

#[test]
fn metadata_refresh_keeps_items() {
    let mut feed = OutputFeed {
        pub_date: None,
        last_build_date: None,
        items: vec![item("a")],
    };
    feed.refresh_metadata(Some("Mon, 04 Mar 2024 00:00:00 +0000".to_string()), 1709424000);
    assert_eq!(
        feed.pub_date,
        Some("Mon, 04 Mar 2024 00:00:00 +0000".to_string())
    );
    let expected = chrono::DateTime::<chrono::Utc>::from_timestamp(1709424000, 0)
        .unwrap()
        .to_rfc2822();
    assert_eq!(feed.last_build_date, Some(expected));
    assert_eq!(guids(&feed.items), vec!["a".to_string()]);
}

#[test]
fn payload_is_copied_verbatim_into_the_output() {
    let mut payload = rss::Item::default();
    payload.title = Some("Title a".to_string());
    payload.description = Some("The full body of the entry.".to_string());
    let mut it = item("a");
    it.payload = payload.clone();
    let fresh = vec![TrackedArticle::new(it, ArticleType::Free)];
    let (_, output) = reconcile(&Vec::new(), &Vec::new(), &fresh, 5);
    assert_eq!(output.len(), 1);
    assert_eq!(output[0].payload, payload);
}
