use republisher::article::{classify_item, fetch_link, is_paid, ArticleType, ClassifyError,
    TrackedArticle};
use republisher::feed::FeedItem;

fn item(guid: &str, title: Option<&str>, link: Option<&str>) -> FeedItem {
    FeedItem {
        guid: guid.to_string(),
        title: title.map(|t| t.to_string()),
        link: link.map(|l| l.to_string()),
        payload: rss::Item::default(),
    }
}

#[test]
fn marker_title_is_paid() {
    assert!(is_paid("[$] Locked article"));
    assert!(!is_paid("Open article"));
    assert!(!is_paid("[$"));
    assert!(!is_paid("A [$] marker elsewhere"));
}

#[test]
fn unmarked_title_classifies_free_without_body() {
    let it = item("g1", Some("Open article"), Some("http://example.org/a"));
    assert_eq!(classify_item(&it, None), Ok(ArticleType::Free));
}

#[test]
fn marked_title_classifies_paid_from_body() {
    let it = item("g2", Some("[$] Locked"), Some("http://example.org/b"));
    let body = "This subscriber-only article will be freely available on March 3, 2024.";
    assert_eq!(classify_item(&it, Some(body)), Ok(ArticleType::Paid(1709424000)));
}

#[test]
fn classification_is_idempotent() {
    let it = item("g2", Some("[$] Locked"), Some("http://example.org/b"));
    let body = "freely available on March 3, 2024";
    assert_eq!(classify_item(&it, Some(body)), classify_item(&it, Some(body)));
}

#[test]
fn missing_title_is_rejected() {
    let it = item("g3", None, Some("http://example.org/c"));
    assert_eq!(classify_item(&it, None), Err(ClassifyError::MissingTitle));
    assert_eq!(fetch_link(&it), Err(ClassifyError::MissingTitle));
}

#[test]
fn empty_title_is_rejected() {
    let it = item("g4", Some(""), Some("http://example.org/d"));
    assert_eq!(classify_item(&it, None), Err(ClassifyError::MissingTitle));
}

#[test]
fn missing_link_is_rejected() {
    let it = item("g5", Some("Open"), None);
    assert_eq!(classify_item(&it, None), Err(ClassifyError::MissingLink));
    let empty = item("g6", Some("Open"), Some(""));
    assert_eq!(classify_item(&empty, None), Err(ClassifyError::MissingLink));
}

#[test]
fn paid_without_body_is_rejected() {
    let it = item("g7", Some("[$] Locked"), Some("http://example.org/e"));
    assert_eq!(classify_item(&it, None), Err(ClassifyError::MissingBody));
}

#[test]
fn paid_without_release_date_is_rejected() {
    let it = item("g8", Some("[$] Locked"), Some("http://example.org/f"));
    assert_eq!(
        classify_item(&it, Some("no date in this body")),
        Err(ClassifyError::NoReleaseDate)
    );
}

#[test]
fn fetch_link_names_the_page_only_for_paid() {
    let free = item("g9", Some("Open"), Some("http://example.org/g"));
    assert_eq!(fetch_link(&free), Ok(None));
    let paid = item("g10", Some("[$] Locked"), Some("http://example.org/h"));
    assert_eq!(fetch_link(&paid), Ok(Some("http://example.org/h".to_string())));
}

#[test]
fn new_article_is_unpublished() {
    let a = TrackedArticle::new(item("g", Some("Open"), Some("http://x")), ArticleType::Free);
    assert_eq!(a.guid, "g");
    assert_eq!(a.published, None);
    assert_eq!(a.article_type, ArticleType::Free);
}

#[test]
fn free_article_is_due_until_published() {
    let mut a = TrackedArticle::new(item("g", Some("Open"), Some("http://x")), ArticleType::Free);
    assert!(a.should_publish(0));
    let mut out: Vec<FeedItem> = Vec::new();
    a.publish_to(&mut out, 42);
    assert_eq!(a.published, Some(42));
    assert_eq!(out.len(), 1);
    assert_eq!(out[0].guid, "g");
    assert!(!a.should_publish(43));
}

#[test]
fn paid_article_is_due_from_its_release_date() {
    let a = TrackedArticle::new(
        item("g", Some("[$] T"), Some("http://x")),
        ArticleType::Paid(1000),
    );
    assert!(!a.should_publish(999));
    assert!(a.should_publish(1000));
    assert!(a.should_publish(2000));
}

#[test]
fn try_publish_does_nothing_before_release() {
    let mut a = TrackedArticle::new(
        item("g", Some("[$] T"), Some("http://x")),
        ArticleType::Paid(1000),
    );
    let mut out: Vec<FeedItem> = Vec::new();
    a.try_publish_to(&mut out, 500);
    assert_eq!(a.published, None);
    assert!(out.is_empty());
    a.try_publish_to(&mut out, 1000);
    assert_eq!(a.published, Some(1000));
    assert_eq!(out.len(), 1);
}

#[test]
fn retention_window_is_one_week_after_publication() {
    let mut a = TrackedArticle::new(item("g", Some("Open"), Some("http://x")), ArticleType::Free);
    assert!(a.should_still_track(1_000_000_000));
    let mut out: Vec<FeedItem> = Vec::new();
    a.publish_to(&mut out, 0);
    assert!(a.should_still_track(604800));
    assert!(!a.should_still_track(604801));
}

#[test]
fn publish_inserts_at_the_front() {
    let mut first = TrackedArticle::new(item("a", Some("A"), Some("http://a")), ArticleType::Free);
    let mut second = TrackedArticle::new(item("b", Some("B"), Some("http://b")), ArticleType::Free);
    let mut out: Vec<FeedItem> = Vec::new();
    first.publish_to(&mut out, 1);
    second.publish_to(&mut out, 1);
    assert_eq!(out[0].guid, "b");
    assert_eq!(out[1].guid, "a");
}
