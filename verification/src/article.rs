//! Classification of upstream entries and the tracked-article state machine.
//!
//! An entry is either `Free` or `Paid` with a release date. Classification
//! happens once, when an entry is first seen, and is persisted; a paid
//! entry's release date is read from the body of its linked page. A tracked
//! article is published at most once — publication is a one-way step — and
//! is forgotten one week after publication.

use vstd::prelude::*;
use vstd::string::StringSliceAdditionalSpecFns;
use vstd::utf8::encode_utf8;

use crate::extract::{extract_release_date, spec_extract};
use crate::feed::FeedItem;

verus! {

/// Seconds in the retention window: a published article is kept for one
/// week after publication.
pub const WEEK_SECONDS: i64 = 604800;

/// Whether an entry is freely readable now or embargoed until a release
/// date, given as seconds since the Unix epoch.
#[derive(Clone, Copy, Debug, PartialEq, Eq, Structural)]
pub enum ArticleType {
    Free,
    Paid(i64),
}

/// Why an upstream entry could not be classified. Any of these aborts the
/// run before anything is persisted.
#[derive(Clone, Copy, Debug, PartialEq, Eq, Structural)]
pub enum ClassifyError {
    /// The entry has no title, or an empty one.
    MissingTitle,
    /// The entry has no link, or an empty one.
    MissingLink,
    /// The entry is embargoed but no page body was supplied.
    MissingBody,
    /// The entry is embargoed but its page body names no release date.
    NoReleaseDate,
}

/// The upstream convention for embargoed content: the title begins with
/// the marker "[$]".
pub open spec fn spec_is_paid(title: Seq<u8>) -> bool {
    title.len() >= 3 && title[0] == 91 && title[1] == 36 && title[2] == 93
}

/// Whether a title flags its entry as embargoed.
pub fn is_paid(title: &str) -> (r: bool)
    ensures
        r == spec_is_paid(title.spec_bytes()),
{
    let b = title.as_bytes();
    b.len() >= 3 && b[0] == 91 && b[1] == 36 && b[2] == 93
}

/// What classification an entry with the given title, link and fetched
/// page body receives: a missing or empty title or link is rejected; an
/// unmarked title is `Free`; a marked title needs a body that names a
/// release date, and is `Paid` with that date.
pub open spec fn spec_classify(
    title: Option<Seq<char>>,
    link: Option<Seq<char>>,
    body: Option<Seq<char>>,
) -> Result<ArticleType, ClassifyError> {
    if title is None || title.unwrap().len() == 0 {
        Err(ClassifyError::MissingTitle)
    } else if link is None || link.unwrap().len() == 0 {
        Err(ClassifyError::MissingLink)
    } else if !spec_is_paid(encode_utf8(title.unwrap())) {
        Ok(ArticleType::Free)
    } else if body is None {
        Err(ClassifyError::MissingBody)
    } else {
        match spec_extract(encode_utf8(body.unwrap())) {
            Some(d) => Ok(ArticleType::Paid(d as i64)),
            None => Err(ClassifyError::NoReleaseDate),
        }
    }
}

/// The view of an optional string.
pub open spec fn view_opt(s: Option<String>) -> Option<Seq<char>> {
    match s {
        Some(x) => Some(x@),
        None => None,
    }
}

/// Classifies one upstream entry. `body` is the fetched text of the
/// entry's linked page, needed only for entries whose title carries the
/// paid marker; see [`fetch_link`] for which entries that is.
pub fn classify_item(item: &FeedItem, body: Option<&str>) -> (r: Result<
    ArticleType,
    ClassifyError,
>)
    ensures
        r == spec_classify(
            view_opt(item.title),
            view_opt(item.link),
            (match body {
                Some(b) => Some(b@),
                None => None,
            }),
        ),
{
    match &item.title {
        None => Err(ClassifyError::MissingTitle),
        Some(t) => {
            if t.as_str().is_empty() {
                return Err(ClassifyError::MissingTitle);
            }
            match &item.link {
                None => Err(ClassifyError::MissingLink),
                Some(l) => {
                    if l.as_str().is_empty() {
                        return Err(ClassifyError::MissingLink);
                    }
                    if !is_paid(t.as_str()) {
                        return Ok(ArticleType::Free);
                    }
                    match body {
                        None => Err(ClassifyError::MissingBody),
                        Some(b) => match extract_release_date(b) {
                            Some(d) => Ok(ArticleType::Paid(d)),
                            None => Err(ClassifyError::NoReleaseDate),
                        },
                    }
                },
            }
        },
    }
}

/// Which page must be fetched before [`classify_item`] can run: none for a
/// free entry, the entry's link for a paid one. Rejects the entries that
/// classification itself rejects.
pub fn fetch_link(item: &FeedItem) -> (r: Result<Option<String>, ClassifyError>)
    ensures
        (r == Err::<Option<String>, _>(ClassifyError::MissingTitle)) == (view_opt(item.title)
            is None || view_opt(item.title).unwrap().len() == 0),
        (r == Err::<Option<String>, _>(ClassifyError::MissingLink)) == (!(view_opt(item.title)
            is None || view_opt(item.title).unwrap().len() == 0) && (view_opt(item.link) is None
            || view_opt(item.link).unwrap().len() == 0)),
        (item.title is Some && item.title.unwrap()@.len() > 0 && item.link is Some
            && item.link.unwrap()@.len() > 0) ==> r is Ok,
        r matches Ok(o) ==> ({
            &&& item.title is Some
            &&& item.link is Some
            &&& (o is Some) == spec_is_paid(encode_utf8(item.title.unwrap()@))
            &&& o matches Some(l) ==> l@ == item.link.unwrap()@
        }),
{
    match &item.title {
        None => Err(ClassifyError::MissingTitle),
        Some(t) => {
            if t.as_str().is_empty() {
                return Err(ClassifyError::MissingTitle);
            }
            match &item.link {
                None => Err(ClassifyError::MissingLink),
                Some(l) => {
                    if l.as_str().is_empty() {
                        return Err(ClassifyError::MissingLink);
                    }
                    if is_paid(t.as_str()) {
                        Ok(Some(l.clone()))
                    } else {
                        Ok(None)
                    }
                },
            }
        },
    }
}

/// Classification is a function of the entry alone: two entries with the
/// same title, link and fetched body always receive the same
/// classification, so classifying an entry twice cannot disagree.
pub proof fn lemma_classify_idempotent(
    t1: Option<Seq<char>>,
    l1: Option<Seq<char>>,
    b1: Option<Seq<char>>,
    t2: Option<Seq<char>>,
    l2: Option<Seq<char>>,
    b2: Option<Seq<char>>,
)
    requires
        t1 == t2,
        l1 == l2,
        b1 == b2,
    ensures
        spec_classify(t1, l1, b1) == spec_classify(t2, l2, b2),
{
}

/// The persisted unit of state: one upstream entry, its classification
/// (computed once, immutable), and its publication status.
pub struct TrackedArticle {
    pub guid: String,
    pub published: Option<i64>,
    pub article_type: ArticleType,
    pub item: FeedItem,
}

impl TrackedArticle {
    /// A tracked article's key is its captured item's guid.
    pub open spec fn wf(self) -> bool {
        self.guid@ == self.item.guid@
    }

    /// Starts tracking a freshly classified entry: not yet published.
    pub fn new(item: FeedItem, article_type: ArticleType) -> (r: TrackedArticle)
        ensures
            r.guid == item.guid,
            r.published is None,
            r.article_type == article_type,
            r.item == item,
            r.wf(),
    {
        TrackedArticle { guid: item.guid.clone(), published: None, article_type, item }
    }

    /// An equal copy.
    pub fn duplicate(&self) -> (r: TrackedArticle)
        ensures
            r == *self,
    {
        TrackedArticle {
            guid: self.guid.clone(),
            published: self.published,
            article_type: self.article_type,
            item: self.item.duplicate(),
        }
    }

    /// Publication is due: not yet published, and free or past the release
    /// date.
    pub open spec fn spec_should_publish(self, now: i64) -> bool {
        self.published is None && (match self.article_type {
            ArticleType::Free => true,
            ArticleType::Paid(d) => now >= d,
        })
    }

    pub fn should_publish(&self, now: i64) -> (r: bool)
        ensures
            r == self.spec_should_publish(now),
    {
        self.published.is_none() && (match self.article_type {
            ArticleType::Free => true,
            ArticleType::Paid(d) => now >= d,
        })
    }

    /// Still within the retention window: unpublished articles are kept
    /// indefinitely, published ones for a week after publication.
    pub open spec fn spec_should_still_track(self, now: i64) -> bool {
        match self.published {
            None => true,
            Some(p) => now - p <= WEEK_SECONDS,
        }
    }

    pub fn should_still_track(&self, now: i64) -> (r: bool)
        ensures
            r == self.spec_should_still_track(now),
    {
        match &self.published {
            None => true,
            Some(p) => (now as i128) - (*p as i128) <= WEEK_SECONDS as i128,
        }
    }

    /// Publishes this article: its payload goes to the front of the output
    /// items and the publication time is recorded.
    pub fn publish_to(&mut self, to: &mut Vec<FeedItem>, now: i64)
        ensures
            final(self).published == Some(now),
            final(self).guid == old(self).guid,
            final(self).article_type == old(self).article_type,
            final(self).item == old(self).item,
            final(to)@ == seq![old(self).item] + old(to)@,
    {
        to.insert(0, self.item.duplicate());
        self.published = Some(now);
        proof {
            assert(final(to)@ =~= seq![old(self).item] + old(to)@);
        }
    }

    /// Publishes exactly when publication is due.
    pub fn try_publish_to(&mut self, to: &mut Vec<FeedItem>, now: i64)
        ensures
            final(self).guid == old(self).guid,
            final(self).article_type == old(self).article_type,
            final(self).item == old(self).item,
            old(self).spec_should_publish(now) ==> final(self).published == Some(now)
                && final(to)@ == seq![old(self).item] + old(to)@,
            !old(self).spec_should_publish(now) ==> *final(self) == *old(self)
                && final(to)@ == old(to)@,
    {
        if self.should_publish(now) {
            self.publish_to(to, now);
        }
    }
}

} // verus!
