//! The engine's view of feed data.
//!
//! An upstream entry is reduced to what the rules read — its guid, title and
//! link — together with the full upstream payload, carried opaquely so that
//! publishing copies it verbatim into the output feed.

use vstd::prelude::*;

verus! {

/// Declares `rss::Item`, the opaque upstream payload, for use in fields.
#[verifier::external_type_specification]
#[verifier::external_body]
pub struct ExRssItem(rss::Item);

/// Relies on `rss::Item`'s derived `Clone`: a field-by-field copy that
/// yields a value equal to the original.
pub assume_specification[ <rss::Item as Clone>::clone ](item: &rss::Item) -> (res: rss::Item)
    ensures
        res == *item,
;

/// One upstream entry: identity by `guid`, the fields classification reads,
/// and the payload that is republished verbatim.
pub struct FeedItem {
    pub guid: String,
    pub title: Option<String>,
    pub link: Option<String>,
    pub payload: rss::Item,
}

impl FeedItem {
    /// An equal copy.
    pub fn duplicate(&self) -> (r: FeedItem)
        ensures
            r == *self,
    {
        FeedItem {
            guid: self.guid.clone(),
            title: match &self.title {
                Some(t) => Some(t.clone()),
                None => None,
            },
            link: match &self.link {
                Some(l) => Some(l.clone()),
                None => None,
            },
            payload: self.payload.clone(),
        }
    }
}

/// The derived feed this system maintains: its metadata and its items.
pub struct OutputFeed {
    pub pub_date: Option<String>,
    pub last_build_date: Option<String>,
    pub items: Vec<FeedItem>,
}

/// The RFC 2822 rendering of a UTC timestamp.
pub uninterp spec fn rfc2822_of(t: i64) -> Seq<char>;

/// Relies on chrono's `DateTime::from_timestamp` and `to_rfc2822`: the text
/// depends on the timestamp alone, and every timestamp up to the year 9999
/// names a representable instant.
#[verifier::external_body]
fn rfc2822_utc(t: i64) -> (r: String)
    requires
        0 <= t < 253402300800,
    ensures
        r@ == rfc2822_of(t),
{
    chrono::DateTime::<chrono::Utc>::from_timestamp(t, 0).unwrap().to_rfc2822()
}

impl OutputFeed {
    /// Refreshes the feed-level metadata for the current run: the publish
    /// date is copied from the upstream feed, the last-build date names the
    /// run itself. The items are untouched.
    pub fn refresh_metadata(&mut self, pub_date: Option<String>, now: i64)
        requires
            0 <= now < 253402300800,
        ensures
            final(self).pub_date == pub_date,
            final(self).last_build_date matches Some(b) && b@ == rfc2822_of(now),
            final(self).items == old(self).items,
    {
        self.pub_date = pub_date;
        self.last_build_date = Some(rfc2822_utc(now));
    }
}

} // verus!
