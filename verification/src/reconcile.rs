//! One reconciliation run.
//!
//! A run takes the persisted tracked set, the persisted output items, the
//! freshly classified new articles and the current time, and produces the
//! updated tracked set and output items: due articles are published to the
//! front of the output, articles published more than a week ago are
//! forgotten, and the output is reconciled to hold exactly the payloads of
//! articles that are still tracked.

use vstd::prelude::*;

use crate::article::{ArticleType, TrackedArticle};
use crate::feed::FeedItem;

verus! {

/// A tracked article after the publish step of one run: published now if
/// publication was due, otherwise unchanged.
pub open spec fn advance(t: TrackedArticle, now: i64) -> TrackedArticle {
    if t.spec_should_publish(now) {
        TrackedArticle { published: Some(now), ..t }
    } else {
        t
    }
}

/// The previously tracked articles after one run: each advanced, and kept
/// exactly when still within the retention window.
pub open spec fn advanced_kept(s: Seq<TrackedArticle>, now: i64) -> Seq<TrackedArticle>
    decreases s.len(),
{
    if s.len() == 0 {
        Seq::empty()
    } else {
        let rest = advanced_kept(s.drop_last(), now);
        let a = advance(s.last(), now);
        if a.spec_should_still_track(now) {
            rest.push(a)
        } else {
            rest
        }
    }
}

/// The freshly created articles after one run: each advanced; none is
/// dropped in the run that first sees it.
pub open spec fn advanced_all(s: Seq<TrackedArticle>, now: i64) -> Seq<TrackedArticle>
    decreases s.len(),
{
    if s.len() == 0 {
        Seq::empty()
    } else {
        advanced_all(s.drop_last(), now).push(advance(s.last(), now))
    }
}

/// The payloads published during one run, in front-insertion order: each
/// due article's payload goes to the front, so the article processed last
/// ends up first.
pub open spec fn published_items(s: Seq<TrackedArticle>, now: i64) -> Seq<FeedItem>
    decreases s.len(),
{
    if s.len() == 0 {
        Seq::empty()
    } else {
        let rest = published_items(s.drop_last(), now);
        if s.last().spec_should_publish(now) {
            seq![s.last().item] + rest
        } else {
            rest
        }
    }
}

/// Some tracked article carries the guid `g`.
pub open spec fn tracked_has_guid(s: Seq<TrackedArticle>, g: Seq<char>) -> bool {
    exists|i: int| 0 <= i < s.len() && s[i].guid@ == g
}

/// Some item carries the guid `g`.
pub open spec fn items_have_guid(s: Seq<FeedItem>, g: Seq<char>) -> bool {
    exists|i: int| 0 <= i < s.len() && s[i].guid@ == g
}

/// The output items whose guid is still tracked, in order.
pub open spec fn retained_output(items: Seq<FeedItem>, tracked_set: Seq<TrackedArticle>) -> Seq<
    FeedItem,
>
    decreases items.len(),
{
    if items.len() == 0 {
        Seq::empty()
    } else {
        let rest = retained_output(items.drop_last(), tracked_set);
        if tracked_has_guid(tracked_set, items.last().guid@) {
            rest.push(items.last())
        } else {
            rest
        }
    }
}

/// The upstream items a run must classify: those whose guid is neither
/// tracked already nor carried by an earlier upstream item, in upstream
/// order.
pub open spec fn spec_fresh_upstream(input: Seq<FeedItem>, tracked_set: Seq<TrackedArticle>) -> Seq<
    FeedItem,
>
    decreases input.len(),
{
    if input.len() == 0 {
        Seq::empty()
    } else {
        let rest = spec_fresh_upstream(input.drop_last(), tracked_set);
        let it = input.last();
        if !tracked_has_guid(tracked_set, it.guid@) && !items_have_guid(input.drop_last(), it.guid@) {
            rest.push(it)
        } else {
            rest
        }
    }
}

/// The tracked set after one run: the surviving previously tracked
/// articles followed by the advanced new ones.
pub open spec fn spec_new_tracked(
    tracked_set: Seq<TrackedArticle>,
    fresh: Seq<TrackedArticle>,
    now: i64,
) -> Seq<TrackedArticle> {
    advanced_kept(tracked_set, now) + advanced_all(fresh, now)
}

/// The output items after one run: this run's publications in front of the
/// previous output, restricted to the guids that are still tracked.
pub open spec fn spec_output_items(
    tracked_set: Seq<TrackedArticle>,
    output: Seq<FeedItem>,
    fresh: Seq<TrackedArticle>,
    now: i64,
) -> Seq<FeedItem> {
    retained_output(
        published_items(tracked_set + fresh, now) + output,
        spec_new_tracked(tracked_set, fresh, now),
    )
}

/// Whether any article of `tracked_set` carries the guid `g`.
pub fn has_guid(tracked_set: &Vec<TrackedArticle>, g: &String) -> (r: bool)
    ensures
        r == tracked_has_guid(tracked_set@, g@),
{
    let mut i: usize = 0;
    while i < tracked_set.len()
        invariant
            i <= tracked_set.len(),
            forall|j: int| 0 <= j < i ==> tracked_set@[j].guid@ != g@,
        decreases tracked_set.len() - i,
    {
        if tracked_set[i].guid == *g {
            return true;
        }
        i = i + 1;
    }
    false
}

/// Whether any of the first `upto` items carries the guid `g`.
fn items_contain_guid(items: &Vec<FeedItem>, upto: usize, g: &String) -> (r: bool)
    requires
        upto <= items.len(),
    ensures
        r == items_have_guid(items@.subrange(0, upto as int), g@),
{
    let mut i: usize = 0;
    while i < upto
        invariant
            i <= upto <= items.len(),
            forall|j: int| 0 <= j < i ==> items@[j].guid@ != g@,
        decreases upto - i,
    {
        if items[i].guid == *g {
            proof {
                assert(items@.subrange(0, upto as int)[i as int].guid@ == g@);
            }
            return true;
        }
        i = i + 1;
    }
    proof {
        assert forall|j: int| 0 <= j < upto implies items@.subrange(0, upto as int)[j].guid@
            != g@ by {
            assert(items@.subrange(0, upto as int)[j] == items@[j]);
        }
    }
    false
}

/// The upstream items this run must classify, in upstream order: one per
/// guid not already tracked.
pub fn fresh_upstream(input: &Vec<FeedItem>, tracked_set: &Vec<TrackedArticle>) -> (r: Vec<FeedItem>)
    ensures
        r@ == spec_fresh_upstream(input@, tracked_set@),
{
    let mut out: Vec<FeedItem> = Vec::new();
    let mut i: usize = 0;
    while i < input.len()
        invariant
            i <= input.len(),
            out@ == spec_fresh_upstream(input@.subrange(0, i as int), tracked_set@),
        decreases input.len() - i,
    {
        let novel = !has_guid(tracked_set, &input[i].guid) && !items_contain_guid(
            input,
            i,
            &input[i].guid,
        );
        proof {
            assert(input@.subrange(0, (i + 1) as int).drop_last() =~= input@.subrange(0, i as int));
            assert(input@.subrange(0, (i + 1) as int).last() == input@[i as int]);
        }
        if novel {
            out.push(input[i].duplicate());
        }
        i = i + 1;
    }
    proof {
        assert(input@.subrange(0, input@.len() as int) =~= input@);
    }
    out
}

/// One reconciliation run, as a pure transformation: the updated
/// tracked set and the updated output items.
pub fn reconcile(
    tracked_set: &Vec<TrackedArticle>,
    output_items: &Vec<FeedItem>,
    fresh: &Vec<TrackedArticle>,
    now: i64,
) -> (r: (Vec<TrackedArticle>, Vec<FeedItem>))
    ensures
        r.0@ == spec_new_tracked(tracked_set@, fresh@, now),
        r.1@ == spec_output_items(tracked_set@, output_items@, fresh@, now),
{
    let mut kept: Vec<TrackedArticle> = Vec::new();
    let mut pubs: Vec<FeedItem> = Vec::new();
    let mut i: usize = 0;
    while i < tracked_set.len()
        invariant
            i <= tracked_set.len(),
            kept@ == advanced_kept(tracked_set@.subrange(0, i as int), now),
            pubs@ == published_items(tracked_set@.subrange(0, i as int), now),
        decreases tracked_set.len() - i,
    {
        let mut t = tracked_set[i].duplicate();
        proof {
            assert(tracked_set@.subrange(0, (i + 1) as int).drop_last() =~= tracked_set@.subrange(
                0,
                i as int,
            ));
            assert(tracked_set@.subrange(0, (i + 1) as int).last() == tracked_set@[i as int]);
        }
        t.try_publish_to(&mut pubs, now);
        proof {
            assert(t == advance(tracked_set@[i as int], now));
        }
        if t.should_still_track(now) {
            kept.push(t);
        }
        i = i + 1;
    }
    proof {
        assert(tracked_set@.subrange(0, tracked_set@.len() as int) =~= tracked_set@);
        assert(tracked_set@ + fresh@.subrange(0, 0) =~= tracked_set@);
        assert(kept@ + advanced_all(fresh@.subrange(0, 0), now) =~= kept@);
    }
    let mut j: usize = 0;
    while j < fresh.len()
        invariant
            j <= fresh.len(),
            kept@ == advanced_kept(tracked_set@, now) + advanced_all(fresh@.subrange(0, j as int), now),
            pubs@ == published_items(tracked_set@ + fresh@.subrange(0, j as int), now),
        decreases fresh.len() - j,
    {
        let mut f = fresh[j].duplicate();
        proof {
            assert((tracked_set@ + fresh@.subrange(0, (j + 1) as int)).drop_last() =~= tracked_set@
                + fresh@.subrange(0, j as int));
            assert((tracked_set@ + fresh@.subrange(0, (j + 1) as int)).last() == fresh@[j as int]);
            assert(fresh@.subrange(0, (j + 1) as int).drop_last() =~= fresh@.subrange(0, j as int));
            assert(fresh@.subrange(0, (j + 1) as int).last() == fresh@[j as int]);
        }
        f.try_publish_to(&mut pubs, now);
        proof {
            assert(f == advance(fresh@[j as int], now));
        }
        kept.push(f);
        j = j + 1;
    }
    proof {
        assert(fresh@.subrange(0, fresh@.len() as int) =~= fresh@);
    }
    let mut mid = pubs;
    let mut q: usize = 0;
    while q < output_items.len()
        invariant
            q <= output_items.len(),
            mid@ == published_items(tracked_set@ + fresh@, now) + output_items@.subrange(0, q as int),
        decreases output_items.len() - q,
    {
        mid.push(output_items[q].duplicate());
        proof {
            assert(published_items(tracked_set@ + fresh@, now) + output_items@.subrange(0, q as int)
                + seq![output_items@[q as int]] =~= published_items(tracked_set@ + fresh@, now)
                + output_items@.subrange(0, (q + 1) as int));
            assert(mid@ =~= published_items(tracked_set@ + fresh@, now) + output_items@.subrange(
                0,
                (q + 1) as int,
            ));
        }
        q = q + 1;
    }
    proof {
        assert(output_items@.subrange(0, output_items@.len() as int) =~= output_items@);
    }
    let mut result_items: Vec<FeedItem> = Vec::new();
    let mut w: usize = 0;
    while w < mid.len()
        invariant
            w <= mid.len(),
            mid@ == published_items(tracked_set@ + fresh@, now) + output_items@,
            kept@ == spec_new_tracked(tracked_set@, fresh@, now),
            result_items@ == retained_output(mid@.subrange(0, w as int), kept@),
        decreases mid.len() - w,
    {
        proof {
            assert(mid@.subrange(0, (w + 1) as int).drop_last() =~= mid@.subrange(0, w as int));
            assert(mid@.subrange(0, (w + 1) as int).last() == mid@[w as int]);
        }
        if has_guid(&kept, &mid[w].guid) {
            result_items.push(mid[w].duplicate());
        }
        w = w + 1;
    }
    proof {
        assert(mid@.subrange(0, mid@.len() as int) =~= mid@);
    }
    (kept, result_items)
}


/// Every article of `s` ties its key to its captured item.
pub open spec fn all_wf(s: Seq<TrackedArticle>) -> bool {
    forall|i: int| 0 <= i < s.len() ==> (#[trigger] s[i]).wf()
}

/// No two articles of `s` share a guid.
pub open spec fn unique_guids(s: Seq<TrackedArticle>) -> bool {
    forall|i: int, j: int| 0 <= i < j < s.len() ==> s[i].guid@ != s[j].guid@
}

proof fn lemma_advanced_all_index(s: Seq<TrackedArticle>, now: i64)
    ensures
        advanced_all(s, now).len() == s.len(),
        forall|i: int| 0 <= i < s.len() ==> advanced_all(s, now)[i] == advance(s[i], now),
    decreases s.len(),
{
    if s.len() > 0 {
        lemma_advanced_all_index(s.drop_last(), now);
        assert forall|i: int| 0 <= i < s.len() implies advanced_all(s, now)[i] == advance(
            s[i],
            now,
        ) by {
            if i < s.len() - 1 {
                assert(s.drop_last()[i] == s[i]);
                assert(advanced_all(s, now)[i] == advanced_all(s.drop_last(), now)[i]);
            }
        }
    }
}

proof fn lemma_advanced_kept_contains(s: Seq<TrackedArticle>, now: i64, i: int)
    requires
        0 <= i < s.len(),
        advance(s[i], now).spec_should_still_track(now),
    ensures
        advanced_kept(s, now).contains(advance(s[i], now)),
    decreases s.len(),
{
    let r = advanced_kept(s, now);
    if i == s.len() - 1 {
        assert(r.last() == advance(s[i], now));
        assert(r.contains(advance(s[i], now)));
    } else {
        lemma_advanced_kept_contains(s.drop_last(), now, i);
        assert(s.drop_last()[i] == s[i]);
        let rest = advanced_kept(s.drop_last(), now);
        let k = choose|k: int| 0 <= k < rest.len() && rest[k] == advance(s[i], now);
        assert(r[k] == advance(s[i], now));
    }
}

proof fn lemma_advanced_kept_src(s: Seq<TrackedArticle>, now: i64, k: int)
    requires
        0 <= k < advanced_kept(s, now).len(),
    ensures
        exists|i: int|
            0 <= i < s.len() && advanced_kept(s, now)[k] == advance(s[i], now) && advance(
                s[i],
                now,
            ).spec_should_still_track(now),
    decreases s.len(),
{
    let rest = advanced_kept(s.drop_last(), now);
    if k < rest.len() {
        lemma_advanced_kept_src(s.drop_last(), now, k);
        let i = choose|i: int|
            0 <= i < s.drop_last().len() && rest[k] == advance(s.drop_last()[i], now) && advance(
                s.drop_last()[i],
                now,
            ).spec_should_still_track(now);
        assert(s.drop_last()[i] == s[i]);
        assert(advanced_kept(s, now)[k] == advance(s[i], now));
    } else {
        assert(advanced_kept(s, now)[k] == advance(s[s.len() - 1], now));
    }
}

proof fn lemma_published_contains(s: Seq<TrackedArticle>, now: i64, i: int)
    requires
        0 <= i < s.len(),
        s[i].spec_should_publish(now),
    ensures
        published_items(s, now).contains(s[i].item),
    decreases s.len(),
{
    let r = published_items(s, now);
    if i == s.len() - 1 {
        assert(r[0] == s[i].item);
    } else {
        lemma_published_contains(s.drop_last(), now, i);
        assert(s.drop_last()[i] == s[i]);
        let rest = published_items(s.drop_last(), now);
        let k = choose|k: int| 0 <= k < rest.len() && rest[k] == s[i].item;
        if s.last().spec_should_publish(now) {
            assert(r[k + 1] == rest[k]);
        } else {
            assert(r[k] == rest[k]);
        }
    }
}

proof fn lemma_published_src(s: Seq<TrackedArticle>, now: i64, k: int)
    requires
        0 <= k < published_items(s, now).len(),
    ensures
        exists|i: int|
            0 <= i < s.len() && s[i].spec_should_publish(now) && published_items(s, now)[k]
                == s[i].item,
    decreases s.len(),
{
    let r = published_items(s, now);
    let rest = published_items(s.drop_last(), now);
    if s.last().spec_should_publish(now) && k == 0 {
        assert(r[0] == s[s.len() - 1].item);
    } else {
        let kk = if s.last().spec_should_publish(now) { k - 1 } else { k };
        assert(r[k] == rest[kk]);
        lemma_published_src(s.drop_last(), now, kk);
        let i = choose|i: int|
            0 <= i < s.drop_last().len() && s.drop_last()[i].spec_should_publish(now)
                && rest[kk] == s.drop_last()[i].item;
        assert(s.drop_last()[i] == s[i]);
    }
}

proof fn lemma_retained_contains(items: Seq<FeedItem>, tracked_set: Seq<TrackedArticle>, i: int)
    requires
        0 <= i < items.len(),
        tracked_has_guid(tracked_set, items[i].guid@),
    ensures
        retained_output(items, tracked_set).contains(items[i]),
    decreases items.len(),
{
    let r = retained_output(items, tracked_set);
    if i == items.len() - 1 {
        assert(r.last() == items[i]);
        assert(r.contains(items[i]));
    } else {
        lemma_retained_contains(items.drop_last(), tracked_set, i);
        assert(items.drop_last()[i] == items[i]);
        let rest = retained_output(items.drop_last(), tracked_set);
        let k = choose|k: int| 0 <= k < rest.len() && rest[k] == items[i];
        assert(r[k] == items[i]);
    }
}

proof fn lemma_retained_src(items: Seq<FeedItem>, tracked_set: Seq<TrackedArticle>, k: int)
    requires
        0 <= k < retained_output(items, tracked_set).len(),
    ensures
        items.contains(retained_output(items, tracked_set)[k]),
        tracked_has_guid(tracked_set, retained_output(items, tracked_set)[k].guid@),
    decreases items.len(),
{
    let r = retained_output(items, tracked_set);
    let rest = retained_output(items.drop_last(), tracked_set);
    if k < rest.len() {
        lemma_retained_src(items.drop_last(), tracked_set, k);
        let i = choose|i: int| 0 <= i < items.drop_last().len() && items.drop_last()[i] == rest[k];
        assert(items[i] == rest[k]);
        assert(r[k] == rest[k]);
    } else {
        assert(r[k] == items.last());
        assert(items[items.len() - 1] == items.last());
    }
}


/// A newly seen article whose publication is due is published by the run
/// that first sees it: it stands in the new tracked set marked published
/// now, and its payload stands in the new output items.
pub proof fn lemma_due_new_item_published(
    tracked_set: Seq<TrackedArticle>,
    output: Seq<FeedItem>,
    fresh: Seq<TrackedArticle>,
    now: i64,
    k: int,
)
    requires
        0 <= k < fresh.len(),
        fresh[k].wf(),
        fresh[k].spec_should_publish(now),
    ensures
        spec_new_tracked(tracked_set, fresh, now).contains(advance(fresh[k], now)),
        advance(fresh[k], now).published == Some(now),
        spec_output_items(tracked_set, output, fresh, now).contains(fresh[k].item),
{
    let t2 = spec_new_tracked(tracked_set, fresh, now);
    let kept = advanced_kept(tracked_set, now);
    lemma_advanced_all_index(fresh, now);
    let a = advance(fresh[k], now);
    assert(t2[kept.len() + k] == a);
    assert(t2.contains(a));
    assert(a.guid@ == fresh[k].guid@);
    assert(tracked_has_guid(t2, fresh[k].item.guid@));
    let cat = tracked_set + fresh;
    assert(cat[tracked_set.len() + k] == fresh[k]);
    lemma_published_contains(cat, now, tracked_set.len() + k);
    let pubs = published_items(cat, now);
    let p = choose|p: int| 0 <= p < pubs.len() && pubs[p] == fresh[k].item;
    let mid = pubs + output;
    assert(mid[p] == fresh[k].item);
    lemma_retained_contains(mid, t2, p);
}

/// A free article first seen by a run is published by that run: it stands
/// in the new tracked set marked published now, and its payload stands in
/// the new output items.
pub proof fn lemma_free_item_publishes(
    tracked_set: Seq<TrackedArticle>,
    output: Seq<FeedItem>,
    fresh: Seq<TrackedArticle>,
    now: i64,
    k: int,
)
    requires
        0 <= k < fresh.len(),
        fresh[k].wf(),
        fresh[k].published is None,
        fresh[k].article_type is Free,
    ensures
        spec_new_tracked(tracked_set, fresh, now).contains(advance(fresh[k], now)),
        advance(fresh[k], now).published == Some(now),
        spec_output_items(tracked_set, output, fresh, now).contains(fresh[k].item),
{
    lemma_due_new_item_published(tracked_set, output, fresh, now, k);
}

/// An embargoed article first seen by a run at or after its release date
/// is published by that run.
pub proof fn lemma_paid_item_releases(
    tracked_set: Seq<TrackedArticle>,
    output: Seq<FeedItem>,
    fresh: Seq<TrackedArticle>,
    now: i64,
    k: int,
    d: i64,
)
    requires
        0 <= k < fresh.len(),
        fresh[k].wf(),
        fresh[k].published is None,
        fresh[k].article_type == ArticleType::Paid(d),
        now >= d,
    ensures
        spec_new_tracked(tracked_set, fresh, now).contains(advance(fresh[k], now)),
        advance(fresh[k], now).published == Some(now),
        spec_output_items(tracked_set, output, fresh, now).contains(fresh[k].item),
{
    lemma_due_new_item_published(tracked_set, output, fresh, now, k);
}

/// An already-tracked embargoed article is published by the first run at
/// or after its release date: it stands in the new tracked set marked
/// published now, and its payload stands in the new output items.
pub proof fn lemma_tracked_paid_releases(
    tracked_set: Seq<TrackedArticle>,
    output: Seq<FeedItem>,
    fresh: Seq<TrackedArticle>,
    now: i64,
    i: int,
    d: i64,
)
    requires
        0 <= i < tracked_set.len(),
        tracked_set[i].wf(),
        tracked_set[i].published is None,
        tracked_set[i].article_type == ArticleType::Paid(d),
        now >= d,
    ensures
        spec_new_tracked(tracked_set, fresh, now).contains(advance(tracked_set[i], now)),
        advance(tracked_set[i], now).published == Some(now),
        spec_output_items(tracked_set, output, fresh, now).contains(tracked_set[i].item),
{
    let t2 = spec_new_tracked(tracked_set, fresh, now);
    let kept = advanced_kept(tracked_set, now);
    let a = advance(tracked_set[i], now);
    assert(a.spec_should_still_track(now));
    lemma_advanced_kept_contains(tracked_set, now, i);
    let k = choose|k: int| 0 <= k < kept.len() && kept[k] == a;
    assert(t2[k] == a);
    assert(t2.contains(a));
    assert(tracked_has_guid(t2, tracked_set[i].item.guid@));
    let cat = tracked_set + fresh;
    assert(cat[i] == tracked_set[i]);
    lemma_published_contains(cat, now, i);
    let pubs = published_items(cat, now);
    let p = choose|p: int| 0 <= p < pubs.len() && pubs[p] == tracked_set[i].item;
    let mid = pubs + output;
    assert(mid[p] == tracked_set[i].item);
    lemma_retained_contains(mid, t2, p);
}

/// Before its release date an embargoed, unpublished article never reaches
/// the output feed: when every known article carrying its guid is embargoed
/// until `d` and unpublished, the old output has no item under the guid and
/// `now` lies before `d`, the new output has no item under the guid either,
/// and the guid is still tracked unpublished whenever it was known.
pub proof fn lemma_paid_item_waits(
    tracked_set: Seq<TrackedArticle>,
    output: Seq<FeedItem>,
    fresh: Seq<TrackedArticle>,
    now: i64,
    g: Seq<char>,
    d: i64,
)
    requires
        now < d,
        all_wf(tracked_set + fresh),
        forall|i: int|
            0 <= i < (tracked_set + fresh).len() && (#[trigger] (tracked_set + fresh)[i]).guid@
                == g ==> (tracked_set + fresh)[i].article_type == ArticleType::Paid(d) && (
            tracked_set + fresh)[i].published is None,
        !items_have_guid(output, g),
    ensures
        !items_have_guid(spec_output_items(tracked_set, output, fresh, now), g),
        forall|k: int|
            0 <= k < spec_new_tracked(tracked_set, fresh, now).len() && (
            #[trigger] spec_new_tracked(tracked_set, fresh, now)[k]).guid@ == g ==> spec_new_tracked(
                tracked_set,
                fresh,
                now,
            )[k].published is None,
{
    let cat = tracked_set + fresh;
    let t2 = spec_new_tracked(tracked_set, fresh, now);
    let o2 = spec_output_items(tracked_set, output, fresh, now);
    let pubs = published_items(cat, now);
    let mid = pubs + output;
    assert forall|p: int| 0 <= p < mid.len() implies (#[trigger] mid[p]).guid@ != g by {
        if p < pubs.len() {
            lemma_published_src(cat, now, p);
            let i = choose|i: int|
                0 <= i < cat.len() && cat[i].spec_should_publish(now) && pubs[p] == cat[i].item;
            assert(cat[i].wf());
            if cat[i].item.guid@ == g {
                assert(cat[i].guid@ == g);
                assert(cat[i].article_type == ArticleType::Paid(d));
                assert(!cat[i].spec_should_publish(now));
            }
        } else {
            assert(mid[p] == output[p - pubs.len()]);
        }
    }
    assert forall|j: int| 0 <= j < o2.len() implies (#[trigger] o2[j]).guid@ != g by {
        lemma_retained_src(mid, t2, j);
        let p = choose|p: int| 0 <= p < mid.len() && mid[p] == o2[j];
    }
    assert(!items_have_guid(o2, g));
    let kept = advanced_kept(tracked_set, now);
    lemma_advanced_all_index(fresh, now);
    assert forall|k: int| 0 <= k < t2.len() && (#[trigger] t2[k]).guid@ == g implies t2[k].published
        is None by {
        if k < kept.len() {
            lemma_advanced_kept_src(tracked_set, now, k);
            let i = choose|i: int|
                0 <= i < tracked_set.len() && kept[k] == advance(tracked_set[i], now) && advance(
                    tracked_set[i],
                    now,
                ).spec_should_still_track(now);
            assert(cat[i] == tracked_set[i]);
            assert(tracked_set[i].guid@ == g);
            assert(!tracked_set[i].spec_should_publish(now));
        } else {
            let j = k - kept.len();
            assert(t2[k] == advance(fresh[j], now));
            assert(cat[tracked_set.len() + j] == fresh[j]);
            assert(fresh[j].guid@ == g);
            assert(!fresh[j].spec_should_publish(now));
        }
    }
}

/// Within a week of publication a published article survives a run: it
/// stays in the tracked set unchanged and its payload stays in the output.
pub proof fn lemma_retention_keeps(
    tracked_set: Seq<TrackedArticle>,
    output: Seq<FeedItem>,
    fresh: Seq<TrackedArticle>,
    now: i64,
    i: int,
    p: i64,
)
    requires
        0 <= i < tracked_set.len(),
        tracked_set[i].wf(),
        tracked_set[i].published == Some(p),
        now - p <= crate::article::WEEK_SECONDS,
        output.contains(tracked_set[i].item),
    ensures
        spec_new_tracked(tracked_set, fresh, now).contains(tracked_set[i]),
        spec_output_items(tracked_set, output, fresh, now).contains(tracked_set[i].item),
{
    let t2 = spec_new_tracked(tracked_set, fresh, now);
    let kept = advanced_kept(tracked_set, now);
    assert(advance(tracked_set[i], now) == tracked_set[i]);
    lemma_advanced_kept_contains(tracked_set, now, i);
    let k = choose|k: int| 0 <= k < kept.len() && kept[k] == tracked_set[i];
    assert(t2[k] == tracked_set[i]);
    assert(t2.contains(tracked_set[i]));
    assert(tracked_has_guid(t2, tracked_set[i].item.guid@));
    let cat = tracked_set + fresh;
    let pubs = published_items(cat, now);
    let mid = pubs + output;
    let j = choose|j: int| 0 <= j < output.len() && output[j] == tracked_set[i].item;
    assert(mid[pubs.len() + j] == tracked_set[i].item);
    lemma_retained_contains(mid, t2, pubs.len() + j);
}

/// One week after publication an article is forgotten, and forgetting is
/// atomic: a tracked article published more than a week before `now` has,
/// after the run, its guid gone from the tracked set and from the output
/// items alike. One article per guid — the tracked set's invariant — rules
/// out a second bearer of the guid surviving.
pub proof fn lemma_retention_drops(
    tracked_set: Seq<TrackedArticle>,
    output: Seq<FeedItem>,
    fresh: Seq<TrackedArticle>,
    now: i64,
    i: int,
)
    requires
        0 <= i < tracked_set.len(),
        tracked_set[i].published is Some,
        now - tracked_set[i].published.unwrap() > crate::article::WEEK_SECONDS,
        unique_guids(tracked_set + fresh),
    ensures
        !tracked_has_guid(spec_new_tracked(tracked_set, fresh, now), tracked_set[i].guid@),
        !items_have_guid(
            spec_output_items(tracked_set, output, fresh, now),
            tracked_set[i].guid@,
        ),
{
    let g = tracked_set[i].guid@;
    let cat0 = tracked_set + fresh;
    assert forall|j: int|
        0 <= j < tracked_set.len() && (#[trigger] tracked_set[j]).guid@ == g implies (
    tracked_set[j].published is Some && now - tracked_set[j].published.unwrap()
        > crate::article::WEEK_SECONDS) by {
        if j != i {
            assert(cat0[i] == tracked_set[i]);
            assert(cat0[j] == tracked_set[j]);
        }
    }
    assert forall|j: int| 0 <= j < fresh.len() implies (#[trigger] fresh[j]).guid@ != g by {
        assert(cat0[i] == tracked_set[i]);
        assert(cat0[tracked_set.len() + j] == fresh[j]);
    }
    assert(!tracked_has_guid(fresh, g));
    let t2 = spec_new_tracked(tracked_set, fresh, now);
    let o2 = spec_output_items(tracked_set, output, fresh, now);
    let kept = advanced_kept(tracked_set, now);
    lemma_advanced_all_index(fresh, now);
    assert forall|k: int| 0 <= k < t2.len() implies (#[trigger] t2[k]).guid@ != g by {
        if k < kept.len() {
            lemma_advanced_kept_src(tracked_set, now, k);
            let i = choose|i: int|
                0 <= i < tracked_set.len() && kept[k] == advance(tracked_set[i], now) && advance(
                    tracked_set[i],
                    now,
                ).spec_should_still_track(now);
            if tracked_set[i].guid@ == g {
                assert(advance(tracked_set[i], now) == tracked_set[i]);
                assert(!tracked_set[i].spec_should_still_track(now));
            }
        } else {
            let j = k - kept.len();
            assert(t2[k] == advance(fresh[j], now));
            if fresh[j].guid@ == g {
                assert(tracked_has_guid(fresh, g));
            }
        }
    }
    assert(!tracked_has_guid(t2, g));
    let cat = tracked_set + fresh;
    let mid = published_items(cat, now) + output;
    assert forall|j: int| 0 <= j < o2.len() implies (#[trigger] o2[j]).guid@ != g by {
        lemma_retained_src(mid, t2, j);
        if o2[j].guid@ == g {
            assert(tracked_has_guid(t2, g));
        }
    }
    assert(!items_have_guid(o2, g));
}


/// The persisted state is consistent when the output items are exactly the
/// payloads of the published tracked articles: none missing, none stray.
pub open spec fn consistent(tracked_set: Seq<TrackedArticle>, output: Seq<FeedItem>) -> bool {
    &&& forall|i: int|
        0 <= i < tracked_set.len() && (#[trigger] tracked_set[i]).published is Some
            ==> output.contains(tracked_set[i].item)
    &&& forall|j: int|
        0 <= j < output.len() ==> exists|i: int|
            0 <= i < tracked_set.len() && #[trigger] tracked_set[i].published is Some
                && tracked_set[i].item == #[trigger] output[j]
}

/// Every run preserves output-feed consistency: starting from a tracked
/// set and output feed that agree, with well-formed articles, one article
/// per guid, and new articles not yet published, the run's results agree
/// again.
pub proof fn lemma_run_consistent(
    tracked_set: Seq<TrackedArticle>,
    output: Seq<FeedItem>,
    fresh: Seq<TrackedArticle>,
    now: i64,
)
    requires
        all_wf(tracked_set + fresh),
        unique_guids(tracked_set + fresh),
        forall|j: int| 0 <= j < fresh.len() ==> (#[trigger] fresh[j]).published is None,
        consistent(tracked_set, output),
    ensures
        consistent(
            spec_new_tracked(tracked_set, fresh, now),
            spec_output_items(tracked_set, output, fresh, now),
        ),
{
    let cat = tracked_set + fresh;
    let t2 = spec_new_tracked(tracked_set, fresh, now);
    let o2 = spec_output_items(tracked_set, output, fresh, now);
    let kept = advanced_kept(tracked_set, now);
    let pubs = published_items(cat, now);
    let mid = pubs + output;
    lemma_advanced_all_index(fresh, now);
    assert forall|i: int| 0 <= i < tracked_set.len() implies cat[i] == tracked_set[i] by {}
    assert forall|j: int| 0 <= j < fresh.len() implies cat[tracked_set.len() + j] == fresh[j] by {}
    // every published article of the new tracked set has its payload in
    // the new output
    assert forall|k: int| 0 <= k < t2.len() && (#[trigger] t2[k]).published is Some implies
        o2.contains(t2[k].item) by {
        assert(tracked_has_guid(t2, t2[k].guid@));
        if k < kept.len() {
            lemma_advanced_kept_src(tracked_set, now, k);
            let i = choose|i: int|
                0 <= i < tracked_set.len() && kept[k] == advance(tracked_set[i], now) && advance(
                    tracked_set[i],
                    now,
                ).spec_should_still_track(now);
            assert(tracked_set[i].wf());
            if tracked_set[i].spec_should_publish(now) {
                lemma_published_contains(cat, now, i);
                let p = choose|p: int| 0 <= p < pubs.len() && pubs[p] == tracked_set[i].item;
                assert(mid[p] == tracked_set[i].item);
                assert(t2[k].item == tracked_set[i].item);
                assert(t2[k].guid@ == tracked_set[i].item.guid@);
                lemma_retained_contains(mid, t2, p);
            } else {
                assert(t2[k] == tracked_set[i]);
                assert(tracked_set[i].published is Some);
                assert(output.contains(tracked_set[i].item));
                let j = choose|j: int| 0 <= j < output.len() && output[j] == tracked_set[i].item;
                assert(mid[pubs.len() + j] == tracked_set[i].item);
                assert(t2[k].guid@ == tracked_set[i].item.guid@);
                lemma_retained_contains(mid, t2, pubs.len() + j);
            }
        } else {
            let j = k - kept.len();
            assert(t2[k] == advance(fresh[j], now));
            assert(fresh[j].published is None);
            assert(fresh[j].spec_should_publish(now));
            assert(fresh[j].wf());
            lemma_published_contains(cat, now, tracked_set.len() + j);
            let p = choose|p: int| 0 <= p < pubs.len() && pubs[p] == fresh[j].item;
            assert(mid[p] == fresh[j].item);
            assert(t2[k].guid@ == fresh[j].item.guid@);
            lemma_retained_contains(mid, t2, p);
        }
    }
    // every new output item is the payload of some published article of
    // the new tracked set
    assert forall|w: int| 0 <= w < o2.len() implies exists|k: int|
        0 <= k < t2.len() && #[trigger] t2[k].published is Some && t2[k].item == #[trigger] o2[w]
        by {
        lemma_retained_src(mid, t2, w);
        let p = choose|p: int| 0 <= p < mid.len() && mid[p] == o2[w];
        if p < pubs.len() {
            lemma_published_src(cat, now, p);
            let i = choose|i: int|
                0 <= i < cat.len() && cat[i].spec_should_publish(now) && pubs[p] == cat[i].item;
            let a = advance(cat[i], now);
            assert(a.published == Some(now));
            assert(a.spec_should_still_track(now));
            if i < tracked_set.len() {
                lemma_advanced_kept_contains(tracked_set, now, i);
                let k = choose|k: int| 0 <= k < kept.len() && kept[k] == a;
                assert(t2[k] == a);
                assert(t2[k].published is Some && t2[k].item == o2[w]);
            } else {
                let j = i - tracked_set.len();
                let k = kept.len() + j;
                assert(t2[k] == advance(fresh[j], now));
                assert(t2[k].published is Some && t2[k].item == o2[w]);
            }
        } else {
            let j = p - pubs.len();
            assert(mid[p] == output[j]);
            let i = choose|i: int|
                0 <= i < tracked_set.len() && #[trigger] tracked_set[i].published is Some
                    && tracked_set[i].item == output[j];
            assert(tracked_set[i].wf());
            assert(o2[w].guid@ == tracked_set[i].guid@);
            // the guid survives into the new tracked set, and by guid
            // uniqueness its only possible source is this same article,
            // so it was kept
            let k = choose|k: int| 0 <= k < t2.len() && t2[k].guid@ == o2[w].guid@;
            if k < kept.len() {
                lemma_advanced_kept_src(tracked_set, now, k);
                let i2 = choose|i2: int|
                    0 <= i2 < tracked_set.len() && kept[k] == advance(tracked_set[i2], now)
                        && advance(tracked_set[i2], now).spec_should_still_track(now);
                assert(t2[k].guid@ == tracked_set[i2].guid@);
                if i2 != i {
                    assert(cat[i].guid@ == cat[i2].guid@ && i != i2);
                    assert(false);
                }
                assert(advance(tracked_set[i], now) == tracked_set[i]);
                assert(t2[k] == tracked_set[i]);
                assert(t2[k].published is Some && t2[k].item == o2[w]);
            } else {
                let j2 = k - kept.len();
                assert(t2[k] == advance(fresh[j2], now));
                assert(fresh[j2].guid@ == tracked_set[i].guid@);
                assert(cat[i].guid@ == cat[tracked_set.len() + j2].guid@);
                assert(false);
            }
        }
    }
}

proof fn lemma_advanced_kept_identity(s: Seq<TrackedArticle>, now: i64)
    requires
        forall|i: int|
            0 <= i < s.len() ==> !(#[trigger] s[i]).spec_should_publish(now)
                && s[i].spec_should_still_track(now),
    ensures
        advanced_kept(s, now) == s,
    decreases s.len(),
{
    if s.len() == 0 {
        assert(advanced_kept(s, now) =~= s);
    } else {
        assert(forall|i: int| 0 <= i < s.drop_last().len() ==> s.drop_last()[i] == s[i]);
        lemma_advanced_kept_identity(s.drop_last(), now);
        assert(advance(s.last(), now) == s.last());
        assert(advanced_kept(s, now) =~= s);
    }
}

proof fn lemma_published_items_empty(s: Seq<TrackedArticle>, now: i64)
    requires
        forall|i: int| 0 <= i < s.len() ==> !(#[trigger] s[i]).spec_should_publish(now),
    ensures
        published_items(s, now) == Seq::<FeedItem>::empty(),
    decreases s.len(),
{
    if s.len() > 0 {
        assert(forall|i: int| 0 <= i < s.drop_last().len() ==> s.drop_last()[i] == s[i]);
        lemma_published_items_empty(s.drop_last(), now);
    }
}

proof fn lemma_retained_identity(items: Seq<FeedItem>, tracked_set: Seq<TrackedArticle>)
    requires
        forall|j: int|
            0 <= j < items.len() ==> tracked_has_guid(tracked_set, (#[trigger] items[j]).guid@),
    ensures
        retained_output(items, tracked_set) == items,
    decreases items.len(),
{
    if items.len() == 0 {
        assert(retained_output(items, tracked_set) =~= items);
    } else {
        assert(forall|j: int|
            0 <= j < items.drop_last().len() ==> items.drop_last()[j] == items[j]);
        lemma_retained_identity(items.drop_last(), tracked_set);
        assert(retained_output(items, tracked_set) =~= items);
    }
}

/// A second run straight after a first one — same upstream items, same
/// time — is a no-op: it classifies nothing new, and leaves the tracked
/// set and the output items exactly as the first run left them. This asks
/// that every upstream guid is still tracked after the first run; an
/// upstream item whose article the first run just forgot would be
/// reclassified instead.
pub proof fn lemma_rerun_stable(
    tracked_set: Seq<TrackedArticle>,
    output: Seq<FeedItem>,
    fresh: Seq<TrackedArticle>,
    input: Seq<FeedItem>,
    now: i64,
)
    requires
        forall|j: int| 0 <= j < fresh.len() ==> (#[trigger] fresh[j]).published is None,
        forall|i: int|
            0 <= i < input.len() ==> tracked_has_guid(
                spec_new_tracked(tracked_set, fresh, now),
                (#[trigger] input[i]).guid@,
            ),
    ensures
        spec_fresh_upstream(input, spec_new_tracked(tracked_set, fresh, now)) == Seq::<
            FeedItem,
        >::empty(),
        spec_new_tracked(spec_new_tracked(tracked_set, fresh, now), Seq::empty(), now)
            == spec_new_tracked(tracked_set, fresh, now),
        spec_output_items(
            spec_new_tracked(tracked_set, fresh, now),
            spec_output_items(tracked_set, output, fresh, now),
            Seq::empty(),
            now,
        ) == spec_output_items(tracked_set, output, fresh, now),
{
    let t2 = spec_new_tracked(tracked_set, fresh, now);
    let o2 = spec_output_items(tracked_set, output, fresh, now);
    let kept = advanced_kept(tracked_set, now);
    lemma_advanced_all_index(fresh, now);
    lemma_no_fresh_when_tracked(input, t2);
    // after a run no article is due and every article is within retention
    assert forall|k: int|
        0 <= k < t2.len() implies !(#[trigger] t2[k]).spec_should_publish(now)
        && t2[k].spec_should_still_track(now) by {
        if k < kept.len() {
            lemma_advanced_kept_src(tracked_set, now, k);
            let i = choose|i: int|
                0 <= i < tracked_set.len() && kept[k] == advance(tracked_set[i], now) && advance(
                    tracked_set[i],
                    now,
                ).spec_should_still_track(now);
            assert(t2[k] == advance(tracked_set[i], now));
        } else {
            let j = k - kept.len();
            assert(t2[k] == advance(fresh[j], now));
            assert(fresh[j].published is None);
        }
    }
    lemma_advanced_kept_identity(t2, now);
    assert(advanced_all(Seq::empty(), now) =~= Seq::<TrackedArticle>::empty());
    assert(spec_new_tracked(t2, Seq::empty(), now) =~= t2);
    assert(t2 + Seq::<TrackedArticle>::empty() =~= t2);
    lemma_published_items_empty(t2 + Seq::empty(), now);
    let mid2 = published_items(t2 + Seq::empty(), now) + o2;
    assert(mid2 =~= o2);
    assert forall|j: int| 0 <= j < o2.len() implies tracked_has_guid(
        spec_new_tracked(t2, Seq::empty(), now),
        (#[trigger] o2[j]).guid@,
    ) by {
        let cat = tracked_set + fresh;
        let mid = published_items(cat, now) + o2;
        lemma_retained_src(published_items(cat, now) + output, t2, j);
    }
    lemma_retained_identity(o2, spec_new_tracked(t2, Seq::empty(), now));
    assert(spec_output_items(t2, o2, Seq::empty(), now) == retained_output(
        mid2,
        spec_new_tracked(t2, Seq::empty(), now),
    ));
    assert(retained_output(mid2, spec_new_tracked(t2, Seq::empty(), now)) == retained_output(
        o2,
        spec_new_tracked(t2, Seq::empty(), now),
    ));
}

/// When every upstream item's guid is already tracked, a run classifies
/// nothing.
pub proof fn lemma_no_fresh_when_tracked(input: Seq<FeedItem>, tracked_set: Seq<TrackedArticle>)
    requires
        forall|i: int|
            0 <= i < input.len() ==> tracked_has_guid(tracked_set, (#[trigger] input[i]).guid@),
    ensures
        spec_fresh_upstream(input, tracked_set) == Seq::<FeedItem>::empty(),
    decreases input.len(),
{
    if input.len() > 0 {
        assert(forall|i: int|
            0 <= i < input.drop_last().len() ==> input.drop_last()[i] == input[i]);
        lemma_no_fresh_when_tracked(input.drop_last(), tracked_set);
        assert(input[input.len() - 1] == input.last());
    }
}

} // verus!
