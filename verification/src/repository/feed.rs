use vstd::prelude::*;
use vstd::pervasive::VecAdditionalExecFns;

use crate::error::Error;
use crate::model::feed::{Feed, FeedStatus, FeedToCreate, FeedToUpdate, FeedView};
use crate::seqs::{lemma_filter_distinct_key, lemma_filter_push};
use crate::storage::Storage;
use crate::text::str_eq;

verus! {

/// Whether some feed in `feeds` already uses the (title, link) pair.
pub open spec fn has_title_link(feeds: Seq<FeedView>, title: Seq<char>, link: Seq<char>) -> bool {
    exists|i: int|
        0 <= i < feeds.len() && (#[trigger] feeds[i]).title == title && feeds[i].link == link
}

/// `f` after a partial update: fields the argument leaves `None` are kept.
pub open spec fn updated_feed(f: FeedView, arg: &FeedToUpdate) -> FeedView {
    FeedView {
        id: f.id,
        title: match arg.title {
            Some(t) => t@,
            None => f.title,
        },
        link: match arg.link {
            Some(l) => l@,
            None => f.link,
        },
        status: match arg.status {
            Some(s) => s,
            None => f.status,
        },
        checked_at: match arg.checked_at {
            Some(c) => c,
            None => f.checked_at,
        },
        fetch_old_items: match arg.fetch_old_items {
            Some(b) => b,
            None => f.fetch_old_items,
        },
    }
}

/// Whether a partial update names no field at all; storage rejects such
/// an update, as an UPDATE statement with an empty SET list fails.
pub open spec fn empty_feed_update(arg: &FeedToUpdate) -> bool {
    arg.title is None && arg.link is None && arg.status is None && arg.checked_at is None
        && arg.fetch_old_items is None
}

/// The feeds that survive deleting the feed `id`.
pub open spec fn keep_other_feeds(id: i32) -> spec_fn(FeedView) -> bool {
    |f: FeedView| f.id != id
}

/// The items that survive deleting the feed `id` (the cascade).
pub open spec fn keep_items_of_other_feeds(id: i32) -> spec_fn(
    crate::storage::StoredItemView,
) -> bool {
    |it: crate::storage::StoredItemView| it.feed_id != id
}

/// Everything a partial feed update promises about the registry: an update
/// naming no field fails; an id that matches nothing touches nothing; a
/// matching feed is replaced by its updated value unless the new
/// (title, link) pair would collide with another feed.
pub open spec fn feed_update_post(
    old_feeds: Seq<FeedView>,
    new_feeds: Seq<FeedView>,
    arg: &FeedToUpdate,
    r: Result<usize, Error>,
) -> bool {
    &&& (empty_feed_update(arg) ==> r == Err::<usize, Error>(Error::StorageFailure) && new_feeds
        == old_feeds)
    &&& (!empty_feed_update(arg) && (forall|i: int|
        0 <= i < old_feeds.len() ==> (#[trigger] old_feeds[i]).id != arg.id) ==> r == Ok::<
        usize,
        Error,
    >(0) && new_feeds == old_feeds)
    &&& (!empty_feed_update(arg) ==> forall|k: int|
        0 <= k < old_feeds.len() && (#[trigger] old_feeds[k]).id == arg.id ==> {
            let cand = updated_feed(old_feeds[k], arg);
            if exists|j: int|
                0 <= j < old_feeds.len() && j != k && (#[trigger] old_feeds[j]).title == cand.title
                    && old_feeds[j].link == cand.link {
                r == Err::<usize, Error>(Error::StorageFailure) && new_feeds == old_feeds
            } else {
                r == Ok::<usize, Error>(1) && new_feeds == old_feeds.update(k, cand)
            }
        })
}

/// Registers a new feed, subscribed, with `now` as its first checked time.
/// Fails exactly when the (title, link) pair is already taken or the id
/// space is exhausted.
pub fn create(storage: &mut Storage, arg: &FeedToCreate, now: i64) -> (r: Result<usize, Error>)
    requires
        old(storage).wf(),
    ensures
        final(storage).wf(),
        final(storage).items_view() == old(storage).items_view(),
        final(storage).next_item_id == old(storage).next_item_id,
        ({
            if has_title_link(old(storage).feeds_view(), arg.title@, arg.link@) || old(
                storage,
            ).next_feed_id == i32::MAX {
                &&& r == Err::<usize, Error>(Error::StorageFailure)
                &&& final(storage).feeds_view() == old(storage).feeds_view()
                &&& final(storage).next_feed_id == old(storage).next_feed_id
            } else {
                &&& r == Ok::<usize, Error>(1)
                &&& final(storage).next_feed_id == old(storage).next_feed_id + 1
                &&& final(storage).feeds_view() == old(storage).feeds_view().push(
                    FeedView {
                        id: old(storage).next_feed_id,
                        title: arg.title@,
                        link: arg.link@,
                        status: FeedStatus::Subscribed,
                        checked_at: now,
                        fetch_old_items: arg.fetch_old_items,
                    },
                )
            }
        }),
{
    let ghost s0 = *storage;
    proof {
        assert(s0 == *old(storage));
    }
    let mut k: usize = 0;
    while k < storage.feeds.len()
        invariant
            *storage == s0,
            s0 == *old(storage),
            s0.wf(),
            0 <= k <= storage.feeds.len(),
            forall|j: int|
                0 <= j < k ==> !((#[trigger] storage.feeds_view()[j]).title == arg.title@
                    && storage.feeds_view()[j].link == arg.link@),
        decreases storage.feeds.len() - k,
    {
        if str_eq(storage.feeds[k].title.as_str(), arg.title.as_str()) && str_eq(
            storage.feeds[k].link.as_str(),
            arg.link.as_str(),
        ) {
            assert((#[trigger] storage.feeds_view()[k as int]).title == arg.title@
                && storage.feeds_view()[k as int].link == arg.link@);
            assert(has_title_link(storage.feeds_view(), arg.title@, arg.link@));
            return Err(Error::StorageFailure);
        }
        k = k + 1;
    }
    if storage.next_feed_id == i32::MAX {
        return Err(Error::StorageFailure);
    }
    let feed = Feed {
        id: storage.next_feed_id,
        title: arg.title.clone(),
        link: arg.link.clone(),
        status: FeedStatus::Subscribed,
        checked_at: now,
        fetch_old_items: arg.fetch_old_items,
    };
    storage.feeds.push(feed);
    storage.next_feed_id = storage.next_feed_id + 1;
    proof {
        let newf = FeedView {
            id: s0.next_feed_id,
            title: arg.title@,
            link: arg.link@,
            status: FeedStatus::Subscribed,
            checked_at: now,
            fetch_old_items: arg.fetch_old_items,
        };
        let fv = storage.feeds_view();
        assert(fv =~= s0.feeds_view().push(newf));
        assert(storage.items_view() =~= s0.items_view());
        assert forall|i: int, j: int|
            0 <= i < j < fv.len() implies (#[trigger] fv[i]).id != (#[trigger] fv[j]).id by {
            if j < s0.feeds_view().len() {
                assert(s0.feeds_view()[i].id != s0.feeds_view()[j].id);
            } else {
                assert(fv[j] == newf);
                assert(1 <= (#[trigger] s0.feeds_view()[i]).id < s0.next_feed_id);
            }
        }
        assert forall|i: int, j: int|
            0 <= i < j < fv.len() implies !((#[trigger] fv[i]).title == (#[trigger] fv[j]).title
                && fv[i].link == fv[j].link) by {
            if j < s0.feeds_view().len() {
                assert(!(s0.feeds_view()[i].title == s0.feeds_view()[j].title
                    && s0.feeds_view()[i].link == s0.feeds_view()[j].link));
            } else {
                assert(fv[j] == newf);
                assert(!((#[trigger] s0.feeds_view()[i]).title == arg.title@
                    && s0.feeds_view()[i].link == arg.link@));
            }
        }
        assert forall|i: int|
            0 <= i < fv.len() implies 1 <= (#[trigger] fv[i]).id < storage.next_feed_id by {
            if i < s0.feeds_view().len() {
                assert(1 <= (#[trigger] s0.feeds_view()[i]).id < s0.next_feed_id);
            }
        }
    }
    Ok(1)
}

/// All registered feeds, in insertion order.
pub fn read_all(storage: &Storage) -> (r: Result<Vec<Feed>, Error>)
    ensures
        r matches Ok(v) && v.deep_view() == storage.feeds_view(),
{
    let mut out: Vec<Feed> = Vec::new();
    let mut k: usize = 0;
    while k < storage.feeds.len()
        invariant
            0 <= k <= storage.feeds.len(),
            out.deep_view() =~= storage.feeds_view().subrange(0, k as int),
        decreases storage.feeds.len() - k,
    {
        let ghost out_before = out.deep_view();
        out.push(storage.feeds[k].duplicate());
        proof {
            assert(out.deep_view().len() == out_before.len() + 1);
            assert forall|i: int| 0 <= i < out.deep_view().len() implies out.deep_view()[i]
                == storage.feeds_view().subrange(0, k + 1)[i] by {
                if i < out_before.len() {
                    assert(out.deep_view()[i] == out_before[i]);
                }
            }
            assert(out.deep_view() =~= storage.feeds_view().subrange(0, k + 1));
        }
        k = k + 1;
    }
    proof {
        assert(out.deep_view() =~= storage.feeds_view());
    }
    Ok(out)
}

/// The feed with the given id, if one is registered.
pub fn read(storage: &Storage, id: i32) -> (r: Result<Option<Feed>, Error>)
    ensures
        r matches Ok(o) && match o {
            Some(f) => f@.id == id && storage.feeds_view().contains(f@),
            None => forall|i: int|
                0 <= i < storage.feeds_view().len() ==> (#[trigger] storage.feeds_view()[i]).id
                    != id,
        },
{
    let mut k: usize = 0;
    while k < storage.feeds.len()
        invariant
            0 <= k <= storage.feeds.len(),
            forall|j: int| 0 <= j < k ==> (#[trigger] storage.feeds_view()[j]).id != id,
        decreases storage.feeds.len() - k,
    {
        if storage.feeds[k].id == id {
            let f = storage.feeds[k].duplicate();
            assert(storage.feeds_view()[k as int] == f@);
            return Ok(Some(f));
        }
        k = k + 1;
    }
    Ok(None)
}

/// Applies a partial update to the feed named by `arg.id`. Returns how many
/// feeds matched. Fails exactly when the update names no field, or when the
/// updated (title, link) pair would collide with another feed.
pub fn update(storage: &mut Storage, arg: &FeedToUpdate) -> (r: Result<usize, Error>)
    requires
        old(storage).wf(),
    ensures
        final(storage).wf(),
        final(storage).items_view() == old(storage).items_view(),
        final(storage).next_item_id == old(storage).next_item_id,
        final(storage).next_feed_id == old(storage).next_feed_id,
        feed_update_post(old(storage).feeds_view(), final(storage).feeds_view(), arg, r),
{
    if arg.title.is_none() && arg.link.is_none() && arg.status.is_none() && arg.checked_at.is_none()
        && arg.fetch_old_items.is_none() {
        return Err(Error::StorageFailure);
    }
    let ghost s0 = *storage;
    proof {
        assert(s0 == *old(storage));
    }
    let n = storage.feeds.len();
    let mut k: usize = 0;
    while k < n
        invariant
            *storage == s0,
            s0 == *old(storage),
            s0.wf(),
            !empty_feed_update(arg),
            n == storage.feeds.len(),
            0 <= k <= n,
            forall|j: int| 0 <= j < k ==> (#[trigger] s0.feeds_view()[j]).id != arg.id,
        decreases n - k,
    {
        if storage.feeds[k].id == arg.id {
            proof {
                assert((#[trigger] s0.feeds_view()[k as int]).id == arg.id);
                assert forall|k2: int|
                    0 <= k2 < s0.feeds_view().len() && (#[trigger] s0.feeds_view()[k2]).id
                        == arg.id implies k2 == k as int by {
                    if k2 < k as int {
                        assert(s0.feeds_view()[k2].id != s0.feeds_view()[k as int].id);
                    } else if k2 > k as int {
                        assert(s0.feeds_view()[k as int].id != s0.feeds_view()[k2].id);
                    }
                }
            }
            let stored = &storage.feeds[k];
            let cand = Feed {
                id: stored.id,
                title: match &arg.title {
                    Some(t) => t.clone(),
                    None => stored.title.clone(),
                },
                link: match &arg.link {
                    Some(l) => l.clone(),
                    None => stored.link.clone(),
                },
                status: match arg.status {
                    Some(s) => s,
                    None => stored.status,
                },
                checked_at: match arg.checked_at {
                    Some(c) => c,
                    None => stored.checked_at,
                },
                fetch_old_items: match arg.fetch_old_items {
                    Some(b) => b,
                    None => stored.fetch_old_items,
                },
            };
            assert(cand@ == updated_feed(s0.feeds_view()[k as int], arg));
            let mut j: usize = 0;
            while j < n
                invariant
                    *storage == s0,
                    s0 == *old(storage),
                    s0.wf(),
                    !empty_feed_update(arg),
                    n == storage.feeds.len(),
                    0 <= j <= n,
                    k < n,
                    s0.feeds_view()[k as int].id == arg.id,
                    forall|k2: int|
                        0 <= k2 < s0.feeds_view().len() && (#[trigger] s0.feeds_view()[k2]).id
                            == arg.id ==> k2 == k as int,
                    cand@ == updated_feed(s0.feeds_view()[k as int], arg),
                    forall|w: int|
                        0 <= w < j && w != k ==> !((#[trigger] s0.feeds_view()[w]).title
                            == cand@.title && s0.feeds_view()[w].link == cand@.link),
                decreases n - j,
            {
                if j != k && str_eq(storage.feeds[j].title.as_str(), cand.title.as_str()) && str_eq(
                    storage.feeds[j].link.as_str(),
                    cand.link.as_str(),
                ) {
                    proof {
                        assert((#[trigger] s0.feeds_view()[j as int]).title == cand@.title
                            && s0.feeds_view()[j as int].link == cand@.link);
                    }
                    return Err(Error::StorageFailure);
                }
                j = j + 1;
            }
            let ghost candv = cand@;
            storage.feeds.set(k, cand);
            proof {
                let fv = storage.feeds_view();
                assert(fv =~= s0.feeds_view().update(k as int, candv));
                assert(storage.items_view() =~= s0.items_view());
                assert(candv.id == s0.feeds_view()[k as int].id);
                assert forall|i: int, j2: int|
                    0 <= i < j2 < fv.len() implies (#[trigger] fv[i]).id != (#[trigger] fv[j2]).id by {
                    assert(s0.feeds_view()[i].id != s0.feeds_view()[j2].id);
                    assert(fv[i].id == s0.feeds_view()[i].id);
                    assert(fv[j2].id == s0.feeds_view()[j2].id);
                }
                assert forall|i: int, j2: int|
                    0 <= i < j2 < fv.len() implies !((#[trigger] fv[i]).title
                        == (#[trigger] fv[j2]).title && fv[i].link == fv[j2].link) by {
                    if i != k as int && j2 != k as int {
                        assert(!(s0.feeds_view()[i].title == s0.feeds_view()[j2].title
                            && s0.feeds_view()[i].link == s0.feeds_view()[j2].link));
                    } else if i == k as int {
                        assert(fv[j2] == s0.feeds_view()[j2]);
                        assert(!((#[trigger] s0.feeds_view()[j2]).title == candv.title
                            && s0.feeds_view()[j2].link == candv.link));
                    } else {
                        assert(fv[i] == s0.feeds_view()[i]);
                        assert(!((#[trigger] s0.feeds_view()[i]).title == candv.title
                            && s0.feeds_view()[i].link == candv.link));
                    }
                }
                assert forall|i: int|
                    0 <= i < fv.len() implies 1 <= (#[trigger] fv[i]).id < storage.next_feed_id by {
                    assert(1 <= (#[trigger] s0.feeds_view()[i]).id < s0.next_feed_id);
                    assert(fv[i].id == s0.feeds_view()[i].id);
                }
                let ofv = old(storage).feeds_view();
                assert(ofv == s0.feeds_view());
                assert forall|j2: int|
                    0 <= j2 < ofv.len() && j2 != k as int implies !((#[trigger] ofv[j2]).title
                        == candv.title && ofv[j2].link == candv.link) by {
                    assert(!((#[trigger] s0.feeds_view()[j2]).title == candv.title
                        && s0.feeds_view()[j2].link == candv.link));
                }
                assert forall|k2: int|
                    0 <= k2 < ofv.len() && (#[trigger] ofv[k2]).id == arg.id implies k2 == k as int
                    && updated_feed(ofv[k2], arg) == candv by {
                    assert((#[trigger] s0.feeds_view()[k2]).id == arg.id);
                }
            }
            return Ok(1);
        }
        k = k + 1;
    }
    Ok(0)
}

/// Deletes the feed with the given id and, by the schema's cascade, every
/// item that belongs to it. Returns how many feeds were removed.
pub fn delete(storage: &mut Storage, id: i32) -> (r: Result<usize, Error>)
    requires
        old(storage).wf(),
    ensures
        final(storage).wf(),
        final(storage).next_item_id == old(storage).next_item_id,
        final(storage).next_feed_id == old(storage).next_feed_id,
        final(storage).feeds_view() == old(storage).feeds_view().filter(keep_other_feeds(id)),
        final(storage).items_view() == old(storage).items_view().filter(keep_items_of_other_feeds(id)),
        r matches Ok(n) && n == old(storage).feeds_view().len() - final(storage).feeds_view().len(),
{
    let ghost old_feeds = storage.feeds_view();
    let ghost old_items = storage.items_view();
    let mut kept_feeds: Vec<Feed> = Vec::new();
    let mut removed: usize = 0;
    let mut k: usize = 0;
    proof {
        assert(old_feeds.subrange(0, 0) =~= Seq::<FeedView>::empty());
        reveal(Seq::filter);
    }
    while k < storage.feeds.len()
        invariant
            0 <= k <= storage.feeds.len(),
            storage.feeds_view() == old_feeds,
            kept_feeds.deep_view() == old_feeds.subrange(0, k as int).filter(keep_other_feeds(id)),
            removed + kept_feeds.len() == k,
        decreases storage.feeds.len() - k,
    {
        proof {
            lemma_filter_push(
                old_feeds.subrange(0, k as int),
                old_feeds[k as int],
                keep_other_feeds(id),
            );
            assert(old_feeds.subrange(0, k + 1) =~= old_feeds.subrange(0, k as int).push(
                old_feeds[k as int],
            ));
        }
        if storage.feeds[k].id == id {
            removed = removed + 1;
        } else {
            kept_feeds.push(storage.feeds[k].duplicate());
            proof {
                assert(kept_feeds.deep_view() =~= old_feeds.subrange(0, k + 1).filter(
                    keep_other_feeds(id),
                ));
            }
        }
        k = k + 1;
    }
    let mut kept_items: Vec<crate::storage::StoredItem> = Vec::new();
    let mut w: usize = 0;
    proof {
        assert(old_items.subrange(0, 0) =~= Seq::<crate::storage::StoredItemView>::empty());
    }
    while w < storage.items.len()
        invariant
            0 <= w <= storage.items.len(),
            storage.items_view() == old_items,
            kept_items.deep_view() == old_items.subrange(0, w as int).filter(
                keep_items_of_other_feeds(id),
            ),
        decreases storage.items.len() - w,
    {
        proof {
            lemma_filter_push(
                old_items.subrange(0, w as int),
                old_items[w as int],
                keep_items_of_other_feeds(id),
            );
            assert(old_items.subrange(0, w + 1) =~= old_items.subrange(0, w as int).push(
                old_items[w as int],
            ));
        }
        if storage.items[w].feed_id != id {
            kept_items.push(storage.items[w].duplicate());
            proof {
                assert(kept_items.deep_view() =~= old_items.subrange(0, w + 1).filter(
                    keep_items_of_other_feeds(id),
                ));
            }
        }
        w = w + 1;
    }
    proof {
        assert(old_feeds.subrange(0, old_feeds.len() as int) =~= old_feeds);
        assert(old_items.subrange(0, old_items.len() as int) =~= old_items);
        lemma_filter_distinct_key(old_feeds, keep_other_feeds(id), |f: FeedView| f.id);
        lemma_filter_distinct_key(
            old_feeds,
            keep_other_feeds(id),
            |f: FeedView| (f.title, f.link),
        );
        lemma_filter_distinct_key(
            old_items,
            keep_items_of_other_feeds(id),
            |it: crate::storage::StoredItemView| it.id,
        );
        lemma_filter_distinct_key(
            old_items,
            keep_items_of_other_feeds(id),
            |it: crate::storage::StoredItemView| it.fingerprint,
        );
        old_feeds.lemma_filter_len(keep_other_feeds(id));
    }
    storage.feeds = kept_feeds;
    storage.items = kept_items;
    proof {
        let ff = old_feeds.filter(keep_other_feeds(id));
        let fi = old_items.filter(keep_items_of_other_feeds(id));
        assert forall|i: int|
            0 <= i < ff.len() implies 1 <= (#[trigger] ff[i]).id < storage.next_feed_id by {
            assert(old_feeds.contains(ff[i]));
            let wdx = choose|wdx: int| 0 <= wdx < old_feeds.len() && old_feeds[wdx] == ff[i];
            assert(1 <= old_feeds[wdx].id < storage.next_feed_id);
        }
        assert forall|i: int|
            0 <= i < fi.len() implies 1 <= (#[trigger] fi[i]).id < storage.next_item_id by {
            assert(old_items.contains(fi[i]));
            let wdx = choose|wdx: int| 0 <= wdx < old_items.len() && old_items[wdx] == fi[i];
            assert(1 <= old_items[wdx].id < storage.next_item_id);
        }
    }
    Ok(removed)
}

} // verus!
