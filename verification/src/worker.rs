use vstd::prelude::*;

use crate::model::feed::{FeedStatus, FeedView};
use crate::model::item::{fingerprint_spec, ItemStatus, ItemToCreate, ItemToCreateView};
use crate::model::syndication::{RawItem, RawItemView};
use crate::repository::item;
use crate::seqs::lemma_filter_push;
use crate::storage::{has_fingerprint, Storage, StoredItemView};
use crate::text::{trim_seq, trim_str};

verus! {

/// The order of optional publication instants: a missing instant sorts
/// before every present one.
pub open spec fn opt_ts_le(a: Option<i64>, b: Option<i64>) -> bool {
    match (a, b) {
        (None, _) => true,
        (Some(x), Some(y)) => x <= y,
        (Some(_), None) => false,
    }
}

fn opt_ts_le_exec(a: Option<i64>, b: Option<i64>) -> (r: bool)
    ensures
        r == opt_ts_le(a, b),
{
    match (a, b) {
        (None, _) => true,
        (Some(x), Some(y)) => x <= y,
        (Some(_), None) => false,
    }
}

/// The baseline of a feed: the greatest published instant among its stored
/// items, absent when the feed has no stored items yet.
pub open spec fn baseline_of(items: Seq<StoredItemView>, feed_id: i32) -> Option<i64>
    decreases items.len(),
{
    if items.len() == 0 {
        None
    } else {
        let prev = baseline_of(items.drop_last(), feed_id);
        let it = items.last();
        if it.feed_id == feed_id {
            match prev {
                None => Some(it.published_at),
                Some(b) => Some(
                    if b >= it.published_at {
                        b
                    } else {
                        it.published_at
                    },
                ),
            }
        } else {
            prev
        }
    }
}

/// The single most recent published instant among a feed's stored items,
/// as the store reports it when asked for one row, published descending.
pub fn get_most_recent_published(storage: &Storage, feed_id: i32) -> (r: Option<i64>)
    ensures
        r == baseline_of(storage.items_view(), feed_id),
{
    let ghost items = storage.items_view();
    let mut best: Option<i64> = None;
    let mut k: usize = 0;
    proof {
        assert(items.subrange(0, 0) =~= Seq::<StoredItemView>::empty());
    }
    while k < storage.items.len()
        invariant
            0 <= k <= storage.items.len(),
            items == storage.items_view(),
            best == baseline_of(items.subrange(0, k as int), feed_id),
        decreases storage.items.len() - k,
    {
        proof {
            assert(items.subrange(0, k + 1).drop_last() =~= items.subrange(0, k as int));
            assert(items.subrange(0, k + 1).last() == items[k as int]);
        }
        let it = &storage.items[k];
        if it.feed_id == feed_id {
            best = match best {
                None => Some(it.published_at),
                Some(b) => Some(
                    if b >= it.published_at {
                        b
                    } else {
                        it.published_at
                    },
                ),
            };
        }
        k = k + 1;
    }
    proof {
        assert(items.subrange(0, items.len() as int) =~= items);
    }
    best
}

/// Whether an incremental filter keeps a fetched entry: everything is kept
/// under the backfill policy; under the incremental policy with a baseline,
/// only entries published strictly after it, and entries without an instant
/// never.
pub open spec fn keeps(e: RawItemView, baseline: Option<i64>, fetch_old: bool) -> bool {
    fetch_old || match (baseline, e.published_at) {
        (Some(b), Some(p)) => p > b,
        (Some(_), None) => false,
        (None, _) => true,
    }
}

/// The filter over fetched entries under the given baseline and policy.
pub open spec fn keep_pred(baseline: Option<i64>, fetch_old: bool) -> spec_fn(RawItemView) -> bool {
    |e: RawItemView| keeps(e, baseline, fetch_old)
}

/// The index of the entry a first sync retains: the last entry carrying the
/// greatest published instant. Taking the last of several equally recent
/// entries makes the first-sync choice deterministic.
pub open spec fn max_pub_idx(es: Seq<RawItemView>) -> int
    decreases es.len(),
{
    if es.len() <= 1 {
        0
    } else {
        let r = max_pub_idx(es.drop_last());
        if opt_ts_le(es.drop_last()[r].published_at, es.last().published_at) {
            es.len() - 1
        } else {
            r
        }
    }
}

/// The first-sync choice lies inside the sequence and is at least as
/// recent as every entry.
pub proof fn lemma_max_pub_idx(es: Seq<RawItemView>)
    requires
        es.len() > 0,
    ensures
        0 <= max_pub_idx(es) < es.len(),
        forall|i: int|
            0 <= i < es.len() ==> opt_ts_le(
                (#[trigger] es[i]).published_at,
                es[max_pub_idx(es)].published_at,
            ),
    decreases es.len(),
{
    if es.len() > 1 {
        let dl = es.drop_last();
        lemma_max_pub_idx(dl);
        let r = max_pub_idx(dl);
        assert forall|i: int|
            0 <= i < es.len() implies opt_ts_le(
            (#[trigger] es[i]).published_at,
            es[max_pub_idx(es)].published_at,
        ) by {
            if i < es.len() - 1 {
                assert(dl[i] == es[i]);
                assert(opt_ts_le(dl[i].published_at, dl[r].published_at));
            }
            if !opt_ts_le(dl[r].published_at, es.last().published_at) {
                assert(opt_ts_le(es.last().published_at, dl[r].published_at)) by {
                    let a = dl[r].published_at;
                    let b = es.last().published_at;
                    assert(opt_ts_le(b, a) || opt_ts_le(a, b));
                }
            }
        }
    }
}

/// The entries a feed's sync retains. A backfill feed keeps everything; an
/// incremental feed with a baseline keeps what was published after it; an
/// incremental feed without one (its first sync) keeps exactly its most
/// recent entry, if it has any.
pub open spec fn retained(es: Seq<RawItemView>, baseline: Option<i64>, fetch_old: bool) -> Seq<
    RawItemView,
> {
    if !fetch_old && baseline is None {
        if es.len() == 0 {
            Seq::empty()
        } else {
            seq![es[max_pub_idx(es)]]
        }
    } else {
        es.filter(keep_pred(baseline, fetch_old))
    }
}

/// Filters fetched entries under the feed's baseline and policy.
pub fn filter_entries(entries: &Vec<RawItem>, baseline: Option<i64>, fetch_old_items: bool) -> (r:
    Vec<RawItem>)
    ensures
        r.deep_view() == retained(entries.deep_view(), baseline, fetch_old_items),
{
    let ghost es = entries.deep_view();
    if !fetch_old_items && baseline.is_none() {
        if entries.len() == 0 {
            let r: Vec<RawItem> = Vec::new();
            proof {
                assert(r.deep_view() =~= retained(es, baseline, fetch_old_items));
            }
            r
        } else {
            let mut best: usize = 0;
            let mut k: usize = 1;
            proof {
                assert(es.subrange(0, 1).len() == 1);
                assert(max_pub_idx(es.subrange(0, 1)) == 0);
            }
            while k < entries.len()
                invariant
                    es == entries.deep_view(),
                    es.len() == entries.len(),
                    1 <= k <= entries.len(),
                    0 <= best < k,
                    best == max_pub_idx(es.subrange(0, k as int)),
                decreases entries.len() - k,
            {
                proof {
                    assert(es.subrange(0, k + 1).drop_last() =~= es.subrange(0, k as int));
                    assert(es.subrange(0, k + 1).last() == es[k as int]);
                    lemma_max_pub_idx(es.subrange(0, k as int));
                }
                if opt_ts_le_exec(entries[best].published_at, entries[k].published_at) {
                    proof {
                        assert(es.subrange(0, k as int)[best as int] == es[best as int]);
                    }
                    best = k;
                }
                k = k + 1;
            }
            proof {
                assert(es.subrange(0, es.len() as int) =~= es);
            }
            let mut r: Vec<RawItem> = Vec::new();
            r.push(entries[best].duplicate());
            proof {
                assert(r.deep_view() =~= retained(es, baseline, fetch_old_items));
            }
            r
        }
    } else {
        let ghost p = keep_pred(baseline, fetch_old_items);
        let mut r: Vec<RawItem> = Vec::new();
        let mut k: usize = 0;
        proof {
            assert(es.subrange(0, 0) =~= Seq::<RawItemView>::empty());
            reveal(Seq::filter);
        }
        while k < entries.len()
            invariant
                es == entries.deep_view(),
                es.len() == entries.len(),
                0 <= k <= entries.len(),
                p == keep_pred(baseline, fetch_old_items),
                r.deep_view() == es.subrange(0, k as int).filter(p),
            decreases entries.len() - k,
        {
            proof {
                lemma_filter_push(es.subrange(0, k as int), es[k as int], p);
                assert(es.subrange(0, k + 1) =~= es.subrange(0, k as int).push(es[k as int]));
            }
            let e = &entries[k];
            let keep = fetch_old_items || match (baseline, e.published_at) {
                (Some(b), Some(pb)) => pb > b,
                (Some(_), None) => false,
                (None, _) => true,
            };
            if keep {
                let ghost before = r.deep_view();
                r.push(e.duplicate());
                proof {
                    assert forall|i: int|
                        0 <= i < r.deep_view().len() implies #[trigger] r.deep_view()[i]
                            == es.subrange(0, k + 1).filter(p)[i] by {
                        if i < before.len() {
                            assert(r.deep_view()[i] == before[i]);
                        } else {
                            assert(r.deep_view()[i] == r@[i]@);
                        }
                    }
                    assert(r.deep_view() =~= es.subrange(0, k + 1).filter(p));
                }
            }
            k = k + 1;
        }
        proof {
            assert(es.subrange(0, es.len() as int) =~= es);
            if fetch_old_items || !(baseline is None) {
                assert(retained(es, baseline, fetch_old_items) == es.filter(p));
            }
        }
        r
    }
}

/// `x` placed into `s`, which is sorted ascending by publication instant,
/// after every entry published no later; ties keep their earlier place.
pub open spec fn sorted_insert_raw(s: Seq<RawItemView>, x: RawItemView) -> Seq<RawItemView>
    decreases s.len(),
{
    if s.len() == 0 {
        seq![x]
    } else if opt_ts_le(s[0].published_at, x.published_at) {
        seq![s[0]] + sorted_insert_raw(s.drop_first(), x)
    } else {
        seq![x] + s
    }
}

/// The stable sort of fetched entries, ascending by publication instant;
/// entries without an instant sort first, and ties keep their fetch order.
pub open spec fn sort_raw_spec(s: Seq<RawItemView>) -> Seq<RawItemView>
    decreases s.len(),
{
    if s.len() == 0 {
        s
    } else {
        sorted_insert_raw(sort_raw_spec(s.drop_last()), s.last())
    }
}

proof fn lemma_sorted_insert_raw_at(s: Seq<RawItemView>, x: RawItemView, p: int)
    requires
        0 <= p <= s.len(),
        forall|j: int| 0 <= j < p ==> opt_ts_le((#[trigger] s[j]).published_at, x.published_at),
        p < s.len() ==> !opt_ts_le(s[p].published_at, x.published_at),
    ensures
        sorted_insert_raw(s, x) == s.subrange(0, p) + seq![x] + s.subrange(p, s.len() as int),
    decreases p,
{
    if p == 0 {
        if s.len() == 0 {
            assert(sorted_insert_raw(s, x) =~= s.subrange(0, 0) + seq![x] + s.subrange(
                0,
                s.len() as int,
            ));
        } else {
            assert(sorted_insert_raw(s, x) =~= s.subrange(0, 0) + seq![x] + s.subrange(
                0,
                s.len() as int,
            ));
        }
    } else {
        let df = s.drop_first();
        assert(forall|j: int|
            0 <= j < p - 1 ==> opt_ts_le((#[trigger] df[j]).published_at, x.published_at));
        lemma_sorted_insert_raw_at(df, x, p - 1);
        assert(seq![s[0]] + (df.subrange(0, p - 1) + seq![x] + df.subrange(p - 1, df.len() as int))
            =~= s.subrange(0, p) + seq![x] + s.subrange(p, s.len() as int));
    }
}

/// Sorts fetched entries ascending by publication instant, stably: entries
/// without an instant come first, and ties keep their fetch order.
pub fn sort_entries(v: Vec<RawItem>) -> (r: Vec<RawItem>)
    ensures
        r.deep_view() == sort_raw_spec(v.deep_view()),
{
    let ghost orig = v.deep_view();
    let mut src = v;
    let mut out: Vec<RawItem> = Vec::new();
    let mut k: usize = 0;
    let bound = src.len();
    proof {
        assert(orig.len() == bound);
        assert(src.deep_view() =~= orig.subrange(0, orig.len() as int));
        assert(orig.subrange(0, 0) =~= Seq::<RawItemView>::empty());
    }
    while src.len() > 0
        invariant
            0 <= k,
            orig.len() <= usize::MAX,
            k + src.len() == orig.len(),
            forall|i: int| 0 <= i < src.len() ==> #[trigger] src.deep_view()[i] == orig[k + i],
            out.deep_view() == sort_raw_spec(orig.subrange(0, k as int)),
        decreases src.len(),
    {
        let ghost src_before = src.deep_view();
        let x = src.remove(0);
        proof {
            assert(x@ == src_before[0]);
            assert(x@ == orig[k as int]);
            assert forall|i: int|
                0 <= i < src.deep_view().len() implies #[trigger] src.deep_view()[i] == orig[k + 1
                + i] by {
                assert(src.deep_view()[i] == src_before[i + 1]);
            }
        }
        let mut p: usize = 0;
        while p < out.len() && opt_ts_le_exec(out[p].published_at, x.published_at)
            invariant
                0 <= p <= out.len(),
                x@ == orig[k as int],
                k < orig.len(),
                out.deep_view() == sort_raw_spec(orig.subrange(0, k as int)),
                out.deep_view().len() == out.len(),
                forall|j: int|
                    0 <= j < p ==> opt_ts_le(
                        (#[trigger] out.deep_view()[j]).published_at,
                        x@.published_at,
                    ),
            decreases out.len() - p,
        {
            proof {
                assert(out.deep_view()[p as int] == out@[p as int]@);
            }
            p = p + 1;
        }
        let ghost out_before = out.deep_view();
        proof {
            assert(p < out.len() ==> !opt_ts_le(out_before[p as int].published_at, x@.published_at));
            lemma_sorted_insert_raw_at(out_before, x@, p as int);
        }
        out.insert(p, x);
        proof {
            assert forall|i: int|
                0 <= i < out.deep_view().len() implies #[trigger] out.deep_view()[i]
                    == sorted_insert_raw(out_before, orig[k as int])[i] by {
                if i < p {
                    assert(out.deep_view()[i] == out_before[i]);
                } else if i > p {
                    assert(out.deep_view()[i] == out_before[i - 1]);
                }
            }
            assert(out.deep_view() =~= sorted_insert_raw(out_before, orig[k as int]));
            assert(orig.subrange(0, k + 1).drop_last() =~= orig.subrange(0, k as int));
            assert(orig.subrange(0, k + 1).last() == orig[k as int]);
            assert(out.deep_view() == sort_raw_spec(orig.subrange(0, k + 1)));
        }
        k = k + 1;
    }
    proof {
        assert(orig.subrange(0, k as int) =~= orig);
    }
    out
}

/// What normalization makes of one retained entry: title, author, link and
/// description are trimmed; a missing link becomes the placeholder "#"; a
/// missing description becomes empty; a missing publication instant becomes
/// `now`; the item starts unread and belongs to the given feed.
pub open spec fn normalized(e: RawItemView, feed_id: i32, now: i64) -> ItemToCreateView {
    ItemToCreateView {
        author: match e.author {
            Some(a) => Some(trim_seq(a)),
            None => None,
        },
        title: trim_seq(e.title),
        description: trim_seq(
            match e.content {
                Some(c) => c,
                None => Seq::empty(),
            },
        ),
        link: trim_seq(
            match e.link {
                Some(l) => l,
                None => "#"@,
            },
        ),
        status: ItemStatus::Unread,
        published_at: match e.published_at {
            Some(p) => p,
            None => now,
        },
        feed: feed_id,
    }
}

/// Normalizes one retained entry into an insertable item.
pub fn normalize_entry(e: &RawItem, feed_id: i32, now: i64) -> (r: ItemToCreate)
    ensures
        r@ == normalized(e@, feed_id, now),
{
    let description = match &e.content {
        Some(c) => trim_str(c.as_str()),
        None => {
            let t = trim_str("");
            proof {
                reveal_strlit("");
                assert(""@ =~= Seq::<char>::empty());
            }
            t
        },
    };
    ItemToCreate {
        author: match &e.author {
            Some(a) => Some(trim_str(a.as_str())),
            None => None,
        },
        title: trim_str(e.title.as_str()),
        description: description,
        link: match &e.link {
            Some(l) => trim_str(l.as_str()),
            None => trim_str("#"),
        },
        status: ItemStatus::Unread,
        published_at: match e.published_at {
            Some(p) => p,
            None => now,
        },
        feed: feed_id,
    }
}

/// The entries of `es`, normalized for the given feed at the given time.
pub open spec fn normalized_all(es: Seq<RawItemView>, feed_id: i32, now: i64) -> Seq<
    ItemToCreateView,
> {
    es.map_values(|e: RawItemView| normalized(e, feed_id, now))
}

/// What inserting a batch of normalized entries, in order, does to the item
/// store: an entry whose fingerprint is already present is silently skipped
/// ("already known"), as is everything once the id space is exhausted; each
/// other entry is appended under the next id and reported as inserted.
pub open spec fn insert_fold(
    items: Seq<StoredItemView>,
    next_id: i32,
    batch: Seq<ItemToCreateView>,
) -> (Seq<StoredItemView>, i32, Seq<ItemToCreateView>)
    decreases batch.len(),
{
    if batch.len() == 0 {
        (items, next_id, Seq::empty())
    } else {
        let x = batch[0];
        if has_fingerprint(items, fingerprint_spec(x.title, x.link)) || next_id == i32::MAX {
            insert_fold(items, next_id, batch.drop_first())
        } else {
            let rest = insert_fold(
                items.push(item::stored_of(x, next_id)),
                (next_id + 1) as i32,
                batch.drop_first(),
            );
            (rest.0, rest.1, seq![x] + rest.2)
        }
    }
}

/// Normalizes the retained entries and inserts them in sorted order,
/// returning the ones actually inserted; a duplicate fingerprint is an
/// expected outcome, not a failure.
pub fn insert_new_items(storage: &mut Storage, feed: i32, items: &Vec<RawItem>, now: i64) -> (inserted:
    Vec<ItemToCreate>)
    requires
        old(storage).wf(),
    ensures
        final(storage).wf(),
        final(storage).feeds_view() == old(storage).feeds_view(),
        final(storage).next_feed_id == old(storage).next_feed_id,
        ({
            let f = insert_fold(
                old(storage).items_view(),
                old(storage).next_item_id,
                normalized_all(items.deep_view(), feed, now),
            );
            &&& final(storage).items_view() == f.0
            &&& final(storage).next_item_id == f.1
            &&& inserted.deep_view() == f.2
        }),
{
    let ghost s0 = *storage;
    let ghost batch = normalized_all(items.deep_view(), feed, now);
    let mut inserted: Vec<ItemToCreate> = Vec::new();
    let mut k: usize = 0;
    proof {
        assert(s0 == *old(storage));
        assert(batch.subrange(0, batch.len() as int) =~= batch);
    }
    while k < items.len()
        invariant
            s0 == *old(storage),
            s0.wf(),
            storage.wf(),
            storage.feeds_view() == s0.feeds_view(),
            storage.next_feed_id == s0.next_feed_id,
            batch == normalized_all(items.deep_view(), feed, now),
            batch.len() == items.len(),
            items.deep_view().len() == items.len(),
            0 <= k <= items.len(),
            ({
                let full = insert_fold(s0.items_view(), s0.next_item_id, batch);
                let rest = insert_fold(
                    storage.items_view(),
                    storage.next_item_id,
                    batch.subrange(k as int, batch.len() as int),
                );
                &&& full.0 == rest.0
                &&& full.1 == rest.1
                &&& full.2 == inserted.deep_view() + rest.2
            }),
        decreases items.len() - k,
    {
        let arg = normalize_entry(&items[k], feed, now);
        proof {
            assert(arg@ == batch[k as int]);
            assert(batch.subrange(k as int, batch.len() as int)[0] == batch[k as int]);
            assert(batch.subrange(k as int, batch.len() as int).drop_first() =~= batch.subrange(
                k + 1,
                batch.len() as int,
            ));
        }
        let ghost pre = *storage;
        let created = item::create(storage, &arg);
        let ghost inserted_before = inserted.deep_view();
        match created {
            Ok(_) => {
                inserted.push(arg);
                proof {
                    assert(inserted.deep_view().len() == inserted_before.len() + 1);
                    assert forall|i: int|
                        0 <= i < inserted.deep_view().len() implies #[trigger] inserted.deep_view()[i]
                            == inserted_before.push(batch[k as int])[i] by {
                        if i < inserted_before.len() {
                            assert(inserted.deep_view()[i] == inserted_before[i]);
                        } else {
                            assert(inserted.deep_view()[i] == inserted@[i]@);
                        }
                    }
                    assert(inserted.deep_view() =~= inserted_before.push(batch[k as int]));
                    let x = batch[k as int];
                    let rest_now = insert_fold(
                        storage.items_view(),
                        storage.next_item_id,
                        batch.subrange(k + 1, batch.len() as int),
                    );
                    assert(inserted_before + (seq![x] + rest_now.2) =~= inserted_before.push(x)
                        + rest_now.2);
                }
            },
            Err(_) => {},
        }
        k = k + 1;
    }
    proof {
        assert(batch.subrange(k as int, batch.len() as int).len() == 0);
        let rest = insert_fold(
            storage.items_view(),
            storage.next_item_id,
            batch.subrange(k as int, batch.len() as int),
        );
        assert(rest.2 =~= Seq::<ItemToCreateView>::empty());
        assert(inserted.deep_view() + rest.2 =~= inserted.deep_view());
    }
    inserted
}

/// Under the backfill policy every fetched entry is retained, whatever the
/// baseline.
pub proof fn lemma_retained_backfill(es: Seq<RawItemView>, baseline: Option<i64>)
    ensures
        retained(es, baseline, true) == es,
    decreases es.len(),
{
    reveal(Seq::filter);
    let p = keep_pred(baseline, true);
    if es.len() > 0 {
        lemma_retained_backfill(es.drop_last(), baseline);
        assert(retained(es.drop_last(), baseline, true) == es.drop_last().filter(p));
        assert(es.filter(p) == es.drop_last().filter(p).push(es.last()));
        assert(es.drop_last().filter(p).push(es.last()) =~= es);
    } else {
        assert(es.filter(p) =~= es);
    }
}

/// Everything one feed's poll inserts: the fetched entries filtered against
/// the feed's baseline under its policy, sorted ascending by publication
/// instant, normalized at `now`, and inserted in that order.
pub open spec fn sync_batch(
    es: Seq<RawItemView>,
    baseline: Option<i64>,
    fetch_old: bool,
    feed_id: i32,
    now: i64,
) -> Seq<ItemToCreateView> {
    normalized_all(sort_raw_spec(retained(es, baseline, fetch_old)), feed_id, now)
}

/// What one feed's sync does to the item store: the batch computed against
/// the feed's current baseline, inserted in order.
pub open spec fn sync_fold(
    items: Seq<StoredItemView>,
    next_id: i32,
    es: Seq<RawItemView>,
    fetch_old: bool,
    feed_id: i32,
    now: i64,
) -> (Seq<StoredItemView>, i32, Seq<ItemToCreateView>) {
    insert_fold(
        items,
        next_id,
        sync_batch(es, baseline_of(items, feed_id), fetch_old, feed_id, now),
    )
}

/// Runs one feed's sync against the store: reads the feed's baseline,
/// filters and orders the fetched entries, normalizes them, and inserts
/// them, absorbing duplicate fingerprints. Returns the items actually
/// inserted, in insertion order.
pub fn sync_feed(
    storage: &mut Storage,
    feed_id: i32,
    fetch_old_items: bool,
    entries: &Vec<RawItem>,
    now: i64,
) -> (inserted: Vec<ItemToCreate>)
    requires
        old(storage).wf(),
    ensures
        final(storage).wf(),
        final(storage).feeds_view() == old(storage).feeds_view(),
        final(storage).next_feed_id == old(storage).next_feed_id,
        ({
            let batch = sync_batch(
                entries.deep_view(),
                baseline_of(old(storage).items_view(), feed_id),
                fetch_old_items,
                feed_id,
                now,
            );
            let f = insert_fold(old(storage).items_view(), old(storage).next_item_id, batch);
            &&& final(storage).items_view() == f.0
            &&& final(storage).next_item_id == f.1
            &&& inserted.deep_view() == f.2
        }),
{
    let baseline = if !fetch_old_items {
        get_most_recent_published(storage, feed_id)
    } else {
        None
    };
    proof {
        if fetch_old_items {
            lemma_retained_backfill(entries.deep_view(), None);
            lemma_retained_backfill(
                entries.deep_view(),
                baseline_of(storage.items_view(), feed_id),
            );
        }
    }
    let filtered = filter_entries(entries, baseline, fetch_old_items);
    let sorted = sort_entries(filtered);
    insert_new_items(storage, feed_id, &sorted, now)
}

/// A subscribed feed after the pass stamped its poll attempt: `checked_at`
/// records the attempt time whether or not the fetch later succeeds.
pub open spec fn stamped(f: FeedView, now: i64) -> FeedView {
    if f.status == FeedStatus::Subscribed {
        FeedView { checked_at: now, ..f }
    } else {
        f
    }
}

/// The registry after a pass stamped every subscribed feed at `now`.
pub open spec fn stamped_feeds(feeds: Seq<FeedView>, now: i64) -> Seq<FeedView> {
    feeds.map_values(|f: FeedView| stamped(f, now))
}

/// Whether the pass polls a feed.
pub open spec fn subscribed_pred() -> spec_fn(FeedView) -> bool {
    |f: FeedView| f.status == FeedStatus::Subscribed
}

/// What one subscribed feed hands the pass: its id, its link to fetch, and
/// its ingestion policy.
pub open spec fn check_targets(feeds: Seq<FeedView>) -> Seq<(i32, Seq<char>, bool)> {
    feeds.filter(subscribed_pred()).map_values(
        |f: FeedView| (f.id, f.link, f.fetch_old_items),
    )
}

/// Stamps every subscribed feed's checked time with `now` — recording the
/// poll attempt, not its success — and returns each one's id, link and
/// policy, in registry order.
pub fn get_links_to_check(storage: &mut Storage, now: i64) -> (r: Vec<(i32, String, bool)>)
    requires
        old(storage).wf(),
    ensures
        final(storage).wf(),
        final(storage).items_view() == old(storage).items_view(),
        final(storage).next_item_id == old(storage).next_item_id,
        final(storage).next_feed_id == old(storage).next_feed_id,
        final(storage).feeds_view() == stamped_feeds(old(storage).feeds_view(), now),
        ({
            let targets = check_targets(old(storage).feeds_view());
            &&& r@.len() == targets.len()
            &&& forall|i: int|
                0 <= i < targets.len() ==> (#[trigger] r@[i]).0 == targets[i].0 && r@[i].1@
                    == targets[i].1 && r@[i].2 == targets[i].2
        }),
{
    let ghost s0 = *storage;
    proof {
        assert(s0 == *old(storage));
    }
    let ghost olds = s0.feeds_view();
    let mut new_feeds: Vec<crate::model::feed::Feed> = Vec::new();
    let mut targets: Vec<(i32, String, bool)> = Vec::new();
    let mut k: usize = 0;
    proof {
        assert(olds.subrange(0, 0) =~= Seq::<FeedView>::empty());
        reveal(Seq::filter);
    }
    while k < storage.feeds.len()
        invariant
            *storage == s0,
            s0 == *old(storage),
            s0.wf(),
            olds == s0.feeds_view(),
            0 <= k <= storage.feeds.len(),
            new_feeds.deep_view().len() == k,
            forall|i: int|
                0 <= i < k ==> #[trigger] new_feeds.deep_view()[i] == stamped(olds[i], now),
            ({
                let t = check_targets(olds.subrange(0, k as int));
                &&& targets@.len() == t.len()
                &&& forall|i: int|
                    0 <= i < t.len() ==> (#[trigger] targets@[i]).0 == t[i].0 && targets@[i].1@
                        == t[i].1 && targets@[i].2 == t[i].2
            }),
        decreases storage.feeds.len() - k,
    {
        proof {
            lemma_filter_push(olds.subrange(0, k as int), olds[k as int], subscribed_pred());
            assert(olds.subrange(0, k + 1) =~= olds.subrange(0, k as int).push(olds[k as int]));
        }
        let f = &storage.feeds[k];
        let ghost nf_before = new_feeds.deep_view();
        let is_subscribed = match f.status {
            FeedStatus::Subscribed => true,
            FeedStatus::Unsubscribed => false,
        };
        if is_subscribed {
            targets.push((f.id, f.link.clone(), f.fetch_old_items));
            new_feeds.push(
                crate::model::feed::Feed {
                    id: f.id,
                    title: f.title.clone(),
                    link: f.link.clone(),
                    status: f.status,
                    checked_at: now,
                    fetch_old_items: f.fetch_old_items,
                },
            );
        } else {
            new_feeds.push(f.duplicate());
        }
        proof {
            assert forall|i: int|
                0 <= i < new_feeds.deep_view().len() implies #[trigger] new_feeds.deep_view()[i]
                    == stamped(olds[i], now) by {
                if i < nf_before.len() {
                    assert(new_feeds.deep_view()[i] == nf_before[i]);
                } else {
                    assert(new_feeds.deep_view()[i] == new_feeds@[i]@);
                }
            }
            let t0 = check_targets(olds.subrange(0, k as int));
            let t1 = check_targets(olds.subrange(0, k + 1));
            if is_subscribed {
                assert(t1 =~= t0.push((olds[k as int].id, olds[k as int].link, olds[k as int].fetch_old_items)));
            } else {
                assert(t1 =~= t0);
            }
        }
        k = k + 1;
    }
    proof {
        assert(olds.subrange(0, olds.len() as int) =~= olds);
    }
    storage.feeds = new_feeds;
    proof {
        let fv = storage.feeds_view();
        let sf = stamped_feeds(olds, now);
        assert(fv =~= sf);
        assert(storage.items_view() =~= s0.items_view());
        assert forall|i: int, j: int|
            0 <= i < j < fv.len() implies (#[trigger] fv[i]).id != (#[trigger] fv[j]).id && !(
            fv[i].title == fv[j].title && fv[i].link == fv[j].link) by {
            assert(olds[i].id != olds[j].id);
            assert(!(olds[i].title == olds[j].title && olds[i].link == olds[j].link));
            assert(fv[i] == stamped(olds[i], now) && fv[j] == stamped(olds[j], now));
        }
        assert forall|i: int|
            0 <= i < fv.len() implies 1 <= (#[trigger] fv[i]).id < storage.next_feed_id by {
            assert(1 <= (#[trigger] olds[i]).id < s0.next_feed_id);
            assert(fv[i] == stamped(olds[i], now));
        }
    }
    targets
}

/// The abstract value of one feed's fetched content.
pub struct FeedFetchView {
    pub feed: i32,
    pub fetch_old_items: bool,
    pub entries: Seq<RawItemView>,
}

/// One feed's fetched and parsed content, as the caller that performed the
/// fetching hands it to the pass: the feed's id, its ingestion policy, and
/// the entries its document yielded. A feed whose fetch or parse failed is
/// simply not handed in, so one bad feed never blocks the rest.
pub struct FeedFetch {
    pub feed: i32,
    pub fetch_old_items: bool,
    pub entries: Vec<RawItem>,
}

impl View for FeedFetch {
    type V = FeedFetchView;

    open spec fn view(&self) -> FeedFetchView {
        FeedFetchView {
            feed: self.feed,
            fetch_old_items: self.fetch_old_items,
            entries: self.entries.deep_view(),
        }
    }
}

impl DeepView for FeedFetch {
    type V = FeedFetchView;

    open spec fn deep_view(&self) -> FeedFetchView {
        self.view()
    }
}

/// What a whole pass does to the item store: each feed's batch is computed
/// against the baselines left by the feeds before it and inserted in order,
/// and the inserted items accumulate across feeds.
pub open spec fn pass_fold(
    items: Seq<StoredItemView>,
    next_id: i32,
    fetched: Seq<FeedFetchView>,
    now: i64,
) -> (Seq<StoredItemView>, i32, Seq<ItemToCreateView>)
    decreases fetched.len(),
{
    if fetched.len() == 0 {
        (items, next_id, Seq::empty())
    } else {
        let f0 = fetched[0];
        let batch = sync_batch(
            f0.entries,
            baseline_of(items, f0.feed),
            f0.fetch_old_items,
            f0.feed,
            now,
        );
        let one = insert_fold(items, next_id, batch);
        let rest = pass_fold(one.0, one.1, fetched.drop_first(), now);
        (rest.0, rest.1, one.2 + rest.2)
    }
}

/// Runs one full poll cycle's persistence against the store: for each feed's
/// fetched content, in order, filters, sorts, normalizes and inserts its
/// entries, and returns every item newly persisted during this pass.
pub fn create_new_items(storage: &mut Storage, fetched: &Vec<FeedFetch>, now: i64) -> (inserted:
    Vec<ItemToCreate>)
    requires
        old(storage).wf(),
    ensures
        final(storage).wf(),
        final(storage).feeds_view() == old(storage).feeds_view(),
        final(storage).next_feed_id == old(storage).next_feed_id,
        ({
            let f = pass_fold(
                old(storage).items_view(),
                old(storage).next_item_id,
                fetched.deep_view(),
                now,
            );
            &&& final(storage).items_view() == f.0
            &&& final(storage).next_item_id == f.1
            &&& inserted.deep_view() == f.2
        }),
{
    let ghost s0 = *storage;
    let ghost dv = fetched.deep_view();
    let mut inserted: Vec<ItemToCreate> = Vec::new();
    let mut k: usize = 0;
    proof {
        assert(s0 == *old(storage));
        assert(dv.subrange(0, dv.len() as int) =~= dv);
    }
    while k < fetched.len()
        invariant
            s0 == *old(storage),
            s0.wf(),
            storage.wf(),
            storage.feeds_view() == s0.feeds_view(),
            storage.next_feed_id == s0.next_feed_id,
            dv == fetched.deep_view(),
            dv.len() == fetched.len(),
            0 <= k <= fetched.len(),
            ({
                let full = pass_fold(s0.items_view(), s0.next_item_id, dv, now);
                let rest = pass_fold(
                    storage.items_view(),
                    storage.next_item_id,
                    dv.subrange(k as int, dv.len() as int),
                    now,
                );
                &&& full.0 == rest.0
                &&& full.1 == rest.1
                &&& full.2 == inserted.deep_view() + rest.2
            }),
        decreases fetched.len() - k,
    {
        proof {
            assert(dv.subrange(k as int, dv.len() as int)[0] == dv[k as int]);
            assert(dv.subrange(k as int, dv.len() as int).drop_first() =~= dv.subrange(
                k + 1,
                dv.len() as int,
            ));
        }
        let f = &fetched[k];
        let ghost inserted_before = inserted.deep_view();
        let mut new_items = sync_feed(storage, f.feed, f.fetch_old_items, &f.entries, now);
        let ghost added = new_items.deep_view();
        inserted.append(&mut new_items);
        proof {
            assert(inserted@ == inserted@.subrange(0, inserted@.len() as int));
            assert forall|i: int|
                0 <= i < inserted.deep_view().len() implies #[trigger] inserted.deep_view()[i] == (
            inserted_before + added)[i] by {
                if i < inserted_before.len() {
                    assert(inserted.deep_view()[i] == inserted@[i]@);
                    assert(inserted@[i]@ == inserted_before[i]);
                } else {
                    assert(inserted.deep_view()[i] == inserted@[i]@);
                }
            }
            assert(inserted.deep_view() =~= inserted_before + added);
            let rest_now = pass_fold(
                storage.items_view(),
                storage.next_item_id,
                dv.subrange(k + 1, dv.len() as int),
                now,
            );
            assert(inserted_before + (added + rest_now.2) =~= (inserted_before + added)
                + rest_now.2);
        }
        k = k + 1;
    }
    proof {
        assert(dv.subrange(k as int, dv.len() as int).len() == 0);
        let rest = pass_fold(
            storage.items_view(),
            storage.next_item_id,
            dv.subrange(k as int, dv.len() as int),
            now,
        );
        assert(rest.2 =~= Seq::<ItemToCreateView>::empty());
        assert(inserted.deep_view() + rest.2 =~= inserted.deep_view());
    }
    inserted
}

} // verus!
