use vstd::prelude::*;

use crate::model::item::{encode_pair, fingerprint_spec, ItemToCreateView};
use crate::model::syndication::RawItemView;
use crate::repository::item::stored_of;
use crate::storage::{has_fingerprint, StoredItemView};
use crate::worker::{
    baseline_of, insert_fold, keep_pred, keeps, lemma_max_pub_idx, lemma_retained_backfill, pass_fold,
    max_pub_idx, normalized, normalized_all, opt_ts_le, retained, sort_raw_spec, sorted_insert_raw,
    sync_batch, sync_fold,
};

verus! {

/// Whether a sequence of entries is ordered ascending by publication
/// instant, entries without an instant first.
pub open spec fn sorted_by_ts(s: Seq<RawItemView>) -> bool {
    forall|i: int, j: int|
        0 <= i < j < s.len() ==> opt_ts_le(
            (#[trigger] s[i]).published_at,
            (#[trigger] s[j]).published_at,
        )
}

proof fn lemma_opt_ts_le_total(a: Option<i64>, b: Option<i64>)
    ensures
        opt_ts_le(a, b) || opt_ts_le(b, a),
{
}

/// Where `sorted_insert_raw` places its entry: after the leading run of
/// entries published no later.
spec fn insert_pos_raw(s: Seq<RawItemView>, x: RawItemView) -> int
    decreases s.len(),
{
    if s.len() == 0 {
        0
    } else if opt_ts_le(s[0].published_at, x.published_at) {
        1 + insert_pos_raw(s.drop_first(), x)
    } else {
        0
    }
}

proof fn lemma_insert_pos_raw(s: Seq<RawItemView>, x: RawItemView)
    ensures
        0 <= insert_pos_raw(s, x) <= s.len(),
        forall|j: int|
            0 <= j < insert_pos_raw(s, x) ==> opt_ts_le(
                (#[trigger] s[j]).published_at,
                x.published_at,
            ),
        insert_pos_raw(s, x) < s.len() ==> !opt_ts_le(
            s[insert_pos_raw(s, x)].published_at,
            x.published_at,
        ),
        sorted_insert_raw(s, x) == s.subrange(0, insert_pos_raw(s, x)) + seq![x] + s.subrange(
            insert_pos_raw(s, x),
            s.len() as int,
        ),
    decreases s.len(),
{
    if s.len() == 0 {
        assert(sorted_insert_raw(s, x) =~= s.subrange(0, 0) + seq![x] + s.subrange(0, 0));
    } else if opt_ts_le(s[0].published_at, x.published_at) {
        let df = s.drop_first();
        lemma_insert_pos_raw(df, x);
        let p = insert_pos_raw(s, x);
        assert(p == 1 + insert_pos_raw(df, x));
        assert forall|j: int|
            0 <= j < p implies opt_ts_le((#[trigger] s[j]).published_at, x.published_at) by {
            if j > 0 {
                assert(df[j - 1] == s[j]);
                assert(opt_ts_le(df[j - 1].published_at, x.published_at));
            }
        }
        assert(seq![s[0]] + (df.subrange(0, p - 1) + seq![x] + df.subrange(p - 1, df.len() as int))
            =~= s.subrange(0, p) + seq![x] + s.subrange(p, s.len() as int));
    } else {
        assert(sorted_insert_raw(s, x) =~= s.subrange(0, 0) + seq![x] + s.subrange(
            0,
            s.len() as int,
        ));
    }
}

proof fn lemma_sorted_insert_raw_sorted(s: Seq<RawItemView>, x: RawItemView)
    requires
        sorted_by_ts(s),
    ensures
        sorted_by_ts(sorted_insert_raw(s, x)),
        sorted_insert_raw(s, x).len() == s.len() + 1,
        forall|y: RawItemView|
            #[trigger] sorted_insert_raw(s, x).contains(y) <==> s.contains(y) || y == x,
{
    lemma_insert_pos_raw(s, x);
    let p = insert_pos_raw(s, x);
    let r = sorted_insert_raw(s, x);
    assert forall|i: int, j: int|
        0 <= i < j < r.len() implies opt_ts_le(
        (#[trigger] r[i]).published_at,
        (#[trigger] r[j]).published_at,
    ) by {
        if p < s.len() {
            lemma_opt_ts_le_total(s[p].published_at, x.published_at);
        }
        if i < p && j < p {
        } else if i < p && j == p {
            assert(r[i] == s[i] && r[j] == x);
        } else if i < p {
            assert(r[i] == s[i] && r[j] == s[j - 1]);
        } else if i == p && j > p {
            assert(r[i] == x && r[j] == s[j - 1]);
            assert(opt_ts_le(x.published_at, s[p].published_at));
            if j - 1 > p {
                assert(opt_ts_le(s[p].published_at, s[j - 1].published_at));
            }
        } else {
            assert(r[i] == s[i - 1] && r[j] == s[j - 1]);
        }
    }
    assert forall|y: RawItemView| #[trigger] r.contains(y) implies s.contains(y) || y == x by {
        let w = choose|w: int| 0 <= w < r.len() && r[w] == y;
        if w < p {
            assert(s[w] == y);
        } else if w > p {
            assert(s[w - 1] == y);
        }
    }
    assert forall|y: RawItemView| s.contains(y) || y == x implies #[trigger] r.contains(y) by {
        if s.contains(y) {
            let w = choose|w: int| 0 <= w < s.len() && s[w] == y;
            if w < p {
                assert(r[w] == y);
            } else {
                assert(r[w + 1] == y);
            }
        } else {
            assert(r[p] == y);
        }
    }
}

/// The stable sort of fetched entries is ordered ascending by publication
/// instant and holds exactly the entries it was given.
pub proof fn law_sort_entries_ordered(s: Seq<RawItemView>)
    ensures
        sorted_by_ts(sort_raw_spec(s)),
        sort_raw_spec(s).len() == s.len(),
        forall|y: RawItemView| #[trigger] sort_raw_spec(s).contains(y) <==> s.contains(y),
    decreases s.len(),
{
    if s.len() > 0 {
        let dl = s.drop_last();
        law_sort_entries_ordered(dl);
        lemma_sorted_insert_raw_sorted(sort_raw_spec(dl), s.last());
        assert forall|y: RawItemView| #[trigger] sort_raw_spec(s).contains(y) implies s.contains(
            y,
        ) by {
            if sort_raw_spec(dl).contains(y) {
                let w = choose|w: int| 0 <= w < dl.len() && dl[w] == y;
                assert(s[w] == y);
            } else {
                assert(s[s.len() - 1] == y);
            }
        }
        assert forall|y: RawItemView| s.contains(y) implies #[trigger] sort_raw_spec(s).contains(
            y,
        ) by {
            let w = choose|w: int| 0 <= w < s.len() && s[w] == y;
            if w < s.len() - 1 {
                assert(dl[w] == y);
            }
        }
    }
}

/// Intra-feed ordering: within one feed's sync, the batch is inserted in
/// ascending order of publication instant, so of two retained entries with
/// instants t1 < t2, the t1 entry is inserted before the t2 entry; and a
/// retained entry with an instant keeps it through normalization.
pub proof fn law_intra_feed_ordering(
    es: Seq<RawItemView>,
    baseline: Option<i64>,
    fetch_old: bool,
    feed_id: i32,
    now: i64,
)
    ensures
        ({
            let ordered = sort_raw_spec(retained(es, baseline, fetch_old));
            let batch = sync_batch(es, baseline, fetch_old, feed_id, now);
            &&& sorted_by_ts(ordered)
            &&& batch.len() == ordered.len()
            &&& forall|i: int|
                0 <= i < ordered.len() ==> #[trigger] batch[i] == normalized(
                    ordered[i],
                    feed_id,
                    now,
                )
            &&& forall|i: int|
                0 <= i < ordered.len() && (#[trigger] ordered[i]).published_at is Some
                    ==> batch[i].published_at == ordered[i].published_at.unwrap()
        }),
{
    law_sort_entries_ordered(retained(es, baseline, fetch_old));
}

/// Backfill completeness: a backfill feed retains every fetched entry,
/// whatever its baseline, and attempts to insert all of them, sorted and
/// normalized.
pub proof fn law_backfill_completeness(
    es: Seq<RawItemView>,
    baseline: Option<i64>,
    feed_id: i32,
    now: i64,
)
    ensures
        retained(es, baseline, true) == es,
        sync_batch(es, baseline, true, feed_id, now) == normalized_all(
            sort_raw_spec(es),
            feed_id,
            now,
        ),
{
    lemma_retained_backfill(es, baseline);
}

/// Incremental filter correctness: under the incremental policy with
/// baseline `t`, an entry is retained exactly when it carries a publication
/// instant strictly greater than `t`; entries at or before the baseline,
/// and entries without an instant, are dropped.
pub proof fn law_incremental_filter(es: Seq<RawItemView>, t: i64)
    ensures
        ({
            let r = retained(es, Some(t), false);
            &&& forall|j: int|
                0 <= j < r.len() ==> (#[trigger] r[j]).published_at is Some
                    && r[j].published_at.unwrap() > t
            &&& forall|i: int|
                0 <= i < es.len() && (#[trigger] es[i]).published_at is Some
                    && es[i].published_at.unwrap() > t ==> r.contains(es[i])
        }),
{
    let p = keep_pred(Some(t), false);
    let r = es.filter(p);
    assert(retained(es, Some(t), false) == r);
    assert forall|j: int|
        0 <= j < r.len() implies (#[trigger] r[j]).published_at is Some
        && r[j].published_at.unwrap() > t by {
        es.lemma_filter_pred(p, j);
        assert(keeps(r[j], Some(t), false));
    }
    assert forall|i: int|
        0 <= i < es.len() && (#[trigger] es[i]).published_at is Some
            && es[i].published_at.unwrap() > t implies r.contains(es[i]) by {
        assert(keeps(es[i], Some(t), false));
        es.lemma_filter_contains(p, i);
    }
}

/// First-sync singleton: an incremental feed with no stored items retains
/// exactly one fetched entry — its most recent one — and, when the store
/// does not already know that entry's fingerprint and an id is left, the
/// sync persists exactly that one item.
pub proof fn law_first_sync_singleton(
    items: Seq<StoredItemView>,
    next_id: i32,
    es: Seq<RawItemView>,
    feed_id: i32,
    now: i64,
)
    requires
        es.len() > 0,
        next_id != i32::MAX,
        !has_fingerprint(
            items,
            fingerprint_spec(
                normalized(es[max_pub_idx(es)], feed_id, now).title,
                normalized(es[max_pub_idx(es)], feed_id, now).link,
            ),
        ),
    ensures
        ({
            let chosen = es[max_pub_idx(es)];
            let batch = sync_batch(es, None, false, feed_id, now);
            let f = insert_fold(items, next_id, batch);
            &&& 0 <= max_pub_idx(es) < es.len()
            &&& forall|i: int|
                0 <= i < es.len() ==> opt_ts_le(
                    (#[trigger] es[i]).published_at,
                    chosen.published_at,
                )
            &&& batch =~= seq![normalized(chosen, feed_id, now)]
            &&& f.0 == items.push(stored_of(normalized(chosen, feed_id, now), next_id))
            &&& f.1 == next_id + 1
            &&& f.2 =~= seq![normalized(chosen, feed_id, now)]
        }),
{
    reveal_with_fuel(sort_raw_spec, 2);
    reveal_with_fuel(insert_fold, 2);
    lemma_max_pub_idx(es);
    let chosen = es[max_pub_idx(es)];
    let kept = retained(es, None, false);
    assert(kept =~= seq![chosen]);
    let sorted = sort_raw_spec(kept);
    assert(kept.drop_last() =~= Seq::<RawItemView>::empty());
    assert(sort_raw_spec(kept.drop_last()).len() == 0);
    assert(sorted == sorted_insert_raw(sort_raw_spec(kept.drop_last()), chosen));
    assert(sorted =~= seq![chosen]);
    let batch = sync_batch(es, None, false, feed_id, now);
    assert(batch =~= seq![normalized(chosen, feed_id, now)]);
    let x = batch[0];
    assert(x == normalized(chosen, feed_id, now));
    assert(!has_fingerprint(items, fingerprint_spec(x.title, x.link)));
    let rest = batch.drop_first();
    assert(rest =~= Seq::<ItemToCreateView>::empty());
    assert(insert_fold(items.push(stored_of(x, next_id)), (next_id + 1) as i32, rest) == (
    items.push(stored_of(x, next_id)),
    (next_id + 1) as i32,
    Seq::<ItemToCreateView>::empty(),
    ));
    let f = insert_fold(items, next_id, batch);
    assert(f.2 =~= seq![x] + Seq::<ItemToCreateView>::empty());
}

/// Every element of a filtered sequence occurs in the original.
proof fn lemma_filter_sub<A>(s: Seq<A>, p: spec_fn(A) -> bool)
    ensures
        forall|x: A| #[trigger] s.filter(p).contains(x) ==> s.contains(x),
    decreases s.len(),
{
    reveal(Seq::filter);
    if s.len() > 0 {
        let dl = s.drop_last();
        lemma_filter_sub(dl, p);
        assert forall|x: A| #[trigger] s.filter(p).contains(x) implies s.contains(x) by {
            let f = s.filter(p);
            let w = choose|w: int| 0 <= w < f.len() && f[w] == x;
            if p(s.last()) && w == f.len() - 1 {
                assert(s[s.len() - 1] == x);
            } else {
                assert(dl.filter(p)[w] == x);
                assert(dl.filter(p).contains(x));
                let w2 = choose|w2: int| 0 <= w2 < dl.len() && dl[w2] == x;
                assert(s[w2] == x);
            }
        }
    }
}

/// The structural facts one run of the insertion fold leaves behind: the
/// store only grows, existing rows and fingerprints stay, appended rows
/// come from the batch, every batch entry's fingerprint ends up stored
/// unless the id space ran out, and the id counter never shrinks.
proof fn lemma_insert_fold_facts(
    items: Seq<StoredItemView>,
    next_id: i32,
    batch: Seq<ItemToCreateView>,
)
    ensures
        ({
            let f = insert_fold(items, next_id, batch);
            &&& items.len() <= f.0.len()
            &&& forall|i: int| 0 <= i < items.len() ==> #[trigger] f.0[i] == items[i]
            &&& forall|i: int|
                items.len() <= i < f.0.len() ==> exists|k: int|
                    0 <= k < batch.len() && (#[trigger] f.0[i]).feed_id == batch[k].feed
                        && f.0[i].published_at == batch[k].published_at
            &&& forall|fp: Seq<char>| has_fingerprint(items, fp) ==> #[trigger] has_fingerprint(
                f.0,
                fp,
            )
            &&& forall|k: int|
                0 <= k < batch.len() ==> has_fingerprint(
                    f.0,
                    fingerprint_spec((#[trigger] batch[k]).title, batch[k].link),
                ) || f.1 == i32::MAX
            &&& next_id <= f.1
        }),
    decreases batch.len(),
{
    if batch.len() > 0 {
        let f = insert_fold(items, next_id, batch);
        let x = batch[0];
        let fpx = fingerprint_spec(x.title, x.link);
        let rest = batch.drop_first();
        assert(forall|k: int| 0 <= k < rest.len() ==> #[trigger] rest[k] == batch[k + 1]);
        if has_fingerprint(items, fpx) || next_id == i32::MAX {
            lemma_insert_fold_facts(items, next_id, rest);
            assert forall|k: int|
                0 <= k < batch.len() implies has_fingerprint(
                f.0,
                fingerprint_spec((#[trigger] batch[k]).title, batch[k].link),
            ) || f.1 == i32::MAX by {
                if k == 0 {
                    if has_fingerprint(items, fpx) {
                        assert(has_fingerprint(f.0, fpx));
                    } else {
                        assert(next_id == i32::MAX && next_id <= f.1);
                    }
                } else {
                    assert(batch[k] == rest[k - 1]);
                }
            }
        } else {
            let st = stored_of(x, next_id);
            let pushed = items.push(st);
            lemma_insert_fold_facts(pushed, (next_id + 1) as i32, rest);
            assert(st.fingerprint == fpx);
            assert(pushed[items.len() as int] == st);
            assert(has_fingerprint(pushed, fpx));
            assert forall|fp: Seq<char>|
                has_fingerprint(items, fp) implies #[trigger] has_fingerprint(f.0, fp) by {
                let w = choose|w: int| 0 <= w < items.len() && items[w].fingerprint == fp;
                assert(pushed[w].fingerprint == fp);
                assert(has_fingerprint(pushed, fp));
            }
            assert forall|k: int|
                0 <= k < batch.len() implies has_fingerprint(
                f.0,
                fingerprint_spec((#[trigger] batch[k]).title, batch[k].link),
            ) || f.1 == i32::MAX by {
                if k == 0 {
                    assert(has_fingerprint(f.0, fpx));
                } else {
                    assert(batch[k] == rest[k - 1]);
                }
            }
            assert forall|i: int|
                items.len() <= i < f.0.len() implies exists|k: int|
                    0 <= k < batch.len() && (#[trigger] f.0[i]).feed_id == batch[k].feed
                        && f.0[i].published_at == batch[k].published_at by {
                if i == items.len() {
                    assert(f.0[i] == st);
                    assert(0 <= 0 < batch.len() && f.0[i].feed_id == batch[0].feed
                        && f.0[i].published_at == batch[0].published_at);
                } else {
                    let k2 = choose|k2: int|
                        0 <= k2 < rest.len() && (#[trigger] f.0[i]).feed_id == rest[k2].feed
                            && f.0[i].published_at == rest[k2].published_at;
                    assert(0 <= k2 + 1 < batch.len() && f.0[i].feed_id == batch[k2 + 1].feed
                        && f.0[i].published_at == batch[k2 + 1].published_at);
                }
            }
        }
    }
}

/// A fold whose every batch entry is already known (or that starts with an
/// exhausted id space) changes nothing and inserts nothing.
proof fn lemma_insert_fold_noop(
    items: Seq<StoredItemView>,
    next_id: i32,
    batch: Seq<ItemToCreateView>,
)
    requires
        forall|k: int|
            0 <= k < batch.len() ==> has_fingerprint(
                items,
                fingerprint_spec((#[trigger] batch[k]).title, batch[k].link),
            ) || next_id == i32::MAX,
    ensures
        insert_fold(items, next_id, batch) == (items, next_id, Seq::<ItemToCreateView>::empty()),
    decreases batch.len(),
{
    if batch.len() > 0 {
        let rest = batch.drop_first();
        assert(forall|k: int| 0 <= k < rest.len() ==> #[trigger] rest[k] == batch[k + 1]);
        assert(has_fingerprint(items, fingerprint_spec(batch[0].title, batch[0].link)) || next_id
            == i32::MAX);
        lemma_insert_fold_noop(items, next_id, rest);
    }
}

/// A feed has no baseline exactly when it has no stored items.
proof fn lemma_baseline_none(items: Seq<StoredItemView>, feed_id: i32)
    ensures
        (baseline_of(items, feed_id) is None) <==> (forall|i: int|
            0 <= i < items.len() ==> (#[trigger] items[i]).feed_id != feed_id),
    decreases items.len(),
{
    if items.len() > 0 {
        let dl = items.drop_last();
        lemma_baseline_none(dl, feed_id);
        assert(forall|i: int| 0 <= i < dl.len() ==> #[trigger] dl[i] == items[i]);
        if baseline_of(items, feed_id) is None {
            assert forall|i: int|
                0 <= i < items.len() implies (#[trigger] items[i]).feed_id != feed_id by {
                if i < items.len() - 1 {
                    assert(dl[i].feed_id != feed_id);
                }
            }
        }
    }
}

/// A feed's baseline bounds every stored instant of the feed and is
/// attained by one of them.
proof fn lemma_baseline_bounds(items: Seq<StoredItemView>, feed_id: i32)
    requires
        baseline_of(items, feed_id) is Some,
    ensures
        ({
            let b = baseline_of(items, feed_id).unwrap();
            &&& forall|i: int|
                0 <= i < items.len() && (#[trigger] items[i]).feed_id == feed_id
                    ==> items[i].published_at <= b
            &&& exists|i: int|
                0 <= i < items.len() && (#[trigger] items[i]).feed_id == feed_id
                    && items[i].published_at == b
        }),
    decreases items.len(),
{
    let b = baseline_of(items, feed_id).unwrap();
    let dl = items.drop_last();
    let last = items.last();
    assert(forall|i: int| 0 <= i < dl.len() ==> #[trigger] dl[i] == items[i]);
    if baseline_of(dl, feed_id) is Some {
        lemma_baseline_bounds(dl, feed_id);
        let bd = baseline_of(dl, feed_id).unwrap();
        if last.feed_id == feed_id {
            assert(b == if bd >= last.published_at {
                bd
            } else {
                last.published_at
            });
        } else {
            assert(b == bd);
        }
        assert forall|i: int|
            0 <= i < items.len() && (#[trigger] items[i]).feed_id == feed_id implies
            items[i].published_at <= b by {
            if i < items.len() - 1 {
                assert(dl[i] == items[i]);
                assert(dl[i].published_at <= bd);
                assert(bd <= b);
            } else {
                assert(items[i] == last);
                assert(b >= last.published_at);
            }
        }
        if b == bd {
            let w = choose|w: int|
                0 <= w < dl.len() && (#[trigger] dl[w]).feed_id == feed_id && dl[w].published_at
                    == bd;
            assert((#[trigger] items[w]).feed_id == feed_id && items[w].published_at == b);
        } else {
            assert((#[trigger] items[items.len() - 1]).feed_id == feed_id && items[items.len()
                - 1].published_at == b);
        }
    } else {
        lemma_baseline_none(dl, feed_id);
        assert(last.feed_id == feed_id);
        assert(b == last.published_at);
        assert forall|i: int|
            0 <= i < items.len() && (#[trigger] items[i]).feed_id == feed_id implies
            items[i].published_at <= b by {
            if i < items.len() - 1 {
                assert(dl[i] == items[i]);
                assert(dl[i].feed_id != feed_id);
            } else {
                assert(items[i] == last);
            }
        }
        assert((#[trigger] items[items.len() - 1]).feed_id == feed_id && items[items.len()
            - 1].published_at == b);
    }
}

/// After one run of a feed's sync, a second run over the same entries is a
/// no-op against any store that still holds every fingerprint the first run
/// left, whose baseline for the feed is what the first run left, and whose
/// id counter has not moved backwards.
proof fn lemma_second_sync_noop(
    items: Seq<StoredItemView>,
    next_id: i32,
    es: Seq<RawItemView>,
    fetch_old: bool,
    feed_id: i32,
    now1: i64,
    s2: Seq<StoredItemView>,
    n2: i32,
    now2: i64,
)
    requires
        ({
            let f1 = sync_fold(items, next_id, es, fetch_old, feed_id, now1);
            &&& forall|fp: Seq<char>|
                has_fingerprint(f1.0, fp) ==> #[trigger] has_fingerprint(s2, fp)
            &&& baseline_of(s2, feed_id) == baseline_of(f1.0, feed_id)
            &&& f1.1 <= n2
        }),
    ensures
        sync_fold(s2, n2, es, fetch_old, feed_id, now2) == (
            s2,
            n2,
            Seq::<ItemToCreateView>::empty(),
        ),
{
    let b1 = baseline_of(items, feed_id);
    let batch1 = sync_batch(es, b1, fetch_old, feed_id, now1);
    let f1 = insert_fold(items, next_id, batch1);
    let b2 = baseline_of(f1.0, feed_id);
    let batch2 = sync_batch(es, b2, fetch_old, feed_id, now2);
    lemma_insert_fold_facts(items, next_id, batch1);
    let kept1 = retained(es, b1, fetch_old);
    let kept2 = retained(es, b2, fetch_old);
    let sort1 = sort_raw_spec(kept1);
    let sort2 = sort_raw_spec(kept2);
    law_sort_entries_ordered(kept1);
    law_sort_entries_ordered(kept2);
    if f1.1 == i32::MAX {
        assert(n2 == i32::MAX);
        lemma_insert_fold_noop(s2, n2, batch2);
    } else {
        assert forall|k: int|
            0 <= k < batch2.len() implies has_fingerprint(
            f1.0,
            fingerprint_spec((#[trigger] batch2[k]).title, batch2[k].link),
        ) || f1.1 == i32::MAX by {
            assert(batch2[k] == normalized(sort2[k], feed_id, now2));
            let e2 = sort2[k];
            assert(sort2.contains(e2));
            assert(kept2.contains(e2));
            // every entry the second run retains was retained by the first run
            if fetch_old {
                lemma_retained_backfill(es, b1);
                lemma_retained_backfill(es, b2);
                assert(kept1.contains(e2));
            } else if b1 is Some {
                // the first run's baseline only ever moves forward
                let t1 = b1.unwrap();
                lemma_baseline_bounds(items, feed_id);
                let w1 = choose|w1: int|
                    0 <= w1 < items.len() && (#[trigger] items[w1]).feed_id == feed_id
                        && items[w1].published_at == t1;
                assert(f1.0[w1] == items[w1]);
                lemma_baseline_none(f1.0, feed_id);
                assert(b2 is Some);
                let t2 = b2.unwrap();
                lemma_baseline_bounds(f1.0, feed_id);
                assert(f1.0[w1].published_at <= t2);
                assert(t1 <= t2);
                let p2 = keep_pred(b2, false);
                lemma_filter_sub(es, p2);
                assert(kept2 == es.filter(p2));
                assert(es.contains(e2));
                let wi = choose|wi: int| 0 <= wi < es.len() && es[wi] == e2;
                let wk = choose|wk: int| 0 <= wk < kept2.len() && kept2[wk] == e2;
                es.lemma_filter_pred(p2, wk);
                assert(keeps(e2, b2, false));
                assert(e2.published_at is Some && e2.published_at.unwrap() > t2);
                assert(keeps(e2, b1, false));
                let p1 = keep_pred(b1, false);
                es.lemma_filter_contains(p1, wi);
                assert(kept1.contains(e2));
            } else {
                // first sync: the chosen entry's instant becomes the new
                // baseline, at or above every fetched instant
                lemma_baseline_none(items, feed_id);
                assert(es.len() > 0) by {
                    if es.len() == 0 {
                        assert(kept2.len() == 0) by {
                            if b2 is None {
                            } else {
                                assert(kept2 == es.filter(keep_pred(b2, false)));
                                es.lemma_filter_len(keep_pred(b2, false));
                            }
                        }
                    }
                }
                lemma_max_pub_idx(es);
                let chosen = es[max_pub_idx(es)];
                assert(kept1 =~= seq![chosen]);
                reveal_with_fuel(sort_raw_spec, 2);
                assert(kept1.drop_last() =~= Seq::<RawItemView>::empty());
                assert(sort_raw_spec(kept1.drop_last()).len() == 0);
                assert(sort1 =~= seq![chosen]);
                let x1 = normalized(chosen, feed_id, now1);
                assert(batch1 =~= seq![x1]);
                reveal_with_fuel(insert_fold, 2);
                let fpx = fingerprint_spec(x1.title, x1.link);
                assert(batch1.drop_first() =~= Seq::<ItemToCreateView>::empty());
                if has_fingerprint(items, fpx) {
                    assert(f1.0 == items && f1.1 == next_id);
                    assert(b2 is None);
                    assert(kept2 =~= seq![chosen]);
                    assert(sort2 =~= seq![chosen]);
                    assert(e2 == chosen);
                    assert(fingerprint_spec(batch2[k].title, batch2[k].link) == fpx);
                    assert(has_fingerprint(f1.0, fpx));
                } else if next_id == i32::MAX {
                    assert(f1.1 == i32::MAX);
                } else {
                    let st = stored_of(x1, next_id);
                    assert(f1.0 =~= items.push(st));
                    assert(f1.0.drop_last() =~= items);
                    assert(f1.0.last() == st);
                    assert(st.feed_id == feed_id);
                    assert(b2 == Some(st.published_at));
                    // nothing fetched was published after the stored instant
                    assert(kept2.len() == 0) by {
                        let p2 = keep_pred(b2, false);
                        assert(kept2 == es.filter(p2));
                        if kept2.len() > 0 {
                            es.lemma_filter_pred(p2, 0);
                            let y = kept2[0];
                            assert(keeps(y, b2, false));
                            lemma_filter_sub(es, p2);
                            assert(kept2.contains(kept2[0]));
                            assert(es.contains(y));
                            let wy = choose|wy: int| 0 <= wy < es.len() && es[wy] == y;
                            assert(opt_ts_le(es[wy].published_at, chosen.published_at));
                            match chosen.published_at {
                                Some(pm) => {
                                    assert(st.published_at == pm);
                                },
                                None => {},
                            }
                        }
                    }
                    assert(sort2.len() == 0);
                    assert(batch2.len() == 0);
                }
            }
            if kept1.contains(e2) {
                assert(sort1.contains(e2));
                let wk1 = choose|wk1: int| 0 <= wk1 < sort1.len() && sort1[wk1] == e2;
                assert(batch1[wk1] == normalized(e2, feed_id, now1));
                assert(fingerprint_spec(batch1[wk1].title, batch1[wk1].link) == fingerprint_spec(
                    batch2[k].title,
                    batch2[k].link,
                ));
                assert(has_fingerprint(
                    f1.0,
                    fingerprint_spec((#[trigger] batch1[wk1]).title, batch1[wk1].link),
                ) || f1.1 == i32::MAX);
            }
        }
        assert forall|k: int|
            0 <= k < batch2.len() implies has_fingerprint(
            s2,
            fingerprint_spec((#[trigger] batch2[k]).title, batch2[k].link),
        ) || n2 == i32::MAX by {
            assert(has_fingerprint(f1.0, fingerprint_spec(batch2[k].title, batch2[k].link)));
        }
        lemma_insert_fold_noop(s2, n2, batch2);
    }
    assert(sync_fold(s2, n2, es, fetch_old, feed_id, now2) == (
    s2,
    n2,
    Seq::<ItemToCreateView>::empty(),
    ));
}

/// Idempotency: running one feed's sync a second time over the same fetched
/// entries — at any later poll time — inserts nothing and leaves the store
/// exactly as the first run left it.
pub proof fn law_sync_idempotent(
    items: Seq<StoredItemView>,
    next_id: i32,
    es: Seq<RawItemView>,
    fetch_old: bool,
    feed_id: i32,
    now1: i64,
    now2: i64,
)
    ensures
        ({
            let f1 = sync_fold(items, next_id, es, fetch_old, feed_id, now1);
            let f2 = sync_fold(f1.0, f1.1, es, fetch_old, feed_id, now2);
            &&& f2.0 == f1.0
            &&& f2.1 == f1.1
            &&& f2.2 == Seq::<ItemToCreateView>::empty()
        }),
{
    let f1 = sync_fold(items, next_id, es, fetch_old, feed_id, now1);
    lemma_second_sync_noop(items, next_id, es, fetch_old, feed_id, now1, f1.0, f1.1, now2);
}

/// Whatever the fold reports as inserted came from its batch.
proof fn lemma_insert_fold_inserted_sub(
    items: Seq<StoredItemView>,
    next_id: i32,
    batch: Seq<ItemToCreateView>,
)
    ensures
        forall|y: ItemToCreateView|
            #[trigger] insert_fold(items, next_id, batch).2.contains(y) ==> batch.contains(y),
    decreases batch.len(),
{
    if batch.len() > 0 {
        let x = batch[0];
        let rest = batch.drop_first();
        assert(forall|k: int| 0 <= k < rest.len() ==> #[trigger] rest[k] == batch[k + 1]);
        let f = insert_fold(items, next_id, batch);
        if has_fingerprint(items, fingerprint_spec(x.title, x.link)) || next_id == i32::MAX {
            lemma_insert_fold_inserted_sub(items, next_id, rest);
            assert forall|y: ItemToCreateView| #[trigger] f.2.contains(y) implies batch.contains(
                y,
            ) by {
                assert(insert_fold(items, next_id, rest).2.contains(y));
                assert(rest.contains(y));
                let w = choose|w: int| 0 <= w < rest.len() && rest[w] == y;
                assert(batch[w + 1] == y);
            }
        } else {
            let pushed = items.push(stored_of(x, next_id));
            lemma_insert_fold_inserted_sub(pushed, (next_id + 1) as i32, rest);
            let restf = insert_fold(pushed, (next_id + 1) as i32, rest);
            assert forall|y: ItemToCreateView| #[trigger] f.2.contains(y) implies batch.contains(
                y,
            ) by {
                let w = choose|w: int| 0 <= w < f.2.len() && f.2[w] == y;
                if w == 0 {
                    assert(batch[0] == y);
                } else {
                    assert(restf.2[w - 1] == y);
                    assert(restf.2.contains(y));
                    let w2 = choose|w2: int| 0 <= w2 < rest.len() && rest[w2] == y;
                    assert(batch[w2 + 1] == y);
                }
            }
        }
    }
}

/// A batch inserted in ascending order of publication instant comes out of
/// the store's insertion fold still in that order: of two inserted items
/// with instants t1 < t2, the t1 item was inserted first.
pub proof fn law_inserted_order_preserved(
    items: Seq<StoredItemView>,
    next_id: i32,
    batch: Seq<ItemToCreateView>,
)
    requires
        forall|i: int, j: int|
            0 <= i < j < batch.len() ==> (#[trigger] batch[i]).published_at
                <= (#[trigger] batch[j]).published_at,
    ensures
        ({
            let ins = insert_fold(items, next_id, batch).2;
            forall|i: int, j: int|
                0 <= i < j < ins.len() ==> (#[trigger] ins[i]).published_at
                    <= (#[trigger] ins[j]).published_at
        }),
    decreases batch.len(),
{
    if batch.len() > 0 {
        let x = batch[0];
        let rest = batch.drop_first();
        assert(forall|k: int| 0 <= k < rest.len() ==> #[trigger] rest[k] == batch[k + 1]);
        let f = insert_fold(items, next_id, batch);
        if has_fingerprint(items, fingerprint_spec(x.title, x.link)) || next_id == i32::MAX {
            law_inserted_order_preserved(items, next_id, rest);
        } else {
            let pushed = items.push(stored_of(x, next_id));
            law_inserted_order_preserved(pushed, (next_id + 1) as i32, rest);
            lemma_insert_fold_inserted_sub(pushed, (next_id + 1) as i32, rest);
            let restf = insert_fold(pushed, (next_id + 1) as i32, rest);
            assert forall|i: int, j: int|
                0 <= i < j < f.2.len() implies (#[trigger] f.2[i]).published_at
                <= (#[trigger] f.2[j]).published_at by {
                if i == 0 {
                    assert(f.2[j] == restf.2[j - 1]);
                    assert(restf.2.contains(restf.2[j - 1]));
                    let w = choose|w: int| 0 <= w < rest.len() && rest[w] == restf.2[j - 1];
                    assert(batch[w + 1] == restf.2[j - 1]);
                    assert(batch[0].published_at <= batch[w + 1].published_at);
                } else {
                    assert(f.2[i] == restf.2[i - 1] && f.2[j] == restf.2[j - 1]);
                }
            }
        }
    }
}

/// Every entry of a feed's batch belongs to that feed.
proof fn lemma_sync_batch_feed(
    es: Seq<RawItemView>,
    baseline: Option<i64>,
    fetch_old: bool,
    feed_id: i32,
    now: i64,
)
    ensures
        forall|k: int|
            0 <= k < sync_batch(es, baseline, fetch_old, feed_id, now).len() ==> (
            #[trigger] sync_batch(es, baseline, fetch_old, feed_id, now)[k]).feed == feed_id,
{
    let sorted = sort_raw_spec(retained(es, baseline, fetch_old));
    let batch = sync_batch(es, baseline, fetch_old, feed_id, now);
    assert forall|k: int|
        0 <= k < batch.len() implies (#[trigger] batch[k]).feed == feed_id by {
        assert(batch[k] == normalized(sorted[k], feed_id, now));
    }
}

/// The structural facts one whole pass leaves behind: existing rows and
/// fingerprints stay, appended rows belong to feeds of the pass, and the
/// id counter never shrinks.
proof fn lemma_pass_fold_facts(
    items: Seq<StoredItemView>,
    next_id: i32,
    fetched: Seq<crate::worker::FeedFetchView>,
    now: i64,
)
    ensures
        ({
            let g = pass_fold(items, next_id, fetched, now);
            &&& items.len() <= g.0.len()
            &&& forall|i: int| 0 <= i < items.len() ==> #[trigger] g.0[i] == items[i]
            &&& forall|i: int|
                items.len() <= i < g.0.len() ==> exists|k: int|
                    0 <= k < fetched.len() && (#[trigger] g.0[i]).feed_id == fetched[k].feed
            &&& forall|fp: Seq<char>|
                has_fingerprint(items, fp) ==> #[trigger] has_fingerprint(g.0, fp)
            &&& next_id <= g.1
        }),
    decreases fetched.len(),
{
    if fetched.len() > 0 {
        let f0 = fetched[0];
        let batch = sync_batch(
            f0.entries,
            baseline_of(items, f0.feed),
            f0.fetch_old_items,
            f0.feed,
            now,
        );
        let one = insert_fold(items, next_id, batch);
        lemma_insert_fold_facts(items, next_id, batch);
        lemma_sync_batch_feed(
            f0.entries,
            baseline_of(items, f0.feed),
            f0.fetch_old_items,
            f0.feed,
            now,
        );
        let rest = fetched.drop_first();
        assert(forall|k: int| 0 <= k < rest.len() ==> #[trigger] rest[k] == fetched[k + 1]);
        lemma_pass_fold_facts(one.0, one.1, rest, now);
        let g = pass_fold(items, next_id, fetched, now);
        assert(g.0 == pass_fold(one.0, one.1, rest, now).0);
        assert forall|i: int| 0 <= i < items.len() implies #[trigger] g.0[i] == items[i] by {
            assert(one.0[i] == items[i]);
        }
        assert forall|i: int|
            items.len() <= i < g.0.len() implies exists|k: int|
                0 <= k < fetched.len() && (#[trigger] g.0[i]).feed_id == fetched[k].feed by {
            if i < one.0.len() {
                assert(g.0[i] == one.0[i]);
                let k0 = choose|k0: int|
                    0 <= k0 < batch.len() && (#[trigger] one.0[i]).feed_id == batch[k0].feed
                        && one.0[i].published_at == batch[k0].published_at;
                assert(batch[k0].feed == f0.feed);
                assert(0 <= 0 < fetched.len() && (#[trigger] g.0[i]).feed_id == fetched[0].feed);
            } else {
                let k1 = choose|k1: int|
                    0 <= k1 < rest.len() && (#[trigger] g.0[i]).feed_id == rest[k1].feed;
                assert(rest[k1] == fetched[k1 + 1]);
                assert(0 <= k1 + 1 < fetched.len() && (#[trigger] g.0[i]).feed_id == fetched[k1
                    + 1].feed);
            }
        }
        assert forall|fp: Seq<char>|
            has_fingerprint(items, fp) implies #[trigger] has_fingerprint(g.0, fp) by {
            assert(has_fingerprint(one.0, fp));
        }
    }
}

/// Appending rows of other feeds never moves a feed's baseline.
proof fn lemma_baseline_extend_other(
    s: Seq<StoredItemView>,
    s2: Seq<StoredItemView>,
    feed_id: i32,
)
    requires
        s.len() <= s2.len(),
        forall|i: int| 0 <= i < s.len() ==> #[trigger] s2[i] == s[i],
        forall|i: int| s.len() <= i < s2.len() ==> (#[trigger] s2[i]).feed_id != feed_id,
    ensures
        baseline_of(s2, feed_id) == baseline_of(s, feed_id),
    decreases s2.len(),
{
    if s2.len() == s.len() {
        assert(s2 =~= s);
    } else {
        assert((#[trigger] s2[s2.len() - 1]).feed_id != feed_id);
        assert(baseline_of(s2, feed_id) == baseline_of(s2.drop_last(), feed_id));
        assert(forall|i: int| 0 <= i < s.len() ==> #[trigger] s2.drop_last()[i] == s[i]);
        assert(forall|i: int|
            s.len() <= i < s2.drop_last().len() ==> (#[trigger] s2.drop_last()[i]).feed_id
                != feed_id);
        lemma_baseline_extend_other(s, s2.drop_last(), feed_id);
    }
}

/// Idempotency of the whole pass: running a full poll cycle a second time
/// over the same fetched content — at any later poll time — inserts nothing
/// and leaves the item store exactly as the first pass left it. Each feed
/// appears once per pass, as a pass polls each subscribed feed once.
pub proof fn law_pass_idempotent(
    items: Seq<StoredItemView>,
    next_id: i32,
    fetched: Seq<crate::worker::FeedFetchView>,
    now1: i64,
    now2: i64,
)
    requires
        forall|k1: int, k2: int|
            0 <= k1 < k2 < fetched.len() ==> (#[trigger] fetched[k1]).feed
                != (#[trigger] fetched[k2]).feed,
    ensures
        ({
            let g1 = pass_fold(items, next_id, fetched, now1);
            let g2 = pass_fold(g1.0, g1.1, fetched, now2);
            &&& g2.0 == g1.0
            &&& g2.1 == g1.1
            &&& g2.2 == Seq::<ItemToCreateView>::empty()
        }),
    decreases fetched.len(),
{
    let g1 = pass_fold(items, next_id, fetched, now1);
    if fetched.len() == 0 {
        assert(pass_fold(g1.0, g1.1, fetched, now2).2 =~= Seq::<ItemToCreateView>::empty());
    } else {
        let f0 = fetched[0];
        let rest = fetched.drop_first();
        assert(forall|k: int| 0 <= k < rest.len() ==> #[trigger] rest[k] == fetched[k + 1]);
        let batch0 = sync_batch(
            f0.entries,
            baseline_of(items, f0.feed),
            f0.fetch_old_items,
            f0.feed,
            now1,
        );
        let one1 = insert_fold(items, next_id, batch0);
        assert(one1 == sync_fold(items, next_id, f0.entries, f0.fetch_old_items, f0.feed, now1));
        let rest1 = pass_fold(one1.0, one1.1, rest, now1);
        assert(g1.0 == rest1.0 && g1.1 == rest1.1);
        lemma_pass_fold_facts(one1.0, one1.1, rest, now1);
        assert forall|i: int|
            one1.0.len() <= i < rest1.0.len() implies (#[trigger] rest1.0[i]).feed_id
            != f0.feed by {
            let k = choose|k: int|
                0 <= k < rest.len() && (#[trigger] rest1.0[i]).feed_id == rest[k].feed;
            assert(rest[k] == fetched[k + 1]);
            assert(fetched[0].feed != fetched[k + 1].feed);
        }
        lemma_baseline_extend_other(one1.0, rest1.0, f0.feed);
        lemma_second_sync_noop(
            items,
            next_id,
            f0.entries,
            f0.fetch_old_items,
            f0.feed,
            now1,
            rest1.0,
            rest1.1,
            now2,
        );
        let batch2 = sync_batch(
            f0.entries,
            baseline_of(g1.0, f0.feed),
            f0.fetch_old_items,
            f0.feed,
            now2,
        );
        let one2 = insert_fold(g1.0, g1.1, batch2);
        assert(one2 == sync_fold(g1.0, g1.1, f0.entries, f0.fetch_old_items, f0.feed, now2));
        assert(one2.0 == g1.0 && one2.1 == g1.1 && one2.2 == Seq::<ItemToCreateView>::empty());
        assert forall|k1: int, k2: int|
            0 <= k1 < k2 < rest.len() implies (#[trigger] rest[k1]).feed
            != (#[trigger] rest[k2]).feed by {
            assert(rest[k1] == fetched[k1 + 1] && rest[k2] == fetched[k2 + 1]);
            assert(fetched[k1 + 1].feed != fetched[k2 + 1].feed);
        }
        law_pass_idempotent(one1.0, one1.1, rest, now1, now2);
        let rest2 = pass_fold(g1.0, g1.1, rest, now2);
        assert(rest2.0 == g1.0 && rest2.1 == g1.1 && rest2.2 == Seq::<ItemToCreateView>::empty());
        let g2 = pass_fold(g1.0, g1.1, fetched, now2);
        assert(g2.0 == rest2.0 && g2.1 == rest2.1 && g2.2 == one2.2 + rest2.2);
        assert(g2.2 =~= Seq::<ItemToCreateView>::empty());
    }
}

/// Fingerprint determinism: the fingerprint is a function of title and link
/// alone — recomputing it for the same pair gives the same digest, and no
/// change to description, author, status, publication instant or owning
/// feed moves it.
pub proof fn law_fingerprint_determinism(a: ItemToCreateView, b: ItemToCreateView)
    requires
        a.title == b.title,
        a.link == b.link,
    ensures
        fingerprint_spec(a.title, a.link) == fingerprint_spec(b.title, b.link),
{
}

/// Fingerprint sensitivity: distinct (title, link) pairs give distinct
/// digest inputs — the length-prefixed encoding is injective, so no pair
/// collides with another by construction. That the digests themselves then
/// differ rests on the digest's collision resistance and is not claimed.
pub proof fn law_fingerprint_distinct_inputs(
    t1: Seq<char>,
    l1: Seq<char>,
    t2: Seq<char>,
    l2: Seq<char>,
)
    requires
        t1 != t2 || l1 != l2,
    ensures
        encode_pair(t1, l1) != encode_pair(t2, l2),
{
    let e1 = encode_pair(t1, l1);
    let e2 = encode_pair(t2, l2);
    let n1 = t1.len() as int;
    let n2 = t2.len() as int;
    if e1 == e2 {
        // the first semicolon marks the end of the colon run, so equal
        // encodings carry equal title lengths
        assert(e1[n1] == ';');
        assert(e2[n2] == ';');
        assert(forall|i: int| 0 <= i < n1 ==> e1[i] == ':');
        assert(forall|i: int| 0 <= i < n2 ==> e2[i] == ':');
        if n1 < n2 {
            assert(e2[n1] == ':' && e1[n1] == ';');
            assert(false);
        } else if n2 < n1 {
            assert(e1[n2] == ':' && e2[n2] == ';');
            assert(false);
        }
        assert(n1 == n2);
        assert forall|i: int| 0 <= i < n1 implies t1[i] == t2[i] by {
            assert(e1[n1 + 1 + i] == t1[i]);
            assert(e2[n2 + 1 + i] == t2[i]);
        }
        assert(t1 =~= t2);
        assert(e1.len() == n1 + 1 + t1.len() + l1.len());
        assert(e2.len() == n2 + 1 + t2.len() + l2.len());
        assert(l1.len() == l2.len());
        assert forall|i: int| 0 <= i < l1.len() implies l1[i] == l2[i] by {
            assert(e1[n1 + 1 + n1 + i] == l1[i]);
            assert(e2[n2 + 1 + n2 + i] == l2[i]);
        }
        assert(l1 =~= l2);
        assert(false);
    }
}

} // verus!

