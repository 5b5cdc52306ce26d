use vstd::prelude::*;
use vstd::pervasive::VecAdditionalExecFns;

use crate::error::Error;
use crate::model::feed::FeedView;
use crate::model::item::{
    fingerprint_spec, Item, ItemFeed, ItemFeedView, ItemOrder, ItemReadOption, ItemToCreate,
    ItemToCreateView, ItemToUpdate, ItemToUpdateAll, ItemView,
};
use crate::seqs::lemma_filter_push;
use crate::storage::{has_fingerprint, Storage, StoredItem, StoredItemView};
use crate::text::{clone_opt_string, str_eq};

verus! {

/// The stored row that inserting `arg` creates, under the id `id`.
pub open spec fn stored_of(arg: ItemToCreateView, id: i32) -> StoredItemView {
    StoredItemView {
        id: id,
        fingerprint: fingerprint_spec(arg.title, arg.link),
        author: arg.author,
        title: arg.title,
        description: arg.description,
        link: arg.link,
        status: arg.status,
        is_saved: false,
        published_at: arg.published_at,
        feed_id: arg.feed,
    }
}

/// Whether a stored row passes the filters of a read query.
pub open spec fn matches_opt(it: StoredItemView, opt: &ItemReadOption) -> bool {
    &&& (match opt.ids {
        Some(ids) => ids@.contains(it.id),
        None => true,
    })
    &&& (match opt.feed {
        Some(f) => it.feed_id == f,
        None => true,
    })
    &&& (match opt.status {
        Some(s) => it.status == s,
        None => true,
    })
    &&& (match opt.is_saved {
        Some(b) => it.is_saved == b,
        None => true,
    })
}

/// Whether a stored row passes the filters that counting applies
/// (counting ignores the id list).
pub open spec fn matches_count_opt(it: StoredItemView, opt: &ItemReadOption) -> bool {
    &&& (match opt.feed {
        Some(f) => it.feed_id == f,
        None => true,
    })
    &&& (match opt.status {
        Some(s) => it.status == s,
        None => true,
    })
    &&& (match opt.is_saved {
        Some(b) => it.is_saved == b,
        None => true,
    })
}

/// The rows that counting sees under the filters of `opt`.
pub open spec fn count_pred(opt: &ItemReadOption) -> spec_fn(StoredItemView) -> bool {
    |it: StoredItemView| matches_count_opt(it, opt)
}

/// `it` after a partial update: fields the argument leaves `None` are kept.
pub open spec fn updated_item(it: StoredItemView, status: Option<crate::model::item::ItemStatus>, is_saved: Option<bool>) -> StoredItemView {
    StoredItemView {
        status: match status {
            Some(s) => s,
            None => it.status,
        },
        is_saved: match is_saved {
            Some(b) => b,
            None => it.is_saved,
        },
        ..it
    }
}

/// Whether a stored row is selected by a bulk update's optional filters.
pub open spec fn matches_update_all(it: StoredItemView, arg: &ItemToUpdateAll) -> bool {
    match arg.opt {
        Some(o) => matches_opt(it, &o),
        None => true,
    }
}

/// The item rows after a bulk update touched every selected row.
pub open spec fn mass_updated(items: Seq<StoredItemView>, arg: &ItemToUpdateAll) -> Seq<
    StoredItemView,
> {
    Seq::new(
        items.len(),
        |i: int|
            if matches_update_all(items[i], arg) {
                updated_item(items[i], arg.status, arg.is_saved)
            } else {
                items[i]
            },
    )
}

/// How many rows a bulk update touches.
pub open spec fn update_all_pred(arg: &ItemToUpdateAll) -> spec_fn(StoredItemView) -> bool {
    |it: StoredItemView| matches_update_all(it, arg)
}

/// Whether `x` occurs in the id list.
fn ids_contain(ids: &Vec<i32>, x: i32) -> (r: bool)
    ensures
        r == ids@.contains(x),
{
    let mut k: usize = 0;
    while k < ids.len()
        invariant
            0 <= k <= ids.len(),
            forall|j: int| 0 <= j < k ==> ids@[j] != x,
        decreases ids.len() - k,
    {
        if ids[k] == x {
            return true;
        }
        k = k + 1;
    }
    false
}

/// Whether a stored row passes the filters of a read query.
fn matches_opt_exec(it: &StoredItem, opt: &ItemReadOption) -> (r: bool)
    ensures
        r == matches_opt(it@, opt),
{
    let ids_ok = match &opt.ids {
        Some(ids) => ids_contain(ids, it.id),
        None => true,
    };
    let feed_ok = match opt.feed {
        Some(f) => it.feed_id == f,
        None => true,
    };
    let status_ok = match opt.status {
        Some(s) => it.status == s,
        None => true,
    };
    let saved_ok = match opt.is_saved {
        Some(b) => it.is_saved == b,
        None => true,
    };
    ids_ok && feed_ok && status_ok && saved_ok
}

/// Where a status sorts when unread items come first.
pub open spec fn unread_rank(s: crate::model::item::ItemStatus) -> int {
    match s {
        crate::model::item::ItemStatus::Unread => 0,
        crate::model::item::ItemStatus::Read => 1,
    }
}

/// The total preorder a read query's ordering asks for: whether `a` may
/// stand before `b`.
pub open spec fn item_le(order: ItemOrder, a: ItemView, b: ItemView) -> bool {
    match order {
        ItemOrder::ReceivedDateDesc => a.id > b.id || (a.id == b.id && a.published_at
            >= b.published_at),
        ItemOrder::PublishedDateDesc => a.published_at >= b.published_at,
        ItemOrder::UnreadFirst => unread_rank(a.status) < unread_rank(b.status) || (unread_rank(
            a.status,
        ) == unread_rank(b.status) && a.published_at >= b.published_at),
    }
}

fn item_le_exec(order: ItemOrder, a: &Item, b: &Item) -> (r: bool)
    ensures
        r == item_le(order, a@, b@),
{
    match order {
        ItemOrder::ReceivedDateDesc => a.id > b.id || (a.id == b.id && a.published_at
            >= b.published_at),
        ItemOrder::PublishedDateDesc => a.published_at >= b.published_at,
        ItemOrder::UnreadFirst => {
            let ra: u8 = match a.status {
                crate::model::item::ItemStatus::Unread => 0,
                crate::model::item::ItemStatus::Read => 1,
            };
            let rb: u8 = match b.status {
                crate::model::item::ItemStatus::Unread => 0,
                crate::model::item::ItemStatus::Read => 1,
            };
            ra < rb || (ra == rb && a.published_at >= b.published_at)
        },
    }
}

/// `x` placed into the sorted sequence `s`, after every element that may
/// stand before it; equal elements keep their earlier place, which makes
/// the sort stable.
pub open spec fn sorted_insert(order: ItemOrder, s: Seq<ItemView>, x: ItemView) -> Seq<ItemView>
    decreases s.len(),
{
    if s.len() == 0 {
        seq![x]
    } else if item_le(order, s[0], x) {
        seq![s[0]] + sorted_insert(order, s.drop_first(), x)
    } else {
        seq![x] + s
    }
}

/// The stable insertion sort of `s` under the given ordering.
pub open spec fn sort_items_spec(order: ItemOrder, s: Seq<ItemView>) -> Seq<ItemView>
    decreases s.len(),
{
    if s.len() == 0 {
        s
    } else {
        sorted_insert(order, sort_items_spec(order, s.drop_last()), s.last())
    }
}

proof fn lemma_sorted_insert_at(order: ItemOrder, s: Seq<ItemView>, x: ItemView, p: int)
    requires
        0 <= p <= s.len(),
        forall|j: int| 0 <= j < p ==> item_le(order, #[trigger] s[j], x),
        p < s.len() ==> !item_le(order, s[p], x),
    ensures
        sorted_insert(order, s, x) == s.subrange(0, p) + seq![x] + s.subrange(p, s.len() as int),
    decreases p,
{
    if p == 0 {
        if s.len() == 0 {
            assert(sorted_insert(order, s, x) =~= s.subrange(0, 0) + seq![x] + s.subrange(
                0,
                s.len() as int,
            ));
        } else {
            assert(!item_le(order, s[0], x));
            assert(sorted_insert(order, s, x) =~= s.subrange(0, 0) + seq![x] + s.subrange(
                0,
                s.len() as int,
            ));
        }
    } else {
        assert(item_le(order, s[0], x));
        let df = s.drop_first();
        assert(forall|j: int| 0 <= j < p - 1 ==> item_le(order, #[trigger] df[j], x));
        lemma_sorted_insert_at(order, df, x, p - 1);
        assert(seq![s[0]] + (df.subrange(0, p - 1) + seq![x] + df.subrange(p - 1, df.len() as int))
            =~= s.subrange(0, p) + seq![x] + s.subrange(p, s.len() as int));
    }
}

/// Sorts items under the ordering that a read query asks for, stably:
/// ties keep their insertion order.
fn sort_items(v: Vec<Item>, order: ItemOrder) -> (r: Vec<Item>)
    ensures
        r.deep_view() == sort_items_spec(order, v.deep_view()),
{
    let ghost orig = v.deep_view();
    let mut src = v;
    let mut out: Vec<Item> = Vec::new();
    let mut k: usize = 0;
    let bound = src.len();
    proof {
        assert(orig.len() == bound);
        assert(src.deep_view() =~= orig.subrange(0, orig.len() as int));
        assert(orig.subrange(0, 0) =~= Seq::<ItemView>::empty());
    }
    while src.len() > 0
        invariant
            0 <= k,
            orig.len() <= usize::MAX,
            k + src.len() == orig.len(),
            forall|i: int|
                0 <= i < src.len() ==> #[trigger] src.deep_view()[i] == orig[k + i],
            out.deep_view() == sort_items_spec(order, orig.subrange(0, k as int)),
        decreases src.len(),
    {
        let ghost src_before = src.deep_view();
        let x = src.remove(0);
        proof {
            assert(x@ == src_before[0]);
            assert(x@ == orig[k as int]);
            assert forall|i: int|
                0 <= i < src.deep_view().len() implies #[trigger] src.deep_view()[i] == orig[k + 1
                + i] by {
                assert(src.deep_view()[i] == src_before[i + 1]);
            }
        }
        let mut p: usize = 0;
        while p < out.len() && item_le_exec(order, &out[p], &x)
            invariant
                0 <= p <= out.len(),
                x@ == orig[k as int],
                k < orig.len(),
                out.deep_view() == sort_items_spec(order, orig.subrange(0, k as int)),
                out.deep_view().len() == out.len(),
                forall|j: int| 0 <= j < p ==> item_le(order, #[trigger] out.deep_view()[j], x@),
            decreases out.len() - p,
        {
            proof {
                assert(out.deep_view()[p as int] == out@[p as int]@);
            }
            p = p + 1;
        }
        let ghost out_before = out.deep_view();
        proof {
            assert(p < out.len() ==> !item_le(order, out_before[p as int], x@));
            lemma_sorted_insert_at(order, out_before, x@, p as int);
        }
        out.insert(p, x);
        proof {
            assert(out@ == out@.subrange(0, out@.len() as int));
            assert forall|i: int|
                0 <= i < out.deep_view().len() implies #[trigger] out.deep_view()[i]
                    == sorted_insert(order, out_before, orig[k as int])[i] by {
                let ins = out_before.subrange(0, p as int) + seq![orig[k as int]]
                    + out_before.subrange(p as int, out_before.len() as int);
                if i < p {
                    assert(out@[i] == out@.subrange(0, out@.len() as int)[i]);
                    assert(out.deep_view()[i] == out_before[i]);
                } else if i > p {
                    assert(out.deep_view()[i] == out_before[i - 1]);
                }
            }
            assert(out.deep_view() =~= sorted_insert(order, out_before, orig[k as int]));
            assert(orig.subrange(0, k + 1).drop_last() =~= orig.subrange(0, k as int));
            assert(orig.subrange(0, k + 1).last() == orig[k as int]);
            assert(out.deep_view() == sort_items_spec(order, orig.subrange(0, k + 1)));
        }
        k = k + 1;
    }
    proof {
        assert(orig.subrange(0, k as int) =~= orig);
    }
    out
}

/// The stored item `it` joined with its owning feed `f`, as reads report it.
pub open spec fn item_of(it: StoredItemView, f: FeedView) -> ItemView {
    ItemView {
        id: it.id,
        fingerprint: it.fingerprint,
        author: it.author,
        title: it.title,
        description: it.description,
        link: it.link,
        status: it.status,
        is_saved: it.is_saved,
        published_at: it.published_at,
        feed: ItemFeedView { id: f.id, title: f.title, link: f.link },
    }
}

/// The first feed carrying the given id, if any.
pub open spec fn find_feed_view(feeds: Seq<FeedView>, id: i32) -> Option<FeedView>
    decreases feeds.len(),
{
    if feeds.len() == 0 {
        None
    } else if feeds[0].id == id {
        Some(feeds[0])
    } else {
        find_feed_view(feeds.drop_first(), id)
    }
}

proof fn lemma_find_feed_view_at(feeds: Seq<FeedView>, id: i32, k: int)
    requires
        0 <= k <= feeds.len(),
        forall|j: int| 0 <= j < k ==> (#[trigger] feeds[j]).id != id,
        k < feeds.len() ==> feeds[k].id == id,
    ensures
        find_feed_view(feeds, id) == if k < feeds.len() {
            Some(feeds[k])
        } else {
            None::<FeedView>
        },
    decreases k + 1,
{
    if feeds.len() == 0 {
    } else if k == 0 {
    } else {
        let df = feeds.drop_first();
        assert(forall|j: int| 0 <= j < k - 1 ==> (#[trigger] df[j]).id != id);
        lemma_find_feed_view_at(df, id, k - 1);
    }
}

/// The index of the feed with the given id, if one is registered.
fn find_feed_idx(feeds: &Vec<crate::model::feed::Feed>, id: i32) -> (r: Option<usize>)
    ensures
        match r {
            Some(p) => p < feeds.len() && feeds.deep_view()[p as int].id == id && find_feed_view(
                feeds.deep_view(),
                id,
            ) == Some(feeds.deep_view()[p as int]),
            None => find_feed_view(feeds.deep_view(), id) is None,
        },
{
    let mut k: usize = 0;
    while k < feeds.len()
        invariant
            0 <= k <= feeds.len(),
            forall|j: int| 0 <= j < k ==> (#[trigger] feeds.deep_view()[j]).id != id,
        decreases feeds.len() - k,
    {
        if feeds[k].id == id {
            proof {
                lemma_find_feed_view_at(feeds.deep_view(), id, k as int);
            }
            return Some(k);
        }
        k = k + 1;
    }
    proof {
        lemma_find_feed_view_at(feeds.deep_view(), id, feeds.len() as int);
    }
    None
}

/// The rows of a read query before ordering and pagination: stored items
/// passing the filters, each joined with its owning feed; a row whose feed
/// is gone is not reported.
pub open spec fn read_items(
    items: Seq<StoredItemView>,
    feeds: Seq<FeedView>,
    opt: &ItemReadOption,
) -> Seq<ItemView>
    decreases items.len(),
{
    if items.len() == 0 {
        Seq::empty()
    } else {
        let prev = read_items(items.drop_last(), feeds, opt);
        let it = items.last();
        if matches_opt(it, opt) {
            match find_feed_view(feeds, it.feed_id) {
                Some(f) => prev.push(item_of(it, f)),
                None => prev,
            }
        } else {
            prev
        }
    }
}

/// The page that `limit` and `offset` select: `offset` counts pages of
/// `limit` rows when `limit` is given, otherwise single rows.
pub open spec fn page_of(s: Seq<ItemView>, limit: Option<u64>, offset: Option<u64>) -> Seq<
    ItemView,
> {
    let wanted: int = match (offset, limit) {
        (Some(o), Some(l)) => o * l,
        (Some(o), None) => o as int,
        (None, _) => 0,
    };
    let start: int = if wanted > s.len() {
        s.len() as int
    } else {
        wanted
    };
    let end: int = match limit {
        Some(l) => if start + l > s.len() {
            s.len() as int
        } else {
            start + l
        },
        None => s.len() as int,
    };
    s.subrange(start, end)
}

/// Everything a read query returns: filtered and joined rows, ordered when
/// an ordering is asked for, then cut to the requested page.
pub open spec fn read_all_spec(
    items: Seq<StoredItemView>,
    feeds: Seq<FeedView>,
    opt: &ItemReadOption,
) -> Seq<ItemView> {
    let base = read_items(items, feeds, opt);
    let sorted = match opt.order_by {
        Some(o) => sort_items_spec(o, base),
        None => base,
    };
    page_of(sorted, opt.limit, opt.offset)
}

/// Reads items under the filters, ordering and pagination of `opt`,
/// each joined with its owning feed.
pub fn read_all(storage: &Storage, opt: &ItemReadOption) -> (r: Result<Vec<Item>, Error>)
    ensures
        r matches Ok(v) && v.deep_view() == read_all_spec(
            storage.items_view(),
            storage.feeds_view(),
            opt,
        ),
{
    let ghost items = storage.items_view();
    let ghost feeds = storage.feeds_view();
    let mut base: Vec<Item> = Vec::new();
    let mut k: usize = 0;
    proof {
        assert(items.subrange(0, 0) =~= Seq::<StoredItemView>::empty());
    }
    while k < storage.items.len()
        invariant
            0 <= k <= storage.items.len(),
            items == storage.items_view(),
            feeds == storage.feeds_view(),
            base.deep_view() == read_items(items.subrange(0, k as int), feeds, opt),
        decreases storage.items.len() - k,
    {
        proof {
            assert(items.subrange(0, k + 1).drop_last() =~= items.subrange(0, k as int));
            assert(items.subrange(0, k + 1).last() == items[k as int]);
        }
        let it = &storage.items[k];
        let ghost base_before = base.deep_view();
        if matches_opt_exec(it, opt) {
            match find_feed_idx(&storage.feeds, it.feed_id) {
                Some(p) => {
                    let f = &storage.feeds[p];
                    base.push(
                        Item {
                            id: it.id,
                            fingerprint: it.fingerprint.clone(),
                            author: clone_opt_string(&it.author),
                            title: it.title.clone(),
                            description: it.description.clone(),
                            link: it.link.clone(),
                            status: it.status,
                            is_saved: it.is_saved,
                            published_at: it.published_at,
                            feed: ItemFeed {
                                id: f.id,
                                title: f.title.clone(),
                                link: f.link.clone(),
                            },
                        },
                    );
                    proof {
                        assert(find_feed_view(feeds, items[k as int].feed_id) == Some(
                            feeds[p as int],
                        ));
                        assert(base.deep_view().len() == base_before.len() + 1);
                        assert forall|i: int|
                            0 <= i < base.deep_view().len() implies #[trigger] base.deep_view()[i]
                                == read_items(items.subrange(0, k + 1), feeds, opt)[i] by {
                            if i < base_before.len() {
                                assert(base.deep_view()[i] == base_before[i]);
                            } else {
                                assert(base.deep_view()[i] == base@[i]@);
                                assert(base@[i]@ == item_of(items[k as int], feeds[p as int]));
                            }
                        }
                        assert(base.deep_view() =~= read_items(
                            items.subrange(0, k + 1),
                            feeds,
                            opt,
                        ));
                    }
                },
                None => {},
            }
        }
        k = k + 1;
    }
    proof {
        assert(items.subrange(0, items.len() as int) =~= items);
    }
    let sorted = match opt.order_by {
        Some(o) => sort_items(base, o),
        None => base,
    };
    let ghost full = match opt.order_by {
        Some(o) => sort_items_spec(o, read_items(items, feeds, opt)),
        None => read_items(items, feeds, opt),
    };
    let total = sorted.len();
    let start: usize = {
        let wanted: Option<u64> = match (opt.offset, opt.limit) {
            (Some(o), Some(l)) => o.checked_mul(l),
            (Some(o), None) => Some(o),
            (None, _) => Some(0),
        };
        match wanted {
            Some(wv) => if wv > (total as u64) {
                total
            } else {
                wv as usize
            },
            None => total,
        }
    };
    let end: usize = match opt.limit {
        Some(l) => {
            match (start as u64).checked_add(l) {
                Some(e) => if e > (total as u64) {
                    total
                } else {
                    e as usize
                },
                None => total,
            }
        },
        None => total,
    };
    let mut page: Vec<Item> = Vec::new();
    let mut w: usize = start;
    proof {
        assert(full.subrange(start as int, start as int) =~= Seq::<ItemView>::empty());
    }
    while w < end
        invariant
            start <= w <= end <= sorted.len(),
            sorted.deep_view() == full,
            page.deep_view() == full.subrange(start as int, w as int),
        decreases end - w,
    {
        let ghost page_before = page.deep_view();
        page.push(sorted[w].duplicate());
        proof {
            assert(page.deep_view().len() == page_before.len() + 1);
            assert forall|i: int|
                0 <= i < page.deep_view().len() implies #[trigger] page.deep_view()[i]
                    == full.subrange(start as int, w + 1)[i] by {
                if i < page_before.len() {
                    assert(page.deep_view()[i] == page_before[i]);
                } else {
                    assert(page.deep_view()[i] == page@[i]@);
                }
            }
            assert(page.deep_view() =~= full.subrange(start as int, w + 1));
        }
        w = w + 1;
    }
    proof {
        assert(page.deep_view() == page_of(full, opt.limit, opt.offset));
    }
    Ok(page)
}

/// Inserts a normalized entry as a new item row. A row whose fingerprint is
/// already stored is reported as `Duplicate` ("already known") and changes
/// nothing; otherwise the row is appended under a fresh id.
pub fn create(storage: &mut Storage, arg: &ItemToCreate) -> (r: Result<usize, Error>)
    requires
        old(storage).wf(),
    ensures
        final(storage).wf(),
        final(storage).feeds_view() == old(storage).feeds_view(),
        final(storage).next_feed_id == old(storage).next_feed_id,
        ({
            if has_fingerprint(old(storage).items_view(), fingerprint_spec(arg.title@, arg.link@)) {
                &&& r == Err::<usize, Error>(Error::Duplicate)
                &&& final(storage).items_view() == old(storage).items_view()
                &&& final(storage).next_item_id == old(storage).next_item_id
            } else if old(storage).next_item_id == i32::MAX {
                &&& r == Err::<usize, Error>(Error::StorageFailure)
                &&& final(storage).items_view() == old(storage).items_view()
                &&& final(storage).next_item_id == old(storage).next_item_id
            } else {
                &&& r == Ok::<usize, Error>(1)
                &&& final(storage).next_item_id == old(storage).next_item_id + 1
                &&& final(storage).items_view() == old(storage).items_view().push(
                    stored_of(arg@, old(storage).next_item_id),
                )
            }
        }),
{
    let fp = arg.fingerprint();
    let ghost s0 = *storage;
    proof {
        assert(s0 == *old(storage));
    }
    let mut k: usize = 0;
    while k < storage.items.len()
        invariant
            *storage == s0,
            s0 == *old(storage),
            s0.wf(),
            fp@ == fingerprint_spec(arg.title@, arg.link@),
            0 <= k <= storage.items.len(),
            forall|j: int| 0 <= j < k ==> (#[trigger] s0.items_view()[j]).fingerprint != fp@,
        decreases storage.items.len() - k,
    {
        if str_eq(storage.items[k].fingerprint.as_str(), fp.as_str()) {
            proof {
                assert((#[trigger] s0.items_view()[k as int]).fingerprint == fp@);
                assert(has_fingerprint(s0.items_view(), fp@));
            }
            return Err(Error::Duplicate);
        }
        k = k + 1;
    }
    if storage.next_item_id == i32::MAX {
        return Err(Error::StorageFailure);
    }
    let row = StoredItem {
        id: storage.next_item_id,
        fingerprint: fp,
        author: clone_opt_string(&arg.author),
        title: arg.title.clone(),
        description: arg.description.clone(),
        link: arg.link.clone(),
        status: arg.status,
        is_saved: false,
        published_at: arg.published_at,
        feed_id: arg.feed,
    };
    proof {
        assert(row@ == stored_of(arg@, s0.next_item_id));
    }
    storage.items.push(row);
    storage.next_item_id = storage.next_item_id + 1;
    proof {
        let newit = stored_of(arg@, s0.next_item_id);
        let iv = storage.items_view();
        assert(iv =~= s0.items_view().push(newit));
        assert(storage.feeds_view() =~= s0.feeds_view());
        assert forall|i: int, j: int|
            0 <= i < j < iv.len() implies (#[trigger] iv[i]).id != (#[trigger] iv[j]).id by {
            if j < s0.items_view().len() {
                assert(s0.items_view()[i].id != s0.items_view()[j].id);
            } else {
                assert(iv[j] == newit);
                assert(1 <= (#[trigger] s0.items_view()[i]).id < s0.next_item_id);
            }
        }
        assert forall|i: int, j: int|
            0 <= i < j < iv.len() implies (#[trigger] iv[i]).fingerprint
                != (#[trigger] iv[j]).fingerprint by {
            if j < s0.items_view().len() {
                assert(s0.items_view()[i].fingerprint != s0.items_view()[j].fingerprint);
            } else {
                assert(iv[j] == newit);
                assert((#[trigger] s0.items_view()[i]).fingerprint != fingerprint_spec(
                    arg.title@,
                    arg.link@,
                ));
            }
        }
        assert forall|i: int|
            0 <= i < iv.len() implies 1 <= (#[trigger] iv[i]).id < storage.next_item_id by {
            if i < s0.items_view().len() {
                assert(1 <= (#[trigger] s0.items_view()[i]).id < s0.next_item_id);
            }
        }
    }
    Ok(1)
}

/// How many stored rows pass the filters of `opt` (its id list plays no
/// part in counting). The count saturates at the largest reportable value.
pub fn count_all(storage: &Storage, opt: &ItemReadOption) -> (r: Result<i64, Error>)
    ensures
        r matches Ok(c) && c == ({
            let total = storage.items_view().filter(count_pred(opt)).len();
            if total <= i64::MAX {
                total as int
            } else {
                i64::MAX as int
            }
        }),
{
    let ghost items = storage.items_view();
    let mut count: usize = 0;
    let mut k: usize = 0;
    proof {
        assert(items.subrange(0, 0) =~= Seq::<StoredItemView>::empty());
        reveal(Seq::filter);
    }
    while k < storage.items.len()
        invariant
            0 <= k <= storage.items.len(),
            items == storage.items_view(),
            count == items.subrange(0, k as int).filter(count_pred(opt)).len(),
            count <= k,
        decreases storage.items.len() - k,
    {
        proof {
            lemma_filter_push(items.subrange(0, k as int), items[k as int], count_pred(opt));
            assert(items.subrange(0, k + 1) =~= items.subrange(0, k as int).push(items[k as int]));
        }
        let it = &storage.items[k];
        let feed_ok = match opt.feed {
            Some(f) => it.feed_id == f,
            None => true,
        };
        let status_ok = match opt.status {
            Some(s) => it.status == s,
            None => true,
        };
        let saved_ok = match opt.is_saved {
            Some(b) => it.is_saved == b,
            None => true,
        };
        if feed_ok && status_ok && saved_ok {
            count = count + 1;
        }
        k = k + 1;
    }
    proof {
        assert(items.subrange(0, items.len() as int) =~= items);
    }
    if (count as u128) <= (i64::MAX as u128) {
        Ok(count as i64)
    } else {
        Ok(i64::MAX)
    }
}

/// Applies a partial update to the item named by `arg.id`. Returns how many
/// items matched. Fails exactly when the update names no field.
pub fn update(storage: &mut Storage, arg: &ItemToUpdate) -> (r: Result<usize, Error>)
    requires
        old(storage).wf(),
    ensures
        final(storage).wf(),
        final(storage).feeds_view() == old(storage).feeds_view(),
        final(storage).next_feed_id == old(storage).next_feed_id,
        final(storage).next_item_id == old(storage).next_item_id,
        arg.status is None && arg.is_saved is None ==> r == Err::<usize, Error>(
            Error::StorageFailure,
        ) && final(storage).items_view() == old(storage).items_view(),
        !(arg.status is None && arg.is_saved is None) && (forall|i: int|
            0 <= i < old(storage).items_view().len() ==> (#[trigger] old(
                storage,
            ).items_view()[i]).id != arg.id) ==> r == Ok::<usize, Error>(0)
            && final(storage).items_view() == old(storage).items_view(),
        !(arg.status is None && arg.is_saved is None) ==> forall|k: int|
            0 <= k < old(storage).items_view().len() && (#[trigger] old(
                storage,
            ).items_view()[k]).id == arg.id ==> r == Ok::<usize, Error>(1)
            && final(storage).items_view() == old(storage).items_view().update(
                k,
                updated_item(old(storage).items_view()[k], arg.status, arg.is_saved),
            ),
{
    if arg.status.is_none() && arg.is_saved.is_none() {
        return Err(Error::StorageFailure);
    }
    let ghost s0 = *storage;
    proof {
        assert(s0 == *old(storage));
    }
    let n = storage.items.len();
    let mut k: usize = 0;
    while k < n
        invariant
            *storage == s0,
            s0 == *old(storage),
            s0.wf(),
            !(arg.status is None && arg.is_saved is None),
            n == storage.items.len(),
            0 <= k <= n,
            forall|j: int| 0 <= j < k ==> (#[trigger] s0.items_view()[j]).id != arg.id,
        decreases n - k,
    {
        if storage.items[k].id == arg.id {
            proof {
                assert((#[trigger] s0.items_view()[k as int]).id == arg.id);
                assert forall|k2: int|
                    0 <= k2 < s0.items_view().len() && (#[trigger] s0.items_view()[k2]).id
                        == arg.id implies k2 == k as int by {
                    if k2 < k as int {
                        assert(s0.items_view()[k2].id != s0.items_view()[k as int].id);
                    } else if k2 > k as int {
                        assert(s0.items_view()[k as int].id != s0.items_view()[k2].id);
                    }
                }
            }
            let stored = &storage.items[k];
            let cand = StoredItem {
                id: stored.id,
                fingerprint: stored.fingerprint.clone(),
                author: clone_opt_string(&stored.author),
                title: stored.title.clone(),
                description: stored.description.clone(),
                link: stored.link.clone(),
                status: match arg.status {
                    Some(s) => s,
                    None => stored.status,
                },
                is_saved: match arg.is_saved {
                    Some(b) => b,
                    None => stored.is_saved,
                },
                published_at: stored.published_at,
                feed_id: stored.feed_id,
            };
            let ghost candv = cand@;
            proof {
                assert(candv == updated_item(
                    s0.items_view()[k as int],
                    arg.status,
                    arg.is_saved,
                ));
            }
            storage.items.set(k, cand);
            proof {
                let iv = storage.items_view();
                assert(iv =~= s0.items_view().update(k as int, candv));
                assert(storage.feeds_view() =~= s0.feeds_view());
                assert forall|i: int, j2: int|
                    0 <= i < j2 < iv.len() implies (#[trigger] iv[i]).id != (#[trigger] iv[j2]).id
                        && iv[i].fingerprint != iv[j2].fingerprint by {
                    assert(s0.items_view()[i].id != s0.items_view()[j2].id);
                    assert(s0.items_view()[i].fingerprint != s0.items_view()[j2].fingerprint);
                    assert(iv[i].id == s0.items_view()[i].id && iv[i].fingerprint
                        == s0.items_view()[i].fingerprint);
                    assert(iv[j2].id == s0.items_view()[j2].id && iv[j2].fingerprint
                        == s0.items_view()[j2].fingerprint);
                }
                assert forall|i: int|
                    0 <= i < iv.len() implies 1 <= (#[trigger] iv[i]).id < storage.next_item_id by {
                    assert(1 <= (#[trigger] s0.items_view()[i]).id < s0.next_item_id);
                    assert(iv[i].id == s0.items_view()[i].id);
                }
                assert forall|k2: int|
                    0 <= k2 < old(storage).items_view().len() && (#[trigger] old(
                        storage,
                    ).items_view()[k2]).id == arg.id implies k2 == k as int by {
                    assert((#[trigger] s0.items_view()[k2]).id == arg.id);
                }
            }
            return Ok(1);
        }
        k = k + 1;
    }
    Ok(0)
}

/// Applies a partial update to every item passing the filters of `arg.opt`
/// (all items when no filters are given). Returns how many items were
/// touched. Fails exactly when the update names no field.
pub fn update_all(storage: &mut Storage, arg: &ItemToUpdateAll) -> (r: Result<usize, Error>)
    requires
        old(storage).wf(),
    ensures
        final(storage).wf(),
        final(storage).feeds_view() == old(storage).feeds_view(),
        final(storage).next_feed_id == old(storage).next_feed_id,
        final(storage).next_item_id == old(storage).next_item_id,
        arg.status is None && arg.is_saved is None ==> r == Err::<usize, Error>(
            Error::StorageFailure,
        ) && final(storage).items_view() == old(storage).items_view(),
        !(arg.status is None && arg.is_saved is None) ==> (r matches Ok(n) && n == old(
            storage,
        ).items_view().filter(update_all_pred(arg)).len() && final(storage).items_view()
            == mass_updated(old(storage).items_view(), arg)),
{
    if arg.status.is_none() && arg.is_saved.is_none() {
        return Err(Error::StorageFailure);
    }
    let ghost s0 = *storage;
    proof {
        assert(s0 == *old(storage));
        assert(s0.items_view().subrange(0, 0) =~= Seq::<StoredItemView>::empty());
        reveal(Seq::filter);
    }
    let mut out: Vec<StoredItem> = Vec::new();
    let mut touched: usize = 0;
    let mut k: usize = 0;
    let n = storage.items.len();
    while k < n
        invariant
            *storage == s0,
            s0 == *old(storage),
            s0.wf(),
            !(arg.status is None && arg.is_saved is None),
            n == storage.items.len(),
            0 <= k <= n,
            touched == s0.items_view().subrange(0, k as int).filter(update_all_pred(arg)).len(),
            touched <= k,
            out.deep_view().len() == k,
            forall|i: int|
                0 <= i < k ==> #[trigger] out.deep_view()[i] == mass_updated(
                    s0.items_view(),
                    arg,
                )[i],
        decreases n - k,
    {
        proof {
            lemma_filter_push(
                s0.items_view().subrange(0, k as int),
                s0.items_view()[k as int],
                update_all_pred(arg),
            );
            assert(s0.items_view().subrange(0, k + 1) =~= s0.items_view().subrange(
                0,
                k as int,
            ).push(s0.items_view()[k as int]));
        }
        let it = &storage.items[k];
        let selected = match &arg.opt {
            Some(o) => matches_opt_exec(it, o),
            None => true,
        };
        proof {
            assert(selected == matches_update_all(s0.items_view()[k as int], arg));
        }
        let ghost out_before = out.deep_view();
        if selected {
            let cand = StoredItem {
                id: it.id,
                fingerprint: it.fingerprint.clone(),
                author: clone_opt_string(&it.author),
                title: it.title.clone(),
                description: it.description.clone(),
                link: it.link.clone(),
                status: match arg.status {
                    Some(s) => s,
                    None => it.status,
                },
                is_saved: match arg.is_saved {
                    Some(b) => b,
                    None => it.is_saved,
                },
                published_at: it.published_at,
                feed_id: it.feed_id,
            };
            proof {
                assert(cand@ == updated_item(s0.items_view()[k as int], arg.status, arg.is_saved));
            }
            out.push(cand);
            touched = touched + 1;
        } else {
            out.push(storage.items[k].duplicate());
        }
        proof {
            assert(out.deep_view().len() == out_before.len() + 1);
            assert forall|i: int|
                0 <= i < out.deep_view().len() implies #[trigger] out.deep_view()[i]
                    == mass_updated(s0.items_view(), arg)[i] by {
                if i < out_before.len() {
                    assert(out.deep_view()[i] == out_before[i]);
                } else {
                    assert(out.deep_view()[i] == out@[k as int]@);
                }
            }
        }
        k = k + 1;
    }
    proof {
        assert(s0.items_view().subrange(0, n as int) =~= s0.items_view());
    }
    storage.items = out;
    proof {
        let iv = storage.items_view();
        let mu = mass_updated(s0.items_view(), arg);
        assert(iv =~= mu);
        assert(storage.feeds_view() =~= s0.feeds_view());
        assert forall|i: int, j2: int|
            0 <= i < j2 < iv.len() implies (#[trigger] iv[i]).id != (#[trigger] iv[j2]).id
                && iv[i].fingerprint != iv[j2].fingerprint by {
            assert(s0.items_view()[i].id != s0.items_view()[j2].id);
            assert(s0.items_view()[i].fingerprint != s0.items_view()[j2].fingerprint);
            assert(iv[i].id == s0.items_view()[i].id && iv[i].fingerprint
                == s0.items_view()[i].fingerprint);
            assert(iv[j2].id == s0.items_view()[j2].id && iv[j2].fingerprint
                == s0.items_view()[j2].fingerprint);
        }
        assert forall|i: int|
            0 <= i < iv.len() implies 1 <= (#[trigger] iv[i]).id < storage.next_item_id by {
            assert(1 <= (#[trigger] s0.items_view()[i]).id < s0.next_item_id);
            assert(iv[i].id == s0.items_view()[i].id);
        }
    }
    Ok(touched)
}

} // verus!
