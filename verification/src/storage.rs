use vstd::prelude::*;

use crate::model::feed::{Feed, FeedView};
use crate::model::item::ItemStatus;
use crate::text::clone_opt_string;

verus! {

/// The abstract value of a persisted item row.
pub struct StoredItemView {
    pub id: i32,
    pub fingerprint: Seq<char>,
    pub author: Option<Seq<char>>,
    pub title: Seq<char>,
    pub description: Seq<char>,
    pub link: Seq<char>,
    pub status: ItemStatus,
    pub is_saved: bool,
    pub published_at: i64,
    pub feed_id: i32,
}

/// A persisted item row. The fingerprint is the unique dedup key; `feed_id`
/// names the owning feed. `published_at` is in seconds since the Unix epoch.
#[derive(Debug)]
pub struct StoredItem {
    pub id: i32,
    pub fingerprint: String,
    pub author: Option<String>,
    pub title: String,
    pub description: String,
    pub link: String,
    pub status: ItemStatus,
    pub is_saved: bool,
    pub published_at: i64,
    pub feed_id: i32,
}

impl View for StoredItem {
    type V = StoredItemView;

    open spec fn view(&self) -> StoredItemView {
        StoredItemView {
            id: self.id,
            fingerprint: self.fingerprint@,
            author: match self.author {
                Some(a) => Some(a@),
                None => None,
            },
            title: self.title@,
            description: self.description@,
            link: self.link@,
            status: self.status,
            is_saved: self.is_saved,
            published_at: self.published_at,
            feed_id: self.feed_id,
        }
    }
}

impl DeepView for StoredItem {
    type V = StoredItemView;

    open spec fn deep_view(&self) -> StoredItemView {
        self.view()
    }
}

impl StoredItem {
    /// A copy whose abstract value equals the original's.
    pub fn duplicate(&self) -> (r: StoredItem)
        ensures
            r@ == self@,
    {
        StoredItem {
            id: self.id,
            fingerprint: self.fingerprint.clone(),
            author: clone_opt_string(&self.author),
            title: self.title.clone(),
            description: self.description.clone(),
            link: self.link.clone(),
            status: self.status,
            is_saved: self.is_saved,
            published_at: self.published_at,
            feed_id: self.feed_id,
        }
    }
}

/// Whether some row in `items` already carries the fingerprint `fp`.
pub open spec fn has_fingerprint(items: Seq<StoredItemView>, fp: Seq<char>) -> bool {
    exists|i: int| 0 <= i < items.len() && items[i].fingerprint == fp
}

/// The in-memory storage behind the feed registry and the item store.
/// It enforces the relational schema's rules: feed ids, item ids and item
/// fingerprints are unique, and so is each feed's (title, link) pair.
#[derive(Debug)]
pub struct Storage {
    pub feeds: Vec<Feed>,
    pub items: Vec<StoredItem>,
    pub next_feed_id: i32,
    pub next_item_id: i32,
}

impl Storage {
    /// The feed rows as abstract values, in insertion order.
    pub open spec fn feeds_view(&self) -> Seq<FeedView> {
        self.feeds.deep_view()
    }

    /// The item rows as abstract values, in insertion order.
    pub open spec fn items_view(&self) -> Seq<StoredItemView> {
        self.items.deep_view()
    }

    /// The schema's invariants: unique surrogate ids below the counters,
    /// unique item fingerprints, unique feed (title, link) pairs.
    pub open spec fn wf(&self) -> bool {
        &&& 1 <= self.next_feed_id
        &&& 1 <= self.next_item_id
        &&& (forall|i: int, j: int|
            0 <= i < j < self.feeds_view().len() ==> #[trigger] self.feeds_view()[i].id
                != #[trigger] self.feeds_view()[j].id)
        &&& (forall|i: int, j: int|
            0 <= i < j < self.feeds_view().len() ==> !((#[trigger] self.feeds_view()[i]).title
                == (#[trigger] self.feeds_view()[j]).title && self.feeds_view()[i].link
                == self.feeds_view()[j].link))
        &&& (forall|i: int|
            0 <= i < self.feeds_view().len() ==> 1 <= (#[trigger] self.feeds_view()[i]).id
                < self.next_feed_id)
        &&& (forall|i: int, j: int|
            0 <= i < j < self.items_view().len() ==> #[trigger] self.items_view()[i].id
                != #[trigger] self.items_view()[j].id)
        &&& (forall|i: int, j: int|
            0 <= i < j < self.items_view().len() ==> (#[trigger] self.items_view()[i]).fingerprint
                != (#[trigger] self.items_view()[j]).fingerprint)
        &&& (forall|i: int|
            0 <= i < self.items_view().len() ==> 1 <= (#[trigger] self.items_view()[i]).id
                < self.next_item_id)
    }

    /// An empty storage.
    pub fn new() -> (r: Storage)
        ensures
            r.wf(),
            r.feeds_view() =~= Seq::<FeedView>::empty(),
            r.items_view() =~= Seq::<StoredItemView>::empty(),
            r.next_feed_id == 1,
            r.next_item_id == 1,
    {
        Storage { feeds: Vec::new(), items: Vec::new(), next_feed_id: 1, next_item_id: 1 }
    }
}

} // verus!
