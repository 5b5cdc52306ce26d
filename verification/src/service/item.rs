use vstd::prelude::*;

use crate::error::Error;
use crate::model::item::{
    fingerprint_spec, Item, ItemReadOption, ItemToCreate, ItemToUpdate, ItemToUpdateAll,
};
use crate::repository::item as repository;
use crate::repository::item::{
    count_pred, mass_updated, read_all_spec, stored_of, update_all_pred, updated_item,
};
use crate::storage::{has_fingerprint, Storage};

verus! {

/// Inserts a normalized entry as a new item; a duplicate fingerprint is
/// reported as "already known", never as a failure of the pass.
pub fn create(storage: &mut Storage, arg: &ItemToCreate) -> (r: Result<usize, Error>)
    requires
        old(storage).wf(),
    ensures
        final(storage).wf(),
        final(storage).feeds_view() == old(storage).feeds_view(),
        final(storage).next_feed_id == old(storage).next_feed_id,
        ({
            if has_fingerprint(old(storage).items_view(), fingerprint_spec(arg.title@, arg.link@)) {
                &&& r == Err::<usize, Error>(Error::Duplicate)
                &&& final(storage).items_view() == old(storage).items_view()
                &&& final(storage).next_item_id == old(storage).next_item_id
            } else if old(storage).next_item_id == i32::MAX {
                &&& r == Err::<usize, Error>(Error::StorageFailure)
                &&& final(storage).items_view() == old(storage).items_view()
                &&& final(storage).next_item_id == old(storage).next_item_id
            } else {
                &&& r == Ok::<usize, Error>(1)
                &&& final(storage).next_item_id == old(storage).next_item_id + 1
                &&& final(storage).items_view() == old(storage).items_view().push(
                    stored_of(arg@, old(storage).next_item_id),
                )
            }
        }),
{
    repository::create(storage, arg)
}

/// Reads items under the filters, ordering and pagination of `opt`.
pub fn read_all(storage: &Storage, opt: &ItemReadOption) -> (r: Result<Vec<Item>, Error>)
    ensures
        r matches Ok(v) && v.deep_view() == read_all_spec(
            storage.items_view(),
            storage.feeds_view(),
            opt,
        ),
{
    repository::read_all(storage, opt)
}

/// Counts items under the filters of `opt`.
pub fn count_all(storage: &Storage, opt: &ItemReadOption) -> (r: Result<i64, Error>)
    ensures
        r matches Ok(c) && c == ({
            let total = storage.items_view().filter(count_pred(opt)).len();
            if total <= i64::MAX {
                total as int
            } else {
                i64::MAX as int
            }
        }),
{
    repository::count_all(storage, opt)
}

/// Applies a partial update to the item named by `arg.id`.
pub fn update(storage: &mut Storage, arg: &ItemToUpdate) -> (r: Result<usize, Error>)
    requires
        old(storage).wf(),
    ensures
        final(storage).wf(),
        final(storage).feeds_view() == old(storage).feeds_view(),
        final(storage).next_feed_id == old(storage).next_feed_id,
        final(storage).next_item_id == old(storage).next_item_id,
        arg.status is None && arg.is_saved is None ==> r == Err::<usize, Error>(
            Error::StorageFailure,
        ) && final(storage).items_view() == old(storage).items_view(),
        !(arg.status is None && arg.is_saved is None) && (forall|i: int|
            0 <= i < old(storage).items_view().len() ==> (#[trigger] old(
                storage,
            ).items_view()[i]).id != arg.id) ==> r == Ok::<usize, Error>(0) && final(storage).items_view() == old(storage).items_view(),
        !(arg.status is None && arg.is_saved is None) ==> forall|k: int|
            0 <= k < old(storage).items_view().len() && (#[trigger] old(
                storage,
            ).items_view()[k]).id == arg.id ==> r == Ok::<usize, Error>(1)
            && final(storage).items_view() == old(storage).items_view().update(
                k,
                updated_item(old(storage).items_view()[k], arg.status, arg.is_saved),
            ),
{
    repository::update(storage, arg)
}

/// Applies a partial update to every item passing the filters of `arg.opt`.
pub fn update_all(storage: &mut Storage, arg: &ItemToUpdateAll) -> (r: Result<usize, Error>)
    requires
        old(storage).wf(),
    ensures
        final(storage).wf(),
        final(storage).feeds_view() == old(storage).feeds_view(),
        final(storage).next_feed_id == old(storage).next_feed_id,
        final(storage).next_item_id == old(storage).next_item_id,
        arg.status is None && arg.is_saved is None ==> r == Err::<usize, Error>(
            Error::StorageFailure,
        ) && final(storage).items_view() == old(storage).items_view(),
        !(arg.status is None && arg.is_saved is None) ==> (r matches Ok(n) && n == old(
            storage,
        ).items_view().filter(update_all_pred(arg)).len() && final(storage).items_view()
            == mass_updated(old(storage).items_view(), arg)),
{
    repository::update_all(storage, arg)
}

} // verus!
