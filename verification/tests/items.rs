use collie::error::Error;
use collie::model::feed::FeedToCreate;
use collie::model::item::{
    ItemOrder, ItemReadOption, ItemStatus, ItemToCreate, ItemToUpdate, ItemToUpdateAll,
};
use collie::service::feed;
use collie::service::item;
use collie::storage::Storage;

fn no_filter() -> ItemReadOption {
    ItemReadOption {
        ids: None,
        feed: None,
        status: None,
        is_saved: None,
        order_by: None,
        limit: None,
        offset: None,
    }
}

fn entry(feed: i32, title: &str, link: &str, published_at: i64) -> ItemToCreate {
    ItemToCreate {
        author: Some("someone".to_string()),
        title: title.to_string(),
        description: "body".to_string(),
        link: link.to_string(),
        status: ItemStatus::Unread,
        published_at,
        feed,
    }
}

fn seeded() -> Storage {
    let mut storage = Storage::new();
    feed::create(
        &mut storage,
        &FeedToCreate {
            title: "One".to_string(),
            link: "https://a.example/feed".to_string(),
            fetch_old_items: false,
        },
        1,
    )
    .unwrap();
    feed::create(
        &mut storage,
        &FeedToCreate {
            title: "Two".to_string(),
            link: "https://b.example/feed".to_string(),
            fetch_old_items: true,
        },
        1,
    )
    .unwrap();
    item::create(&mut storage, &entry(1, "alpha", "https://a.example/1", 300)).unwrap();
    item::create(&mut storage, &entry(1, "beta", "https://a.example/2", 100)).unwrap();
    item::create(&mut storage, &entry(2, "gamma", "https://b.example/1", 200)).unwrap();
    storage
}

#[test]
fn create_reports_duplicates_as_already_known() {
    let mut storage = seeded();
    let r = item::create(&mut storage, &entry(1, "alpha", "https://a.example/1", 999));
    assert_eq!(r, Err(Error::Duplicate));
    assert_eq!(item::count_all(&storage, &no_filter()), Ok(3));
}

#[test]
fn read_all_joins_the_owning_feed() {
    let storage = seeded();
    let all = item::read_all(&storage, &no_filter()).unwrap();
    assert_eq!(all.len(), 3);
    assert_eq!(all[0].title, "alpha");
    assert_eq!(all[0].feed.id, 1);
    assert_eq!(all[0].feed.title, "One");
    assert_eq!(all[2].feed.link, "https://b.example/feed");
}

#[test]
fn read_all_orders_by_published_desc() {
    let storage = seeded();
    let mut opt = no_filter();
    opt.order_by = Some(ItemOrder::PublishedDateDesc);
    let all = item::read_all(&storage, &opt).unwrap();
    let titles: Vec<&str> = all.iter().map(|x| x.title.as_str()).collect();
    assert_eq!(titles, vec!["alpha", "gamma", "beta"]);
}

#[test]
fn read_all_orders_by_received_desc() {
    let storage = seeded();
    let mut opt = no_filter();
    opt.order_by = Some(ItemOrder::ReceivedDateDesc);
    let all = item::read_all(&storage, &opt).unwrap();
    let ids: Vec<i32> = all.iter().map(|x| x.id).collect();
    assert_eq!(ids, vec![3, 2, 1]);
}

#[test]
fn read_all_orders_unread_first() {
    let mut storage = seeded();
    item::update(
        &mut storage,
        &ItemToUpdate { id: 1, status: Some(ItemStatus::Read), is_saved: None },
    )
    .unwrap();
    let mut opt = no_filter();
    opt.order_by = Some(ItemOrder::UnreadFirst);
    let all = item::read_all(&storage, &opt).unwrap();
    let titles: Vec<&str> = all.iter().map(|x| x.title.as_str()).collect();
    // unread first (published descending), the read item last
    assert_eq!(titles, vec!["gamma", "beta", "alpha"]);
}

#[test]
fn read_all_filters_by_feed_status_saved_and_ids() {
    let mut storage = seeded();
    item::update(
        &mut storage,
        &ItemToUpdate { id: 2, status: Some(ItemStatus::Read), is_saved: Some(true) },
    )
    .unwrap();
    let mut by_feed = no_filter();
    by_feed.feed = Some(1);
    assert_eq!(item::read_all(&storage, &by_feed).unwrap().len(), 2);
    let mut by_status = no_filter();
    by_status.status = Some(ItemStatus::Read);
    let read_items = item::read_all(&storage, &by_status).unwrap();
    assert_eq!(read_items.len(), 1);
    assert_eq!(read_items[0].id, 2);
    let mut by_saved = no_filter();
    by_saved.is_saved = Some(true);
    assert_eq!(item::read_all(&storage, &by_saved).unwrap().len(), 1);
    let mut by_ids = no_filter();
    by_ids.ids = Some(vec![1, 3]);
    let picked = item::read_all(&storage, &by_ids).unwrap();
    assert_eq!(picked.len(), 2);
    assert_eq!(picked[0].id, 1);
    assert_eq!(picked[1].id, 3);
}

#[test]
fn read_all_paginates_in_pages_of_limit_rows() {
    let storage = seeded();
    let mut opt = no_filter();
    opt.order_by = Some(ItemOrder::PublishedDateDesc);
    opt.limit = Some(2);
    let first = item::read_all(&storage, &opt).unwrap();
    let titles: Vec<&str> = first.iter().map(|x| x.title.as_str()).collect();
    assert_eq!(titles, vec!["alpha", "gamma"]);
    // offset counts pages of `limit` rows
    opt.offset = Some(1);
    let second = item::read_all(&storage, &opt).unwrap();
    let titles: Vec<&str> = second.iter().map(|x| x.title.as_str()).collect();
    assert_eq!(titles, vec!["beta"]);
    opt.offset = Some(5);
    assert!(item::read_all(&storage, &opt).unwrap().is_empty());
}

#[test]
fn count_all_ignores_the_id_list() {
    let storage = seeded();
    let mut opt = no_filter();
    opt.ids = Some(vec![1]);
    assert_eq!(item::count_all(&storage, &opt), Ok(3));
    let mut by_feed = no_filter();
    by_feed.feed = Some(1);
    assert_eq!(item::count_all(&storage, &by_feed), Ok(2));
}

#[test]
fn update_names_a_field_or_fails() {
    let mut storage = seeded();
    let r = item::update(&mut storage, &ItemToUpdate { id: 1, status: None, is_saved: None });
    assert_eq!(r, Err(Error::StorageFailure));
    let r = item::update(
        &mut storage,
        &ItemToUpdate { id: 1, status: None, is_saved: Some(true) },
    );
    assert_eq!(r, Ok(1));
    let mut by_saved = no_filter();
    by_saved.is_saved = Some(true);
    let saved = item::read_all(&storage, &by_saved).unwrap();
    assert_eq!(saved.len(), 1);
    assert_eq!(saved[0].id, 1);
    assert_eq!(saved[0].status, ItemStatus::Unread);
    let r = item::update(&mut storage, &ItemToUpdate { id: 9, status: None, is_saved: Some(true) });
    assert_eq!(r, Ok(0));
}

#[test]
fn update_all_touches_every_selected_item() {
    let mut storage = seeded();
    let mut sel = no_filter();
    sel.feed = Some(1);
    let r = item::update_all(
        &mut storage,
        &ItemToUpdateAll { status: Some(ItemStatus::Read), is_saved: None, opt: Some(sel) },
    );
    assert_eq!(r, Ok(2));
    let mut by_status = no_filter();
    by_status.status = Some(ItemStatus::Read);
    assert_eq!(item::count_all(&storage, &by_status), Ok(2));
    // with no filters at all, everything is touched
    let r = item::update_all(
        &mut storage,
        &ItemToUpdateAll { status: None, is_saved: Some(true), opt: None },
    );
    assert_eq!(r, Ok(3));
    // an update that names no field fails
    let r = item::update_all(
        &mut storage,
        &ItemToUpdateAll { status: None, is_saved: None, opt: None },
    );
    assert_eq!(r, Err(Error::StorageFailure));
}
