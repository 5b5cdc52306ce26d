use collie::error::Error;
use collie::model::feed::{FeedStatus, FeedToCreate, FeedToUpdate};
use collie::model::item::{ItemStatus, ItemToCreate};
use collie::service::feed;
use collie::service::item;
use collie::storage::Storage;

fn feed_arg(title: &str, link: &str) -> FeedToCreate {
    FeedToCreate { title: title.to_string(), link: link.to_string(), fetch_old_items: false }
}

fn item_arg(feed: i32, title: &str, link: &str, published_at: i64) -> ItemToCreate {
    ItemToCreate {
        author: None,
        title: title.to_string(),
        description: String::new(),
        link: link.to_string(),
        status: ItemStatus::Unread,
        published_at,
        feed,
    }
}

#[test]
fn feed_create_and_read() {
    let mut storage = Storage::new();
    assert_eq!(feed::create(&mut storage, &feed_arg("One", "https://a.example/feed"), 100), Ok(1));
    assert_eq!(feed::create(&mut storage, &feed_arg("Two", "https://b.example/feed"), 200), Ok(1));
    let all = feed::read_all(&storage).unwrap();
    assert_eq!(all.len(), 2);
    assert_eq!(all[0].id, 1);
    assert_eq!(all[0].title, "One");
    assert_eq!(all[0].status, FeedStatus::Subscribed);
    assert_eq!(all[0].checked_at, 100);
    let two = feed::read(&storage, 2).unwrap().unwrap();
    assert_eq!(two.link, "https://b.example/feed");
    assert!(feed::read(&storage, 9).unwrap().is_none());
}

#[test]
fn feed_create_rejects_empty_link() {
    let mut storage = Storage::new();
    let r = feed::create(&mut storage, &feed_arg("One", ""), 100);
    assert_eq!(r, Err(Error::BadArgument));
    assert!(feed::read_all(&storage).unwrap().is_empty());
}

#[test]
fn feed_create_rejects_duplicate_title_link() {
    let mut storage = Storage::new();
    assert_eq!(feed::create(&mut storage, &feed_arg("One", "https://a.example/feed"), 1), Ok(1));
    let r = feed::create(&mut storage, &feed_arg("One", "https://a.example/feed"), 2);
    assert_eq!(r, Err(Error::StorageFailure));
    assert_eq!(feed::read_all(&storage).unwrap().len(), 1);
}

#[test]
fn feed_update_is_partial() {
    let mut storage = Storage::new();
    feed::create(&mut storage, &feed_arg("One", "https://a.example/feed"), 1).unwrap();
    let r = feed::update(
        &mut storage,
        &FeedToUpdate {
            id: 1,
            title: None,
            link: None,
            status: Some(FeedStatus::Unsubscribed),
            checked_at: Some(55),
            fetch_old_items: None,
        },
    );
    assert_eq!(r, Ok(1));
    let f = feed::read(&storage, 1).unwrap().unwrap();
    assert_eq!(f.title, "One");
    assert_eq!(f.status, FeedStatus::Unsubscribed);
    assert_eq!(f.checked_at, 55);
    // an update that names no field fails like an empty SET list
    let empty = FeedToUpdate {
        id: 1,
        title: None,
        link: None,
        status: None,
        checked_at: None,
        fetch_old_items: None,
    };
    assert_eq!(feed::update(&mut storage, &empty), Err(Error::StorageFailure));
    // an update of an unknown feed matches nothing
    let other = FeedToUpdate {
        id: 9,
        title: None,
        link: None,
        status: None,
        checked_at: Some(7),
        fetch_old_items: None,
    };
    assert_eq!(feed::update(&mut storage, &other), Ok(0));
}

#[test]
fn feed_delete_cascades_to_items() {
    let mut storage = Storage::new();
    feed::create(&mut storage, &feed_arg("One", "https://a.example/feed"), 1).unwrap();
    feed::create(&mut storage, &feed_arg("Two", "https://b.example/feed"), 1).unwrap();
    item::create(&mut storage, &item_arg(1, "a", "https://a.example/1", 10)).unwrap();
    item::create(&mut storage, &item_arg(2, "b", "https://b.example/1", 20)).unwrap();
    assert_eq!(feed::delete(&mut storage, 1), Ok(1));
    assert_eq!(feed::read_all(&storage).unwrap().len(), 1);
    let opt = collie::model::item::ItemReadOption {
        ids: None,
        feed: None,
        status: None,
        is_saved: None,
        order_by: None,
        limit: None,
        offset: None,
    };
    let left = item::read_all(&storage, &opt).unwrap();
    assert_eq!(left.len(), 1);
    assert_eq!(left[0].title, "b");
    assert_eq!(left[0].feed.id, 2);
    assert_eq!(feed::delete(&mut storage, 9), Ok(0));
}

#[test]
fn feed_status_labels_round_trip() {
    assert_eq!(FeedStatus::Subscribed.to_string(), "subscribed");
    assert_eq!(FeedStatus::Unsubscribed.to_string(), "unsubscribed");
    assert_eq!(FeedStatus::from_str("subscribed"), Ok(FeedStatus::Subscribed));
    assert_eq!(FeedStatus::from_str("unsubscribed"), Ok(FeedStatus::Unsubscribed));
    match FeedStatus::from_str("paused") {
        Err(Error::InvalidEnumKey(k, t)) => {
            assert_eq!(k, "paused");
            assert_eq!(t, "FeedStatus");
        },
        other => panic!("unexpected: {:?}", other),
    }
    assert_eq!(ItemStatus::Unread.to_string(), "unread");
    assert_eq!(ItemStatus::Read.to_string(), "read");
    assert_eq!(ItemStatus::from_str("read"), Ok(ItemStatus::Read));
    assert!(ItemStatus::from_str("seen").is_err());
}

#[test]
fn error_messages_expose_only_the_kind() {
    assert_eq!(Error::Duplicate.message(), "already exists");
    assert_eq!(Error::StorageFailure.message(), "storage failure");
    assert_eq!(Error::BadArgument.message(), "bad argument");
    assert_eq!(Error::FeedNotFound.message(), "feed not found");
    assert_eq!(Error::SyndicationParsingFailure.message(), "failed to parse syndication feed");
}
