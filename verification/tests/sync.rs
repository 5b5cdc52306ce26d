use collie::model::feed::{FeedStatus, FeedToCreate, FeedToUpdate};
use collie::model::item::{ItemOrder, ItemReadOption, ItemStatus};
use collie::model::syndication::RawItem;
use collie::service::feed;
use collie::service::item;
use collie::storage::Storage;
use collie::worker::{create_new_items, get_links_to_check, sync_feed, FeedFetch};

fn no_filter() -> ItemReadOption {
    ItemReadOption {
        ids: None,
        feed: None,
        status: None,
        is_saved: None,
        order_by: None,
        limit: None,
        offset: None,
    }
}

fn raw(title: &str, link: &str, published_at: Option<i64>) -> RawItem {
    RawItem {
        title: title.to_string(),
        author: Some("writer".to_string()),
        link: Some(link.to_string()),
        content: Some("body".to_string()),
        published_at,
    }
}

fn incremental_feed(storage: &mut Storage) -> i32 {
    feed::create(
        storage,
        &FeedToCreate {
            title: "Inc".to_string(),
            link: "https://inc.example/feed".to_string(),
            fetch_old_items: false,
        },
        1,
    )
    .unwrap();
    feed::read_all(storage).unwrap().last().unwrap().id
}

fn backfill_feed(storage: &mut Storage) -> i32 {
    feed::create(
        storage,
        &FeedToCreate {
            title: "Back".to_string(),
            link: "https://back.example/feed".to_string(),
            fetch_old_items: true,
        },
        1,
    )
    .unwrap();
    feed::read_all(storage).unwrap().last().unwrap().id
}

#[test]
fn first_sync_keeps_only_the_most_recent_entry() {
    let mut storage = Storage::new();
    let fid = incremental_feed(&mut storage);
    let entries = vec![
        raw("one", "https://inc.example/1", Some(100)),
        raw("three", "https://inc.example/3", Some(300)),
        raw("two", "https://inc.example/2", Some(200)),
    ];
    let inserted = sync_feed(&mut storage, fid, false, &entries, 1000);
    assert_eq!(inserted.len(), 1);
    assert_eq!(inserted[0].title, "three");
    assert_eq!(inserted[0].published_at, 300);
    assert_eq!(item::count_all(&storage, &no_filter()), Ok(1));
}

#[test]
fn incremental_filter_keeps_entries_after_the_baseline() {
    let mut storage = Storage::new();
    let fid = incremental_feed(&mut storage);
    // the first sync seeds the baseline with the newest entry
    let inserted = sync_feed(
        &mut storage,
        fid,
        false,
        &vec![raw("seed", "https://inc.example/0", Some(500))],
        1000,
    );
    assert_eq!(inserted.len(), 1);
    // later pass: only entries published strictly after 500 are retained;
    // entries at the baseline or without an instant are dropped
    let entries = vec![
        raw("old", "https://inc.example/old", Some(400)),
        raw("same", "https://inc.example/same", Some(500)),
        raw("undated", "https://inc.example/undated", None),
        raw("new", "https://inc.example/new", Some(600)),
    ];
    let inserted = sync_feed(&mut storage, fid, false, &entries, 2000);
    assert_eq!(inserted.len(), 1);
    assert_eq!(inserted[0].title, "new");
    assert_eq!(item::count_all(&storage, &no_filter()), Ok(2));
}

#[test]
fn backfill_inserts_every_fetched_entry() {
    let mut storage = Storage::new();
    let fid = backfill_feed(&mut storage);
    let entries = vec![
        raw("one", "https://back.example/1", Some(300)),
        raw("two", "https://back.example/2", Some(100)),
        raw("undated", "https://back.example/3", None),
    ];
    let inserted = sync_feed(&mut storage, fid, true, &entries, 999);
    assert_eq!(inserted.len(), 3);
    assert_eq!(item::count_all(&storage, &no_filter()), Ok(3));
    // even with items already stored, a backfill pass attempts everything new
    let more = vec![
        raw("one", "https://back.example/1", Some(300)),
        raw("four", "https://back.example/4", Some(50)),
    ];
    let inserted = sync_feed(&mut storage, fid, true, &more, 1100);
    assert_eq!(inserted.len(), 1);
    assert_eq!(inserted[0].title, "four");
}

#[test]
fn rerunning_the_pass_inserts_nothing() {
    for fetch_old in [false, true] {
        let mut storage = Storage::new();
        let fid = if fetch_old {
            backfill_feed(&mut storage)
        } else {
            incremental_feed(&mut storage)
        };
        let entries = vec![
            raw("one", "https://x.example/1", Some(100)),
            raw("two", "https://x.example/2", Some(200)),
            raw("undated", "https://x.example/3", None),
        ];
        let first = sync_feed(&mut storage, fid, fetch_old, &entries, 1000);
        assert!(!first.is_empty());
        let count = item::count_all(&storage, &no_filter()).unwrap();
        // unchanged source content, later poll time: nothing new
        let second = sync_feed(&mut storage, fid, fetch_old, &entries, 2000);
        assert!(second.is_empty());
        assert_eq!(item::count_all(&storage, &no_filter()), Ok(count));
        let third = sync_feed(&mut storage, fid, fetch_old, &entries, 3000);
        assert!(third.is_empty());
    }
}

#[test]
fn entries_are_inserted_in_ascending_published_order() {
    let mut storage = Storage::new();
    let fid = backfill_feed(&mut storage);
    let entries = vec![
        raw("late", "https://back.example/l", Some(900)),
        raw("early", "https://back.example/e", Some(100)),
        raw("middle", "https://back.example/m", Some(500)),
    ];
    let inserted = sync_feed(&mut storage, fid, true, &entries, 42);
    let titles: Vec<&str> = inserted.iter().map(|x| x.title.as_str()).collect();
    assert_eq!(titles, vec!["early", "middle", "late"]);
    // stored ids follow insertion order, so received order matches
    let mut opt = no_filter();
    opt.order_by = Some(ItemOrder::ReceivedDateDesc);
    let all = item::read_all(&storage, &opt).unwrap();
    let titles: Vec<&str> = all.iter().map(|x| x.title.as_str()).collect();
    assert_eq!(titles, vec!["late", "middle", "early"]);
}

#[test]
fn normalization_trims_and_defaults() {
    let mut storage = Storage::new();
    let fid = backfill_feed(&mut storage);
    let entries = vec![RawItem {
        title: "  spaced title \u{3000}".to_string(),
        author: Some(" writer ".to_string()),
        link: None,
        content: None,
        published_at: None,
    }];
    let inserted = sync_feed(&mut storage, fid, true, &entries, 777);
    assert_eq!(inserted.len(), 1);
    assert_eq!(inserted[0].title, "spaced title");
    assert_eq!(inserted[0].author.as_deref(), Some("writer"));
    assert_eq!(inserted[0].link, "#");
    assert_eq!(inserted[0].description, "");
    assert_eq!(inserted[0].published_at, 777);
    assert_eq!(inserted[0].status, ItemStatus::Unread);
    let all = item::read_all(&storage, &no_filter()).unwrap();
    assert_eq!(all[0].is_saved, false);
}

#[test]
fn links_to_check_stamps_only_subscribed_feeds() {
    let mut storage = Storage::new();
    let f1 = incremental_feed(&mut storage);
    let f2 = backfill_feed(&mut storage);
    feed::update(
        &mut storage,
        &FeedToUpdate {
            id: f2,
            title: None,
            link: None,
            status: Some(FeedStatus::Unsubscribed),
            checked_at: None,
            fetch_old_items: None,
        },
    )
    .unwrap();
    let targets = get_links_to_check(&mut storage, 4242);
    assert_eq!(targets.len(), 1);
    assert_eq!(targets[0].0, f1);
    assert_eq!(targets[0].1, "https://inc.example/feed");
    assert_eq!(targets[0].2, false);
    let one = feed::read(&storage, f1).unwrap().unwrap();
    assert_eq!(one.checked_at, 4242);
    let two = feed::read(&storage, f2).unwrap().unwrap();
    assert_eq!(two.checked_at, 1);
}

#[test]
fn a_pass_handles_many_feeds_and_absorbs_cross_feed_duplicates() {
    let mut storage = Storage::new();
    let f1 = backfill_feed(&mut storage);
    let f2 = incremental_feed(&mut storage);
    let fetched = vec![
        FeedFetch {
            feed: f1,
            fetch_old_items: true,
            entries: vec![
                raw("shared", "https://same.example/s", Some(100)),
                raw("only-one", "https://back.example/1", Some(200)),
            ],
        },
        FeedFetch {
            feed: f2,
            fetch_old_items: false,
            entries: vec![raw("shared", "https://same.example/s", Some(300))],
        },
    ];
    let inserted = create_new_items(&mut storage, &fetched, 1000);
    // the second feed's only candidate collides with the first feed's
    // fingerprint and is absorbed
    let titles: Vec<&str> = inserted.iter().map(|x| x.title.as_str()).collect();
    assert_eq!(titles, vec!["shared", "only-one"]);
    assert_eq!(item::count_all(&storage, &no_filter()), Ok(2));
    // a second full pass over the same content inserts nothing
    let again = create_new_items(&mut storage, &fetched, 2000);
    assert!(again.is_empty());
    assert_eq!(item::count_all(&storage, &no_filter()), Ok(2));
}

#[test]
fn first_sync_of_an_empty_fetch_inserts_nothing() {
    let mut storage = Storage::new();
    let fid = incremental_feed(&mut storage);
    let inserted = sync_feed(&mut storage, fid, false, &vec![], 1000);
    assert!(inserted.is_empty());
    assert_eq!(item::count_all(&storage, &no_filter()), Ok(0));
}

#[test]
fn first_sync_tie_break_is_deterministic() {
    // several entries tie on the maximal instant: the last of them is the
    // documented deterministic choice
    let mut storage = Storage::new();
    let fid = incremental_feed(&mut storage);
    let entries = vec![
        raw("first-of-tie", "https://inc.example/a", Some(100)),
        raw("second-of-tie", "https://inc.example/b", Some(100)),
    ];
    let inserted = sync_feed(&mut storage, fid, false, &entries, 1000);
    assert_eq!(inserted.len(), 1);
    assert_eq!(inserted[0].title, "second-of-tie");
}
