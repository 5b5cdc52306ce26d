use vstd::prelude::*;

use crate::error::Error;
use crate::model::feed::{Feed, FeedStatus, FeedToCreate, FeedToUpdate, FeedView};
use crate::repository::feed as repository;
use crate::repository::feed::{
    feed_update_post, has_title_link, keep_items_of_other_feeds, keep_other_feeds,
};
use crate::storage::Storage;

verus! {

/// Registers a feed a user subscribes to, rejecting an empty link before
/// anything touches storage; the registered feed starts subscribed with
/// `now` as its first checked time.
pub fn create(storage: &mut Storage, arg: &FeedToCreate, now: i64) -> (r: Result<usize, Error>)
    requires
        old(storage).wf(),
    ensures
        final(storage).wf(),
        final(storage).items_view() == old(storage).items_view(),
        final(storage).next_item_id == old(storage).next_item_id,
        arg.link@.len() == 0 ==> r == Err::<usize, Error>(Error::BadArgument) && final(storage).feeds_view() == old(storage).feeds_view() && final(storage).next_feed_id == old(
            storage,
        ).next_feed_id,
        arg.link@.len() != 0 ==> ({
            if has_title_link(old(storage).feeds_view(), arg.title@, arg.link@) || old(
                storage,
            ).next_feed_id == i32::MAX {
                &&& r == Err::<usize, Error>(Error::StorageFailure)
                &&& final(storage).feeds_view() == old(storage).feeds_view()
                &&& final(storage).next_feed_id == old(storage).next_feed_id
            } else {
                &&& r == Ok::<usize, Error>(1)
                &&& final(storage).next_feed_id == old(storage).next_feed_id + 1
                &&& final(storage).feeds_view() == old(storage).feeds_view().push(
                    FeedView {
                        id: old(storage).next_feed_id,
                        title: arg.title@,
                        link: arg.link@,
                        status: FeedStatus::Subscribed,
                        checked_at: now,
                        fetch_old_items: arg.fetch_old_items,
                    },
                )
            }
        }),
{
    if arg.link.as_str().is_empty() {
        return Err(Error::BadArgument);
    }
    repository::create(storage, arg, now)
}

/// All registered feeds, in insertion order.
pub fn read_all(storage: &Storage) -> (r: Result<Vec<Feed>, Error>)
    ensures
        r matches Ok(v) && v.deep_view() == storage.feeds_view(),
{
    repository::read_all(storage)
}

/// The feed with the given id, if one is registered.
pub fn read(storage: &Storage, id: i32) -> (r: Result<Option<Feed>, Error>)
    ensures
        r matches Ok(o) && match o {
            Some(f) => f@.id == id && storage.feeds_view().contains(f@),
            None => forall|i: int|
                0 <= i < storage.feeds_view().len() ==> (#[trigger] storage.feeds_view()[i]).id
                    != id,
        },
{
    repository::read(storage, id)
}

/// Applies a partial update to the feed named by `arg.id`.
pub fn update(storage: &mut Storage, arg: &FeedToUpdate) -> (r: Result<usize, Error>)
    requires
        old(storage).wf(),
    ensures
        final(storage).wf(),
        final(storage).items_view() == old(storage).items_view(),
        final(storage).next_item_id == old(storage).next_item_id,
        final(storage).next_feed_id == old(storage).next_feed_id,
        feed_update_post(old(storage).feeds_view(), final(storage).feeds_view(), arg, r),
{
    repository::update(storage, arg)
}

/// Deletes the feed with the given id, cascading to its items.
pub fn delete(storage: &mut Storage, id: i32) -> (r: Result<usize, Error>)
    requires
        old(storage).wf(),
    ensures
        final(storage).wf(),
        final(storage).next_item_id == old(storage).next_item_id,
        final(storage).next_feed_id == old(storage).next_feed_id,
        final(storage).feeds_view() == old(storage).feeds_view().filter(keep_other_feeds(id)),
        final(storage).items_view() == old(storage).items_view().filter(
            keep_items_of_other_feeds(id),
        ),
        r matches Ok(n) && n == old(storage).feeds_view().len() - final(storage).feeds_view().len(),
{
    repository::delete(storage, id)
}

/// The feed link that discovery finds in the given HTML document: the href
/// of its first RSS or Atom alternate link element, a function of the
/// document text alone.
pub uninterp spec fn feed_link_of(html: Seq<char>) -> Option<Seq<char>>;

/// Relies on `scraper::Html::parse_document`, `scraper::Selector::parse` and
/// the selection over the parsed document: the href of the first element
/// matching the RSS or Atom alternate-link selector, a function of the
/// document text alone.
#[verifier::external_body]
fn scrape_feed_link(html: &str) -> (r: Option<String>)
    ensures
        match r {
            Some(href) => feed_link_of(html@) == Some(href@),
            None => feed_link_of(html@) is None,
        },
{
    let document = scraper::Html::parse_document(html);
    let selector = scraper::Selector::parse(
        "link[type='application/rss+xml'], link[type='application/atom+xml']",
    ).unwrap();
    for element in document.select(&selector) {
        if let Some(href) = element.value().attr("href") {
            return Some(href.to_string());
        }
    }
    None
}

/// Discovers a feed link inside an HTML page: the href of the page's first
/// RSS or Atom alternate link element, if it advertises one.
pub fn parse_link(html: &str) -> (r: Result<Option<String>, Error>)
    ensures
        r matches Ok(o) && match o {
            Some(href) => feed_link_of(html@) == Some(href@),
            None => feed_link_of(html@) is None,
        },
{
    Ok(scrape_feed_link(html))
}

/// Whether the served text parses as a syndication document of either
/// flavor.
pub open spec fn is_feed_document(content: Seq<char>) -> bool {
    crate::model::syndication::atom_parts_of(content) is Some
        || crate::model::syndication::rss_parts_of(content) is Some
}

/// Decides which link a subscription registers, given what `link` served:
/// content that is itself a syndication document keeps the link exactly; an
/// HTML page advertising a feed yields the advertised href; a page
/// advertising none means no feed was found.
pub fn resolve_feed_link(content: &str, link: &str) -> (r: Result<String, Error>)
    ensures
        is_feed_document(content@) ==> (r matches Ok(l) && l@ == link@),
        !is_feed_document(content@) ==> (match feed_link_of(content@) {
            Some(href) => r matches Ok(l) && l@ == href,
            None => r == Err::<String, Error>(Error::FeedNotFound),
        }),
{
    let is_feed = crate::model::syndication::Feed::from_str(content).is_ok();
    if is_feed {
        Ok(link.to_owned())
    } else {
        match scrape_feed_link(content) {
            Some(href) => Ok(href),
            None => Err(Error::FeedNotFound),
        }
    }
}

} // verus!
