use vstd::prelude::*;

use crate::error::Error;
use crate::text::str_eq;

verus! {

/// Whether a feed is polled by the synchronization pass.
#[derive(Debug, Clone, Copy, PartialEq, Eq, Structural)]
pub enum FeedStatus {
    Subscribed,
    Unsubscribed,
}

impl FeedStatus {
    /// The storage-level label of the status.
    pub open spec fn to_string_spec(&self) -> Seq<char> {
        match self {
            FeedStatus::Subscribed => "subscribed"@,
            FeedStatus::Unsubscribed => "unsubscribed"@,
        }
    }

    pub fn to_string(&self) -> (r: String)
        ensures
            r@ == self.to_string_spec(),
    {
        match self {
            FeedStatus::Subscribed => "subscribed".to_owned(),
            FeedStatus::Unsubscribed => "unsubscribed".to_owned(),
        }
    }

    /// The status named by a storage-level label; anything else is rejected.
    pub fn from_str(x: &str) -> (r: Result<FeedStatus, Error>)
        ensures
            x@ == "subscribed"@ ==> r == Ok::<FeedStatus, Error>(FeedStatus::Subscribed),
            x@ == "unsubscribed"@ ==> r == Ok::<FeedStatus, Error>(FeedStatus::Unsubscribed),
            x@ != "subscribed"@ && x@ != "unsubscribed"@ ==> (r matches Err(e) && e matches
                Error::InvalidEnumKey(k, t) && k@ == x@ && t@ == "FeedStatus"@),
    {
        proof {
            reveal_strlit("subscribed");
            reveal_strlit("unsubscribed");
            assert("subscribed"@.len() == 10);
            assert("unsubscribed"@.len() == 12);
        }
        if str_eq(x, "subscribed") {
            Ok(FeedStatus::Subscribed)
        } else if str_eq(x, "unsubscribed") {
            Ok(FeedStatus::Unsubscribed)
        } else {
            Err(Error::InvalidEnumKey(x.to_owned(), "FeedStatus".to_owned()))
        }
    }
}

/// The abstract value of a stored feed.
pub struct FeedView {
    pub id: i32,
    pub title: Seq<char>,
    pub link: Seq<char>,
    pub status: FeedStatus,
    pub checked_at: i64,
    pub fetch_old_items: bool,
}

/// A subscribed syndication source. `checked_at` is the time of the last
/// poll attempt (in seconds since the Unix epoch), not of the last success;
/// `fetch_old_items` selects the backfill ingestion policy.
#[derive(Debug)]
pub struct Feed {
    pub id: i32,
    pub title: String,
    pub link: String,
    pub status: FeedStatus,
    pub checked_at: i64,
    pub fetch_old_items: bool,
}

impl View for Feed {
    type V = FeedView;

    open spec fn view(&self) -> FeedView {
        FeedView {
            id: self.id,
            title: self.title@,
            link: self.link@,
            status: self.status,
            checked_at: self.checked_at,
            fetch_old_items: self.fetch_old_items,
        }
    }
}

impl DeepView for Feed {
    type V = FeedView;

    open spec fn deep_view(&self) -> FeedView {
        self.view()
    }
}

impl Feed {
    /// A copy whose abstract value equals the original's.
    pub fn duplicate(&self) -> (r: Feed)
        ensures
            r@ == self@,
    {
        Feed {
            id: self.id,
            title: self.title.clone(),
            link: self.link.clone(),
            status: self.status,
            checked_at: self.checked_at,
            fetch_old_items: self.fetch_old_items,
        }
    }
}

/// The fields a caller supplies when subscribing to a feed.
#[derive(Debug)]
pub struct FeedToCreate {
    pub title: String,
    pub link: String,
    pub fetch_old_items: bool,
}

/// A partial update: fields left `None` keep their stored value.
#[derive(Debug)]
pub struct FeedToUpdate {
    pub id: i32,
    pub title: Option<String>,
    pub link: Option<String>,
    pub status: Option<FeedStatus>,
    pub checked_at: Option<i64>,
    pub fetch_old_items: Option<bool>,
}

} // verus!
