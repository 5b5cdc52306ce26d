use vstd::prelude::*;
use vstd::string::StringExecFns;

use crate::error::Error;
use crate::text::str_eq;

verus! {

/// Whether an item has been read.
#[derive(Debug, Clone, Copy, PartialEq, Eq, Structural)]
pub enum ItemStatus {
    Unread,
    Read,
}

impl ItemStatus {
    /// The storage-level label of the status.
    pub open spec fn to_string_spec(&self) -> Seq<char> {
        match self {
            ItemStatus::Unread => "unread"@,
            ItemStatus::Read => "read"@,
        }
    }

    pub fn to_string(&self) -> (r: String)
        ensures
            r@ == self.to_string_spec(),
    {
        match self {
            ItemStatus::Unread => "unread".to_owned(),
            ItemStatus::Read => "read".to_owned(),
        }
    }

    /// The status named by a storage-level label; anything else is rejected.
    pub fn from_str(x: &str) -> (r: Result<ItemStatus, Error>)
        ensures
            x@ == "unread"@ ==> r == Ok::<ItemStatus, Error>(ItemStatus::Unread),
            x@ == "read"@ ==> r == Ok::<ItemStatus, Error>(ItemStatus::Read),
            x@ != "unread"@ && x@ != "read"@ ==> (r matches Err(e) && e matches
                Error::InvalidEnumKey(k, t) && k@ == x@ && t@ == "ItemStatus"@),
    {
        proof {
            reveal_strlit("unread");
            reveal_strlit("read");
            assert("unread"@.len() == 6);
            assert("read"@.len() == 4);
        }
        if str_eq(x, "unread") {
            Ok(ItemStatus::Unread)
        } else if str_eq(x, "read") {
            Ok(ItemStatus::Read)
        } else {
            Err(Error::InvalidEnumKey(x.to_owned(), "ItemStatus".to_owned()))
        }
    }
}

/// The digest that `sha1_hexdigest` returns for the given characters:
/// forty hex digits, determined by the input alone.
pub uninterp spec fn sha1_hex_of(s: Seq<char>) -> Seq<char>;

/// Whether `c` is a lowercase hexadecimal digit.
pub open spec fn is_lower_hex(c: char) -> bool {
    let u = c as u32;
    (0x30 <= u && u <= 0x39) || (0x61 <= u && u <= 0x66)
}

/// Relies on `sha1_smol::Sha1::from` and `Sha1::hexdigest`: the SHA-1 digest
/// of the UTF-8 bytes of `s`, printed as 40 lowercase hex digits (the digest
/// value formats its five words with `{:08x}`). The digest is a function of
/// `s` alone.
#[verifier::external_body]
fn sha1_hexdigest(s: &str) -> (r: String)
    ensures
        r@ == sha1_hex_of(s@),
        r@.len() == 40,
        forall|i: int| 0 <= i < r@.len() ==> is_lower_hex(#[trigger] r@[i]),
{
    sha1_smol::Sha1::from(s).hexdigest()
}

/// A run of `n` colons.
pub open spec fn colons(n: nat) -> Seq<char> {
    Seq::new(n, |i: int| ':')
}

/// The digest input of a (title, link) pair: the title's length written as
/// a run of colons, a semicolon, the title, the link. The length prefix
/// makes the encoding unambiguous — distinct pairs give distinct inputs —
/// so content that moves a character between title and link never collides
/// by construction.
pub open spec fn encode_pair(title: Seq<char>, link: Seq<char>) -> Seq<char> {
    colons(title.len()) + seq![';'] + title + link
}

/// The dedup fingerprint of an item: the SHA-1 hex digest of the encoded
/// (title, link) pair. Description and body content play no part, so an
/// edit to an article's body never makes a "new" item.
pub open spec fn fingerprint_spec(title: Seq<char>, link: Seq<char>) -> Seq<char> {
    sha1_hex_of(encode_pair(title, link))
}

/// The owning feed of an item, as read queries report it.
#[derive(Debug)]
pub struct ItemFeed {
    pub id: i32,
    pub title: String,
    pub link: String,
}

/// The abstract value of an `ItemFeed`.
pub struct ItemFeedView {
    pub id: i32,
    pub title: Seq<char>,
    pub link: Seq<char>,
}

impl View for ItemFeed {
    type V = ItemFeedView;

    open spec fn view(&self) -> ItemFeedView {
        ItemFeedView { id: self.id, title: self.title@, link: self.link@ }
    }
}

impl DeepView for ItemFeed {
    type V = ItemFeedView;

    open spec fn deep_view(&self) -> ItemFeedView {
        self.view()
    }
}

/// The abstract value of a stored item as read queries report it.
pub struct ItemView {
    pub id: i32,
    pub fingerprint: Seq<char>,
    pub author: Option<Seq<char>>,
    pub title: Seq<char>,
    pub description: Seq<char>,
    pub link: Seq<char>,
    pub status: ItemStatus,
    pub is_saved: bool,
    pub published_at: i64,
    pub feed: ItemFeedView,
}

/// A persisted item joined with its owning feed, as read queries report it.
/// `published_at` is in seconds since the Unix epoch.
#[derive(Debug)]
pub struct Item {
    pub id: i32,
    pub fingerprint: String,
    pub author: Option<String>,
    pub title: String,
    pub description: String,
    pub link: String,
    pub status: ItemStatus,
    pub is_saved: bool,
    pub published_at: i64,
    pub feed: ItemFeed,
}

impl View for Item {
    type V = ItemView;

    open spec fn view(&self) -> ItemView {
        ItemView {
            id: self.id,
            fingerprint: self.fingerprint@,
            author: match self.author {
                Some(a) => Some(a@),
                None => None,
            },
            title: self.title@,
            description: self.description@,
            link: self.link@,
            status: self.status,
            is_saved: self.is_saved,
            published_at: self.published_at,
            feed: self.feed@,
        }
    }
}

impl DeepView for Item {
    type V = ItemView;

    open spec fn deep_view(&self) -> ItemView {
        self.view()
    }
}

impl Item {
    /// A copy whose abstract value equals the original's.
    pub fn duplicate(&self) -> (r: Item)
        ensures
            r@ == self@,
    {
        Item {
            id: self.id,
            fingerprint: self.fingerprint.clone(),
            author: crate::text::clone_opt_string(&self.author),
            title: self.title.clone(),
            description: self.description.clone(),
            link: self.link.clone(),
            status: self.status,
            is_saved: self.is_saved,
            published_at: self.published_at,
            feed: ItemFeed {
                id: self.feed.id,
                title: self.feed.title.clone(),
                link: self.feed.link.clone(),
            },
        }
    }
}

/// The abstract value of an `ItemToCreate`.
pub struct ItemToCreateView {
    pub author: Option<Seq<char>>,
    pub title: Seq<char>,
    pub description: Seq<char>,
    pub link: Seq<char>,
    pub status: ItemStatus,
    pub published_at: i64,
    pub feed: i32,
}

/// A normalized entry ready for insertion into the item store.
#[derive(Debug)]
pub struct ItemToCreate {
    pub author: Option<String>,
    pub title: String,
    pub description: String,
    pub link: String,
    pub status: ItemStatus,
    pub published_at: i64,
    pub feed: i32,
}

impl View for ItemToCreate {
    type V = ItemToCreateView;

    open spec fn view(&self) -> ItemToCreateView {
        ItemToCreateView {
            author: match self.author {
                Some(a) => Some(a@),
                None => None,
            },
            title: self.title@,
            description: self.description@,
            link: self.link@,
            status: self.status,
            published_at: self.published_at,
            feed: self.feed,
        }
    }
}

impl DeepView for ItemToCreate {
    type V = ItemToCreateView;

    open spec fn deep_view(&self) -> ItemToCreateView {
        self.view()
    }
}

impl ItemToCreate {
    /// The dedup fingerprint of this entry, computed over title and link only.
    pub fn fingerprint(&self) -> (r: String)
        ensures
            r@ == fingerprint_spec(self.title@, self.link@),
            r@.len() == 40,
            forall|i: int| 0 <= i < r@.len() ==> is_lower_hex(#[trigger] r@[i]),
    {
        let n = self.title.as_str().unicode_len();
        let mut composed = String::new();
        let mut k: usize = 0;
        while k < n
            invariant
                composed@.len() == k,
                0 <= k <= n,
                forall|i: int| 0 <= i < k ==> composed@[i] == ':',
            decreases n - k,
        {
            composed.append(":");
            proof {
                reveal_strlit(":");
                assert(":"@ =~= seq![':']);
            }
            k = k + 1;
        }
        proof {
            assert(composed@ =~= colons(self.title@.len()));
        }
        composed.append(";");
        composed.append(self.title.as_str());
        composed.append(self.link.as_str());
        proof {
            reveal_strlit(";");
            assert(";"@ =~= seq![';']);
            assert(composed@ =~= encode_pair(self.title@, self.link@));
        }
        sha1_hexdigest(composed.as_str())
    }
}

/// A partial update of one item: fields left `None` keep their stored value.
#[derive(Debug)]
pub struct ItemToUpdate {
    pub id: i32,
    pub status: Option<ItemStatus>,
    pub is_saved: Option<bool>,
}

/// A partial update of every item matched by `opt`.
#[derive(Debug)]
pub struct ItemToUpdateAll {
    pub status: Option<ItemStatus>,
    pub is_saved: Option<bool>,
    pub opt: Option<ItemReadOption>,
}

/// The orderings a read query can ask for.
#[derive(Debug, Clone, Copy, PartialEq, Eq, Structural)]
pub enum ItemOrder {
    /// Most recently received first: id descending, then published descending.
    ReceivedDateDesc,
    /// Most recently published first.
    PublishedDateDesc,
    /// Unread items first, then published descending.
    UnreadFirst,
}

/// The filters, ordering and pagination of a read query.
/// `offset` counts pages of `limit` rows when `limit` is set,
/// otherwise it counts rows.
#[derive(Debug)]
pub struct ItemReadOption {
    pub ids: Option<Vec<i32>>,
    pub feed: Option<i32>,
    pub status: Option<ItemStatus>,
    pub is_saved: Option<bool>,
    pub order_by: Option<ItemOrder>,
    pub limit: Option<u64>,
    pub offset: Option<u64>,
}

} // verus!
