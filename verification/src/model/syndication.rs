use core::str::FromStr;
use vstd::prelude::*;

use crate::error::Error;
use crate::text::{join_comma, join_comma_spec, trim_seq, trim_str};

verus! {

/// The abstract value of a fetched entry before normalization.
pub struct RawItemView {
    pub title: Seq<char>,
    pub author: Option<Seq<char>>,
    pub link: Option<Seq<char>>,
    pub content: Option<Seq<char>>,
    pub published_at: Option<i64>,
}

/// One entry of a fetched feed before normalization; `published_at` is in
/// seconds since the Unix epoch, `None` when the document gave no usable
/// date. Produced per fetch, consumed within one sync pass, never persisted.
#[derive(Debug, PartialEq)]
pub struct RawItem {
    pub title: String,
    pub author: Option<String>,
    pub link: Option<String>,
    pub content: Option<String>,
    pub published_at: Option<i64>,
}

impl View for RawItem {
    type V = RawItemView;

    open spec fn view(&self) -> RawItemView {
        RawItemView {
            title: self.title@,
            author: match self.author {
                Some(a) => Some(a@),
                None => None,
            },
            link: match self.link {
                Some(l) => Some(l@),
                None => None,
            },
            content: match self.content {
                Some(c) => Some(c@),
                None => None,
            },
            published_at: self.published_at,
        }
    }
}

impl DeepView for RawItem {
    type V = RawItemView;

    open spec fn deep_view(&self) -> RawItemView {
        self.view()
    }
}

impl RawItem {
    /// A copy whose abstract value equals the original's.
    pub fn duplicate(&self) -> (r: RawItem)
        ensures
            r@ == self@,
    {
        RawItem {
            title: self.title.clone(),
            author: crate::text::clone_opt_string(&self.author),
            link: crate::text::clone_opt_string(&self.link),
            content: crate::text::clone_opt_string(&self.content),
            published_at: self.published_at,
        }
    }
}

/// The abstract value of one Atom entry's parts.
pub struct AtomEntryPartsView {
    pub title: Seq<char>,
    pub authors: Seq<Seq<char>>,
    pub link: Option<Seq<char>>,
    pub content: Option<Seq<char>>,
    pub published: Option<i64>,
    pub updated: i64,
}

/// The parts of one Atom entry that normalization reads, as plain values:
/// title and author names as given, the first link's href, the inline
/// content's value, and the published and updated instants in seconds
/// since the Unix epoch.
#[derive(Debug)]
pub struct AtomEntryParts {
    pub title: String,
    pub authors: Vec<String>,
    pub link: Option<String>,
    pub content: Option<String>,
    pub published: Option<i64>,
    pub updated: i64,
}

impl View for AtomEntryParts {
    type V = AtomEntryPartsView;

    open spec fn view(&self) -> AtomEntryPartsView {
        AtomEntryPartsView {
            title: self.title@,
            authors: self.authors.deep_view(),
            link: self.link.deep_view(),
            content: self.content.deep_view(),
            published: self.published,
            updated: self.updated,
        }
    }
}

impl DeepView for AtomEntryParts {
    type V = AtomEntryPartsView;

    open spec fn deep_view(&self) -> AtomEntryPartsView {
        self.view()
    }
}

/// The abstract value of one RSS item's parts.
pub struct RssItemPartsView {
    pub title: Option<Seq<char>>,
    pub author: Option<Seq<char>>,
    pub creators: Option<Seq<Seq<char>>>,
    pub link: Option<Seq<char>>,
    pub description: Option<Seq<char>>,
    pub pub_date: Option<Seq<char>>,
}

/// The parts of one RSS item that normalization reads, as plain values:
/// title, author, Dublin Core creator names, link and description as given,
/// and the publication date as its unparsed text.
#[derive(Debug)]
pub struct RssItemParts {
    pub title: Option<String>,
    pub author: Option<String>,
    pub creators: Option<Vec<String>>,
    pub link: Option<String>,
    pub description: Option<String>,
    pub pub_date: Option<String>,
}

impl View for RssItemParts {
    type V = RssItemPartsView;

    open spec fn view(&self) -> RssItemPartsView {
        RssItemPartsView {
            title: self.title.deep_view(),
            author: self.author.deep_view(),
            creators: self.creators.deep_view(),
            link: self.link.deep_view(),
            description: self.description.deep_view(),
            pub_date: self.pub_date.deep_view(),
        }
    }
}

impl DeepView for RssItemParts {
    type V = RssItemPartsView;

    open spec fn deep_view(&self) -> RssItemPartsView {
        self.view()
    }
}

/// A parsed syndication document reduced to the plain values the engine
/// reads: its title and its entries, Atom-flavored or RSS-flavored.
pub enum Feed {
    Atom(String, Vec<AtomEntryParts>),
    RSS(String, Vec<RssItemParts>),
}

/// What Atom parsing makes of the given characters: the document's title
/// and its entries' parts in document order, or nothing when the Atom
/// grammar rejects the text. A function of the characters alone.
pub uninterp spec fn atom_parts_of(s: Seq<char>) -> Option<
    (Seq<char>, Seq<AtomEntryPartsView>),
>;

/// What RSS parsing makes of the given characters: the channel's title and
/// its items' parts in document order, or nothing when the RSS grammar
/// rejects the text. A function of the characters alone.
pub uninterp spec fn rss_parts_of(s: Seq<char>) -> Option<(Seq<char>, Seq<RssItemPartsView>)>;

/// Relies on `atom_syndication::Feed::from_str` and the accessors `title`,
/// `entries`, `Entry::{title, authors, links, content, published, updated}`,
/// `Person::name`, `Link::href`, `Content::value`, and
/// `chrono::DateTime::timestamp`: parses raw text as an Atom document and
/// hands its title and per-entry parts out as plain values, in document
/// order; text the Atom grammar rejects gives `None`. The result is a
/// function of the text alone.
#[verifier::external_body]
fn parse_atom_parts(s: &str) -> (r: Option<(String, Vec<AtomEntryParts>)>)
    ensures
        match r {
            Some(p) => atom_parts_of(s@) == Some((p.0@, p.1.deep_view())),
            None => atom_parts_of(s@) is None,
        },
{
    let f = atom_syndication::Feed::from_str(s).ok()?;
    let entries = f.entries().iter().map(|x| AtomEntryParts {
        title: x.title().to_string(),
        authors: x.authors().iter().map(|p| p.name().to_string()).collect(),
        link: x.links().first().map(|l| l.href().to_string()),
        content: x.content().and_then(|c| c.value()).map(|v| v.to_string()),
        published: x.published().map(|d| d.timestamp()),
        updated: x.updated().timestamp(),
    }).collect();
    Some((f.title().to_string(), entries))
}

/// Relies on `rss::Channel::from_str` and the accessors `title`, `items`,
/// `Item::{title, author, dublin_core_ext, link, description, pub_date}`,
/// and `DublinCoreExtension::creators`: parses raw text as an RSS document
/// and hands its title and per-item parts out as plain values, in document
/// order; text the RSS grammar rejects gives `None`. The result is a
/// function of the text alone.
#[verifier::external_body]
fn parse_rss_parts(s: &str) -> (r: Option<(String, Vec<RssItemParts>)>)
    ensures
        match r {
            Some(p) => rss_parts_of(s@) == Some((p.0@, p.1.deep_view())),
            None => rss_parts_of(s@) is None,
        },
{
    let c = rss::Channel::from_str(s).ok()?;
    let items = c.items().iter().map(|x| RssItemParts {
        title: x.title().map(|t| t.to_string()),
        author: x.author().map(|a| a.to_string()),
        creators: x.dublin_core_ext().map(|d| d.creators().to_vec()),
        link: x.link().map(|l| l.to_string()),
        description: x.description().map(|d| d.to_string()),
        pub_date: x.pub_date().map(|d| d.to_string()),
    }).collect();
    Some((c.title().to_string(), items))
}

/// The instant that RFC 2822 date parsing assigns to the given characters,
/// in seconds since the Unix epoch; `None` when they do not parse. A
/// function of the characters alone.
pub uninterp spec fn rfc2822_epoch_of(s: Seq<char>) -> Option<i64>;

/// Relies on `chrono::DateTime::parse_from_rfc2822` and
/// `chrono::DateTime::timestamp`: parses an RFC 2822 date and reduces it to
/// seconds since the Unix epoch, a function of the text alone.
#[verifier::external_body]
fn parse_rfc2822_ts(s: &str) -> (r: Option<i64>)
    ensures
        r == rfc2822_epoch_of(s@),
{
    chrono::DateTime::parse_from_rfc2822(s).ok().map(|d| d.timestamp())
}

/// Each element trimmed of its surrounding whitespace.
pub open spec fn trim_all(ss: Seq<Seq<char>>) -> Seq<Seq<char>> {
    ss.map_values(|a: Seq<char>| trim_seq(a))
}

/// What one Atom entry's parts become before normalization: authors trimmed
/// and joined with commas, link and content trimmed, the updated instant
/// standing in for a missing published instant.
pub open spec fn atom_raw_spec(
    title: Seq<char>,
    authors: Seq<Seq<char>>,
    link: Option<Seq<char>>,
    content: Option<Seq<char>>,
    published: Option<i64>,
    updated: i64,
) -> RawItemView {
    RawItemView {
        title: title,
        author: Some(join_comma_spec(trim_all(authors))),
        link: match link {
            Some(l) => Some(trim_seq(l)),
            None => None,
        },
        content: match content {
            Some(c) => Some(trim_seq(c)),
            None => None,
        },
        published_at: Some(
            match published {
                Some(p) => p,
                None => updated,
            },
        ),
    }
}

/// The pre-normalization form of one Atom entry's parts.
pub open spec fn atom_raw_of(p: AtomEntryPartsView) -> RawItemView {
    atom_raw_spec(p.title, p.authors, p.link, p.content, p.published, p.updated)
}

/// The pre-normalization form of each Atom entry, in document order.
pub open spec fn atom_raw_items_spec(es: Seq<AtomEntryPartsView>) -> Seq<RawItemView> {
    es.map_values(|p: AtomEntryPartsView| atom_raw_of(p))
}

/// Builds the pre-normalization entry for one Atom entry's parts.
pub fn raw_item_from_atom(parts: AtomEntryParts) -> (r: RawItem)
    ensures
        r@ == atom_raw_of(parts@),
{
    let mut trimmed: Vec<String> = Vec::new();
    let mut k: usize = 0;
    proof {
        assert(trimmed.deep_view() =~~= trim_all(parts.authors.deep_view()).subrange(0, 0));
    }
    while k < parts.authors.len()
        invariant
            0 <= k <= parts.authors.len(),
            parts.authors.deep_view().len() == parts.authors.len(),
            trimmed.deep_view() == trim_all(parts.authors.deep_view()).subrange(0, k as int),
        decreases parts.authors.len() - k,
    {
        let ghost before = trimmed.deep_view();
        let t = trim_str(parts.authors[k].as_str());
        let ghost tv = t@;
        trimmed.push(t);
        proof {
            let dv = parts.authors.deep_view();
            let mapped = trim_all(dv);
            assert(dv.len() == parts.authors@.len());
            assert(mapped.len() == dv.len());
            assert(k < mapped.len());
            assert(before.len() == k as int);
            assert(trimmed.deep_view().len() == k + 1);
            assert(tv == trim_seq(dv[k as int]));
            assert forall|i: int|
                0 <= i < trimmed.deep_view().len() implies #[trigger] trimmed.deep_view()[i]
                    == mapped.subrange(0, k + 1)[i] by {
                assert(mapped.subrange(0, k + 1)[i] == mapped[i]);
                assert(mapped[i] == trim_seq(dv[i]));
                if i < before.len() {
                    assert(trimmed.deep_view()[i] == before[i]);
                    assert(before[i] == mapped.subrange(0, k as int)[i]);
                } else {
                    assert(trimmed.deep_view()[i] == trimmed@[i]@);
                    assert(trimmed@[i] == t);
                }
            }
            assert(trimmed.deep_view() =~~= mapped.subrange(0, k + 1));
        }
        k = k + 1;
    }
    proof {
        let mapped = trim_all(parts.authors.deep_view());
        assert(mapped.subrange(0, mapped.len() as int) =~~= mapped);
    }
    let author = join_comma(&trimmed);
    RawItem {
        title: parts.title,
        author: Some(author),
        link: match parts.link {
            Some(l) => Some(trim_str(l.as_str())),
            None => None,
        },
        content: match parts.content {
            Some(c) => Some(trim_str(c.as_str())),
            None => None,
        },
        published_at: Some(
            match parts.published {
                Some(p) => p,
                None => parts.updated,
            },
        ),
    }
}

/// What one RSS item's parts become before normalization: a missing title
/// becomes "Untitled" and the title is trimmed; the author is trimmed, or
/// the Dublin Core creators joined with commas stand in for a missing one;
/// link and description pass through; the publication instant is what
/// RFC 2822 parsing made of the date text.
pub open spec fn rss_raw_spec(
    title: Option<Seq<char>>,
    author: Option<Seq<char>>,
    creators: Option<Seq<Seq<char>>>,
    link: Option<Seq<char>>,
    description: Option<Seq<char>>,
    pub_date: Option<Seq<char>>,
) -> RawItemView {
    RawItemView {
        title: trim_seq(
            match title {
                Some(t) => t,
                None => "Untitled"@,
            },
        ),
        author: match author {
            Some(a) => Some(trim_seq(a)),
            None => match creators {
                Some(cs) => Some(join_comma_spec(cs)),
                None => None,
            },
        },
        link: link,
        content: description,
        published_at: match pub_date {
            Some(d) => rfc2822_epoch_of(d),
            None => None,
        },
    }
}

/// The pre-normalization form of one RSS item's parts.
pub open spec fn rss_raw_of(p: RssItemPartsView) -> RawItemView {
    rss_raw_spec(p.title, p.author, p.creators, p.link, p.description, p.pub_date)
}

/// The pre-normalization form of each RSS item, in document order.
pub open spec fn rss_raw_items_spec(items: Seq<RssItemPartsView>) -> Seq<RawItemView> {
    items.map_values(|p: RssItemPartsView| rss_raw_of(p))
}

/// Builds the pre-normalization entry for one RSS item's parts.
pub fn raw_item_from_rss(parts: RssItemParts) -> (r: RawItem)
    ensures
        r@ == rss_raw_of(parts@),
{
    let published = match &parts.pub_date {
        Some(d) => parse_rfc2822_ts(d.as_str()),
        None => None,
    };
    RawItem {
        title: match parts.title {
            Some(t) => trim_str(t.as_str()),
            None => trim_str("Untitled"),
        },
        author: match parts.author {
            Some(a) => Some(trim_str(a.as_str())),
            None => match parts.creators {
                Some(cs) => Some(join_comma(&cs)),
                None => None,
            },
        },
        link: parts.link,
        content: parts.description,
        published_at: published,
    }
}

impl Feed {
    /// Classifies raw text as an Atom document first, then as an RSS
    /// document; text in neither format is rejected as an unrecognized
    /// format.
    pub fn from_str(s: &str) -> (r: Result<Feed, Error>)
        ensures
            atom_parts_of(s@) matches Some(p) ==> (r matches Ok(f) && f matches Feed::Atom(t, es)
                && t@ == p.0 && es.deep_view() == p.1),
            atom_parts_of(s@) is None ==> (rss_parts_of(s@) matches Some(p) ==> (r matches Ok(f)
                && f matches Feed::RSS(t, items) && t@ == p.0 && items.deep_view() == p.1)),
            atom_parts_of(s@) is None && rss_parts_of(s@) is None ==> (r matches Err(e) && e
                == Error::SyndicationParsingFailure),
    {
        match parse_atom_parts(s) {
            Some((title, entries)) => Ok(Feed::Atom(title, entries)),
            None => match parse_rss_parts(s) {
                Some((title, items)) => Ok(Feed::RSS(title, items)),
                None => Err(Error::SyndicationParsingFailure),
            },
        }
    }

    /// The document's title.
    pub fn title(&self) -> (r: &String)
        ensures
            match self {
                Feed::Atom(t, _) => r@ == t@,
                Feed::RSS(t, _) => r@ == t@,
            },
    {
        match self {
            Feed::Atom(t, _) => t,
            Feed::RSS(t, _) => t,
        }
    }
}

/// The pre-normalization entries of an already classified Atom document,
/// in document order.
fn atom_raw_items(entries: Vec<AtomEntryParts>) -> (r: Vec<RawItem>)
    ensures
        r.deep_view() == atom_raw_items_spec(entries.deep_view()),
{
    let ghost full = entries.deep_view();
    let mut src = entries;
    let mut out: Vec<RawItem> = Vec::new();
    let mut k: usize = 0;
    let bound = src.len();
    proof {
        assert(full.len() == bound);
    }
    while src.len() > 0
        invariant
            0 <= k,
            full.len() <= usize::MAX,
            k + src.len() == full.len(),
            forall|i: int| 0 <= i < src.len() ==> #[trigger] src.deep_view()[i] == full[k + i],
            out.deep_view().len() == k,
            forall|i: int|
                0 <= i < k ==> #[trigger] out.deep_view()[i] == atom_raw_items_spec(full)[i],
        decreases src.len(),
    {
        let ghost src_before = src.deep_view();
        let parts = src.remove(0);
        proof {
            assert(parts@ == src_before[0]);
            assert(parts@ == full[k as int]);
            assert forall|i: int|
                0 <= i < src.deep_view().len() implies #[trigger] src.deep_view()[i] == full[k + 1
                + i] by {
                assert(src.deep_view()[i] == src_before[i + 1]);
            }
        }
        let ghost out_before = out.deep_view();
        let item = raw_item_from_atom(parts);
        let ghost itemv = item@;
        out.push(item);
        proof {
            let mapped = atom_raw_items_spec(full);
            assert(mapped.len() == full.len());
            assert(itemv == atom_raw_of(full[k as int]));
            assert forall|i: int|
                0 <= i < out.deep_view().len() implies #[trigger] out.deep_view()[i]
                    == mapped[i] by {
                assert(mapped[i] == atom_raw_of(full[i]));
                if i < out_before.len() {
                    assert(out.deep_view()[i] == out_before[i]);
                } else {
                    assert(out.deep_view()[i] == out@[i]@);
                }
            }
        }
        k = k + 1;
    }
    proof {
        assert(out.deep_view() =~= atom_raw_items_spec(full));
    }
    out
}

/// The pre-normalization entries of an already classified RSS document,
/// in document order.
fn rss_raw_items(items: Vec<RssItemParts>) -> (r: Vec<RawItem>)
    ensures
        r.deep_view() == rss_raw_items_spec(items.deep_view()),
{
    let ghost full = items.deep_view();
    let mut src = items;
    let mut out: Vec<RawItem> = Vec::new();
    let mut k: usize = 0;
    let bound = src.len();
    proof {
        assert(full.len() == bound);
    }
    while src.len() > 0
        invariant
            0 <= k,
            full.len() <= usize::MAX,
            k + src.len() == full.len(),
            forall|i: int| 0 <= i < src.len() ==> #[trigger] src.deep_view()[i] == full[k + i],
            out.deep_view().len() == k,
            forall|i: int|
                0 <= i < k ==> #[trigger] out.deep_view()[i] == rss_raw_items_spec(full)[i],
        decreases src.len(),
    {
        let ghost src_before = src.deep_view();
        let parts = src.remove(0);
        proof {
            assert(parts@ == src_before[0]);
            assert(parts@ == full[k as int]);
            assert forall|i: int|
                0 <= i < src.deep_view().len() implies #[trigger] src.deep_view()[i] == full[k + 1
                + i] by {
                assert(src.deep_view()[i] == src_before[i + 1]);
            }
        }
        let ghost out_before = out.deep_view();
        let item = raw_item_from_rss(parts);
        let ghost itemv = item@;
        out.push(item);
        proof {
            let mapped = rss_raw_items_spec(full);
            assert(mapped.len() == full.len());
            assert(itemv == rss_raw_of(full[k as int]));
            assert forall|i: int|
                0 <= i < out.deep_view().len() implies #[trigger] out.deep_view()[i]
                    == mapped[i] by {
                assert(mapped[i] == rss_raw_of(full[i]));
                if i < out_before.len() {
                    assert(out.deep_view()[i] == out_before[i]);
                } else {
                    assert(out.deep_view()[i] == out@[i]@);
                }
            }
        }
        k = k + 1;
    }
    proof {
        assert(out.deep_view() =~= rss_raw_items_spec(full));
    }
    out
}

/// Parses raw text as a syndication document and reduces it to its
/// pre-normalization entries, index by index in document order: Atom first,
/// then RSS; text in neither format is rejected.
pub fn parse_feed_items(content: &str) -> (r: Result<Vec<RawItem>, Error>)
    ensures
        atom_parts_of(content@) matches Some(p) ==> (r matches Ok(v) && v.deep_view()
            == atom_raw_items_spec(p.1)),
        atom_parts_of(content@) is None ==> (rss_parts_of(content@) matches Some(p) ==> (r matches
        Ok(v) && v.deep_view() == rss_raw_items_spec(p.1))),
        atom_parts_of(content@) is None && rss_parts_of(content@) is None ==> (r matches Err(e)
            && e == Error::SyndicationParsingFailure),
{
    match Feed::from_str(content) {
        Ok(Feed::Atom(_, entries)) => Ok(atom_raw_items(entries)),
        Ok(Feed::RSS(_, items)) => Ok(rss_raw_items(items)),
        Err(e) => Err(e),
    }
}

/// Parses raw text as a syndication document and reports its title: the
/// Atom document's title, or the RSS channel's when the text is not Atom;
/// text in neither format is rejected.
pub fn parse_feed_title(content: &str) -> (r: Result<String, Error>)
    ensures
        atom_parts_of(content@) matches Some(p) ==> (r matches Ok(t) && t@ == p.0),
        atom_parts_of(content@) is None ==> (rss_parts_of(content@) matches Some(p) ==> (r matches
        Ok(t) && t@ == p.0)),
        atom_parts_of(content@) is None && rss_parts_of(content@) is None ==> (r matches Err(e)
            && e == Error::SyndicationParsingFailure),
{
    match Feed::from_str(content) {
        Ok(f) => Ok(f.title().clone()),
        Err(e) => Err(e),
    }
}

} // verus!
