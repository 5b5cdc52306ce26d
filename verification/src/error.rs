use vstd::prelude::*;

verus! {

/// The error kinds that the library's own operations can produce.
///
/// A duplicate fingerprint during item insertion is reported as
/// `Duplicate`: callers treat it as "already known", never as a failure
/// of the pass. Transport-level failures never arise here; the code that
/// performs network or file I/O maps its own errors before calling in.
#[derive(Debug, Clone, PartialEq, Eq)]
pub enum Error {
    /// A string did not name any variant of the given enum.
    InvalidEnumKey(String, String),
    /// The raw text was neither a parsable Atom nor a parsable RSS document.
    SyndicationParsingFailure,
    /// A caller-supplied argument was rejected (for example an empty feed link).
    BadArgument,
    /// No feed link could be discovered for the requested source.
    FeedNotFound,
    /// An item with the same fingerprint is already stored.
    Duplicate,
    /// The storage could not complete the operation
    /// (a uniqueness violation or an exhausted id space).
    StorageFailure,
}

impl Error {
    /// A short stable label for the error kind, for user-facing messages.
    pub fn message(&self) -> (r: String)
        ensures
            r@ == self.message_spec(),
    {
        match self {
            Error::InvalidEnumKey(_, _) => "invalid enum key".to_owned(),
            Error::SyndicationParsingFailure => "failed to parse syndication feed".to_owned(),
            Error::BadArgument => "bad argument".to_owned(),
            Error::FeedNotFound => "feed not found".to_owned(),
            Error::Duplicate => "already exists".to_owned(),
            Error::StorageFailure => "storage failure".to_owned(),
        }
    }

    pub open spec fn message_spec(&self) -> Seq<char> {
        match self {
            Error::InvalidEnumKey(_, _) => "invalid enum key"@,
            Error::SyndicationParsingFailure => "failed to parse syndication feed"@,
            Error::BadArgument => "bad argument"@,
            Error::FeedNotFound => "feed not found"@,
            Error::Duplicate => "already exists"@,
            Error::StorageFailure => "storage failure"@,
        }
    }
}

} // verus!
