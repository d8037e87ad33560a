//! The page records kept in the metadata database, and the changes made to them.
use vstd::prelude::*;

verus! {

/// A page as the metadata database records it.
#[derive(Debug, PartialEq, Eq)]
pub struct MetadataDbPage {
    pub filename: String,
    pub hash: Vec<u8>,
    pub created_at: i64,
    pub edited_at: i64,
}

/// How a page was found in the metadata database.
#[derive(Debug, Clone, Copy, PartialEq, Eq, Structural)]
pub enum PageMatchType {
    ByFilename,
    ByHash,
}

/// A change to write to the metadata database: an update of the record found by filename or
/// by hash, or a new record.
#[derive(Debug, PartialEq, Eq)]
pub struct MetadataDbPageUpdate {
    pub match_type: Option<PageMatchType>,
    pub entry: MetadataDbPage,
}

/// Mathematical model of a page record.
pub struct PageRecord {
    pub filename: Seq<char>,
    pub hash: Seq<u8>,
    pub created_at: i64,
    pub edited_at: i64,
}

impl MetadataDbPage {
    pub open spec fn model(&self) -> PageRecord {
        PageRecord {
            filename: self.filename@,
            hash: self.hash@,
            created_at: self.created_at,
            edited_at: self.edited_at,
        }
    }
}

} // verus!
