//! Verified core of a lexicon importer: normalizing dictionary bank records,
//! interning repeated content, planning the rows of one archive import, and
//! paginating lookup results.

pub mod text;
pub mod intern;
pub mod record;
pub mod plan;
pub mod catalog;
pub mod query;
