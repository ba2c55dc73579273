//! Reading, querying and deduplicating the records of a CPE dictionary: the codec of
//! structured names, the record model with its weak identity and its order, the
//! filters over records, the compression pass, and the resolution of replacements.

pub mod codec;
pub mod compress;
pub mod cpedict;
pub mod cpestructures;
pub mod error;
pub mod filter;
pub mod grammar;
pub mod nvdarchive;
pub mod order;
pub mod resolve;
