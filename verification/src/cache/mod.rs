//! The cache of responses.
pub mod dump;
pub mod entry_laws;
pub mod hex;
pub mod laws;
pub mod response;
pub mod store;

pub use crate::cache::dump::{
    CacheCnameRecord, CacheDump, CacheDumpEntry, CacheImportResult, CacheResponseVisualization,
};
pub use crate::cache::response::ResponseCache;
pub use crate::cache::store::{CacheEntry, CacheKey, FreezeSettings};
