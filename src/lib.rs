//! A disk cache for log queries: a query is reduced to a stable fingerprint,
//! results are kept as newline-framed records under that fingerprint, and a
//! paginated fetch decides page by page what to request, what to keep and
//! whether the result may be committed to the cache.
pub mod cache;
pub mod entry;
pub mod fetch;
pub mod fingerprint;
