//! The device services of the book extractor: the catalog's `/change`
//! endpoint.
pub mod ccat;
