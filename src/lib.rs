//! Change detection for learning-platform accounts: comparators that decide
//! what is new between a freshly fetched resource list and the stored
//! snapshot, the notifications that follow from each difference, and the
//! pagination cursor over registered accounts.
pub mod models;
pub mod compare;
pub mod normalize;
pub mod batcher;
pub mod pipeline;
pub mod services;
pub mod laws;
