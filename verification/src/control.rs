//! Operational queries: requests, replies, and what a reply says of an instance.
pub mod answer_laws;
pub mod collect;
pub mod collect_v3;
pub mod order;
pub mod print;
pub mod reply;
