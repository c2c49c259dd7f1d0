//! Bookkeeping for the transactions of a Bitcoin node's mempool that have
//! ancestors and descendants: the per-transaction data, the grouping of
//! transactions by weight, the weight ranges, and the HTML and JSON pages
//! that are served from them.

pub mod api;
pub mod apis;
pub mod json_text;
pub mod mempool_data;
pub mod mempool_processor;
pub mod monitor;
pub mod str_map;
pub mod text;

