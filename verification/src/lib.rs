//! Bounded-concurrency URL fetching, reduced to its decisions.
//!
//! The crate does no I/O. A caller sends the requests and reads the clock;
//! the crate decides and computes:
//!
//! - `failure` and `normalize`: how a failure, with the causes behind it,
//!   becomes a short code;
//! - `outcome`: the record that one request leaves behind;
//! - `dispatch`: how many requests may be in flight, and which outcome
//!   belongs to which URL;
//! - `aggregate` and `order`: counts per code, their ranking, and the
//!   average and median latency;
//! - `config`: settings read from text, with defaults;
//! - `report`: the lines that a run writes;
//! - `text`: trimming, lower case and decimal digits.

pub mod aggregate;
pub mod config;
pub mod dispatch;
pub mod failure;
pub mod normalize;
pub mod order;
pub mod outcome;
pub mod report;
pub mod text;
