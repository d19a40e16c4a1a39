//! Tallying and ranking of nominated chat messages.
//!
//! Participants nominate a message by replying to it with a configured tag;
//! the library records one vote per nomination, keeps exactly one record per
//! nominated message, and answers `/top N D` commands with the most-voted
//! messages of the last `D` days.

mod clock;
pub mod command;
pub mod dispatch;
pub mod extract;
pub mod model;
pub mod rank;
pub mod storage;
