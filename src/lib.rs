//! Vote tallying for polls: voting methods, ballot parsing, result ordering
//! and the binary form of a poll's tally state.
pub mod text;
pub mod ballot;
pub mod options;
pub mod simple;
pub mod score;
pub mod ranked;
pub mod results;
pub mod codec;
pub mod poll_type;
pub mod poll_id;
pub mod admin;
pub mod rate;
