//! Storage inspection, typed call arguments and key filters for a contract debugger.
pub mod args;
pub mod diff;
pub mod filter;
pub mod glob;
pub mod hex;
pub mod json;
pub mod number;
pub mod report;
pub mod store;
pub mod text;
