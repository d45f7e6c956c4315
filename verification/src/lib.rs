//! A verified interpreter for a minimal tape-based instruction language.
//!
//! Eight single-character operations manipulate a fixed-size array of byte
//! cells through a movable cursor; two of them form a structured loop.
//! The machine's behaviour is given by a small-step specification
//! ([`machine`]), and the executable engine ([`exec`]) is proved to follow
//! it step for step.  Every boundary violation surfaces as a typed error
//! ([`error`]) instead of aborting the process.

pub mod error;
pub mod symbol;
pub mod tape;
pub mod matcher;
pub mod machine;
pub mod laws;
pub mod exec;
