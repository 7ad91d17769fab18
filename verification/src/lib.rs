//! Verified core of an agent harness that lives in chat threads.
//!
//! - [`session_store`]: which session answers which conversation or thread, and the
//!   text by which that mapping outlives a restart.
//! - [`attention`]: in which threads the agent stays awake without being mentioned.
//! - [`progress`]: the rolling log of a turn's thoughts, speech and actions.
//! - [`reporter`]: when that log is posted, edited and closed.
//! - [`provision`]: the key file of a self-hosted agent.
//!
//! Nothing here touches a file, a socket or the environment: callers hand in what they
//! read and carry out what they are told to write.

pub mod attention;
pub mod clock;
pub mod hex;
pub mod json;
pub mod progress;
pub mod provision;
pub mod reporter;
pub mod scope;
pub mod session_store;
pub mod state_dir;
pub mod table;
pub mod text;
