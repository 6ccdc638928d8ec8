//! Grok Build usage loading: turns the session files and the inference log
//! of Grok Build into usage entries.

pub mod text;
pub mod time;
pub mod paths;
pub mod logs;
pub mod session;
pub mod loader;
