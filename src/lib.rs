//! A terminal directory browser's core: the directory model, the fuzzy
//! filter over a listing, the selection cursor and the key-driven state
//! machine that ties them together.
//!
//! - `entry`: directory entries and the listing order (byte-wise by name).
//! - `filter`: narrowing a listing with a fuzzy query, ranked by score.
//! - `selection`: the displayed list and its clamped cursor.
//! - `app`: the state machine; keys that change directory return a request
//!   that the caller carries out on the file system and reports back.
//! - `output`, `highlight`: the session's result line, and names split into
//!   matched and unmatched runs for display.
//! - `laws`: properties of the above, proved.

pub mod error;
pub mod explorer;
pub mod order;
pub mod entry;
pub mod filter;
pub mod selection;
pub mod text;
pub mod output;
pub mod highlight;
pub mod app;
pub mod laws;

pub use error::ExplorerError;
pub use explorer::{Args, Explorer};
