//! Harmonia core: the verified logic of a desktop music player.
//!
//! - [`queue`]: the play queue (order, shuffle, repeat, cursor)
//! - [`engine`]: transport, sleep timers and the end-of-track decision
//! - [`query`]: the database statements built from user input
//! - [`smart`]: smart playlist rules compiled to a WHERE clause
//! - [`playlist`]: M3U/M3U8, PLS and XSPF documents, M3U import
//! - [`meta`]: tag resolution, artwork keys, stored file format
//! - [`scan`]: incremental scanning and filesystem-event debouncing
//! - [`settings`]: validation of user settings
//! - [`requests`]: resume points, playlist names, artwork data URLs, paths
//! - [`models`], [`error`]: data types shared with the application
//! - [`util`], [`text`]: file names, durations, escaping, string helpers
pub mod engine;
pub mod error;
pub mod meta;
pub mod models;
pub mod playlist;
pub mod query;
pub mod queue;
pub mod requests;
pub mod scan;
pub mod settings;
pub mod smart;
pub mod text;
pub mod util;
