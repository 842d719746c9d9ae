//! Core logic of a desktop mind-mapping backend: backup rotation with a
//! retention cap, timestamped snapshot naming, byte-string path handling,
//! and an in-memory preferences store.
pub mod backup;
pub mod commands;
pub mod locale;
pub mod bytes;
pub mod jsonval;
pub mod prefs;
pub mod paths;
pub mod timestamp;
pub mod tokens;
