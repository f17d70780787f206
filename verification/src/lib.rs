//! Usage accounting, session-log loading and project caching for a desktop
//! companion of a coding assistant: the logic that decides, parses, counts and orders,
//! with the file system and the clock left to the caller.
pub mod text;
pub mod json;
pub mod decode;
pub mod keyed;
pub mod jsonl_loader;
pub mod usage;
pub mod order;
pub mod dates;
pub mod collect;
pub mod groups;
pub mod stats;
pub mod cache;
pub mod projects;
pub mod paths;
pub mod laws;
