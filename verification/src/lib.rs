//! Session and download logic for the Suno command line client.

pub mod auth;
pub mod clerk;
pub mod clock;
pub mod cookies;
pub mod download;
pub mod encoding;
pub mod errors;
pub mod export;
pub mod filename;
pub mod jar;
pub mod json;
pub mod lyrics;
pub mod profiles;
pub mod scan;
pub mod storage;
pub mod text;
