//! Clipboard history core: the byte formats a clipboard manager reads and
//! writes on Windows, and the decisions behind capture, paste-back, retention,
//! pinning and folder import.

pub mod unicode;
pub mod clipboard_formats;
pub mod html_round_trip;
pub mod models;
pub mod clipboard;
pub mod ingest;
pub mod commands;
pub mod retention;
pub mod pins;
pub mod json_object;
pub mod export;
pub mod updater;
pub mod window;
