//! The sticker server: packs of stickers whose images are uploaded in chunks, singly or
//! from a zip archive, and served over HTTP.
pub mod types;
pub mod state;
pub mod upload;
pub mod api;
pub mod zip_upload;
pub mod http;
pub mod laws;
