//! The feed server: users, posts with images uploaded in chunks, likes, comments and
//! replies.
pub mod types;
pub mod state;
pub mod upload;
pub mod counts;
pub mod api;
pub mod http;
pub mod laws;
