//! Verified core of the MarsCat canisters: the app-info server, the feed server and
//! the sticker server.
pub mod principal;
pub mod keyed;
pub mod stable;
pub mod text;
pub mod sticker_server;
pub mod external;
pub mod feed_server;
pub mod app_server;
