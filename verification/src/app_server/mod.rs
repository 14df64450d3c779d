//! The app-info server: release records, announcements, API keys, download rankings
//! and signature checks, all guarded by the canister's owner.
pub mod types;
pub mod state;
pub mod auth;
pub mod announcements;
pub mod ranking;
pub mod downloads;
pub mod http;
pub mod api;
pub mod laws;
