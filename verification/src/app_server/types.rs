//! Records and error codes of the app-info server.
use vstd::prelude::*;
use crate::sticker_server::types::{copy_strings, texts};

verus! {

/// The caller is not the owner, or the signature does not check out.
pub const PERMISSION_NOT_FOUND: u64 = 1001;

/// Nothing is stored under the key asked for.
pub const DATA_NOT_EXISTS: u64 = 1002;

/// An announcement with this id is already stored for the language.
pub const DATA_ALREADY_EXISTS: u64 = 1003;

/// The message of a refused owner check.
pub open spec fn not_owner_message() -> Seq<char> {
    "Only owner can perform this action"@
}

/// The latest release of the app on both platforms.
#[derive(Clone, Debug, PartialEq, Eq)]
pub struct VersionUpdate {
    pub ios_version: String,
    pub ios_title: String,
    pub ios_download_url: String,
    pub android_version: String,
    pub android_title: String,
    pub android_download_url: String,
    pub force_update: bool,
    pub description: String,
    pub release_time: u64,
}

/// The spec model of a `VersionUpdate`.
pub ghost struct VersionModel {
    pub ios_version: Seq<char>,
    pub ios_title: Seq<char>,
    pub ios_download_url: Seq<char>,
    pub android_version: Seq<char>,
    pub android_title: Seq<char>,
    pub android_download_url: Seq<char>,
    pub force_update: bool,
    pub description: Seq<char>,
    pub release_time: u64,
}

impl View for VersionUpdate {
    type V = VersionModel;

    open spec fn view(&self) -> VersionModel {
        VersionModel {
            ios_version: self.ios_version@,
            ios_title: self.ios_title@,
            ios_download_url: self.ios_download_url@,
            android_version: self.android_version@,
            android_title: self.android_title@,
            android_download_url: self.android_download_url@,
            force_update: self.force_update,
            description: self.description@,
            release_time: self.release_time,
        }
    }
}

impl VersionUpdate {
    /// A copy of this release record.
    pub fn duplicate(&self) -> (r: VersionUpdate)
        ensures
            r@ == self@,
    {
        VersionUpdate {
            ios_version: self.ios_version.clone(),
            ios_title: self.ios_title.clone(),
            ios_download_url: self.ios_download_url.clone(),
            android_version: self.android_version.clone(),
            android_title: self.android_title.clone(),
            android_download_url: self.android_download_url.clone(),
            force_update: self.force_update,
            description: self.description.clone(),
            release_time: self.release_time,
        }
    }
}

/// One announcement.
#[derive(Clone, Debug, PartialEq, Eq)]
pub struct Announcement {
    pub title: String,
    pub content: String,
    pub timestamp: u64,
    pub url: String,
}

/// An announcement with its id, as a page lists it.
#[derive(Clone, Debug, PartialEq, Eq)]
pub struct AnnouncementWithId {
    pub id: u64,
    pub title: String,
    pub content: String,
    pub timestamp: u64,
    pub url: String,
}

/// The announcements of one language, with their ids, in the order they were added.
#[derive(Clone, Debug, PartialEq, Eq)]
pub struct AnnouncementList(pub Vec<(u64, Announcement)>);

impl AnnouncementList {
    /// A list without announcements.
    pub fn empty() -> (r: AnnouncementList)
        ensures
            r.0@.len() == 0,
    {
        AnnouncementList(Vec::new())
    }
}

/// One page of the announcements of a language, newest id first.
#[derive(Clone, Debug, PartialEq, Eq)]
pub struct PaginatedAnnouncements {
    pub announcements: Vec<AnnouncementWithId>,
    pub total_announcements: usize,
    pub total_pages: usize,
}

/// The values stored under an API key.
#[derive(Clone, Debug, PartialEq, Eq)]
pub struct StringList(pub Vec<String>);

impl StringList {
    /// A copy of this list.
    pub fn duplicate(&self) -> (r: StringList)
        ensures
            texts(r.0@) == texts(self.0@),
    {
        StringList(copy_strings(&self.0))
    }
}

/// What an app tells about itself.
#[derive(Clone, Debug, PartialEq, Eq)]
pub struct Info {
    pub name: String,
    pub about: String,
    pub version: String,
    pub update_time: u64,
}

/// The spec model of an `Info`.
pub ghost struct InfoModel {
    pub name: Seq<char>,
    pub about: Seq<char>,
    pub version: Seq<char>,
    pub update_time: u64,
}

impl View for Info {
    type V = InfoModel;

    open spec fn view(&self) -> InfoModel {
        InfoModel {
            name: self.name@,
            about: self.about@,
            version: self.version@,
            update_time: self.update_time,
        }
    }
}

impl Info {
    /// A copy of this record.
    pub fn duplicate(&self) -> (r: Info)
        ensures
            r@ == self@,
    {
        Info {
            name: self.name.clone(),
            about: self.about.clone(),
            version: self.version.clone(),
            update_time: self.update_time,
        }
    }
}

/// How often, and with how much traffic, an app was downloaded.
#[derive(Clone, Copy, Debug, PartialEq, Eq, Default)]
pub struct DownloadInfo {
    pub download_count: u64,
    pub flow: u64,
}

/// An app among the most downloaded ones.
#[derive(Clone, Debug, PartialEq, Eq)]
pub struct TopDownload {
    pub app_address: String,
    pub info: Info,
}

/// What is stored about an app.
#[derive(Clone, Debug, PartialEq, Eq)]
pub struct AppDownloadRecord {
    pub info: Info,
    pub download: DownloadInfo,
}

/// The versions that a client runs, per platform.
#[derive(Clone, Debug, PartialEq, Eq)]
pub struct ReviewVersionRequest {
    pub ios_version: Option<String>,
    pub android_version: Option<String>,
}

/// For each platform, 1 when the client runs the version under review, else 0.
#[derive(Clone, Copy, Debug, PartialEq, Eq)]
pub struct ReviewVersionResponse {
    pub ios_h: u8,
    pub android_h: u8,
}

/// The app version under review, per platform.
#[derive(Clone, Debug, PartialEq, Eq)]
pub struct AppVersion {
    pub android_version: String,
    pub ios_version: String,
}

impl AppVersion {
    /// A copy of this record.
    pub fn duplicate(&self) -> (r: AppVersion)
        ensures
            r.android_version@ == self.android_version@,
            r.ios_version@ == self.ios_version@,
    {
        AppVersion { android_version: self.android_version.clone(), ios_version: self.ios_version.clone() }
    }
}

/// An HTTP request as the canister receives it.
#[derive(Clone, Debug, PartialEq, Eq)]
pub struct HttpRequest {
    pub method: String,
    pub url: String,
    pub headers: Vec<(String, String)>,
    pub body: Vec<u8>,
}

/// An HTTP response of the app-info server.
#[derive(Clone, Debug, PartialEq, Eq)]
pub struct HttpResponse {
    pub status_code: u16,
    pub headers: Vec<(String, String)>,
    pub body: Vec<u8>,
    pub upgrade: Option<bool>,
}

} // verus!
