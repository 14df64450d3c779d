//! The state of the app-info server, its owner, and its keyed records.
use vstd::prelude::*;
use crate::keyed::KeyedList;
use crate::principal::PrincipalId;
use crate::stable::MemoryRegistry;
use crate::sticker_server::types::texts;
use crate::text::owned;
use super::types::{
    not_owner_message, AnnouncementList, AppDownloadRecord, AppVersion, ReviewVersionRequest,
    ReviewVersionResponse, StringList, VersionUpdate, DATA_NOT_EXISTS, PERMISSION_NOT_FOUND,
};

verus! {

/// No id occurs twice in a list of announcements.
pub open spec fn ids_distinct(l: Seq<(u64, super::types::Announcement)>) -> bool {
    forall|i: int, j: int| 0 <= i < j < l.len() ==> #[trigger] l[i].0 != #[trigger] l[j].0
}

/// Everything the app-info server stores.
pub struct AppState {
    pub owner_id: Option<PrincipalId>,
    pub version_updates: KeyedList<u64, VersionUpdate>,
    pub announcement_lists: KeyedList<String, AnnouncementList>,
    pub api_keys: KeyedList<String, StringList>,
    pub downloads: KeyedList<String, AppDownloadRecord>,
    pub auth_secret: Option<String>,
    pub auth_message: Option<String>,
    pub app_version: Option<AppVersion>,
    pub registry: MemoryRegistry,
}

/// The virtual memory that holds the saved records across an upgrade.
pub const SNAPSHOT_MEMORY: u8 = 20;

impl AppState {
    /// The invariant of the stored data.
    pub open spec fn wf(&self) -> bool {
        &&& self.version_updates.wf()
        &&& self.announcement_lists.wf()
        &&& self.api_keys.wf()
        &&& self.downloads.wf()
        &&& forall|i: int|
            0 <= i < self.announcement_lists.entries@.len() ==> ids_distinct(
                #[trigger] self.announcement_lists.entries@[i].1.0@,
            )
    }

    /// `caller` is the owner.
    pub open spec fn is_owner(&self, caller: PrincipalId) -> bool {
        self.owner_id == Some(caller)
    }

    /// The announcement lists by language.
    pub open spec fn lists(&self) -> Map<Seq<char>, AnnouncementList> {
        self.announcement_lists.as_map()
    }

    /// A server with nothing stored and no owner yet, over the canister's stable memory
    /// (where `load_snapshot` finds what an earlier run saved).
    pub fn new() -> (r: AppState)
        ensures
            r.wf(),
            r.owner_id is None,
            r.version_updates.as_map().dom().is_empty(),
            r.lists().dom().is_empty(),
            r.api_keys.as_map().dom().is_empty(),
            r.downloads.as_map().dom().is_empty(),
            r.auth_secret is None,
            r.auth_message is None,
            r.app_version is None,
    {
        AppState {
            owner_id: None,
            version_updates: KeyedList::new(),
            announcement_lists: KeyedList::new(),
            api_keys: KeyedList::new(),
            downloads: KeyedList::new(),
            auth_secret: None,
            auth_message: None,
            app_version: None,
            registry: MemoryRegistry::new(),
        }
    }

    /// Writes the encoded records to stable memory, to outlive an upgrade.
    pub fn save_snapshot(&self, bytes: Vec<u8>) {
        self.registry.save_blob(SNAPSHOT_MEMORY, bytes);
    }

    /// The encoded records that the last `save_snapshot` wrote, or none.
    pub fn load_snapshot(&self) -> Vec<u8> {
        self.registry.load_blob(SNAPSHOT_MEMORY)
    }

    /// Installation: the installer becomes the owner.
    pub fn init(&mut self, caller: PrincipalId)
        ensures
            *final(self) == (AppState { owner_id: Some(caller), ..*old(self) }),
    {
        self.owner_id = Some(caller);
    }

    /// Upgrade: where no owner is stored, the caller of the upgrade becomes the owner.
    pub fn post_upgrade(&mut self, caller: PrincipalId)
        ensures
            old(self).owner_id is None ==> *final(self) == (AppState { owner_id: Some(caller), ..*old(self) }),
            old(self).owner_id is Some ==> *final(self) == *old(self),
    {
        if self.owner_id.is_none() {
            self.owner_id = Some(caller);
        }
    }

    /// `Ok` exactly for the owner; otherwise the refusal message.
    pub fn _check_owner(&self, caller: PrincipalId) -> (r: Result<(), String>)
        ensures
            self.is_owner(caller) ==> r is Ok,
            !self.is_owner(caller) ==> (r matches Err(m) && m@ == not_owner_message()),
    {
        match self.owner_id {
            Some(owner) => {
                if owner.same(&caller) {
                    return Ok(());
                }
            },
            None => {},
        }
        Err(owned("Only owner can perform this action"))
    }

    /// `Ok` exactly for the owner; otherwise the permission error code.
    fn owner_or_code(&self, caller: PrincipalId) -> (r: Result<(), u64>)
        ensures
            r == (if self.is_owner(caller) { Ok(()) } else { Err(PERMISSION_NOT_FOUND) }),
    {
        match self._check_owner(caller) {
            Ok(()) => Ok(()),
            Err(_) => Err(PERMISSION_NOT_FOUND),
        }
    }

    /// Lets the owner store a release record under `version_id`.
    pub fn _update_version(&mut self, caller: PrincipalId, version_id: u64, version: VersionUpdate) -> (r: Result<(), u64>)
        requires
            old(self).wf(),
        ensures
            final(self).wf(),
            r == (if old(self).is_owner(caller) { Ok(()) } else { Err(PERMISSION_NOT_FOUND) }),
            r is Err ==> *final(self) == *old(self),
            r is Ok ==> *final(self) == (AppState {
                version_updates: final(self).version_updates,
                ..*old(self)
            }) && final(self).version_updates.as_map() == old(self).version_updates.as_map().insert(version_id, version),
    {
        self.owner_or_code(caller)?;
        self.version_updates.insert(version_id, version);
        Ok(())
    }

    /// The release record stored under `key`.
    pub fn _get_version_by_key(&self, key: u64) -> (r: Result<VersionUpdate, u64>)
        requires
            self.wf(),
        ensures
            !self.version_updates.as_map().contains_key(key) ==> r == Err::<VersionUpdate, u64>(DATA_NOT_EXISTS),
            self.version_updates.as_map().contains_key(key) ==> (r matches Ok(v) && v@ == self.version_updates.as_map()[key]@),
    {
        match self.version_updates.get(&key) {
            Some(v) => Ok(v.duplicate()),
            None => Err(DATA_NOT_EXISTS),
        }
    }

    /// Lets the owner store the values of an API key, replacing earlier ones.
    pub fn _add_api_key(&mut self, caller: PrincipalId, key: String, values: Vec<String>) -> (r: Result<(), u64>)
        requires
            old(self).wf(),
        ensures
            final(self).wf(),
            r == (if old(self).is_owner(caller) { Ok(()) } else { Err(PERMISSION_NOT_FOUND) }),
            r is Err ==> *final(self) == *old(self),
            r is Ok ==> *final(self) == (AppState { api_keys: final(self).api_keys, ..*old(self) })
                && final(self).api_keys.as_map() == old(self).api_keys.as_map().insert(key@, StringList(values)),
    {
        self.owner_or_code(caller)?;
        self.api_keys.insert(key, StringList(values));
        Ok(())
    }

    /// Lets the owner delete an API key.
    pub fn _delete_api_key(&mut self, caller: PrincipalId, key: String) -> (r: Result<(), u64>)
        requires
            old(self).wf(),
        ensures
            final(self).wf(),
            r == (if !old(self).is_owner(caller) {
                Err(PERMISSION_NOT_FOUND)
            } else if !old(self).api_keys.as_map().contains_key(key@) {
                Err(DATA_NOT_EXISTS)
            } else {
                Ok(())
            }),
            !old(self).is_owner(caller) ==> *final(self) == *old(self),
            old(self).is_owner(caller) ==> *final(self) == (AppState { api_keys: final(self).api_keys, ..*old(self) })
                && final(self).api_keys.as_map() == old(self).api_keys.as_map().remove(key@),
    {
        self.owner_or_code(caller)?;
        match self.api_keys.remove(&key) {
            Some(_) => Ok(()),
            None => Err(DATA_NOT_EXISTS),
        }
    }

    /// The values of an API key. The signature is checked by the caller of this
    /// function, not here.
    pub fn _get_api_key(&self, key: String, signature: String) -> (r: Result<StringList, u64>)
        requires
            self.wf(),
        ensures
            !self.api_keys.as_map().contains_key(key@) ==> r == Err::<StringList, u64>(DATA_NOT_EXISTS),
            self.api_keys.as_map().contains_key(key@) ==> (r matches Ok(l) && texts(l.0@) == texts(self.api_keys.as_map()[key@].0@)),
    {
        match self.api_keys.get(&key) {
            Some(l) => Ok(l.duplicate()),
            None => Err(DATA_NOT_EXISTS),
        }
    }

    /// Lets the owner set the secret that signatures are keyed with.
    pub fn _set_auth_secret(&mut self, caller: PrincipalId, secret: String) -> (r: Result<(), u64>)
        ensures
            r == (if old(self).is_owner(caller) { Ok(()) } else { Err(PERMISSION_NOT_FOUND) }),
            r is Err ==> *final(self) == *old(self),
            r is Ok ==> *final(self) == (AppState { auth_secret: Some(secret), ..*old(self) }),
    {
        self.owner_or_code(caller)?;
        self.auth_secret = Some(secret);
        Ok(())
    }

    /// Lets the owner set the message that signatures sign.
    pub fn _set_auth_message(&mut self, caller: PrincipalId, message: String) -> (r: Result<(), u64>)
        ensures
            r == (if old(self).is_owner(caller) { Ok(()) } else { Err(PERMISSION_NOT_FOUND) }),
            r is Err ==> *final(self) == *old(self),
            r is Ok ==> *final(self) == (AppState { auth_message: Some(message), ..*old(self) }),
    {
        self.owner_or_code(caller)?;
        self.auth_message = Some(message);
        Ok(())
    }

    /// The app version under review.
    pub fn _get_app_version(&self) -> (r: Result<AppVersion, u64>)
        ensures
            self.app_version is None ==> r == Err::<AppVersion, u64>(DATA_NOT_EXISTS),
            self.app_version matches Some(v) ==> (r matches Ok(w) && w.android_version@ == v.android_version@
                && w.ios_version@ == v.ios_version@),
    {
        match &self.app_version {
            Some(v) => Ok(v.duplicate()),
            None => Err(DATA_NOT_EXISTS),
        }
    }

    /// Lets the owner set the app version under review.
    pub fn _set_app_version(&mut self, caller: PrincipalId, version: AppVersion) -> (r: Result<(), u64>)
        ensures
            r == (if old(self).is_owner(caller) { Ok(()) } else { Err(PERMISSION_NOT_FOUND) }),
            r is Err ==> *final(self) == *old(self),
            r is Ok ==> *final(self) == (AppState { app_version: Some(version), ..*old(self) }),
    {
        self.owner_or_code(caller)?;
        self.app_version = Some(version);
        Ok(())
    }

    /// For each platform, whether the client runs the version under review.
    pub fn _check_review_version(&self, req: ReviewVersionRequest) -> (r: Result<ReviewVersionResponse, u64>)
        ensures
            self.app_version is None ==> r == Err::<ReviewVersionResponse, u64>(DATA_NOT_EXISTS),
            self.app_version matches Some(cur) ==> r == Ok::<ReviewVersionResponse, u64>(ReviewVersionResponse {
                ios_h: if req.ios_version matches Some(v) && v@ == cur.ios_version@ { 1 } else { 0 },
                android_h: if req.android_version matches Some(v) && v@ == cur.android_version@ { 1 } else { 0 },
            }),
    {
        let current = self._get_app_version()?;
        let ios_h: u8 = match &req.ios_version {
            Some(v) => if crate::text::same_text(v.as_str(), current.ios_version.as_str()) { 1 } else { 0 },
            None => 0,
        };
        let android_h: u8 = match &req.android_version {
            Some(v) => if crate::text::same_text(v.as_str(), current.android_version.as_str()) { 1 } else { 0 },
            None => 0,
        };
        Ok(ReviewVersionResponse { ios_h, android_h })
    }
}

} // verus!
