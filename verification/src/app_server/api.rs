//! The requests of the app-info server, as its users call them.
use vstd::prelude::*;
use crate::principal::PrincipalId;
use crate::sticker_server::api::window;
use crate::sticker_server::types::texts;
use super::announcements::{announcement_with, has_id, ids_newest_first, page_count, shows};
use super::state::AppState;
use super::types::{
    Announcement, AppVersion, PaginatedAnnouncements, ReviewVersionRequest,
    ReviewVersionResponse, StringList, VersionUpdate, DATA_ALREADY_EXISTS, DATA_NOT_EXISTS,
    PERMISSION_NOT_FOUND,
};

verus! {

/// The key under which the current release record is kept.
pub const VERSION_KEY: u64 = 1;

impl AppState {
    /// The owner, for a caller with a valid signature.
    pub fn owner(&self, signature: &str) -> (r: Result<Option<PrincipalId>, u64>)
        ensures
            r == (if self.signature_ok(signature@) {
                Ok(self.owner_id)
            } else {
                Err(PERMISSION_NOT_FOUND)
            }),
    {
        self._verify_signature(signature)?;
        Ok(self.owner_id)
    }

    /// Lets the owner store the current release record.
    pub fn update_version(&mut self, caller: PrincipalId, version: VersionUpdate) -> (r: Result<(), u64>)
        requires
            old(self).wf(),
        ensures
            final(self).wf(),
            r == (if old(self).is_owner(caller) { Ok(()) } else { Err(PERMISSION_NOT_FOUND) }),
            r is Err ==> *final(self) == *old(self),
            r is Ok ==> *final(self) == (AppState {
                version_updates: final(self).version_updates,
                ..*old(self)
            }) && final(self).version_updates.as_map() == old(self).version_updates.as_map().insert(VERSION_KEY, version),
    {
        self._update_version(caller, VERSION_KEY, version)
    }

    /// The current release record.
    pub fn get_version(&self) -> (r: Result<VersionUpdate, u64>)
        requires
            self.wf(),
        ensures
            !self.version_updates.as_map().contains_key(VERSION_KEY) ==> r == Err::<VersionUpdate, u64>(DATA_NOT_EXISTS),
            self.version_updates.as_map().contains_key(VERSION_KEY) ==> (r matches Ok(v) && v@ == self.version_updates.as_map()[VERSION_KEY]@),
    {
        self._get_version_by_key(VERSION_KEY)
    }

    /// Lets the owner add an announcement for a language.
    pub fn add_announcement(&mut self, caller: PrincipalId, language: String, announcement_id: u64, announcement: Announcement) -> (r: Result<(), u64>)
        requires
            old(self).wf(),
        ensures
            final(self).wf(),
            r == (if !old(self).is_owner(caller) {
                Err(PERMISSION_NOT_FOUND)
            } else if old(self).lists().contains_key(language@) && has_id(old(self).lists()[language@].0@, announcement_id) {
                Err(DATA_ALREADY_EXISTS)
            } else {
                Ok(())
            }),
            r is Err ==> *final(self) == *old(self),
            r is Ok ==> {
                let before = if old(self).lists().contains_key(language@) {
                    old(self).lists()[language@].0@
                } else {
                    Seq::empty()
                };
                &&& *final(self) == (AppState { announcement_lists: final(self).announcement_lists, ..*old(self) })
                &&& final(self).lists().contains_key(language@)
                &&& final(self).lists().remove(language@) == old(self).lists().remove(language@)
                &&& final(self).lists()[language@].0@ == before.push((announcement_id, announcement))
            },
    {
        self._insert_announcement(caller, language, announcement_id, announcement)
    }

    /// Lets the owner remove an announcement of a language.
    pub fn remove_announcement(&mut self, caller: PrincipalId, language: String, announcement_id: u64) -> (r: Result<(), u64>)
        requires
            old(self).wf(),
        ensures
            final(self).wf(),
            r == (if !old(self).is_owner(caller) {
                Err(PERMISSION_NOT_FOUND)
            } else if !old(self).lists().contains_key(language@) || !has_id(old(self).lists()[language@].0@, announcement_id) {
                Err(DATA_NOT_EXISTS)
            } else {
                Ok(())
            }),
            r is Err ==> *final(self) == *old(self),
            r is Ok ==> {
                &&& *final(self) == (AppState { announcement_lists: final(self).announcement_lists, ..*old(self) })
                &&& final(self).lists().contains_key(language@)
                &&& final(self).lists().remove(language@) == old(self).lists().remove(language@)
                &&& final(self).lists()[language@].0@ == old(self).lists()[language@].0@.filter(
                    |e: (u64, Announcement)| e.0 != announcement_id,
                )
            },
    {
        self._delete_announcement(caller, language, announcement_id)
    }

    /// A page of the announcements of a language, newest id first.
    pub fn announcements(&self, key: String, page_number: usize, page_size: usize) -> (r: Result<PaginatedAnnouncements, u64>)
        requires
            self.wf(),
            self.lists().contains_key(key@) ==> page_size > 0 && self.lists()[key@].0@.len() + page_size <= usize::MAX
                && page_number * page_size <= usize::MAX,
        ensures
            !self.lists().contains_key(key@) ==> r == Err::<PaginatedAnnouncements, u64>(DATA_NOT_EXISTS),
            self.lists().contains_key(key@) ==> (r matches Ok(p) && {
                let l = self.lists()[key@].0@;
                let w = window(ids_newest_first(l), (page_number * page_size) as nat, page_size as nat);
                &&& p.total_announcements == l.len()
                &&& p.total_pages == page_count(l.len(), page_size as nat)
                &&& p.announcements@.len() == w.len()
                &&& forall|k: int| 0 <= k < w.len() ==> shows(#[trigger] p.announcements@[k], w[k], announcement_with(l, w[k]))
            }),
    {
        self._get_announcements_by_key_paginated(key, page_number, page_size)
    }

    /// Lets the owner store the values of an API key.
    pub fn set_api_key(&mut self, caller: PrincipalId, key: String, values: Vec<String>) -> (r: Result<(), u64>)
        requires
            old(self).wf(),
        ensures
            final(self).wf(),
            r == (if old(self).is_owner(caller) { Ok(()) } else { Err(PERMISSION_NOT_FOUND) }),
            r is Err ==> *final(self) == *old(self),
            r is Ok ==> *final(self) == (AppState { api_keys: final(self).api_keys, ..*old(self) })
                && final(self).api_keys.as_map() == old(self).api_keys.as_map().insert(key@, StringList(values)),
    {
        self._add_api_key(caller, key, values)
    }

    /// Lets the owner delete an API key.
    pub fn remove_api_key(&mut self, caller: PrincipalId, key: String) -> (r: Result<(), u64>)
        requires
            old(self).wf(),
        ensures
            final(self).wf(),
            r == (if !old(self).is_owner(caller) {
                Err(PERMISSION_NOT_FOUND)
            } else if !old(self).api_keys.as_map().contains_key(key@) {
                Err(DATA_NOT_EXISTS)
            } else {
                Ok(())
            }),
            !old(self).is_owner(caller) ==> *final(self) == *old(self),
            old(self).is_owner(caller) ==> *final(self) == (AppState { api_keys: final(self).api_keys, ..*old(self) })
                && final(self).api_keys.as_map() == old(self).api_keys.as_map().remove(key@),
    {
        self._delete_api_key(caller, key)
    }

    /// The values of an API key, for a caller with a valid signature.
    pub fn api_key(&self, key: String, signature: String) -> (r: Result<StringList, u64>)
        requires
            self.wf(),
        ensures
            !self.signature_ok(signature@) ==> r == Err::<StringList, u64>(PERMISSION_NOT_FOUND),
            self.signature_ok(signature@) && !self.api_keys.as_map().contains_key(key@) ==> r == Err::<StringList, u64>(DATA_NOT_EXISTS),
            self.signature_ok(signature@) && self.api_keys.as_map().contains_key(key@) ==> (r matches Ok(l) && texts(l.0@) == texts(self.api_keys.as_map()[key@].0@)),
    {
        self._verify_signature(signature.as_str())?;
        self._get_api_key(key, signature)
    }

    /// Lets the owner set the signing secret.
    pub fn set_auth_secret(&mut self, caller: PrincipalId, secret: String) -> (r: Result<(), u64>)
        ensures
            r == (if old(self).is_owner(caller) { Ok(()) } else { Err(PERMISSION_NOT_FOUND) }),
            r is Err ==> *final(self) == *old(self),
            r is Ok ==> *final(self) == (AppState { auth_secret: Some(secret), ..*old(self) }),
    {
        self._set_auth_secret(caller, secret)
    }

    /// Lets the owner set the signed message.
    pub fn set_auth_message(&mut self, caller: PrincipalId, message: String) -> (r: Result<(), u64>)
        ensures
            r == (if old(self).is_owner(caller) { Ok(()) } else { Err(PERMISSION_NOT_FOUND) }),
            r is Err ==> *final(self) == *old(self),
            r is Ok ==> *final(self) == (AppState { auth_message: Some(message), ..*old(self) }),
    {
        self._set_auth_message(caller, message)
    }

    /// For each platform, whether the client runs the version under review.
    pub fn check_review_version(&self, req: ReviewVersionRequest) -> (r: Result<ReviewVersionResponse, u64>)
        ensures
            self.app_version is None ==> r == Err::<ReviewVersionResponse, u64>(DATA_NOT_EXISTS),
            self.app_version matches Some(cur) ==> r == Ok::<ReviewVersionResponse, u64>(ReviewVersionResponse {
                ios_h: if req.ios_version matches Some(v) && v@ == cur.ios_version@ { 1 } else { 0 },
                android_h: if req.android_version matches Some(v) && v@ == cur.android_version@ { 1 } else { 0 },
            }),
    {
        self._check_review_version(req)
    }

    /// Lets the owner set the version under review.
    pub fn set_app_version(&mut self, caller: PrincipalId, version: AppVersion) -> (r: Result<(), u64>)
        ensures
            r == (if old(self).is_owner(caller) { Ok(()) } else { Err(PERMISSION_NOT_FOUND) }),
            r is Err ==> *final(self) == *old(self),
            r is Ok ==> *final(self) == (AppState { app_version: Some(version), ..*old(self) }),
    {
        self._set_app_version(caller, version)
    }

    /// The version under review.
    pub fn get_app_version(&self) -> (r: Result<AppVersion, u64>)
        ensures
            self.app_version is None ==> r == Err::<AppVersion, u64>(DATA_NOT_EXISTS),
            self.app_version matches Some(v) ==> (r matches Ok(w) && w.android_version@ == v.android_version@
                && w.ios_version@ == v.ios_version@),
    {
        self._get_app_version()
    }
}

} // verus!
