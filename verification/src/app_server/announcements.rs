//! Announcements per language: adding, removing, and paging them newest id first.
use vstd::prelude::*;
use crate::principal::PrincipalId;
use crate::sticker_server::api::window;
use crate::stable::{lemma_increasing_unique, strictly_increasing};
use super::state::{ids_distinct, AppState};
use super::types::{
    Announcement, AnnouncementList, AnnouncementWithId, PaginatedAnnouncements,
    DATA_ALREADY_EXISTS, DATA_NOT_EXISTS, PERMISSION_NOT_FOUND,
};

verus! {

/// `s` is strictly decreasing.
pub open spec fn strictly_decreasing(s: Seq<u64>) -> bool {
    forall|i: int, j: int| 0 <= i < j < s.len() ==> s[i] > s[j]
}

/// Some announcement of `l` has id `id`.
pub open spec fn has_id(l: Seq<(u64, Announcement)>, id: u64) -> bool {
    exists|i: int| 0 <= i < l.len() && #[trigger] l[i].0 == id
}

/// The ids of `l`, largest first.
pub open spec fn ids_newest_first(l: Seq<(u64, Announcement)>) -> Seq<u64> {
    choose|s: Seq<u64>| #[trigger] strictly_decreasing(s) && forall|x: u64| s.contains(x) <==> has_id(l, x)
}

/// The announcement of `l` with id `id`.
pub open spec fn announcement_with(l: Seq<(u64, Announcement)>, id: u64) -> Announcement {
    l[choose|i: int| 0 <= i < l.len() && #[trigger] l[i].0 == id].1
}

/// `a` shows announcement `x` with id `id`.
pub open spec fn shows(a: AnnouncementWithId, id: u64, x: Announcement) -> bool {
    &&& a.id == id
    &&& a.title@ == x.title@
    &&& a.content@ == x.content@
    &&& a.timestamp == x.timestamp
    &&& a.url@ == x.url@
}

/// The number of pages of `page_size` announcements that `total` announcements fill.
pub open spec fn page_count(total: nat, page_size: nat) -> nat {
    ((total + page_size - 1) / page_size as int) as nat
}

/// Two strictly decreasing sequences with the same elements are the same sequence.
pub proof fn lemma_decreasing_unique(s1: Seq<u64>, s2: Seq<u64>)
    requires
        strictly_decreasing(s1),
        strictly_decreasing(s2),
        forall|x: u64| s1.contains(x) <==> s2.contains(x),
    ensures
        s1 == s2,
{
    let r1 = s1.reverse();
    let r2 = s2.reverse();
    assert(strictly_increasing(r1)) by {
        assert forall|i: int, j: int| 0 <= i < j < r1.len() implies r1[i] < r1[j] by {
            assert(r1[i] == s1[s1.len() - 1 - i]);
            assert(r1[j] == s1[s1.len() - 1 - j]);
        }
    }
    assert(strictly_increasing(r2)) by {
        assert forall|i: int, j: int| 0 <= i < j < r2.len() implies r2[i] < r2[j] by {
            assert(r2[i] == s2[s2.len() - 1 - i]);
            assert(r2[j] == s2[s2.len() - 1 - j]);
        }
    }
    assert forall|x: u64| r1.contains(x) <==> r2.contains(x) by {
        if r1.contains(x) {
            let i = choose|i: int| 0 <= i < r1.len() && r1[i] == x;
            assert(s1[s1.len() - 1 - i] == x);
            assert(s2.contains(x));
            let j = choose|j: int| 0 <= j < s2.len() && s2[j] == x;
            assert(r2[s2.len() - 1 - j] == x);
        }
        if r2.contains(x) {
            let i = choose|i: int| 0 <= i < r2.len() && r2[i] == x;
            assert(s2[s2.len() - 1 - i] == x);
            assert(s1.contains(x));
            let j = choose|j: int| 0 <= j < s1.len() && s1[j] == x;
            assert(r1[s1.len() - 1 - j] == x);
        }
    }
    lemma_increasing_unique(r1, r2);
    assert(s1 =~= r1.reverse());
    assert(s2 =~= r2.reverse());
}

/// The ids of a list, largest first, found by repeatedly taking the largest id below
/// the last one taken.
fn newest_first(l: &Vec<(u64, Announcement)>) -> (r: Vec<u64>)
    ensures
        strictly_decreasing(r@),
        forall|x: u64| r@.contains(x) <==> has_id(l@, x),
        r@ == ids_newest_first(l@),
{
    let mut out: Vec<u64> = Vec::new();
    let mut bound: Option<u64> = None;
    loop
        invariant
            strictly_decreasing(out@),
            forall|x: u64| out@.contains(x) ==> has_id(l@, x),
            bound is None <==> out@.len() == 0,
            bound matches Some(b) ==> out@.last() == b,
            forall|i: int| 0 <= i < l@.len() && (bound matches Some(b) ==> #[trigger] l@[i].0 >= b) && bound is Some
                ==> out@.contains(l@[i].0),
        ensures
            strictly_decreasing(out@),
            forall|x: u64| out@.contains(x) <==> has_id(l@, x),
        decreases (match bound {
            None => u64::MAX as int + 1,
            Some(b) => b as int,
        }),
    {
        let mut best: Option<u64> = None;
        let mut j: usize = 0;
        while j < l.len()
            invariant
                j <= l@.len(),
                best matches Some(x) ==> has_id(l@, x) && (bound matches Some(b) ==> x < b),
                forall|i: int| 0 <= i < j && (bound matches Some(b) ==> #[trigger] l@[i].0 < b)
                    ==> (best matches Some(x) && l@[i].0 <= x),
            decreases l@.len() - j,
        {
            let x = l[j].0;
            let below = match bound {
                Some(b) => x < b,
                None => true,
            };
            if below {
                let better = match best {
                    Some(y) => x > y,
                    None => true,
                };
                if better {
                    best = Some(x);
                }
            }
            j = j + 1;
        }
        match best {
            None => {
                proof {
                    assert forall|x: u64| has_id(l@, x) implies out@.contains(x) by {
                        let i = choose|i: int| 0 <= i < l@.len() && #[trigger] l@[i].0 == x;
                        if bound is None {
                            assert(l@[i].0 <= l@[i].0);
                        }
                    }
                }
                break;
            },
            Some(x) => {
                let ghost before = out@;
                out.push(x);
                proof {
                    assert forall|y: u64| out@.contains(y) implies has_id(l@, y) by {
                        if y != x {
                            let k = choose|k: int| 0 <= k < out@.len() && out@[k] == y;
                            assert(before[k] == y);
                        }
                    }
                    assert forall|i: int| 0 <= i < l@.len() && #[trigger] l@[i].0 >= x implies out@.contains(l@[i].0) by {
                        if l@[i].0 == x {
                            assert(out@[out@.len() - 1] == x);
                        } else {
                            let k = choose|k: int| 0 <= k < before.len() && before[k] == l@[i].0;
                            assert(out@[k] == before[k]);
                        }
                    }
                }
                bound = Some(x);
            },
        }
    }
    proof {
        let s = ids_newest_first(l@);
        assert(strictly_decreasing(s) && forall|x: u64| s.contains(x) <==> has_id(l@, x));
        lemma_decreasing_unique(out@, s);
    }
    out
}

/// The position of the announcement with id `id` in `l`.
fn position_of(l: &Vec<(u64, Announcement)>, id: u64) -> (r: usize)
    requires
        has_id(l@, id),
        ids_distinct(l@),
    ensures
        r < l@.len(),
        l@[r as int].0 == id,
        l@[r as int].1 == announcement_with(l@, id),
{
    let mut i: usize = 0;
    while i < l.len()
        invariant
            i <= l@.len(),
            has_id(l@, id),
            ids_distinct(l@),
            forall|j: int| 0 <= j < i ==> #[trigger] l@[j].0 != id,
        decreases l@.len() - i,
    {
        if l[i].0 == id {
            proof {
                let c = choose|c: int| 0 <= c < l@.len() && #[trigger] l@[c].0 == id;
                if c != i {
                    if c < i {
                        assert(l@[c].0 != l@[i as int].0);
                    } else {
                        assert(l@[i as int].0 != l@[c].0);
                    }
                }
            }
            return i;
        }
        i = i + 1;
    }
    proof {
        let c = choose|c: int| 0 <= c < l@.len() && #[trigger] l@[c].0 == id;
        assert(l@[c].0 != id);
    }
    0
}

/// A list with distinct ids has as many ids, newest first, as announcements.
proof fn lemma_newest_first_len(l: Seq<(u64, Announcement)>, ids: Seq<u64>)
    requires
        ids_distinct(l),
        strictly_decreasing(ids),
        forall|x: u64| ids.contains(x) <==> has_id(l, x),
    ensures
        ids.len() == l.len(),
{
    let t = l.map_values(|e: (u64, Announcement)| e.0);
    assert(t.no_duplicates()) by {
        assert forall|i: int, j: int| 0 <= i < t.len() && 0 <= j < t.len() && i != j implies t[i] != t[j] by {
            if i < j {
                assert(l[i].0 != l[j].0);
            } else {
                assert(l[j].0 != l[i].0);
            }
        }
    }
    assert(ids.no_duplicates()) by {
        assert forall|i: int, j: int| 0 <= i < ids.len() && 0 <= j < ids.len() && i != j implies ids[i] != ids[j] by {
            if i < j {
                assert(ids[i] > ids[j]);
            } else {
                assert(ids[j] > ids[i]);
            }
        }
    }
    assert(t.to_set() =~= ids.to_set()) by {
        assert forall|x: u64| t.to_set().contains(x) <==> ids.to_set().contains(x) by {
            if t.contains(x) {
                let i = choose|i: int| 0 <= i < t.len() && t[i] == x;
                assert(l[i].0 == x);
            }
            if has_id(l, x) {
                let i = choose|i: int| 0 <= i < l.len() && #[trigger] l[i].0 == x;
                assert(t[i] == x);
            }
        }
    }
    t.unique_seq_to_set();
    ids.unique_seq_to_set();
}

impl AppState {
    /// Lets the owner add an announcement for a language, under an id that the
    /// language does not use yet.
    pub fn _insert_announcement(&mut self, caller: PrincipalId, language: String, announcement_id: u64, announcement: Announcement) -> (r: Result<(), u64>)
        requires
            old(self).wf(),
        ensures
            final(self).wf(),
            r == (if !old(self).is_owner(caller) {
                Err(PERMISSION_NOT_FOUND)
            } else if old(self).lists().contains_key(language@) && has_id(old(self).lists()[language@].0@, announcement_id) {
                Err(DATA_ALREADY_EXISTS)
            } else {
                Ok(())
            }),
            r is Err ==> *final(self) == *old(self),
            r is Ok ==> {
                let before = if old(self).lists().contains_key(language@) {
                    old(self).lists()[language@].0@
                } else {
                    Seq::empty()
                };
                &&& *final(self) == (AppState { announcement_lists: final(self).announcement_lists, ..*old(self) })
                &&& final(self).lists().contains_key(language@)
                &&& final(self).lists().remove(language@) == old(self).lists().remove(language@)
                &&& final(self).lists()[language@].0@ == before.push((announcement_id, announcement))
            },
    {
        match self._check_owner(caller) {
            Ok(()) => {},
            Err(_) => return Err(PERMISSION_NOT_FOUND),
        }
        match self.announcement_lists.get(&language) {
            Some(list) => {
                let mut i: usize = 0;
                while i < list.0.len()
                    invariant
                        self.wf(),
                        *self == *old(self),
                        old(self).is_owner(caller),
                        old(self).lists().contains_key(language@),
                        list.0@ == old(self).lists()[language@].0@,
                        i <= list.0@.len(),
                        forall|j: int| 0 <= j < i ==> #[trigger] list.0@[j].0 != announcement_id,
                    decreases list.0@.len() - i,
                {
                    if list.0[i].0 == announcement_id {
                        assert(has_id(list.0@, announcement_id));
                        return Err(DATA_ALREADY_EXISTS);
                    }
                    i = i + 1;
                }
            },
            None => {},
        }
        let ghost old_lists = self.announcement_lists;
        let mut list = match self.announcement_lists.remove(&language) {
            Some(l) => l,
            None => AnnouncementList::empty(),
        };
        let ghost before = list.0@;
        list.0.push((announcement_id, announcement));
        proof {
            assert(!has_id(before, announcement_id));
            assert(ids_distinct(list.0@)) by {
                if old_lists.has(language@) {
                    let p = old_lists.pos(language@);
                    old_lists.lemma_pos(p);
                    assert(ids_distinct(old_lists.entries@[p].1.0@));
                }
                assert forall|i: int, j: int| 0 <= i < j < list.0@.len() implies #[trigger] list.0@[i].0 != #[trigger] list.0@[j].0 by {
                    if j == before.len() {
                        assert(list.0@[i] == before[i]);
                    } else {
                        assert(list.0@[i] == before[i] && list.0@[j] == before[j]);
                    }
                }
            }
        }
        let ghost mid = self.announcement_lists;
        self.announcement_lists.insert(language, list);
        proof {
            assert(!mid.has(language@));
            assert(self.announcement_lists.entries@ == mid.entries@.push((language, list)));
            assert forall|i: int| 0 <= i < self.announcement_lists.entries@.len() implies ids_distinct(
                #[trigger] self.announcement_lists.entries@[i].1.0@,
            ) by {
                if i < mid.entries@.len() {
                    let p = old_lists.pos(language@);
                    if old_lists.has(language@) {
                        let i2 = if i < p { i } else { i + 1 };
                        assert(mid.entries@[i] == old_lists.entries@[i2]);
                    }
                }
            }
            assert(self.lists().remove(language@) =~= old_lists.as_map().remove(language@));
        }
        Ok(())
    }

    /// Lets the owner remove the announcement with id `announcement_id` of a language.
    pub fn _delete_announcement(&mut self, caller: PrincipalId, language: String, announcement_id: u64) -> (r: Result<(), u64>)
        requires
            old(self).wf(),
        ensures
            final(self).wf(),
            r == (if !old(self).is_owner(caller) {
                Err(PERMISSION_NOT_FOUND)
            } else if !old(self).lists().contains_key(language@) || !has_id(old(self).lists()[language@].0@, announcement_id) {
                Err(DATA_NOT_EXISTS)
            } else {
                Ok(())
            }),
            r is Err ==> *final(self) == *old(self),
            r is Ok ==> {
                &&& *final(self) == (AppState { announcement_lists: final(self).announcement_lists, ..*old(self) })
                &&& final(self).lists().contains_key(language@)
                &&& final(self).lists().remove(language@) == old(self).lists().remove(language@)
                &&& final(self).lists()[language@].0@ == old(self).lists()[language@].0@.filter(
                    |e: (u64, Announcement)| e.0 != announcement_id,
                )
            },
    {
        match self._check_owner(caller) {
            Ok(()) => {},
            Err(_) => return Err(PERMISSION_NOT_FOUND),
        }
        match self.announcement_lists.get(&language) {
            Some(list) => {
                let mut found = false;
                let mut i: usize = 0;
                while i < list.0.len()
                    invariant
                        i <= list.0@.len(),
                        found <==> exists|j: int| 0 <= j < i && #[trigger] list.0@[j].0 == announcement_id,
                    decreases list.0@.len() - i,
                {
                    if list.0[i].0 == announcement_id {
                        found = true;
                    }
                    i = i + 1;
                }
                if !found {
                    return Err(DATA_NOT_EXISTS);
                }
            },
            None => return Err(DATA_NOT_EXISTS),
        }
        let ghost old_lists = self.announcement_lists;
        let list = match self.announcement_lists.remove(&language) {
            Some(l) => l,
            None => AnnouncementList::empty(),
        };
        let ghost orig = list.0@;
        let ghost pred = |e: (u64, Announcement)| e.0 != announcement_id;
        proof {
            let p = old_lists.pos(language@);
            old_lists.lemma_pos(p);
            assert(ids_distinct(old_lists.entries@[p].1.0@));
        }
        let mut rest = list.0;
        let mut kept: Vec<(u64, Announcement)> = Vec::new();
        let n = rest.len();
        let mut i: usize = 0;
        proof {
            reveal(Seq::filter);
            assert(orig.subrange(0, 0) =~= Seq::<(u64, Announcement)>::empty());
            assert(rest@.subrange(0, 0).filter(pred) =~= Seq::<(u64, Announcement)>::empty());
        }
        while i < n
            invariant
                n == orig.len(),
                i <= n,
                ids_distinct(orig),
                rest@ == orig.subrange(i as int, n as int),
                kept@ == orig.subrange(0, i as int).filter(pred),
                ids_distinct(kept@),
                forall|k: int| 0 <= k < kept@.len() ==> orig.subrange(0, i as int).contains(#[trigger] kept@[k]),
                pred == (|e: (u64, Announcement)| e.0 != announcement_id),
            decreases n - i,
        {
            let e = rest.remove(0);
            assert(e == orig[i as int]);
            proof {
                reveal(Seq::filter);
                assert(orig.subrange(0, i + 1).drop_last() =~= orig.subrange(0, i as int));
                assert(orig.subrange(0, i + 1).last() == e);
            }
            let ghost before = kept@;
            if e.0 != announcement_id {
                kept.push(e);
                proof {
                    assert forall|a: int, b: int| 0 <= a < b < kept@.len() implies #[trigger] kept@[a].0 != #[trigger] kept@[b].0 by {
                        if b == before.len() {
                            assert(orig.subrange(0, i as int).contains(kept@[a]));
                            let j = choose|j: int| 0 <= j < i && orig.subrange(0, i as int)[j] == kept@[a];
                            assert(orig[j] == kept@[a]);
                        } else {
                            assert(kept@[a] == before[a] && kept@[b] == before[b]);
                        }
                    }
                }
            }
            proof {
                assert forall|k: int| 0 <= k < kept@.len() implies orig.subrange(0, i + 1).contains(#[trigger] kept@[k]) by {
                    if k < before.len() {
                        assert(kept@[k] == before[k]);
                        let j = choose|j: int| 0 <= j < i && orig.subrange(0, i as int)[j] == before[k];
                        assert(orig.subrange(0, i + 1)[j] == before[k]);
                    } else {
                        assert(orig.subrange(0, i + 1)[i as int] == e);
                    }
                }
                assert(rest@ =~= orig.subrange(i + 1, n as int));
            }
            i = i + 1;
        }
        proof {
            assert(orig.subrange(0, n as int) =~= orig);
        }
        let ghost mid = self.announcement_lists;
        let new_list = AnnouncementList(kept);
        self.announcement_lists.insert(language, new_list);
        proof {
            assert(!mid.has(language@));
            assert(self.announcement_lists.entries@ == mid.entries@.push((language, new_list)));
            assert forall|k: int| 0 <= k < self.announcement_lists.entries@.len() implies ids_distinct(
                #[trigger] self.announcement_lists.entries@[k].1.0@,
            ) by {
                if k < mid.entries@.len() {
                    let p = old_lists.pos(language@);
                    let k2 = if k < p { k } else { k + 1 };
                    assert(mid.entries@[k] == old_lists.entries@[k2]);
                }
            }
            assert(self.lists().remove(language@) =~= old_lists.as_map().remove(language@));
        }
        Ok(())
    }

    /// Page `page` (from 0) of `page_size` announcements of a language, newest id
    /// first, with the number of announcements and of pages.
    pub fn _get_announcements_by_key_paginated(&self, language: String, page: usize, page_size: usize) -> (r: Result<PaginatedAnnouncements, u64>)
        requires
            self.wf(),
            self.lists().contains_key(language@) ==> page_size > 0 && self.lists()[language@].0@.len() + page_size <= usize::MAX
                && page * page_size <= usize::MAX,
        ensures
            !self.lists().contains_key(language@) ==> r == Err::<PaginatedAnnouncements, u64>(DATA_NOT_EXISTS),
            self.lists().contains_key(language@) ==> (r matches Ok(p) && {
                let l = self.lists()[language@].0@;
                let w = window(ids_newest_first(l), (page * page_size) as nat, page_size as nat);
                &&& p.total_announcements == l.len()
                &&& p.total_pages == page_count(l.len(), page_size as nat)
                &&& p.announcements@.len() == w.len()
                &&& forall|k: int| 0 <= k < w.len() ==> shows(#[trigger] p.announcements@[k], w[k], announcement_with(l, w[k]))
            }),
    {
        let list = match self.announcement_lists.get(&language) {
            Some(l) => l,
            None => return Err(DATA_NOT_EXISTS),
        };
        proof {
            let p = self.announcement_lists.pos(language@);
            self.announcement_lists.lemma_pos(p);
            assert(ids_distinct(self.announcement_lists.entries@[p].1.0@));
        }
        let ghost l = list.0@;
        let ids = newest_first(&list.0);
        proof {
            lemma_newest_first_len(l, ids@);
        }
        let total_announcements = list.0.len();
        let total_pages = (total_announcements + page_size - 1) / page_size;
        let start = page * page_size;
        let ghost w = window(ids@, start as nat, page_size as nat);
        if start >= total_announcements {
            proof {
                assert(w =~= Seq::<u64>::empty());
            }
            return Ok(PaginatedAnnouncements { announcements: Vec::new(), total_announcements, total_pages });
        }
        let hi: usize = if page_size < total_announcements - start { start + page_size } else { total_announcements };
        assert(w == ids@.subrange(start as int, hi as int));
        let mut out: Vec<AnnouncementWithId> = Vec::new();
        let mut i: usize = start;
        while i < hi
            invariant
                start <= i <= hi,
                hi <= ids@.len(),
                ids@.len() == l.len(),
                l == list.0@,
                ids_distinct(l),
                forall|x: u64| ids@.contains(x) <==> has_id(l, x),
                w == ids@.subrange(start as int, hi as int),
                out@.len() == i - start,
                forall|k: int| 0 <= k < i - start ==> shows(#[trigger] out@[k], w[k], announcement_with(l, w[k])),
            decreases hi - i,
        {
            let id = ids[i];
            assert(ids@.contains(id));
            let j = position_of(&list.0, id);
            let a = &list.0[j].1;
            out.push(AnnouncementWithId {
                id,
                title: a.title.clone(),
                content: a.content.clone(),
                timestamp: a.timestamp,
                url: a.url.clone(),
            });
            proof {
                assert(w[i - start] == id);
            }
            i = i + 1;
        }
        Ok(PaginatedAnnouncements { announcements: out, total_announcements, total_pages })
    }
}

} // verus!
