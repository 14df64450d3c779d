//! Laws of the app-info server that span its requests.
use vstd::prelude::*;
use super::announcements::{has_id, page_count};
use crate::sticker_server::api::window;
use super::auth::expected_signature;
use super::state::AppState;
use super::types::Announcement;

verus! {

proof fn lemma_filter_keeps_all(l: Seq<(u64, Announcement)>, id: u64)
    requires
        !has_id(l, id),
    ensures
        l.filter(|e: (u64, Announcement)| e.0 != id) == l,
    decreases l.len(),
{
    reveal(Seq::filter);
    if l.len() > 0 {
        let init = l.drop_last();
        assert(!has_id(init, id)) by {
            if has_id(init, id) {
                let i = choose|i: int| 0 <= i < init.len() && #[trigger] init[i].0 == id;
                assert(l[i].0 == id);
            }
        }
        lemma_filter_keeps_all(init, id);
        assert(l[l.len() - 1].0 != id);
        assert(init.push(l.last()) =~= l);
    }
}

/// Adding an announcement under a new id and then removing that id leaves the
/// language's list as it was.
pub proof fn law_add_then_remove_announcement(l: Seq<(u64, Announcement)>, id: u64, a: Announcement)
    requires
        !has_id(l, id),
    ensures
        l.push((id, a)).filter(|e: (u64, Announcement)| e.0 != id) == l,
{
    reveal(Seq::filter);
    let p = l.push((id, a));
    assert(p.drop_last() =~= l);
    lemma_filter_keeps_all(l, id);
}

/// The server accepts the signature made from its own secret and message.
pub proof fn law_expected_signature_accepted(s: AppState)
    requires
        s.auth_secret is Some,
        s.auth_message is Some,
    ensures
        s.signature_ok(expected_signature(s.auth_secret->0@, s.auth_message->0@)),
{
}

/// Paging shows every announcement: the one at position `k` of the listing is on page
/// `k / page_size`, at place `k % page_size`, and that page is among the pages counted.
pub proof fn law_every_announcement_on_a_page(ids: Seq<u64>, page_size: nat, k: int)
    requires
        page_size > 0,
        0 <= k < ids.len(),
    ensures
        ({
            let page = k / (page_size as int);
            let place = k % (page_size as int);
            let w = window(ids, (page * page_size) as nat, page_size);
            &&& page < page_count(ids.len(), page_size)
            &&& place < w.len()
            &&& w[place] == ids[k]
        }),
{
    let m = page_size as int;
    let page = k / m;
    let r = k % m;
    vstd::arithmetic::div_mod::lemma_fundamental_div_mod(k, m);
    vstd::arithmetic::div_mod::lemma_mod_pos_bound(k, m);
    assert(page >= 0) by {
        vstd::arithmetic::div_mod::lemma_div_pos_is_pos(k, m);
    }
    assert(page * m == m * page) by (nonlinear_arith);
    assert(page * m + r == k);
    let t = ids.len() + m - 1;
    assert(page < t / m) by {
        vstd::arithmetic::div_mod::lemma_fundamental_div_mod(t, m);
        vstd::arithmetic::div_mod::lemma_mod_pos_bound(t, m);
        assert((page + 1) * m <= t) by (nonlinear_arith)
            requires
                page * m + r == k,
                0 <= r < m,
                k < ids.len(),
                t == ids.len() + m - 1,
        ;
        vstd::arithmetic::div_mod::lemma_div_is_ordered((page + 1) * m, t, m);
        vstd::arithmetic::div_mod::lemma_div_by_multiple(page + 1, m);
    }
}

} // verus!
