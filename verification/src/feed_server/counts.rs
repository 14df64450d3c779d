//! The comment and reply counts of the feed server agree with its comment indexes.
use vstd::prelude::*;
use crate::stable::{counter_value, lemma_increasing_unique, seconds_listing, strictly_increasing};
use super::api::{comment_models, post_changed};
use super::state::FeedState;
use super::types::{Comment, CommentModel, Post, PostModel};

verus! {

/// The seconds paired with `first` are listed, increasing, by `seconds_listing`.
pub open spec fn listing_ok(pairs: Set<(u64, u64)>, first: u64) -> bool {
    &&& strictly_increasing(seconds_listing(pairs, first))
    &&& forall|x: u64| seconds_listing(pairs, first).contains(x) <==> pairs.contains((first, x))
}

/// Each post's comment count is the number of comments indexed under it.
pub open spec fn post_counts(posts: Map<u64, Post>, cp: Set<(u64, u64)>) -> bool {
    forall|id: u64| #[trigger] posts.contains_key(id) ==> listing_ok(cp, id)
        && posts[id].comment_count == seconds_listing(cp, id).len()
}

/// Each comment's reply count is the number of replies indexed under it.
pub open spec fn reply_counts(comments: Map<u64, Comment>, rp: Set<(u64, u64)>) -> bool {
    forall|id: u64| #[trigger] comments.contains_key(id) ==> listing_ok(rp, id)
        && comments[id].reply_count == seconds_listing(rp, id).len()
}

/// Index entries name only ids already handed out.
pub open spec fn ids_below(cp: Set<(u64, u64)>, rp: Set<(u64, u64)>, next_post: u64, next_comment: u64) -> bool {
    &&& forall|p: (u64, u64)| #[trigger] cp.contains(p) ==> p.0 < next_post && p.1 < next_comment
    &&& forall|p: (u64, u64)| #[trigger] rp.contains(p) ==> p.0 < next_comment && p.1 < next_comment
}

/// Every comment is indexed under its post, and nothing else is; every reply is
/// indexed under its parent, a top-level comment of the same post; every reply index
/// entry of a stored comment names a stored reply to it.
pub open spec fn threads_linked(comments: Map<u64, Comment>, cp: Set<(u64, u64)>, rp: Set<(u64, u64)>) -> bool {
    &&& forall|id: u64| #[trigger] comments.contains_key(id) ==> cp.contains((comments[id].post_id, id))
    &&& forall|q: (u64, u64)| #[trigger] cp.contains(q) ==> comments.contains_key(q.1) && comments[q.1].post_id == q.0
    &&& forall|id: u64| #[trigger] comments.contains_key(id) && comments[id].reply_to_comment_id is Some ==> {
        let p = comments[id].reply_to_comment_id->0;
        &&& rp.contains((p, id))
        &&& comments.contains_key(p)
        &&& comments[p].post_id == comments[id].post_id
        &&& comments[p].reply_to_comment_id is None
    }
    &&& forall|q: (u64, u64)| #[trigger] rp.contains(q) && comments.contains_key(q.0) ==> comments.contains_key(q.1)
        && comments[q.1].reply_to_comment_id == Some(q.0)
}

/// Every stored comment id, and every comment id in the indexes, lies below the next
/// comment id.
pub open spec fn comment_ids_fresh(comments: Map<u64, Comment>, cp: Set<(u64, u64)>, rp: Set<(u64, u64)>, next_comment: u64) -> bool {
    &&& forall|k: u64| #[trigger] comments.contains_key(k) ==> k < next_comment
    &&& forall|p: (u64, u64)| #[trigger] cp.contains(p) ==> p.1 < next_comment
    &&& forall|p: (u64, u64)| #[trigger] rp.contains(p) ==> p.0 < next_comment && p.1 < next_comment
}

impl FeedState {
    /// Each post's comment count is the number of comments indexed under it, each
    /// comment's reply count the number of replies indexed under it, and the next
    /// comment id is above every comment id stored or indexed.
    pub open spec fn counts_fresh(&self) -> bool {
        &&& post_counts(self.posts.as_map(), self.comment_pairs())
        &&& reply_counts(self.comments.as_map(), self.reply_pairs())
        &&& comment_ids_fresh(self.comments.as_map(), self.comment_pairs(), self.reply_pairs(), counter_value(self.next_comment))
    }

    /// Each post's comment count is the number of comments indexed under it, and each
    /// comment's reply count the number of replies indexed under it; index entries
    /// name ids already handed out; every comment is indexed under its post, and every
    /// reply under its parent, a top-level comment of the same post.
    pub open spec fn counts_match(&self) -> bool {
        &&& post_counts(self.posts.as_map(), self.comment_pairs())
        &&& reply_counts(self.comments.as_map(), self.reply_pairs())
        &&& ids_below(self.comment_pairs(), self.reply_pairs(), counter_value(self.next_post), counter_value(self.next_comment))
        &&& threads_linked(self.comments.as_map(), self.comment_pairs(), self.reply_pairs())
    }
}

/// An increasing sequence of exactly the seconds paired with `first` is their listing.
pub proof fn lemma_listing_is(pairs: Set<(u64, u64)>, first: u64, s: Seq<u64>)
    requires
        strictly_increasing(s),
        forall|x: u64| s.contains(x) <==> pairs.contains((first, x)),
    ensures
        seconds_listing(pairs, first) == s,
        listing_ok(pairs, first),
{
    let l = seconds_listing(pairs, first);
    assert(strictly_increasing(l) && forall|x: u64| l.contains(x) <==> pairs.contains((first, x)));
    lemma_increasing_unique(l, s);
}

/// The listing of `first` stays where the seconds paired with it stay.
pub proof fn lemma_listing_same(pairs1: Set<(u64, u64)>, pairs2: Set<(u64, u64)>, first: u64)
    requires
        listing_ok(pairs1, first),
        forall|x: u64| #![trigger pairs2.contains((first, x))] #![trigger pairs1.contains((first, x))] pairs1.contains((first, x)) <==> pairs2.contains((first, x)),
    ensures
        listing_ok(pairs2, first),
        seconds_listing(pairs2, first) == seconds_listing(pairs1, first),
{
    lemma_listing_is(pairs2, first, seconds_listing(pairs1, first));
}

/// Pairing `first` with a second above all it is paired with lengthens its listing by one.
pub proof fn lemma_listing_push(pairs1: Set<(u64, u64)>, pairs2: Set<(u64, u64)>, first: u64, x: u64)
    requires
        listing_ok(pairs1, first),
        forall|y: u64| pairs1.contains((first, y)) ==> y < x,
        forall|y: u64| #![trigger pairs2.contains((first, y))] #![trigger pairs1.contains((first, y))] pairs2.contains((first, y)) <==> pairs1.contains((first, y)) || y == x,
    ensures
        listing_ok(pairs2, first),
        seconds_listing(pairs2, first).len() == seconds_listing(pairs1, first).len() + 1,
{
    let l = seconds_listing(pairs1, first);
    let s = l.push(x);
    assert forall|i: int, j: int| 0 <= i < j < s.len() implies s[i] < s[j] by {
        if j == l.len() {
            assert(l.contains(l[i]));
        } else {
            assert(s[i] == l[i] && s[j] == l[j]);
        }
    }
    assert forall|y: u64| s.contains(y) <==> pairs2.contains((first, y)) by {
        assert(l.contains(y) <==> pairs1.contains((first, y)));
        assert(pairs2.contains((first, y)) <==> pairs1.contains((first, y)) || y == x);
        if s.contains(y) {
            let k = choose|k: int| 0 <= k < s.len() && s[k] == y;
            if k < l.len() {
                assert(l[k] == y);
                assert(l.contains(y));
            }
        }
        if pairs1.contains((first, y)) {
            assert(l.contains(y));
            let k = choose|k: int| 0 <= k < l.len() && l[k] == y;
            assert(s[k] == y);
        }
        if y == x {
            assert(s[l.len() as int] == y);
        }
    }
    lemma_listing_is(pairs2, first, s);
}

proof fn lemma_filter_increasing(s: Seq<u64>, d: Seq<u64>)
    requires
        strictly_increasing(s),
    ensures
        strictly_increasing(s.filter(|z: u64| !d.contains(z))),
        forall|y: u64| s.filter(|z: u64| !d.contains(z)).contains(y) <==> s.contains(y) && !d.contains(y),
    decreases s.len(),
{
    reveal(Seq::filter);
    let p = |z: u64| !d.contains(z);
    if s.len() > 0 {
        let init = s.drop_last();
        lemma_filter_increasing(init, d);
        let f = init.filter(p);
        assert forall|y: u64| f.contains(y) implies y < s.last() by {
            assert(init.contains(y));
            let k = choose|k: int| 0 <= k < init.len() && init[k] == y;
            assert(s[k] == y);
        }
        assert forall|y: u64| s.contains(y) <==> init.contains(y) || y == s.last() by {
            if s.contains(y) {
                let k = choose|k: int| 0 <= k < s.len() && s[k] == y;
                if k < init.len() {
                    assert(init[k] == y);
                }
            }
            if init.contains(y) {
                let k = choose|k: int| 0 <= k < init.len() && init[k] == y;
                assert(s[k] == y);
            }
        }
        if p(s.last()) {
            let g = f.push(s.last());
            assert(s.filter(p) == g);
            assert forall|i: int, j: int| 0 <= i < j < g.len() implies g[i] < g[j] by {
                if j == f.len() {
                    assert(f.contains(f[i]));
                } else {
                    assert(g[i] == f[i] && g[j] == f[j]);
                }
            }
            assert forall|y: u64| g.contains(y) <==> f.contains(y) || y == s.last() by {
                if g.contains(y) {
                    let k = choose|k: int| 0 <= k < g.len() && g[k] == y;
                    if k < f.len() {
                        assert(f[k] == y);
                    }
                }
                if f.contains(y) {
                    let k = choose|k: int| 0 <= k < f.len() && f[k] == y;
                    assert(g[k] == y);
                }
                if y == s.last() {
                    assert(g[f.len() as int] == y);
                }
            }
        } else {
            assert(s.filter(p) == f);
        }
    } else {
        assert(s.filter(p) =~= s);
    }
}

/// Dropping distinct seconds that `first` is paired with shortens its listing by as
/// many.
pub proof fn lemma_listing_minus(pairs1: Set<(u64, u64)>, pairs2: Set<(u64, u64)>, first: u64, d: Seq<u64>)
    requires
        listing_ok(pairs1, first),
        d.no_duplicates(),
        forall|i: int| 0 <= i < d.len() ==> pairs1.contains((first, #[trigger] d[i])),
        forall|y: u64| #![trigger pairs2.contains((first, y))] #![trigger pairs1.contains((first, y))] pairs2.contains((first, y)) <==> pairs1.contains((first, y)) && !d.contains(y),
    ensures
        listing_ok(pairs2, first),
        seconds_listing(pairs2, first).len() + d.len() == seconds_listing(pairs1, first).len(),
{
    broadcast use vstd::set::group_set_axioms;
    broadcast use vstd::seq_lib::seq_to_set_is_finite;

    let l = seconds_listing(pairs1, first);
    let f = l.filter(|z: u64| !d.contains(z));
    lemma_filter_increasing(l, d);
    assert forall|y: u64| f.contains(y) <==> pairs2.contains((first, y)) by {
        assert(f.contains(y) <==> l.contains(y) && !d.contains(y));
        assert(l.contains(y) <==> pairs1.contains((first, y)));
        assert(pairs2.contains((first, y)) <==> pairs1.contains((first, y)) && !d.contains(y));
    }
    lemma_listing_is(pairs2, first, f);
    assert(l.no_duplicates()) by {
        assert forall|i: int, j: int| 0 <= i < l.len() && 0 <= j < l.len() && i != j implies l[i] != l[j] by {
            if i < j {
                assert(l[i] < l[j]);
            } else {
                assert(l[j] < l[i]);
            }
        }
    }
    assert(f.no_duplicates()) by {
        assert forall|i: int, j: int| 0 <= i < f.len() && 0 <= j < f.len() && i != j implies f[i] != f[j] by {
            if i < j {
                assert(f[i] < f[j]);
            } else {
                assert(f[j] < f[i]);
            }
        }
    }
    l.unique_seq_to_set();
    f.unique_seq_to_set();
    d.unique_seq_to_set();
    let a = l.to_set();
    let b = d.to_set();
    assert(f.to_set() =~= a.difference(b));
    assert(a.intersect(b) =~= b) by {
        assert forall|y: u64| b.contains(y) implies a.contains(y) by {
            let k = choose|k: int| 0 <= k < d.len() && d[k] == y;
            assert(pairs1.contains((first, d[k])));
        }
    }
    vstd::set_lib::lemma_set_difference_len(a, b);
}

proof fn lemma_post_counts_bump(
    p0: Map<u64, Post>,
    p1: Map<u64, Post>,
    cp0: Set<(u64, u64)>,
    cp1: Set<(u64, u64)>,
    post_id: u64,
    id: u64,
)
    requires
        post_counts(p0, cp0),
        p0.contains_key(post_id),
        p1.contains_key(post_id),
        p1.remove(post_id) == p0.remove(post_id),
        p1[post_id].comment_count == p0[post_id].comment_count + 1,
        forall|y: u64| cp0.contains((post_id, y)) ==> y < id,
        cp1 == cp0.insert((post_id, id)),
    ensures
        post_counts(p1, cp1),
{
    assert forall|q: u64| #[trigger] p1.contains_key(q) implies listing_ok(cp1, q)
        && p1[q].comment_count == seconds_listing(cp1, q).len() by {
        if q == post_id {
            lemma_listing_push(cp0, cp1, q, id);
        } else {
            assert(p1.remove(post_id).contains_key(q));
            assert(p0.contains_key(q));
            assert(p1[q] == p1.remove(post_id)[q]);
            lemma_listing_same(cp0, cp1, q);
        }
    }
}

proof fn lemma_comments_after_add(c0: Map<u64, Comment>, c1: Map<u64, Comment>, id: u64, reply_to: Option<u64>, m: CommentModel)
    requires
        !c0.contains_key(id),
        reply_to matches Some(pid) ==> c0.contains_key(pid),
        ({
            let old_models = comment_models(c0);
            let added = old_models.insert(id, m);
            comment_models(c1) == match reply_to {
                Some(pid) => added.insert(pid, CommentModel { reply_count: (old_models[pid].reply_count + 1) as u64, ..old_models[pid] }),
                None => added,
            }
        }),
    ensures
        forall|k: u64| #[trigger] c1.contains_key(k) <==> c0.contains_key(k) || k == id,
        c1[id]@ == m,
        forall|k: u64| c0.contains_key(k) && reply_to != Some(k) ==> #[trigger] c1[k]@ == c0[k]@,
        reply_to matches Some(pid) ==> (c1[pid]@ == (CommentModel { reply_count: (c0[pid].reply_count + 1) as u64, ..c0[pid]@ })),
{
    let cm0 = comment_models(c0);
    let cm1 = comment_models(c1);
    assert forall|k: u64| #[trigger] c1.contains_key(k) <==> c0.contains_key(k) || k == id by {
        assert(cm1.contains_key(k) == c1.contains_key(k));
        assert(cm0.contains_key(k) == c0.contains_key(k));
    }
    assert forall|k: u64| c0.contains_key(k) && reply_to != Some(k) implies #[trigger] c1[k]@ == c0[k]@ by {
        assert(cm1[k] == c1[k]@);
        assert(cm0[k] == c0[k]@);
    }
    assert(cm1[id] == c1[id]@);
    if let Some(pid) = reply_to {
        assert(cm1[pid] == c1[pid]@);
        assert(cm0[pid] == c0[pid]@);
    }
}

proof fn lemma_reply_counts_add(
    c0: Map<u64, Comment>,
    c1: Map<u64, Comment>,
    rp0: Set<(u64, u64)>,
    rp1: Set<(u64, u64)>,
    id: u64,
    reply_to: Option<u64>,
)
    requires
        reply_counts(c0, rp0),
        forall|q: (u64, u64)| #[trigger] rp0.contains(q) ==> q.0 < id && q.1 < id,
        forall|k: u64| c0.contains_key(k) ==> k < id,
        forall|k: u64| #[trigger] c1.contains_key(k) <==> c0.contains_key(k) || k == id,
        c1[id].reply_count == 0,
        forall|k: u64| c0.contains_key(k) && reply_to != Some(k) ==> #[trigger] c1[k].reply_count == c0[k].reply_count,
        reply_to matches Some(pid) ==> c0.contains_key(pid) && c1[pid].reply_count == c0[pid].reply_count + 1,
        rp1 == (match reply_to {
            Some(pid) => rp0.insert((pid, id)),
            None => rp0,
        }),
    ensures
        reply_counts(c1, rp1),
{
    assert forall|k: u64| #[trigger] c1.contains_key(k) implies listing_ok(rp1, k)
        && c1[k].reply_count == seconds_listing(rp1, k).len() by {
        if k == id {
            assert forall|x: u64| !rp1.contains((id, x)) by {
                if rp0.contains((id, x)) {
                    assert(id < id);
                }
                if let Some(pid) = reply_to {
                    assert(pid < id);
                }
            }
            lemma_listing_is(rp1, id, Seq::empty());
        } else if reply_to == Some(k) {
            assert forall|y: u64| rp0.contains((k, y)) implies y < id by {}
            lemma_listing_push(rp0, rp1, k, id);
        } else {
            assert(c0.contains_key(k));
            assert(c1[k].reply_count == c0[k].reply_count);
            lemma_listing_same(rp0, rp1, k);
        }
    }
}

proof fn lemma_threads_add(
    c0: Map<u64, Comment>,
    c1: Map<u64, Comment>,
    cp0: Set<(u64, u64)>,
    cp1: Set<(u64, u64)>,
    rp0: Set<(u64, u64)>,
    rp1: Set<(u64, u64)>,
    post_id: u64,
    id: u64,
    reply_to: Option<u64>,
)
    requires
        threads_linked(c0, cp0, rp0),
        forall|q: (u64, u64)| #[trigger] rp0.contains(q) ==> q.0 < id && q.1 < id,
        forall|k: u64| c0.contains_key(k) ==> k < id,
        forall|k: u64| #[trigger] c1.contains_key(k) <==> c0.contains_key(k) || k == id,
        c1[id].post_id == post_id,
        c1[id].reply_to_comment_id == reply_to,
        forall|k: u64| c0.contains_key(k) ==> #[trigger] c1[k].post_id == c0[k].post_id
            && c1[k].reply_to_comment_id == c0[k].reply_to_comment_id,
        reply_to matches Some(pid) ==> c0.contains_key(pid) && c0[pid].reply_to_comment_id is None
            && c0[pid].post_id == post_id,
        cp1 == cp0.insert((post_id, id)),
        rp1 == (match reply_to {
            Some(pid) => rp0.insert((pid, id)),
            None => rp0,
        }),
    ensures
        threads_linked(c1, cp1, rp1),
{
    assert forall|k: u64| #[trigger] c1.contains_key(k) implies cp1.contains((c1[k].post_id, k)) by {
        if k != id {
            assert(c1[k].post_id == c0[k].post_id);
        }
    }
    assert forall|k: u64| #[trigger] c1.contains_key(k) && c1[k].reply_to_comment_id is Some implies ({
        let p = c1[k].reply_to_comment_id->0;
        &&& rp1.contains((p, k))
        &&& c1.contains_key(p)
        &&& c1[p].post_id == c1[k].post_id
        &&& c1[p].reply_to_comment_id is None
    }) by {
        if k != id {
            assert(c1[k].reply_to_comment_id == c0[k].reply_to_comment_id);
            let p = c0[k].reply_to_comment_id->0;
            assert(c0.contains_key(p));
            assert(c1[p].post_id == c0[p].post_id);
        } else {
            let pid = reply_to->0;
            assert(c1[pid].post_id == c0[pid].post_id);
        }
    }
    assert forall|q: (u64, u64)| #[trigger] cp1.contains(q) implies c1.contains_key(q.1) && c1[q.1].post_id == q.0 by {
        if cp0.contains(q) {
            assert(c0.contains_key(q.1));
            assert(c1[q.1].post_id == c0[q.1].post_id);
        }
    }
    assert forall|q: (u64, u64)| #[trigger] rp1.contains(q) && c1.contains_key(q.0) implies c1.contains_key(q.1)
        && c1[q.1].reply_to_comment_id == Some(q.0) by {
        if rp0.contains(q) {
            assert(q.0 != id);
            assert(c0.contains_key(q.0));
            assert(c0.contains_key(q.1) && c0[q.1].reply_to_comment_id == Some(q.0));
            assert(c1[q.1].post_id == c0[q.1].post_id);
            assert(c1[q.1].reply_to_comment_id == c0[q.1].reply_to_comment_id);
        }
    }
}

/// `add_comment` keeps the counts in step with the indexes.
pub proof fn lemma_counts_after_add(s0: FeedState, s1: FeedState, post_id: u64, reply_to: Option<u64>, m: CommentModel)
    requires
        s0.wf(),
        s0.counts_match(),
        s0.posts.as_map().contains_key(post_id),
        counter_value(s1.next_comment) == counter_value(s0.next_comment) + 1,
        counter_value(s1.next_post) == counter_value(s0.next_post),
        post_changed(s0.posts.as_map(), s1.posts.as_map(), post_id, (PostModel {
            comment_count: (s0.posts.as_map()[post_id]@.comment_count + 1) as u64,
            ..s0.posts.as_map()[post_id]@
        })),
        s0.posts.as_map()[post_id].comment_count < u64::MAX,
        m.post_id == post_id,
        m.reply_to_comment_id == reply_to,
        m.reply_count == 0,
        !s0.comments.as_map().contains_key(counter_value(s0.next_comment)),
        ({
            let id = counter_value(s0.next_comment);
            let old_models = comment_models(s0.comments.as_map());
            let added = old_models.insert(id, m);
            comment_models(s1.comments.as_map()) == match reply_to {
                Some(pid) => added.insert(pid, CommentModel { reply_count: (old_models[pid].reply_count + 1) as u64, ..old_models[pid] }),
                None => added,
            }
        }),
        s1.comment_pairs() == s0.comment_pairs().insert((post_id, counter_value(s0.next_comment))),
        s1.reply_pairs() == (match reply_to {
            Some(pid) => s0.reply_pairs().insert((pid, counter_value(s0.next_comment))),
            None => s0.reply_pairs(),
        }),
        reply_to matches Some(pid) ==> s0.comments.as_map().contains_key(pid)
            && s0.comments.as_map()[pid].reply_to_comment_id is None
            && s0.comments.as_map()[pid].post_id == post_id
            && s0.comments.as_map()[pid].reply_count < u64::MAX,
    ensures
        s1.counts_match(),
{
    let id = counter_value(s0.next_comment);
    let c0 = s0.comments.as_map();
    let c1 = s1.comments.as_map();
    let p0 = s0.posts.as_map();
    let p1 = s1.posts.as_map();
    assert forall|k: u64| c0.contains_key(k) implies k < id by {
        let i = s0.comments.pos(k);
        s0.comments.lemma_pos(i);
    }
    assert(post_id < counter_value(s0.next_post)) by {
        let i = s0.posts.pos(post_id);
        s0.posts.lemma_pos(i);
    }
    lemma_comments_after_add(c0, c1, id, reply_to, m);
    assert(p1[post_id].comment_count == p0[post_id].comment_count + 1);
    lemma_post_counts_bump(p0, p1, s0.comment_pairs(), s1.comment_pairs(), post_id, id);
    assert forall|k: u64| c0.contains_key(k) && reply_to != Some(k) implies #[trigger] c1[k].reply_count == c0[k].reply_count by {
        assert(c1[k]@ == c0[k]@);
    }
    assert forall|k: u64| c0.contains_key(k) implies #[trigger] c1[k].post_id == c0[k].post_id
        && c1[k].reply_to_comment_id == c0[k].reply_to_comment_id by {
        if reply_to != Some(k) {
            assert(c1[k]@ == c0[k]@);
        }
    }
    lemma_reply_counts_add(c0, c1, s0.reply_pairs(), s1.reply_pairs(), id, reply_to);
    lemma_threads_add(c0, c1, s0.comment_pairs(), s1.comment_pairs(), s0.reply_pairs(), s1.reply_pairs(), post_id, id, reply_to);
}

/// The post listing of `post_id` loses the deleted comment `cid` and, when `cid` is a
/// top-level comment, its replies.
proof fn lemma_post_counts_drop(
    p0: Map<u64, Post>,
    p1: Map<u64, Post>,
    cp0: Set<(u64, u64)>,
    cp1: Set<(u64, u64)>,
    post_id: u64,
    d: Seq<u64>,
)
    requires
        post_counts(p0, cp0),
        d.no_duplicates(),
        d.len() <= u64::MAX,
        forall|i: int| 0 <= i < d.len() ==> cp0.contains((post_id, #[trigger] d[i])),
        forall|q: (u64, u64)| #[trigger] cp1.contains(q) <==> cp0.contains(q) && !(q.0 == post_id && d.contains(q.1)),
        p0.contains_key(post_id) ==> post_changed(p0, p1, post_id, (PostModel {
            comment_count: p0[post_id]@.comment_count.saturating_sub(d.len() as u64),
            ..p0[post_id]@
        })),
        !p0.contains_key(post_id) ==> p1 == p0,
    ensures
        post_counts(p1, cp1),
{
    assert forall|q: u64| #[trigger] p1.contains_key(q) implies listing_ok(cp1, q)
        && p1[q].comment_count == seconds_listing(cp1, q).len() by {
        if q == post_id {
            assert(p0.contains_key(q));
            assert forall|y: u64| #![trigger cp1.contains((q, y))] #![trigger cp0.contains((q, y))]
                cp1.contains((q, y)) <==> cp0.contains((q, y)) && !d.contains(y) by {
                assert(cp1.contains((q, y)) <==> cp0.contains((q, y)) && !((q, y).0 == post_id && d.contains((q, y).1)));
            }
            lemma_listing_minus(cp0, cp1, q, d);
        } else {
            if p0.contains_key(post_id) {
                assert(p1.remove(post_id).contains_key(q));
                assert(p1[q] == p1.remove(post_id)[q]);
            }
            assert(p0.contains_key(q));
            assert forall|y: u64| #![trigger cp1.contains((q, y))] #![trigger cp0.contains((q, y))]
                cp0.contains((q, y)) <==> cp1.contains((q, y)) by {
                assert(cp1.contains((q, y)) <==> cp0.contains((q, y)) && !((q, y).0 == post_id && d.contains((q, y).1)));
            }
            lemma_listing_same(cp0, cp1, q);
        }
    }
}

/// Deleting the top-level comment `cid` with its replies keeps the counts in step with
/// the indexes.
pub proof fn lemma_counts_after_thread_delete(s0: FeedState, s1: FeedState, cid: u64)
    requires
        s0.counts_match(),
        s0.comments.as_map().contains_key(cid),
        s0.comments.as_map()[cid].reply_to_comment_id is None,
        s0.reply_ids(cid).len() < u64::MAX,
        ({
            let c = s0.comments.as_map()[cid];
            let total = (1 + s0.reply_ids(cid).len()) as u64;
            &&& s1.comments.as_map() == s0.comments.as_map().remove_keys(
                Set::new(|x: u64| s0.reply_pairs().contains((cid, x))),
            ).remove(cid)
            &&& s1.comment_pairs() == s0.comment_pairs().difference(
                Set::new(|p: (u64, u64)| p.0 == c.post_id && s0.reply_pairs().contains((cid, p.1))),
            ).remove((c.post_id, cid))
            &&& s1.reply_pairs() == s0.reply_pairs().filter(|p: (u64, u64)| p.0 != cid)
            &&& s0.posts.as_map().contains_key(c.post_id) ==> post_changed(s0.posts.as_map(), s1.posts.as_map(), c.post_id, (PostModel {
                comment_count: s0.posts.as_map()[c.post_id]@.comment_count.saturating_sub(total),
                ..s0.posts.as_map()[c.post_id]@
            }))
            &&& !s0.posts.as_map().contains_key(c.post_id) ==> s1.posts == s0.posts
        }),
        s1.next_post == s0.next_post,
        s1.next_comment == s0.next_comment,
    ensures
        s1.counts_match(),
{
    let c0 = s0.comments.as_map();
    let c1 = s1.comments.as_map();
    let cp0 = s0.comment_pairs();
    let cp1 = s1.comment_pairs();
    let rp0 = s0.reply_pairs();
    let rp1 = s1.reply_pairs();
    let post_id = c0[cid].post_id;
    let r = s0.reply_ids(cid);
    let d = r.push(cid);
    assert(listing_ok(rp0, cid));
    assert(!rp0.contains((cid, cid))) by {
        if rp0.contains((cid, cid)) {
            assert(c0[cid].reply_to_comment_id == Some(cid));
        }
    }
    assert forall|y: u64| d.contains(y) <==> r.contains(y) || y == cid by {
        if d.contains(y) {
            let k = choose|k: int| 0 <= k < d.len() && d[k] == y;
            if k < r.len() {
                assert(r[k] == y);
            }
        }
        if r.contains(y) {
            let k = choose|k: int| 0 <= k < r.len() && r[k] == y;
            assert(d[k] == y);
        }
        if y == cid {
            assert(d[r.len() as int] == y);
        }
    }
    assert(d.no_duplicates()) by {
        assert forall|i: int, j: int| 0 <= i < d.len() && 0 <= j < d.len() && i != j implies d[i] != d[j] by {
            if i < r.len() && j < r.len() {
                if i < j {
                    assert(r[i] < r[j]);
                } else {
                    assert(r[j] < r[i]);
                }
            } else if i < r.len() {
                assert(r.contains(r[i]));
            } else {
                assert(r.contains(r[j]));
            }
        }
    }
    assert forall|i: int| 0 <= i < d.len() implies cp0.contains((post_id, #[trigger] d[i])) by {
        if i < r.len() {
            let x = r[i];
            assert(r.contains(x));
            assert(rp0.contains((cid, x)));
            assert(c0.contains_key(x) && c0[x].reply_to_comment_id == Some(cid));
            assert(c0[x].post_id == post_id);
            assert(d[i] == x);
        } else {
            assert(d[i] == cid);
        }
    }
    assert forall|q: (u64, u64)| #[trigger] cp1.contains(q) <==> cp0.contains(q) && !(q.0 == post_id && d.contains(q.1)) by {
        assert(r.contains(q.1) <==> rp0.contains((cid, q.1)));
    }
    lemma_post_counts_drop(s0.posts.as_map(), s1.posts.as_map(), cp0, cp1, post_id, d);
    assert forall|k: u64| #[trigger] c1.contains_key(k) implies c0.contains_key(k) && k != cid
        && !rp0.contains((cid, k)) && c1[k] == c0[k] by {}
    assert forall|k: u64| #[trigger] c1.contains_key(k) implies listing_ok(rp1, k)
        && c1[k].reply_count == seconds_listing(rp1, k).len() by {
        assert(c0.contains_key(k) && k != cid);
        assert forall|y: u64| #![trigger rp1.contains((k, y))] #![trigger rp0.contains((k, y))]
            rp0.contains((k, y)) <==> rp1.contains((k, y)) by {}
        lemma_listing_same(rp0, rp1, k);
    }
    assert forall|k: u64| #[trigger] c1.contains_key(k) implies cp1.contains((c1[k].post_id, k)) by {
        assert(c0.contains_key(k) && k != cid && !rp0.contains((cid, k)));
        assert(cp0.contains((c0[k].post_id, k)));
        assert(!d.contains(k));
    }
    assert forall|k: u64| #[trigger] c1.contains_key(k) && c1[k].reply_to_comment_id is Some implies ({
        let p = c1[k].reply_to_comment_id->0;
        &&& rp1.contains((p, k))
        &&& c1.contains_key(p)
        &&& c1[p].post_id == c1[k].post_id
        &&& c1[p].reply_to_comment_id is None
    }) by {
        let p = c0[k].reply_to_comment_id->0;
        assert(c0.contains_key(k) && k != cid && !rp0.contains((cid, k)));
        assert(rp0.contains((p, k)) && c0.contains_key(p));
        assert(p != cid);
        if rp0.contains((cid, p)) {
            assert(c0[p].reply_to_comment_id == Some(cid));
        }
    }
    assert forall|q: (u64, u64)| #[trigger] cp1.contains(q) implies c1.contains_key(q.1) && c1[q.1].post_id == q.0 by {
        assert(cp0.contains(q) && !(q.0 == post_id && d.contains(q.1)));
        assert(c0.contains_key(q.1) && c0[q.1].post_id == q.0);
        if q.1 == cid {
            assert(d.contains(cid));
        }
        if rp0.contains((cid, q.1)) {
            assert(c0[q.1].reply_to_comment_id == Some(cid));
            assert(r.contains(q.1));
        }
    }
    assert forall|q: (u64, u64)| #[trigger] rp1.contains(q) && c1.contains_key(q.0) implies c1.contains_key(q.1)
        && c1[q.1].reply_to_comment_id == Some(q.0) by {
        assert(rp0.contains(q) && q.0 != cid);
        assert(c0.contains_key(q.0) && c0.contains_key(q.1));
        if q.1 == cid {
            assert(c0[cid].reply_to_comment_id == Some(q.0));
        }
        if rp0.contains((cid, q.1)) {
            assert(c0[q.1].reply_to_comment_id == Some(cid));
        }
    }
}

/// Deleting the reply `cid` to `pid` keeps the counts in step with the indexes.
pub proof fn lemma_counts_after_reply_delete(s0: FeedState, s1: FeedState, cid: u64, pid: u64)
    requires
        s0.counts_match(),
        s0.comments.as_map().contains_key(cid),
        s0.comments.as_map()[cid].reply_to_comment_id == Some(pid),
        ({
            let c = s0.comments.as_map()[cid];
            let old_models = comment_models(s0.comments.as_map());
            &&& comment_models(s1.comments.as_map()) == (if old_models.contains_key(pid) {
                old_models.insert(pid, CommentModel { reply_count: old_models[pid].reply_count.saturating_sub(1), ..old_models[pid] })
            } else {
                old_models
            }).remove(cid)
            &&& s1.comment_pairs() == s0.comment_pairs().remove((c.post_id, cid))
            &&& s1.reply_pairs() == s0.reply_pairs().remove((pid, cid))
            &&& s0.posts.as_map().contains_key(c.post_id) ==> post_changed(s0.posts.as_map(), s1.posts.as_map(), c.post_id, (PostModel {
                comment_count: s0.posts.as_map()[c.post_id]@.comment_count.saturating_sub(1),
                ..s0.posts.as_map()[c.post_id]@
            }))
            &&& !s0.posts.as_map().contains_key(c.post_id) ==> s1.posts == s0.posts
        }),
        s1.next_post == s0.next_post,
        s1.next_comment == s0.next_comment,
    ensures
        s1.counts_match(),
{
    let c0 = s0.comments.as_map();
    let c1 = s1.comments.as_map();
    let cp0 = s0.comment_pairs();
    let cp1 = s1.comment_pairs();
    let rp0 = s0.reply_pairs();
    let rp1 = s1.reply_pairs();
    let post_id = c0[cid].post_id;
    let cm0 = comment_models(c0);
    let cm1 = comment_models(c1);
    assert(rp0.contains((pid, cid)) && c0.contains_key(pid) && c0[pid].post_id == post_id
        && c0[pid].reply_to_comment_id is None);
    assert(pid != cid);
    assert(cm0.contains_key(pid) && cm0[pid] == c0[pid]@);
    assert forall|k: u64| #[trigger] c1.contains_key(k) <==> c0.contains_key(k) && k != cid by {
        assert(cm1.contains_key(k) == c1.contains_key(k));
        assert(cm0.contains_key(k) == c0.contains_key(k));
    }
    assert forall|k: u64| c1.contains_key(k) && k != pid implies #[trigger] c1[k]@ == c0[k]@ by {
        assert(cm1[k] == c1[k]@);
        assert(cm0[k] == c0[k]@);
    }
    assert(cm1[pid] == c1[pid]@);
    assert(c1[pid]@ == (CommentModel { reply_count: c0[pid].reply_count.saturating_sub(1), ..c0[pid]@ }));
    let d = seq![cid];
    assert(d.contains(cid) && d[0] == cid);
    assert forall|y: u64| d.contains(y) <==> y == cid by {
        if d.contains(y) {
            let k = choose|k: int| 0 <= k < d.len() && d[k] == y;
        }
    }
    assert forall|q: (u64, u64)| #[trigger] cp1.contains(q) <==> cp0.contains(q) && !(q.0 == post_id && d.contains(q.1)) by {}
    assert(cp0.contains((post_id, d[0])));
    lemma_post_counts_drop(s0.posts.as_map(), s1.posts.as_map(), cp0, cp1, post_id, d);
    assert forall|k: u64| #[trigger] c1.contains_key(k) implies listing_ok(rp1, k)
        && c1[k].reply_count == seconds_listing(rp1, k).len() by {
        assert(c0.contains_key(k));
        if k == pid {
            assert forall|y: u64| #![trigger rp1.contains((k, y))] #![trigger rp0.contains((k, y))]
                rp1.contains((k, y)) <==> rp0.contains((k, y)) && !d.contains(y) by {}
            assert(rp0.contains((k, d[0])));
            lemma_listing_minus(rp0, rp1, k, d);
        } else {
            assert(c1[k]@ == c0[k]@);
            assert forall|y: u64| #![trigger rp1.contains((k, y))] #![trigger rp0.contains((k, y))]
                rp0.contains((k, y)) <==> rp1.contains((k, y)) by {}
            lemma_listing_same(rp0, rp1, k);
        }
    }
    assert forall|k: u64| #[trigger] c1.contains_key(k) implies cp1.contains((c1[k].post_id, k)) by {
        assert(c0.contains_key(k));
        if k != pid {
            assert(c1[k]@ == c0[k]@);
        }
        assert(cp0.contains((c0[k].post_id, k)));
    }
    assert forall|k: u64| #[trigger] c1.contains_key(k) && c1[k].reply_to_comment_id is Some implies ({
        let p = c1[k].reply_to_comment_id->0;
        &&& rp1.contains((p, k))
        &&& c1.contains_key(p)
        &&& c1[p].post_id == c1[k].post_id
        &&& c1[p].reply_to_comment_id is None
    }) by {
        assert(c0.contains_key(k));
        assert(k != pid);
        assert(c1[k]@ == c0[k]@);
        let p = c0[k].reply_to_comment_id->0;
        assert(rp0.contains((p, k)) && c0.contains_key(p));
        assert(p != cid);
        if p != pid {
            assert(c1.contains_key(p));
            assert(c1[p]@ == c0[p]@);
        }
    }
    assert forall|q: (u64, u64)| #[trigger] cp1.contains(q) implies c1.contains_key(q.1) && c1[q.1].post_id == q.0 by {
        assert(cp0.contains(q) && q != (post_id, cid));
        assert(c0.contains_key(q.1) && c0[q.1].post_id == q.0);
        assert(q.1 != cid);
        assert(c1.contains_key(q.1));
        if q.1 != pid {
            assert(c1[q.1]@ == c0[q.1]@);
        }
    }
    assert forall|q: (u64, u64)| #[trigger] rp1.contains(q) && c1.contains_key(q.0) implies c1.contains_key(q.1)
        && c1[q.1].reply_to_comment_id == Some(q.0) by {
        assert(rp0.contains(q) && c0.contains_key(q.0));
        assert(c0.contains_key(q.1) && c0[q.1].reply_to_comment_id == Some(q.0));
        assert(q.1 != cid);
        assert(q.1 != pid);
        assert(c1.contains_key(q.1));
        assert(c1[q.1]@ == c0[q.1]@);
    }
}

/// Where the counts are in step (as `counts_match` and `counts_fresh` both say), a
/// post's comment count is the number of comment ids indexed under it, and a comment's
/// reply count the number of reply ids indexed under it.
pub proof fn law_counts_are_index_sizes(s: FeedState, post_id: u64, comment_id: u64)
    requires
        post_counts(s.posts.as_map(), s.comment_pairs()),
        reply_counts(s.comments.as_map(), s.reply_pairs()),
    ensures
        s.posts.as_map().contains_key(post_id) ==> s.posts.as_map()[post_id].comment_count
            == Set::new(|x: u64| s.comment_pairs().contains((post_id, x))).len(),
        s.comments.as_map().contains_key(comment_id) ==> s.comments.as_map()[comment_id].reply_count
            == Set::new(|x: u64| s.reply_pairs().contains((comment_id, x))).len(),
{
    if s.posts.as_map().contains_key(post_id) {
        lemma_listing_size(s.comment_pairs(), post_id);
    }
    if s.comments.as_map().contains_key(comment_id) {
        lemma_listing_size(s.reply_pairs(), comment_id);
    }
}

proof fn lemma_listing_size(pairs: Set<(u64, u64)>, first: u64)
    requires
        listing_ok(pairs, first),
    ensures
        seconds_listing(pairs, first).len() == Set::new(|x: u64| pairs.contains((first, x))).len(),
{
    let l = seconds_listing(pairs, first);
    assert(l.no_duplicates()) by {
        assert forall|i: int, j: int| 0 <= i < l.len() && 0 <= j < l.len() && i != j implies l[i] != l[j] by {
            if i < j {
                assert(l[i] < l[j]);
            } else {
                assert(l[j] < l[i]);
            }
        }
    }
    l.unique_seq_to_set();
    assert(l.to_set() =~= Set::new(|x: u64| pairs.contains((first, x))));
}

/// A request that leaves comments, indexes and the comment counter alone, and changes
/// at most post `post_id`, keeping its comment count, or adding it under a fresh id
/// with a comment count of zero, keeps the counts in step with the indexes.
pub proof fn lemma_counts_after_post_change(s0: FeedState, s1: FeedState, post_id: u64)
    requires
        s0.counts_match(),
        s1.comments == s0.comments,
        s1.post_comments == s0.post_comments,
        s1.comment_replies == s0.comment_replies,
        s1.next_comment == s0.next_comment,
        counter_value(s0.next_post) <= counter_value(s1.next_post),
        s1.posts.as_map().remove(post_id) == s0.posts.as_map().remove(post_id),
        s1.posts.as_map().contains_key(post_id) ==> if s0.posts.as_map().contains_key(post_id) {
            s1.posts.as_map()[post_id].comment_count == s0.posts.as_map()[post_id].comment_count
        } else {
            post_id >= counter_value(s0.next_post) && s1.posts.as_map()[post_id].comment_count == 0
        },
    ensures
        s1.counts_match(),
{
    let cp = s0.comment_pairs();
    let p0 = s0.posts.as_map();
    let p1 = s1.posts.as_map();
    assert forall|q: u64| #[trigger] p1.contains_key(q) implies listing_ok(cp, q)
        && p1[q].comment_count == seconds_listing(cp, q).len() by {
        if q != post_id {
            assert(p1.remove(post_id).contains_key(q));
            assert(p1[q] == p1.remove(post_id)[q]);
            assert(p0.contains_key(q));
        } else if !p0.contains_key(q) {
            assert forall|x: u64| !cp.contains((q, x)) by {
                if cp.contains((q, x)) {
                    assert(q < counter_value(s0.next_post));
                }
            }
            lemma_listing_is(cp, q, Seq::empty());
        }
    }
}

/// Deleting post `post_id` with its comments keeps the counts in step with the indexes.
pub proof fn lemma_counts_after_post_delete(s0: FeedState, s1: FeedState, post_id: u64)
    requires
        s0.counts_match(),
        s1.posts.as_map() == s0.posts.as_map().remove(post_id),
        s1.comments.as_map() == s0.comments.as_map().remove_keys(
            Set::new(|c: u64| s0.comment_pairs().contains((post_id, c))),
        ),
        s1.comment_pairs() == s0.comment_pairs().filter(|q: (u64, u64)| q.0 != post_id),
        s1.comment_replies == s0.comment_replies,
        s1.next_post == s0.next_post,
        s1.next_comment == s0.next_comment,
    ensures
        s1.counts_match(),
{
    let c0 = s0.comments.as_map();
    let c1 = s1.comments.as_map();
    let cp0 = s0.comment_pairs();
    let cp1 = s1.comment_pairs();
    let rp = s0.reply_pairs();
    let p0 = s0.posts.as_map();
    let p1 = s1.posts.as_map();
    assert forall|q: u64| #[trigger] p1.contains_key(q) implies listing_ok(cp1, q)
        && p1[q].comment_count == seconds_listing(cp1, q).len() by {
        assert(p0.contains_key(q) && q != post_id);
        assert forall|y: u64| #![trigger cp1.contains((q, y))] #![trigger cp0.contains((q, y))]
            cp0.contains((q, y)) <==> cp1.contains((q, y)) by {}
        lemma_listing_same(cp0, cp1, q);
    }
    assert forall|k: u64| #[trigger] c1.contains_key(k) implies c0.contains_key(k)
        && c0[k].post_id != post_id && c1[k] == c0[k] by {
        if c0[k].post_id == post_id {
            assert(cp0.contains((post_id, k)));
        }
    }
    assert forall|k: u64| #[trigger] c1.contains_key(k) && c1[k].reply_to_comment_id is Some implies ({
        let p = c1[k].reply_to_comment_id->0;
        &&& rp.contains((p, k))
        &&& c1.contains_key(p)
        &&& c1[p].post_id == c1[k].post_id
        &&& c1[p].reply_to_comment_id is None
    }) by {
        let p = c0[k].reply_to_comment_id->0;
        assert(c0.contains_key(p) && c0[p].post_id == c0[k].post_id);
        if cp0.contains((post_id, p)) {
            assert(c0[p].post_id == post_id);
        }
    }
    assert forall|q: (u64, u64)| #[trigger] cp1.contains(q) implies c1.contains_key(q.1) && c1[q.1].post_id == q.0 by {
        assert(cp0.contains(q) && q.0 != post_id);
        assert(c0.contains_key(q.1) && c0[q.1].post_id == q.0);
        if cp0.contains((post_id, q.1)) {
            assert(c0[q.1].post_id == post_id);
        }
    }
    assert forall|q: (u64, u64)| #[trigger] rp.contains(q) && c1.contains_key(q.0) implies c1.contains_key(q.1)
        && c1[q.1].reply_to_comment_id == Some(q.0) by {
        assert(c0.contains_key(q.0) && c0.contains_key(q.1));
        assert(c0[q.1].post_id == c0[q.0].post_id);
        if cp0.contains((post_id, q.1)) {
            assert(c0[q.1].post_id == post_id);
            assert(cp0.contains((post_id, q.0)));
        }
    }
}

/// `add_comment` keeps each count equal to the size of its index, and the next comment
/// id fresh, without asking anything of how comments are linked.
pub proof fn lemma_counts_fresh_after_add(s0: FeedState, s1: FeedState, post_id: u64, reply_to: Option<u64>, m: CommentModel)
    requires
        s0.counts_fresh(),
        s0.posts.as_map().contains_key(post_id),
        counter_value(s1.next_comment) == counter_value(s0.next_comment) + 1,
        post_changed(s0.posts.as_map(), s1.posts.as_map(), post_id, (PostModel {
            comment_count: (s0.posts.as_map()[post_id]@.comment_count + 1) as u64,
            ..s0.posts.as_map()[post_id]@
        })),
        s0.posts.as_map()[post_id].comment_count < u64::MAX,
        m.reply_count == 0,
        !s0.comments.as_map().contains_key(counter_value(s0.next_comment)),
        ({
            let id = counter_value(s0.next_comment);
            let old_models = comment_models(s0.comments.as_map());
            let added = old_models.insert(id, m);
            comment_models(s1.comments.as_map()) == match reply_to {
                Some(pid) => added.insert(pid, CommentModel { reply_count: (old_models[pid].reply_count + 1) as u64, ..old_models[pid] }),
                None => added,
            }
        }),
        s1.comment_pairs() == s0.comment_pairs().insert((post_id, counter_value(s0.next_comment))),
        s1.reply_pairs() == (match reply_to {
            Some(pid) => s0.reply_pairs().insert((pid, counter_value(s0.next_comment))),
            None => s0.reply_pairs(),
        }),
        reply_to matches Some(pid) ==> s0.comments.as_map().contains_key(pid)
            && s0.comments.as_map()[pid].reply_count < u64::MAX,
    ensures
        s1.counts_fresh(),
{
    let id = counter_value(s0.next_comment);
    let c0 = s0.comments.as_map();
    let c1 = s1.comments.as_map();
    let p0 = s0.posts.as_map();
    let p1 = s1.posts.as_map();
    lemma_comments_after_add(c0, c1, id, reply_to, m);
    assert(p1[post_id].comment_count == p0[post_id].comment_count + 1);
    lemma_post_counts_bump(p0, p1, s0.comment_pairs(), s1.comment_pairs(), post_id, id);
    assert forall|k: u64| c0.contains_key(k) && reply_to != Some(k) implies #[trigger] c1[k].reply_count == c0[k].reply_count by {
        assert(c1[k]@ == c0[k]@);
    }
    lemma_reply_counts_add(c0, c1, s0.reply_pairs(), s1.reply_pairs(), id, reply_to);
}

} // verus!
