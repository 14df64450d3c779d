//! Download records of apps, and the ranking of the most downloaded ones.
use vstd::prelude::*;
use crate::keyed::KeyModel;
use crate::principal::PrincipalId;
use super::ranking::{addr_before, bytes_before_exec, lemma_addr_order, lemma_addr_transitive};
use super::state::AppState;
use super::types::{
    not_owner_message, AppDownloadRecord, DownloadInfo, Info, TopDownload,
};

verus! {

/// In the ranking, `x` sits below `y`: a lower count, or the same count and an earlier
/// address. The least entry is the one dropped first.
pub open spec fn ranks_below(counts: Map<Seq<char>, u64>, x: Seq<char>, y: Seq<char>) -> bool {
    counts[x] < counts[y] || (counts[x] == counts[y] && addr_before(x, y))
}

/// The entry of `kept` that sits below all the others.
pub open spec fn least_ranked(counts: Map<Seq<char>, u64>, kept: Set<Seq<char>>) -> Seq<char> {
    choose|x: Seq<char>| kept.contains(x) && forall|y: Seq<char>| kept.contains(y) && y != x ==> ranks_below(counts, x, y)
}

/// One step of the ranking, offered address `a`: while fewer than `n` are kept, `a`
/// is kept; after that `a` takes the place of the least kept entry when its count is
/// strictly higher.
pub open spec fn ranking_step(counts: Map<Seq<char>, u64>, kept: Set<Seq<char>>, n: nat, a: Seq<char>) -> Set<Seq<char>> {
    if kept.len() < n {
        kept.insert(a)
    } else if kept.len() > 0 && counts[a] > counts[least_ranked(counts, kept)] {
        kept.remove(least_ranked(counts, kept)).insert(a)
    } else {
        kept
    }
}

/// The address of `d` that sorts after all the others.
pub open spec fn last_address(d: Set<Seq<char>>) -> Seq<char> {
    choose|x: Seq<char>| d.contains(x) && forall|y: Seq<char>| d.contains(y) && y != x ==> addr_before(y, x)
}

/// The addresses that the ranking keeps after being offered those of `d`, in
/// increasing address order.
pub open spec fn ranking_kept(counts: Map<Seq<char>, u64>, d: Set<Seq<char>>, n: nat) -> Set<Seq<char>>
    decreases d.len(),
{
    if d.finite() && d.len() > 0 && d.contains(last_address(d)) {
        ranking_step(counts, ranking_kept(counts, d.remove(last_address(d)), n), n, last_address(d))
    } else {
        Set::empty()
    }
}

/// The addresses of the entries at positions `idx`.
pub open spec fn addresses_at(e: Seq<(String, AppDownloadRecord)>, idx: Seq<usize>) -> Seq<Seq<char>> {
    idx.map_values(|i: usize| e[i as int].0@)
}

/// The ranking order is total on different addresses, and transitive.
proof fn lemma_ranks_below(counts: Map<Seq<char>, u64>, x: Seq<char>, y: Seq<char>, z: Seq<char>)
    ensures
        !ranks_below(counts, x, x),
        ranks_below(counts, x, y) ==> !ranks_below(counts, y, x),
        x != y ==> ranks_below(counts, x, y) || ranks_below(counts, y, x),
        ranks_below(counts, x, y) && ranks_below(counts, y, z) ==> ranks_below(counts, x, z),
{
    lemma_addr_order(x, y);
    lemma_addr_order(y, x);
    if ranks_below(counts, x, y) && ranks_below(counts, y, z) && counts[x] == counts[y] && counts[y] == counts[z] {
        lemma_addr_transitive(x, y, z);
    }
}

/// Offering one more address, later than all offered before, is one ranking step.
proof fn lemma_ranking_next(counts: Map<Seq<char>, u64>, d: Set<Seq<char>>, n: nat, a: Seq<char>)
    requires
        d.finite(),
        forall|y: Seq<char>| #[trigger] d.contains(y) ==> addr_before(y, a),
    ensures
        ranking_kept(counts, d.insert(a), n) == ranking_step(counts, ranking_kept(counts, d, n), n, a),
{
    let d1 = d.insert(a);
    lemma_addr_order(a, a);
    assert(!d.contains(a));
    assert(d1.contains(a) && forall|y: Seq<char>| d1.contains(y) && y != a ==> addr_before(y, a));
    let c = last_address(d1);
    assert(d1.contains(c) && forall|y: Seq<char>| d1.contains(y) && y != c ==> addr_before(y, c));
    if c != a {
        assert(addr_before(c, a));
        assert(addr_before(a, c));
        lemma_addr_order(c, a);
    }
    assert(d1.remove(a) =~= d);
    assert(d1.finite() && d1.len() > 0);
}

/// A finite set of addresses that holds one has a last one.
proof fn lemma_last_address(d: Set<Seq<char>>)
    requires
        d.finite(),
        d.len() > 0,
    ensures
        d.contains(last_address(d)),
        forall|y: Seq<char>| d.contains(y) && y != last_address(d) ==> addr_before(y, last_address(d)),
    decreases d.len(),
{
    let x = d.choose();
    let d2 = d.remove(x);
    let w = if d2.len() == 0 {
        x
    } else {
        lemma_last_address(d2);
        let y = last_address(d2);
        lemma_addr_order(x, y);
        if addr_before(y, x) { x } else { y }
    };
    assert forall|z: Seq<char>| d.contains(z) && z != w implies addr_before(z, w) by {
        if d2.len() == 0 {
            assert(d2.contains(z));
        } else {
            let y = last_address(d2);
            lemma_addr_order(x, y);
            if z != x && z != y {
                assert(d2.contains(z));
                if w == x {
                    lemma_addr_transitive(z, y, x);
                }
            }
        }
    }
    assert(d.contains(w));
}

/// A finite set of addresses that holds one has a lowest ranked one.
proof fn lemma_least_ranked(counts: Map<Seq<char>, u64>, k: Set<Seq<char>>)
    requires
        k.finite(),
        k.len() > 0,
    ensures
        k.contains(least_ranked(counts, k)),
        forall|y: Seq<char>| k.contains(y) && y != least_ranked(counts, k) ==> ranks_below(counts, least_ranked(counts, k), y),
    decreases k.len(),
{
    let x = k.choose();
    let k2 = k.remove(x);
    let w = if k2.len() == 0 {
        x
    } else {
        lemma_least_ranked(counts, k2);
        let y = least_ranked(counts, k2);
        lemma_ranks_below(counts, x, y, y);
        if ranks_below(counts, x, y) { x } else { y }
    };
    assert forall|z: Seq<char>| k.contains(z) && z != w implies ranks_below(counts, w, z) by {
        if k2.len() == 0 {
            assert(k2.contains(z));
        } else {
            let y = least_ranked(counts, k2);
            lemma_ranks_below(counts, x, y, y);
            if z != x && z != y {
                assert(k2.contains(z));
                if w == x {
                    lemma_ranks_below(counts, x, y, z);
                }
            }
        }
    }
    assert(k.contains(w));
}

/// A subset as large as a finite set is the set.
proof fn lemma_full_subset(a: Set<Seq<char>>, b: Set<Seq<char>>)
    requires
        b.finite(),
        a.subset_of(b),
        a.len() == b.len(),
    ensures
        a == b,
{
    if !(a =~= b) {
        let x = choose|x: Seq<char>| b.contains(x) && !a.contains(x);
        vstd::set_lib::lemma_len_subset(a, b.remove(x));
    }
}

/// The ranking keeps `n` of the offered addresses, or all when there are fewer, and
/// each one left out has no more downloads than any one kept.
pub proof fn law_ranking_keeps_the_most_downloaded(counts: Map<Seq<char>, u64>, d: Set<Seq<char>>, n: nat)
    requires
        d.finite(),
    ensures
        ranking_kept(counts, d, n).finite(),
        ranking_kept(counts, d, n).subset_of(d),
        ranking_kept(counts, d, n).len() == if n < d.len() { n } else { d.len() },
        forall|a: Seq<char>, b: Seq<char>| #[trigger] d.contains(a) && !ranking_kept(counts, d, n).contains(a)
            && #[trigger] ranking_kept(counts, d, n).contains(b) ==> counts[a] <= counts[b],
    decreases d.len(),
{
    if d.len() > 0 {
        lemma_last_address(d);
        let a = last_address(d);
        let d2 = d.remove(a);
        law_ranking_keeps_the_most_downloaded(counts, d2, n);
        let k2 = ranking_kept(counts, d2, n);
        let k = ranking_kept(counts, d, n);
        assert(k == ranking_step(counts, k2, n, a));
        assert(!k2.contains(a));
        if k2.len() < n {
            lemma_full_subset(k2, d2);
            assert(k =~= d);
        } else if k2.len() > 0 && counts[a] > counts[least_ranked(counts, k2)] {
            lemma_least_ranked(counts, k2);
            let l = least_ranked(counts, k2);
            assert(k == k2.remove(l).insert(a));
            assert forall|x: Seq<char>, b: Seq<char>| #[trigger] d.contains(x) && !k.contains(x) && #[trigger] k.contains(b) implies counts[x] <= counts[b] by {
                if x != l {
                    assert(d2.contains(x) && !k2.contains(x));
                    assert(counts[x] <= counts[l]);
                }
            }
        } else {
            if k2.len() > 0 {
                lemma_least_ranked(counts, k2);
                let l = least_ranked(counts, k2);
                assert forall|x: Seq<char>, b: Seq<char>| #[trigger] d.contains(x) && !k.contains(x) && #[trigger] k.contains(b) implies counts[x] <= counts[b] by {
                    if x == a && b != l {
                        assert(ranks_below(counts, l, b));
                    }
                }
            }
        }
    } else {
        assert(ranking_kept(counts, d, n) =~= Set::<Seq<char>>::empty());
        assert(d =~= Set::<Seq<char>>::empty());
    }
}

/// Adding a position adds its address.
proof fn lemma_addresses_push(e: Seq<(String, AppDownloadRecord)>, s: Seq<usize>, i: usize)
    ensures
        addresses_at(e, s.push(i)).to_set() == addresses_at(e, s).to_set().insert(e[i as int].0@),
        forall|k: int| 0 <= k < s.push(i).len() ==> #[trigger] s.push(i)[k] == i || (k < s.len() && s.push(i)[k] == s[k]),
{
    let s0 = addresses_at(e, s);
    let s1 = addresses_at(e, s.push(i));
    let a = e[i as int].0@;
    assert(s1 =~= s0.push(a));
    assert forall|x: Seq<char>| s1.to_set().contains(x) <==> s0.to_set().insert(a).contains(x) by {
        if s1.contains(x) {
            let t = choose|t: int| 0 <= t < s1.len() && s1[t] == x;
            if t < s0.len() {
                assert(s0[t] == x);
            }
        }
        if s0.contains(x) {
            let t = choose|t: int| 0 <= t < s0.len() && s0[t] == x;
            assert(s1[t] == x);
        }
        if x == a {
            assert(s1[s0.len() as int] == x);
        }
    }
    assert(s1.to_set() =~= s0.to_set().insert(a));
}

impl AppState {
    /// The addresses of the first `j + 1` records of `order` are those of the first `j`
    /// and one more, after them all; offering it is one ranking step.
    proof fn lemma_prefix_step(&self, order: Seq<usize>, j: int, n: nat)
        requires
            self.downloads.wf(),
            0 <= j < order.len(),
            forall|k: int| 0 <= k < order.len() ==> #[trigger] order[k] < self.downloads.entries@.len(),
            forall|k1: int, k2: int| 0 <= k1 < k2 < order.len() ==> addr_before(
                self.downloads.entries@[#[trigger] order[k1] as int].0@,
                self.downloads.entries@[#[trigger] order[k2] as int].0@,
            ),
        ensures
            ranking_kept(self.download_counts(), addresses_at(self.downloads.entries@, order.subrange(0, j + 1)).to_set(), n)
                == ranking_step(
                    self.download_counts(),
                    ranking_kept(self.download_counts(), addresses_at(self.downloads.entries@, order.subrange(0, j)).to_set(), n),
                    n,
                    self.downloads.entries@[order[j] as int].0@,
                ),
    {
        let e = self.downloads.entries@;
        let a = e[order[j] as int].0@;
        let d = addresses_at(e, order.subrange(0, j)).to_set();
        assert forall|y: Seq<char>| #[trigger] d.contains(y) implies addr_before(y, a) by {
            let t = choose|t: int| 0 <= t < j && addresses_at(e, order.subrange(0, j))[t] == y;
            assert(order.subrange(0, j)[t] == order[t]);
        }
        assert(order.subrange(0, j + 1) =~= order.subrange(0, j).push(order[j]));
        lemma_addresses_push(e, order.subrange(0, j), order[j]);
        lemma_ranking_next(self.download_counts(), d, n, a);
    }

    /// Putting another position in place of the one at `p` swaps their addresses.
    proof fn lemma_addresses_replace(&self, s: Seq<usize>, p: int, i: usize)
        requires
            self.downloads.wf(),
            0 <= p < s.len(),
            i < self.downloads.entries@.len(),
            forall|k: int| 0 <= k < s.len() ==> #[trigger] s[k] < self.downloads.entries@.len(),
            forall|k1: int, k2: int| 0 <= k1 < k2 < s.len() ==> #[trigger] s[k1] != #[trigger] s[k2],
            forall|k: int| 0 <= k < s.len() ==> #[trigger] s[k] != i,
        ensures
            addresses_at(self.downloads.entries@, s.update(p, i)).to_set()
                == addresses_at(self.downloads.entries@, s).to_set().remove(self.downloads.entries@[s[p] as int].0@).insert(
                self.downloads.entries@[i as int].0@,
            ),
            forall|k1: int, k2: int| 0 <= k1 < k2 < s.update(p, i).len() ==> #[trigger] s.update(p, i)[k1] != #[trigger] s.update(p, i)[k2],
            forall|k: int| 0 <= k < s.update(p, i).len() ==> #[trigger] s.update(p, i)[k] == i || (k < s.len() && s.update(p, i)[k] == s[k]),
    {
        let e = self.downloads.entries@;
        let s0 = addresses_at(e, s);
        let s1 = addresses_at(e, s.update(p, i));
        let a = e[i as int].0@;
        let low = e[s[p] as int].0@;
        assert(s1 =~= s0.update(p, a));
        assert forall|x: Seq<char>| s1.to_set().contains(x) <==> s0.to_set().remove(low).insert(a).contains(x) by {
            if s1.contains(x) {
                let t = choose|t: int| 0 <= t < s1.len() && s1[t] == x;
                if t != p {
                    assert(s0[t] == x);
                    self.lemma_distinct_addresses(s[t] as int, s[p] as int);
                }
            }
            if s0.contains(x) && x != low {
                let t = choose|t: int| 0 <= t < s0.len() && s0[t] == x;
                assert(t != p);
                assert(s1[t] == x);
            }
            if x == a {
                assert(s1[p] == x);
            }
        }
        assert(s1.to_set() =~= s0.to_set().remove(low).insert(a));
    }

    /// Kept positions, all offered before the record at `order[j]`, lie before the next
    /// one in address order and are not it.
    proof fn lemma_later_than_kept(&self, order: Seq<usize>, old_kept: Seq<usize>, kept: Seq<usize>, j: int)
        requires
            self.downloads.wf(),
            0 <= j < order.len(),
            forall|k: int| 0 <= k < order.len() ==> #[trigger] order[k] < self.downloads.entries@.len(),
            forall|k1: int, k2: int| 0 <= k1 < k2 < order.len() ==> addr_before(
                self.downloads.entries@[#[trigger] order[k1] as int].0@,
                self.downloads.entries@[#[trigger] order[k2] as int].0@,
            ),
            forall|k: int| 0 <= k < old_kept.len() ==> addr_before(self.downloads.entries@[#[trigger] old_kept[k] as int].0@, self.downloads.entries@[order[j] as int].0@),
            forall|k: int| 0 <= k < kept.len() ==> #[trigger] kept[k] == order[j] || (k < old_kept.len() && kept[k] == old_kept[k]),
        ensures
            forall|k: int| 0 <= k < kept.len() ==> addr_before(self.downloads.entries@[#[trigger] kept[k] as int].0@, self.downloads.entries@[order[j + 1] as int].0@) || j + 1 == order.len(),
            forall|k: int| 0 <= k < kept.len() ==> #[trigger] kept[k] != order[j + 1] || j + 1 == order.len(),
    {
        let e = self.downloads.entries@;
        if j + 1 < order.len() {
            let b = e[order[j + 1] as int].0@;
            assert(addr_before(e[order[j] as int].0@, b));
            assert forall|k: int| 0 <= k < kept.len() implies addr_before(e[#[trigger] kept[k] as int].0@, b) && kept[k] != order[j + 1] by {
                if kept[k] != order[j] {
                    assert(kept[k] == old_kept[k]);
                    lemma_addr_transitive(e[kept[k] as int].0@, e[order[j] as int].0@, b);
                }
                lemma_addr_order(b, b);
            }
        }
    }

    /// Offered all records, the ranking has been offered every stored address.
    proof fn lemma_all_offered(&self, order: Seq<usize>)
        requires
            self.downloads.wf(),
            order.len() == self.downloads.entries@.len(),
            forall|k: int| 0 <= k < order.len() ==> #[trigger] order[k] < self.downloads.entries@.len(),
            forall|i: usize| i < self.downloads.entries@.len() ==> #[trigger] order.contains(i),
        ensures
            addresses_at(self.downloads.entries@, order.subrange(0, order.len() as int)).to_set() == self.download_counts().dom(),
    {
        let e = self.downloads.entries@;
        assert(order.subrange(0, order.len() as int) =~= order);
        let all = addresses_at(e, order).to_set();
        assert forall|x: Seq<char>| all.contains(x) <==> self.download_counts().dom().contains(x) by {
            if all.contains(x) {
                let t = choose|t: int| 0 <= t < order.len() && addresses_at(e, order)[t] == x;
                self.lemma_count_at(order[t] as int);
            }
            if self.download_counts().dom().contains(x) {
                assert(self.downloads.as_map().contains_key(x));
                assert(self.downloads.has(x));
                let i = self.downloads.pos(x);
                assert(0 <= i < e.len() && e[i].0.model() == x);
                assert(e.len() == self.downloads.entries.len());
                let iu = i as usize;
                assert(iu as int == i);
                assert(order.contains(iu));
                let t = choose|t: int| 0 <= t < order.len() && order[t] == iu;
                assert(addresses_at(e, order)[t] == e[order[t] as int].0@);
                assert(addresses_at(e, order)[t] == x);
            }
        }
        assert(all =~= self.download_counts().dom());
    }

    /// The download count of each stored app.
    pub open spec fn download_counts(&self) -> Map<Seq<char>, u64> {
        self.downloads.as_map().map_values(|r: AppDownloadRecord| r.download.download_count)
    }

    /// The download count stored for the app at `address`.
    pub open spec fn count_of(&self, address: Seq<char>) -> u64 {
        self.downloads.as_map()[address].download.download_count
    }

    /// The download count of the record at position `j`.
    pub open spec fn count_at(&self, j: int) -> u64 {
        self.downloads.entries@[j].1.download.download_count
    }

    /// Lets the owner store what an app tells about itself and its download figures,
    /// replacing an earlier record of the same address.
    pub fn set_info(
        &mut self,
        caller: PrincipalId,
        app_address: String,
        name: String,
        about: String,
        version: String,
        update_time: u64,
        download_count: u64,
        flow: u64,
    ) -> (r: Result<(), String>)
        requires
            old(self).wf(),
        ensures
            final(self).wf(),
            old(self).is_owner(caller) ==> r is Ok,
            !old(self).is_owner(caller) ==> (r matches Err(m) && m@ == not_owner_message()),
            r is Err ==> *final(self) == *old(self),
            r is Ok ==> *final(self) == (AppState { downloads: final(self).downloads, ..*old(self) })
                && final(self).downloads.as_map() == old(self).downloads.as_map().insert(
                app_address@,
                AppDownloadRecord {
                    info: Info { name, about, version, update_time },
                    download: DownloadInfo { download_count, flow },
                },
            ),
    {
        self._check_owner(caller)?;
        let record = AppDownloadRecord {
            info: Info { name, about, version, update_time },
            download: DownloadInfo { download_count, flow },
        };
        self.downloads.insert(app_address, record);
        Ok(())
    }

    /// The positions of the download records, by increasing address.
    fn address_order(&self) -> (order: Vec<usize>)
        requires
            self.downloads.wf(),
        ensures
            order@.len() == self.downloads.entries@.len(),
            forall|k: int| 0 <= k < order@.len() ==> #[trigger] order@[k] < self.downloads.entries@.len(),
            forall|i: usize| i < self.downloads.entries@.len() ==> #[trigger] order@.contains(i),
            forall|k1: int, k2: int| 0 <= k1 < k2 < order@.len() ==> addr_before(
                self.downloads.entries@[#[trigger] order@[k1] as int].0@,
                self.downloads.entries@[#[trigger] order@[k2] as int].0@,
            ),
    {
        let ghost e = self.downloads.entries@;
        let m = self.downloads.entries.len();
        let mut remaining: Vec<usize> = Vec::new();
        let mut j: usize = 0;
        while j < m
            invariant
                j <= m,
                m == e.len(),
                remaining@ == Seq::new(j as nat, |i: int| i as usize),
            decreases m - j,
        {
            remaining.push(j);
            j = j + 1;
        }
        let mut order: Vec<usize> = Vec::new();
        proof {
            assert forall|i: usize| i < m implies remaining@.contains(i) by {
                assert(remaining@[i as int] == i);
            }
        }
        while remaining.len() > 0
            invariant
                self.downloads.wf(),
                e == self.downloads.entries@,
                m == e.len(),
                order@.len() + remaining@.len() == m,
                forall|k: int| 0 <= k < order@.len() ==> #[trigger] order@[k] < m,
                forall|k: int| 0 <= k < remaining@.len() ==> #[trigger] remaining@[k] < m,
                forall|i: usize| #![trigger order@.contains(i)] #![trigger remaining@.contains(i)] i < m ==> order@.contains(i) || remaining@.contains(i),
                forall|k1: int, k2: int| 0 <= k1 < k2 < remaining@.len() ==> #[trigger] remaining@[k1] != #[trigger] remaining@[k2],
                forall|k1: int, k2: int| 0 <= k1 < k2 < order@.len() ==> addr_before(e[#[trigger] order@[k1] as int].0@, e[#[trigger] order@[k2] as int].0@),
                forall|k: int, q: int| 0 <= k < order@.len() && 0 <= q < remaining@.len() ==> addr_before(e[#[trigger] order@[k] as int].0@, e[#[trigger] remaining@[q] as int].0@),
            decreases remaining@.len(),
        {
            let mut best: usize = 0;
            let mut q: usize = 1;
            while q < remaining.len()
                invariant
                    self.downloads.wf(),
                    e == self.downloads.entries@,
                    m == e.len(),
                    0 < remaining@.len(),
                    forall|k: int| 0 <= k < remaining@.len() ==> #[trigger] remaining@[k] < m,
                    forall|k1: int, k2: int| 0 <= k1 < k2 < remaining@.len() ==> #[trigger] remaining@[k1] != #[trigger] remaining@[k2],
                    best < q,
                    1 <= q <= remaining@.len(),
                    forall|k: int| 0 <= k < q && k != best ==> addr_before(e[remaining@[best as int] as int].0@, e[#[trigger] remaining@[k] as int].0@),
                decreases remaining@.len() - q,
            {
                let before = bytes_before_exec(
                    self.downloads.entries[remaining[q]].0.as_str().as_bytes(),
                    self.downloads.entries[remaining[best]].0.as_str().as_bytes(),
                );
                proof {
                    let xq = e[remaining@[q as int] as int].0@;
                    let xb = e[remaining@[best as int] as int].0@;
                    assert(remaining@[q as int] != remaining@[best as int]);
                    assert(xq != xb) by {
                        if remaining@[q as int] < remaining@[best as int] {
                            assert(e[remaining@[q as int] as int].0.model() != e[remaining@[best as int] as int].0.model());
                        } else {
                            assert(e[remaining@[best as int] as int].0.model() != e[remaining@[q as int] as int].0.model());
                        }
                    }
                    lemma_addr_order(xq, xb);
                    if before {
                        assert forall|k: int| 0 <= k < q + 1 && k != q implies addr_before(xq, e[#[trigger] remaining@[k] as int].0@) by {
                            if k != best {
                                lemma_addr_transitive(xq, xb, e[remaining@[k] as int].0@);
                            }
                        }
                    }
                }
                if before {
                    best = q;
                }
                q = q + 1;
            }
            let ghost rem = remaining@;
            let ghost ord = order@;
            let pick = remaining.remove(best);
            order.push(pick);
            proof {
                assert(pick == rem[best as int]);
                assert forall|i: usize| #![trigger order@.contains(i)] #![trigger remaining@.contains(i)] i < m implies order@.contains(i) || remaining@.contains(i) by {
                    if ord.contains(i) {
                        let k = choose|k: int| 0 <= k < ord.len() && ord[k] == i;
                        assert(order@[k] == i);
                    } else {
                        assert(rem.contains(i));
                        let k = choose|k: int| 0 <= k < rem.len() && rem[k] == i;
                        if k == best {
                            assert(order@[ord.len() as int] == i);
                        } else if k < best {
                            assert(remaining@[k] == i);
                        } else {
                            assert(remaining@[k - 1] == i);
                        }
                    }
                }
                assert forall|k1: int, k2: int| 0 <= k1 < k2 < remaining@.len() implies #[trigger] remaining@[k1] != #[trigger] remaining@[k2] by {
                    let a1 = if k1 < best { k1 } else { k1 + 1 };
                    let a2 = if k2 < best { k2 } else { k2 + 1 };
                    assert(remaining@[k1] == rem[a1] && remaining@[k2] == rem[a2]);
                }
                assert forall|k: int, q2: int| 0 <= k < order@.len() && 0 <= q2 < remaining@.len() implies addr_before(e[#[trigger] order@[k] as int].0@, e[#[trigger] remaining@[q2] as int].0@) by {
                    let a2 = if q2 < best { q2 } else { q2 + 1 };
                    assert(remaining@[q2] == rem[a2]);
                    if k < ord.len() {
                        assert(order@[k] == ord[k]);
                    } else {
                        assert(order@[k] == rem[best as int]);
                    }
                }
                assert forall|k1: int, k2: int| 0 <= k1 < k2 < order@.len() implies addr_before(e[#[trigger] order@[k1] as int].0@, e[#[trigger] order@[k2] as int].0@) by {
                    assert(order@[k1] == ord[k1]);
                    if k2 < ord.len() {
                        assert(order@[k2] == ord[k2]);
                    } else {
                        assert(order@[k2] == rem[best as int]);
                    }
                }
                assert forall|k: int| 0 <= k < order@.len() implies #[trigger] order@[k] < m by {
                    if k < ord.len() {
                        assert(order@[k] == ord[k]);
                    }
                }
                assert forall|k: int| 0 <= k < remaining@.len() implies #[trigger] remaining@[k] < m by {
                    let a = if k < best { k } else { k + 1 };
                    assert(remaining@[k] == rem[a]);
                }
            }
        }
        proof {
            assert forall|i: usize| i < m implies #[trigger] order@.contains(i) by {
                assert(order@.contains(i) || remaining@.contains(i));
            }
        }
        order
    }

    /// The download record at position `i` is stored under its address, with its count.
    proof fn lemma_count_at(&self, i: int)
        requires
            self.downloads.wf(),
            0 <= i < self.downloads.entries@.len(),
        ensures
            self.download_counts().contains_key(self.downloads.entries@[i].0@),
            self.download_counts()[self.downloads.entries@[i].0@] == self.count_at(i),
    {
        self.downloads.lemma_pos(i);
    }

    /// Different positions hold different addresses.
    proof fn lemma_distinct_addresses(&self, i: int, j: int)
        requires
            self.downloads.wf(),
            0 <= i < self.downloads.entries@.len(),
            0 <= j < self.downloads.entries@.len(),
            i != j,
        ensures
            self.downloads.entries@[i].0@ != self.downloads.entries@[j].0@,
    {
        let e = self.downloads.entries@;
        if i < j {
            assert(e[i].0.model() != e[j].0.model());
        } else {
            assert(e[j].0.model() != e[i].0.model());
        }
    }

    /// The addresses at distinct positions are as many as the positions.
    proof fn lemma_addresses_distinct(&self, idx: Seq<usize>)
        requires
            self.downloads.wf(),
            forall|k: int| 0 <= k < idx.len() ==> #[trigger] idx[k] < self.downloads.entries@.len(),
            forall|k1: int, k2: int| 0 <= k1 < k2 < idx.len() ==> #[trigger] idx[k1] != #[trigger] idx[k2],
        ensures
            addresses_at(self.downloads.entries@, idx).no_duplicates(),
            addresses_at(self.downloads.entries@, idx).to_set().len() == idx.len(),
    {
        let ka = addresses_at(self.downloads.entries@, idx);
        assert forall|i1: int, i2: int| 0 <= i1 < ka.len() && 0 <= i2 < ka.len() && i1 != i2 implies ka[i1] != ka[i2] by {
            if i1 < i2 {
                assert(idx[i1] != idx[i2]);
            } else {
                assert(idx[i2] != idx[i1]);
            }
            self.lemma_distinct_addresses(idx[i1] as int, idx[i2] as int);
        }
        ka.unique_seq_to_set();
    }

    /// The position in `kept` of the record that sits lowest in the ranking.
    fn least_kept_position(&self, kept: &Vec<usize>) -> (p: usize)
        requires
            self.downloads.wf(),
            0 < kept@.len(),
            forall|k: int| 0 <= k < kept@.len() ==> #[trigger] kept@[k] < self.downloads.entries@.len(),
            forall|k1: int, k2: int| 0 <= k1 < k2 < kept@.len() ==> #[trigger] kept@[k1] != #[trigger] kept@[k2],
        ensures
            p < kept@.len(),
            least_ranked(self.download_counts(), addresses_at(self.downloads.entries@, kept@).to_set())
                == self.downloads.entries@[kept@[p as int] as int].0@,
    {
        let ghost e = self.downloads.entries@;
        let ghost counts = self.download_counts();
        let mut p: usize = 0;
        let mut q: usize = 1;
        while q < kept.len()
            invariant
                self.downloads.wf(),
                e == self.downloads.entries@,
                counts == self.download_counts(),
                0 < kept@.len(),
                forall|k: int| 0 <= k < kept@.len() ==> #[trigger] kept@[k] < e.len(),
                forall|k1: int, k2: int| 0 <= k1 < k2 < kept@.len() ==> #[trigger] kept@[k1] != #[trigger] kept@[k2],
                p < q <= kept@.len(),
                forall|k: int| 0 <= k < q && k != p ==> ranks_below(counts, e[kept@[p as int] as int].0@, e[#[trigger] kept@[k] as int].0@),
            decreases kept@.len() - q,
        {
            let cq = self.downloads.entries[kept[q]].1.download.download_count;
            let cp = self.downloads.entries[kept[p]].1.download.download_count;
            let lower = cq < cp || (cq == cp && bytes_before_exec(
                self.downloads.entries[kept[q]].0.as_str().as_bytes(),
                self.downloads.entries[kept[p]].0.as_str().as_bytes(),
            ));
            proof {
                let xq = e[kept@[q as int] as int].0@;
                let xp = e[kept@[p as int] as int].0@;
                self.lemma_count_at(kept@[q as int] as int);
                self.lemma_count_at(kept@[p as int] as int);
                assert(lower == ranks_below(counts, xq, xp));
                self.lemma_distinct_addresses(kept@[q as int] as int, kept@[p as int] as int);
                lemma_ranks_below(counts, xq, xp, xp);
                if lower {
                    assert forall|k: int| 0 <= k < q + 1 && k != q implies ranks_below(counts, xq, e[#[trigger] kept@[k] as int].0@) by {
                        if k != p {
                            lemma_ranks_below(counts, xq, xp, e[kept@[k] as int].0@);
                        }
                    }
                }
            }
            if lower {
                p = q;
            }
            q = q + 1;
        }
        proof {
            let ka = addresses_at(e, kept@);
            let big_k = ka.to_set();
            let low = e[kept@[p as int] as int].0@;
            assert(ka[p as int] == low);
            assert(big_k.contains(low));
            assert forall|y: Seq<char>| big_k.contains(y) && y != low implies ranks_below(counts, low, y) by {
                let t = choose|t: int| 0 <= t < ka.len() && ka[t] == y;
                assert(t != p);
            }
            let c = least_ranked(counts, big_k);
            assert(big_k.contains(c) && forall|y: Seq<char>| big_k.contains(y) && y != c ==> ranks_below(counts, c, y));
            if c != low {
                lemma_ranks_below(counts, c, low, c);
            }
        }
        p
    }

    /// The positions of the records that the ranking keeps when offered the records in
    /// `order`, by increasing address.
    #[verifier::rlimit(40)]
    fn ranking_survivors(&self, n: usize, order: &Vec<usize>) -> (kept: Vec<usize>)
        requires
            self.downloads.wf(),
            order@.len() == self.downloads.entries@.len(),
            forall|k: int| 0 <= k < order@.len() ==> #[trigger] order@[k] < self.downloads.entries@.len(),
            forall|i: usize| i < self.downloads.entries@.len() ==> #[trigger] order@.contains(i),
            forall|k1: int, k2: int| 0 <= k1 < k2 < order@.len() ==> addr_before(
                self.downloads.entries@[#[trigger] order@[k1] as int].0@,
                self.downloads.entries@[#[trigger] order@[k2] as int].0@,
            ),
        ensures
            forall|k: int| 0 <= k < kept@.len() ==> #[trigger] kept@[k] < self.downloads.entries@.len(),
            forall|k1: int, k2: int| 0 <= k1 < k2 < kept@.len() ==> #[trigger] kept@[k1] != #[trigger] kept@[k2],
            addresses_at(self.downloads.entries@, kept@).to_set()
                == ranking_kept(self.download_counts(), self.download_counts().dom(), n as nat),
    {
        let ghost e = self.downloads.entries@;
        let ghost counts = self.download_counts();
        let m = order.len();
        let mut kept: Vec<usize> = Vec::new();
        let mut j: usize = 0;
        proof {
            assert(addresses_at(e, order@.subrange(0, 0)).to_set() =~= Set::<Seq<char>>::empty());
            assert(addresses_at(e, kept@).to_set() =~= Set::<Seq<char>>::empty());
        }
        while j < m
            invariant
                self.downloads.wf(),
                e == self.downloads.entries@,
                counts == self.download_counts(),
                m == order@.len(),
                m == e.len(),
                j <= m,
                forall|k: int| 0 <= k < order@.len() ==> #[trigger] order@[k] < m,
                forall|k1: int, k2: int| 0 <= k1 < k2 < order@.len() ==> addr_before(
                    e[#[trigger] order@[k1] as int].0@,
                    e[#[trigger] order@[k2] as int].0@,
                ),
                forall|k: int| 0 <= k < kept@.len() ==> #[trigger] kept@[k] < m,
                forall|k1: int, k2: int| 0 <= k1 < k2 < kept@.len() ==> #[trigger] kept@[k1] != #[trigger] kept@[k2],
                forall|k: int| 0 <= k < kept@.len() ==> addr_before(e[#[trigger] kept@[k] as int].0@, e[order@[j as int] as int].0@) || j == m,
                forall|k: int| 0 <= k < kept@.len() ==> #[trigger] kept@[k] != order@[j as int] || j == m,
                addresses_at(e, kept@).to_set() == ranking_kept(counts, addresses_at(e, order@.subrange(0, j as int)).to_set(), n as nat),
            decreases m - j,
        {
            let idx = order[j];
            let ghost a = e[idx as int].0@;
            let ghost old_kept = kept@;
            proof {
                self.lemma_prefix_step(order@, j as int, n as nat);
                self.lemma_addresses_distinct(old_kept);
                self.lemma_count_at(idx as int);
            }
            if kept.len() < n {
                kept.push(idx);
                proof {
                    lemma_addresses_push(e, old_kept, idx);
                }
            } else if kept.len() > 0 {
                let p = self.least_kept_position(&kept);
                proof {
                    self.lemma_count_at(kept@[p as int] as int);
                }
                if self.downloads.entries[idx].1.download.download_count > self.downloads.entries[kept[p]].1.download.download_count {
                    kept.set(p, idx);
                    proof {
                        self.lemma_addresses_replace(old_kept, p as int, idx);
                    }
                } else {
                    assert(forall|k: int| 0 <= k < kept@.len() ==> #[trigger] kept@[k] == idx || (k < old_kept.len() && kept@[k] == old_kept[k]));
                }
            }
            proof {
                if kept@ == old_kept {
                    assert(forall|k: int| 0 <= k < kept@.len() ==> #[trigger] kept@[k] == idx || (k < old_kept.len() && kept@[k] == old_kept[k]));
                }
                self.lemma_later_than_kept(order@, old_kept, kept@, j as int);
            }
            j = j + 1;
        }
        proof {
            self.lemma_all_offered(order@);
        }
        kept
    }

    /// The `n` apps with the most downloads, most first. The apps are offered in
    /// increasing address order to a ranking of at most `n`: while it holds fewer than
    /// `n` an app joins it, after that an app takes the place of the lowest one (lowest
    /// count, then earliest address) when its count is strictly higher. Among the
    /// listed apps with equal counts, the order is left open.
    pub fn top_info(&self, n: usize) -> (r: Result<Vec<TopDownload>, String>)
        requires
            self.wf(),
        ensures
            r matches Ok(v) && {
                let kept = ranking_kept(self.download_counts(), self.download_counts().dom(), n as nat);
                &&& v@.len() == kept.len()
                &&& forall|k: int| 0 <= k < v@.len() ==> kept.contains(#[trigger] v@[k].app_address@)
                    && self.downloads.as_map().contains_key(v@[k].app_address@)
                    && v@[k].info@ == self.downloads.as_map()[v@[k].app_address@].info@
                &&& forall|a: Seq<char>| #[trigger] kept.contains(a) ==> exists|k: int| 0 <= k < v@.len() && v@[k].app_address@ == a
                &&& forall|k1: int, k2: int| 0 <= k1 < k2 < v@.len() ==> #[trigger] v@[k1].app_address@ != #[trigger] v@[k2].app_address@
                    && self.count_of(v@[k1].app_address@) >= self.count_of(v@[k2].app_address@)
                &&& v@.len() == if n < self.downloads.entries@.len() { n as int } else { self.downloads.entries@.len() as int }
                &&& forall|a: Seq<char>| #[trigger] self.downloads.as_map().contains_key(a) && (forall|k: int| 0 <= k < v@.len() ==> v@[k].app_address@ != a)
                    ==> forall|k: int| 0 <= k < v@.len() ==> self.count_of(#[trigger] v@[k].app_address@) >= self.count_of(a)
            },
    {
        let ghost e = self.downloads.entries@;
        let m = self.downloads.entries.len();
        let order = self.address_order();
        let mut remaining = self.ranking_survivors(n, &order);
        let ghost survivors = remaining@;
        let want = remaining.len();
        let mut chosen: Vec<usize> = Vec::new();
        while remaining.len() > 0
            invariant
                self.wf(),
                e == self.downloads.entries@,
                m == e.len(),
                chosen@.len() + remaining@.len() == want,
                want == survivors.len(),
                forall|k: int| 0 <= k < survivors.len() ==> #[trigger] survivors[k] < m,
                forall|k: int| 0 <= k < chosen@.len() ==> #[trigger] chosen@[k] < m,
                forall|k: int| 0 <= k < remaining@.len() ==> #[trigger] remaining@[k] < m,
                forall|i: usize| #![trigger survivors.contains(i)] survivors.contains(i) ==> chosen@.contains(i) || remaining@.contains(i),
                forall|k: int| 0 <= k < chosen@.len() ==> survivors.contains(#[trigger] chosen@[k]),
                forall|k1: int, k2: int| 0 <= k1 < k2 < chosen@.len() ==> #[trigger] chosen@[k1] != #[trigger] chosen@[k2],
                forall|k1: int, k2: int| 0 <= k1 < k2 < remaining@.len() ==> #[trigger] remaining@[k1] != #[trigger] remaining@[k2],
                forall|k: int, q: int| 0 <= k < chosen@.len() && 0 <= q < remaining@.len() ==> #[trigger] chosen@[k] != #[trigger] remaining@[q],
                forall|k: int| 0 <= k < remaining@.len() ==> survivors.contains(#[trigger] remaining@[k]),
                forall|k1: int, k2: int| 0 <= k1 < k2 < chosen@.len() ==> self.count_at(#[trigger] chosen@[k1] as int) >= self.count_at(#[trigger] chosen@[k2] as int),
                forall|k: int, q: int| 0 <= k < chosen@.len() && 0 <= q < remaining@.len() ==> self.count_at(#[trigger] chosen@[k] as int) >= self.count_at(#[trigger] remaining@[q] as int),
            decreases remaining@.len(),
        {
            let mut best: usize = 0;
            let mut q: usize = 1;
            while q < remaining.len()
                invariant
                    m == self.downloads.entries@.len(),
                    0 < remaining@.len(),
                    forall|k: int| 0 <= k < remaining@.len() ==> #[trigger] remaining@[k] < m,
                    best < remaining@.len(),
                    1 <= q <= remaining@.len(),
                    forall|k: int| 0 <= k < q ==> self.count_at(#[trigger] remaining@[k] as int) <= self.count_at(remaining@[best as int] as int),
                decreases remaining@.len() - q,
            {
                let cq = self.downloads.entries[remaining[q]].1.download.download_count;
                let cb = self.downloads.entries[remaining[best]].1.download.download_count;
                if cq > cb {
                    best = q;
                }
                q = q + 1;
            }
            let ghost rem = remaining@;
            let ghost ch = chosen@;
            let pick = remaining.remove(best);
            chosen.push(pick);
            proof {
                assert(pick == rem[best as int]);
                assert forall|i: usize| #![trigger survivors.contains(i)] survivors.contains(i) implies chosen@.contains(i) || remaining@.contains(i) by {
                    if ch.contains(i) {
                        let k = choose|k: int| 0 <= k < ch.len() && ch[k] == i;
                        assert(chosen@[k] == i);
                    } else {
                        assert(rem.contains(i));
                        let k = choose|k: int| 0 <= k < rem.len() && rem[k] == i;
                        if k == best {
                            assert(chosen@[ch.len() as int] == i);
                        } else if k < best {
                            assert(remaining@[k] == i);
                        } else {
                            assert(remaining@[k - 1] == i);
                        }
                    }
                }
                assert forall|k: int| 0 <= k < chosen@.len() implies survivors.contains(#[trigger] chosen@[k]) by {
                    if k < ch.len() {
                        assert(chosen@[k] == ch[k]);
                    } else {
                        assert(survivors.contains(rem[best as int]));
                    }
                }
                assert forall|k: int| 0 <= k < remaining@.len() implies survivors.contains(#[trigger] remaining@[k]) by {
                    let a = if k < best { k } else { k + 1 };
                    assert(remaining@[k] == rem[a]);
                }
                assert forall|k1: int, k2: int| 0 <= k1 < k2 < remaining@.len() implies #[trigger] remaining@[k1] != #[trigger] remaining@[k2] by {
                    let a1 = if k1 < best { k1 } else { k1 + 1 };
                    let a2 = if k2 < best { k2 } else { k2 + 1 };
                    assert(remaining@[k1] == rem[a1] && remaining@[k2] == rem[a2]);
                }
                assert forall|k: int, q2: int| 0 <= k < chosen@.len() && 0 <= q2 < remaining@.len() implies #[trigger] chosen@[k] != #[trigger] remaining@[q2]
                    && self.count_at(chosen@[k] as int) >= self.count_at(remaining@[q2] as int) by {
                    let a2 = if q2 < best { q2 } else { q2 + 1 };
                    assert(remaining@[q2] == rem[a2]);
                    if k < ch.len() {
                        assert(chosen@[k] == ch[k]);
                    } else {
                        assert(chosen@[k] == rem[best as int]);
                    }
                }
                assert forall|k1: int, k2: int| 0 <= k1 < k2 < chosen@.len() implies #[trigger] chosen@[k1] != #[trigger] chosen@[k2]
                    && self.count_at(chosen@[k1] as int) >= self.count_at(chosen@[k2] as int) by {
                    assert(chosen@[k1] == ch[k1]);
                    if k2 < ch.len() {
                        assert(chosen@[k2] == ch[k2]);
                    } else {
                        assert(chosen@[k2] == rem[best as int]);
                    }
                }
                assert forall|k: int| 0 <= k < chosen@.len() implies #[trigger] chosen@[k] < m by {
                    if k < ch.len() {
                        assert(chosen@[k] == ch[k]);
                    }
                }
                assert forall|k: int| 0 <= k < remaining@.len() implies #[trigger] remaining@[k] < m by {
                    let a = if k < best { k } else { k + 1 };
                    assert(remaining@[k] == rem[a]);
                }
            }
        }
        let mut out: Vec<TopDownload> = Vec::new();
        let mut k: usize = 0;
        while k < chosen.len()
            invariant
                self.wf(),
                m == self.downloads.entries@.len(),
                k <= chosen@.len(),
                forall|c: int| 0 <= c < chosen@.len() ==> #[trigger] chosen@[c] < m,
                out@.len() == k,
                forall|c: int| 0 <= c < k ==> (#[trigger] out@[c]).app_address@ == self.downloads.entries@[chosen@[c] as int].0@
                    && out@[c].info@ == self.downloads.entries@[chosen@[c] as int].1.info@,
            decreases chosen@.len() - k,
        {
            let idx = chosen[k];
            let entry = &self.downloads.entries[idx];
            out.push(TopDownload { app_address: entry.0.clone(), info: entry.1.info.duplicate() });
            k = k + 1;
        }
        proof {
            let kept = ranking_kept(self.download_counts(), self.download_counts().dom(), n as nat);
            let sa = addresses_at(e, survivors);
            self.lemma_addresses_distinct(survivors);
            assert(kept == sa.to_set());
            assert forall|c: int| 0 <= c < out@.len() implies kept.contains(#[trigger] out@[c].app_address@)
                && self.downloads.as_map().contains_key(out@[c].app_address@)
                && out@[c].info@ == self.downloads.as_map()[out@[c].app_address@].info@
                && self.count_of(out@[c].app_address@) == self.count_at(chosen@[c] as int) by {
                self.downloads.lemma_pos(chosen@[c] as int);
                assert(survivors.contains(chosen@[c]));
                let t = choose|t: int| 0 <= t < survivors.len() && survivors[t] == chosen@[c];
                assert(sa[t] == out@[c].app_address@);
            }
            assert forall|a: Seq<char>| #[trigger] kept.contains(a) implies exists|c: int| 0 <= c < out@.len() && out@[c].app_address@ == a by {
                let t = choose|t: int| 0 <= t < sa.len() && sa[t] == a;
                assert(survivors.contains(survivors[t]));
                assert(chosen@.contains(survivors[t]) || remaining@.contains(survivors[t]));
                let c = choose|c: int| 0 <= c < chosen@.len() && chosen@[c] == survivors[t];
                assert(out@[c].app_address@ == a);
            }
            assert forall|k1: int, k2: int| 0 <= k1 < k2 < out@.len() implies #[trigger] out@[k1].app_address@ != #[trigger] out@[k2].app_address@
                && self.count_of(out@[k1].app_address@) >= self.count_of(out@[k2].app_address@) by {
                self.lemma_distinct_addresses(chosen@[k1] as int, chosen@[k2] as int);
                self.downloads.lemma_pos(chosen@[k1] as int);
                self.downloads.lemma_pos(chosen@[k2] as int);
            }
            let counts = self.download_counts();
            self.lemma_all_offered(order@);
            assert(order@.subrange(0, order@.len() as int) =~= order@);
            assert forall|k1: int, k2: int| 0 <= k1 < k2 < order@.len() implies #[trigger] order@[k1] != #[trigger] order@[k2] by {
                lemma_addr_order(e[order@[k1] as int].0@, e[order@[k2] as int].0@);
            }
            self.lemma_addresses_distinct(order@);
            law_ranking_keeps_the_most_downloaded(counts, counts.dom(), n as nat);
            assert forall|a: Seq<char>| #[trigger] self.downloads.as_map().contains_key(a) && (forall|c: int| 0 <= c < out@.len() ==> out@[c].app_address@ != a)
                implies forall|c: int| 0 <= c < out@.len() ==> self.count_of(#[trigger] out@[c].app_address@) >= self.count_of(a) by {
                assert(counts.dom().contains(a));
                assert(!kept.contains(a));
                assert forall|c: int| 0 <= c < out@.len() implies self.count_of(#[trigger] out@[c].app_address@) >= self.count_of(a) by {
                    assert(kept.contains(out@[c].app_address@));
                    assert(counts.dom().contains(a) && !kept.contains(a) && kept.contains(out@[c].app_address@));
                }
            }
        }
        Ok(out)
    }
}

} // verus!
