//! The driver's pagination policy: pages are requested one after
//! another, starting at page one, and the run stops after the first
//! page that comes back with fewer entries than a full page holds.

use vstd::prelude::*;

verus! {

/// The greatest number of entries one listing page can hold.
pub open spec fn page_capacity() -> int {
    100
}

/// How many pages the driver requests when the platform would answer
/// page `i` with `lens[i - 1]` entries: every page up to and including
/// the first short one.
pub open spec fn requests_made(lens: Seq<int>) -> int
    decreases lens.len(),
{
    if lens.len() == 0 {
        0
    } else if lens[0] < page_capacity() {
        1
    } else {
        1 + requests_made(lens.skip(1))
    }
}

/// How many entries the driver accumulates over the pages it requests.
pub open spec fn entries_listed(lens: Seq<int>) -> int
    decreases lens.len(),
{
    if lens.len() == 0 {
        0
    } else if lens[0] < page_capacity() {
        lens[0]
    } else {
        lens[0] + entries_listed(lens.skip(1))
    }
}

/// The sum of a sequence of page lengths.
pub open spec fn seq_sum(s: Seq<int>) -> int
    decreases s.len(),
{
    if s.len() == 0 {
        0
    } else {
        s[0] + seq_sum(s.skip(1))
    }
}

/// Pagination termination: when page `k` is the first short page, the
/// driver requests exactly pages one through `k` and accumulates the sum
/// of their lengths; in particular an empty first page stops the run
/// after one request with nothing accumulated.
pub proof fn lemma_pagination_termination(lens: Seq<int>, k: int)
    requires
        1 <= k <= lens.len(),
        lens[k - 1] < page_capacity(),
        forall|i: int| 0 <= i < k - 1 ==> lens[i] == page_capacity(),
        forall|i: int| 0 <= i < lens.len() ==> 0 <= #[trigger] lens[i] <= page_capacity(),
    ensures
        requests_made(lens) == k,
        entries_listed(lens) == seq_sum(lens.take(k)),
        entries_listed(lens) == page_capacity() * (k - 1) + lens[k - 1],
    decreases k,
{
    if k == 1 {
        assert(seq_sum(lens.take(1)) == lens[0] + seq_sum(lens.take(1).skip(1)));
        assert(lens.take(1).skip(1) =~= Seq::<int>::empty());
    } else {
        let rest = lens.skip(1);
        assert(rest[k - 2] == lens[k - 1]);
        assert(forall|i: int| 0 <= i < k - 2 ==> rest[i] == lens[i + 1]);
        assert(forall|i: int| 0 <= i < rest.len() ==> rest[i] == lens[i + 1]);
        lemma_pagination_termination(rest, k - 1);
        assert(lens.take(k).skip(1) =~= rest.take(k - 1));
        assert(seq_sum(lens.take(k)) == lens[0] + seq_sum(rest.take(k - 1)));
        assert(page_capacity() * (k - 1) == page_capacity() + page_capacity() * (k - 2))
            by (nonlinear_arith);
    }
}

/// An empty first page ends the listing after exactly one request, with
/// zero entries accumulated.
pub proof fn lemma_empty_first_page(lens: Seq<int>)
    requires
        lens.len() >= 1,
        lens[0] == 0,
        forall|i: int| 0 <= i < lens.len() ==> 0 <= #[trigger] lens[i] <= page_capacity(),
    ensures
        requests_made(lens) == 1,
        entries_listed(lens) == 0,
{
    lemma_pagination_termination(lens, 1);
}

/// The driver's pagination state: the next page to request, the entries
/// seen so far, and whether a short page has ended the listing.
pub struct Pager {
    pub next_page: u32,
    pub total: usize,
    pub done: bool,
}

impl Pager {
    /// A fresh run: the first request goes to page one.
    pub fn new() -> (p: Pager)
        ensures
            p.next_page == 1,
            p.total == 0,
            !p.done,
    {
        Pager { next_page: 1, total: 0, done: false }
    }

    /// The page number the next listing request asks for.
    pub fn page_to_request(&self) -> (r: u32)
        requires
            !self.done,
        ensures
            r == self.next_page,
    {
        self.next_page
    }

    /// Records one returned page: its entries join the total, the page
    /// counter moves on, and a short page ends the run.
    pub fn record_page(&mut self, page_len: usize)
        requires
            !old(self).done,
            page_len <= page_capacity(),
            old(self).total + page_len <= usize::MAX,
            old(self).next_page < u32::MAX,
        ensures
            final(self).total == old(self).total + page_len,
            final(self).next_page == old(self).next_page + 1,
            final(self).done == (page_len < page_capacity()),
    {
        self.total = self.total + page_len;
        self.next_page = self.next_page + 1;
        self.done = page_len < 100;
    }
}

/// Replays the pagination policy against given page lengths: the pair of
/// requests made and entries accumulated matches the policy's model.
pub fn replay_listing(lens: &Vec<usize>) -> (r: (usize, usize))
    requires
        exists|i: int| 0 <= i < lens@.len() && #[trigger] lens@[i] < page_capacity(),
        forall|i: int| 0 <= i < lens@.len() ==> #[trigger] lens@[i] <= page_capacity(),
        lens@.len() * page_capacity() <= usize::MAX,
        lens@.len() < u32::MAX,
    ensures
        r.0 == requests_made(lens@.map_values(|v: usize| v as int)),
        r.1 == entries_listed(lens@.map_values(|v: usize| v as int)),
{
    let ghost model = lens@.map_values(|v: usize| v as int);
    let mut pager = Pager::new();
    let mut requests: usize = 0;
    let mut idx: usize = 0;
    proof {
        assert(model.skip(0) =~= model);
        let w = choose|i: int| 0 <= i < lens@.len() && #[trigger] lens@[i] < page_capacity();
        assert(0 <= w < lens@.len());
    }
    while !pager.done
        invariant
            idx <= lens@.len(),
            requests == idx,
            model == lens@.map_values(|v: usize| v as int),
            forall|i: int| 0 <= i < lens@.len() ==> #[trigger] lens@[i] <= page_capacity(),
            exists|i: int| 0 <= i < lens@.len() && #[trigger] lens@[i] < page_capacity(),
            lens@.len() * page_capacity() <= usize::MAX,
            lens@.len() < u32::MAX,
            pager.done ==> requests_made(model) == idx,
            pager.done ==> entries_listed(model) == pager.total,
            !pager.done ==> forall|i: int| 0 <= i < idx ==> #[trigger] model[i] == page_capacity(),
            !pager.done ==> idx < lens@.len(),
            !pager.done ==> requests_made(model) == idx + requests_made(model.skip(idx as int)),
            !pager.done ==> entries_listed(model) == pager.total + entries_listed(
                model.skip(idx as int),
            ),
            pager.total <= idx * page_capacity(),
            pager.next_page as int == idx + 1,
        decreases lens@.len() - idx,
    {
        let len = lens[idx];
        proof {
            assert(idx * page_capacity() + page_capacity() <= lens@.len() * page_capacity())
                by (nonlinear_arith)
                requires
                    idx + 1 <= lens@.len(),
                    page_capacity() > 0,
            ;
        }
        pager.record_page(len);
        requests = requests + 1;
        idx = idx + 1;
        proof {
            let ghost i0 = idx - 1;
            let tail = model.skip(i0);
            assert(model[i0] == lens@[i0] as int);
            assert(tail[0] == model[i0]);
            assert(tail.skip(1) =~= model.skip(idx as int));
            if model[i0] < page_capacity() {
                assert(requests_made(tail) == 1);
                assert(entries_listed(tail) == model[i0]);
            } else {
                assert(requests_made(tail) == 1 + requests_made(model.skip(idx as int)));
                assert(entries_listed(tail) == model[i0] + entries_listed(
                    model.skip(idx as int),
                ));
            }
            if !pager.done {
                if idx >= lens@.len() {
                    let w = choose|i: int|
                        0 <= i < lens@.len() && #[trigger] lens@[i] < page_capacity();
                    assert(model[w] == page_capacity());
                    assert(false);
                }
            }
            assert(idx * page_capacity() == i0 * page_capacity() + page_capacity())
                by (nonlinear_arith)
                requires
                    idx == i0 + 1,
            ;
        }
    }
    (requests, pager.total)
}

} // verus!
