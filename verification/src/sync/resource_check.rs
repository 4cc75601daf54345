//! Deadlock avoidance with the banker's algorithm, where each thread's
//! maximum claim grows on demand as it asks for resources.

use vstd::prelude::*;
use vstd::set_lib::*;

verus! {

/// Result of a resource acquire attempt for deadlock avoidance.
#[derive(Clone, Copy, PartialEq, Eq, Structural, Debug)]
pub enum AcquireResult {
    /// The units are granted at once; the state already records them.
    Granted,
    /// Safe to block; the claim is raised but nothing is allocated yet.
    WillWait,
}

/// The abstract state of the banker: totals and free units per resource,
/// and per thread the units held and the largest amount ever claimed.
#[verifier::ext_equal]
pub struct BankerView {
    pub total: Seq<usize>,
    pub available: Seq<usize>,
    pub allocation: Seq<Seq<usize>>,
    pub max_claim: Seq<Seq<usize>>,
}

impl BankerView {
    pub open spec fn num_threads(self) -> nat {
        self.allocation.len()
    }

    pub open spec fn num_resources(self) -> nat {
        self.total.len()
    }

    /// Every row has one entry per resource.
    pub open spec fn shaped(self) -> bool {
        &&& self.available.len() == self.total.len()
        &&& self.max_claim.len() == self.allocation.len()
        &&& forall|i: int|
            0 <= i < self.allocation.len() ==> #[trigger] self.allocation[i].len() == self.total.len()
        &&& forall|i: int|
            0 <= i < self.max_claim.len() ==> #[trigger] self.max_claim[i].len() == self.total.len()
    }

    pub open spec fn held(self, i: int, j: int) -> usize {
        self.allocation[i][j]
    }

    pub open spec fn claimed(self, i: int, j: int) -> usize {
        self.max_claim[i][j]
    }

    /// What thread `i` may still ask for of resource `j`.
    pub open spec fn need(self, i: int, j: int) -> int {
        if self.claimed(i, j) >= self.held(i, j) {
            self.claimed(i, j) - self.held(i, j)
        } else {
            0
        }
    }

    /// Units of resource `j` held by the threads below `k` that lie in `done`.
    pub open spec fn returned(self, done: Set<int>, j: int, k: int) -> int
        decreases k,
    {
        if k <= 0 {
            0
        } else {
            self.returned(done, j, k - 1) + if done.contains(k - 1) {
                self.held(k - 1, j) as int
            } else {
                0
            }
        }
    }

    /// Units of resource `j` free once every thread in `done` has finished
    /// and handed back what it holds.
    pub open spec fn work(self, done: Set<int>, j: int) -> int {
        self.available[j] + self.returned(done, j, self.num_threads() as int)
    }

    /// Thread `i` can run to completion once the threads in `done` have.
    pub open spec fn can_finish(self, i: int, done: Set<int>) -> bool {
        forall|j: int| 0 <= j < self.num_resources() ==> #[trigger] self.need(i, j) <= self.work(done, j)
    }

    /// `order` lists every thread exactly once, and each can finish after
    /// the ones before it.
    pub open spec fn safe_order(self, order: Seq<int>) -> bool {
        &&& order.no_duplicates()
        &&& forall|k: int| 0 <= k < order.len() ==> 0 <= #[trigger] order[k] < self.num_threads()
        &&& forall|i: int| 0 <= i < self.num_threads() ==> #[trigger] order.contains(i)
        &&& forall|k: int|
            0 <= k < order.len() ==> #[trigger] self.can_finish(order[k], order.take(k).to_set())
    }

    /// The state is safe: some order lets every thread finish.
    pub open spec fn safe(self) -> bool {
        exists|order: Seq<int>| #[trigger] self.safe_order(order)
    }

    pub open spec fn set_alloc(self, t: int, j: int, v: usize) -> BankerView {
        BankerView {
            total: self.total,
            available: self.available,
            allocation: self.allocation.update(t, self.allocation[t].update(j, v)),
            max_claim: self.max_claim,
        }
    }

    pub open spec fn set_claim(self, t: int, j: int, v: usize) -> BankerView {
        BankerView {
            total: self.total,
            available: self.available,
            allocation: self.allocation,
            max_claim: self.max_claim.update(t, self.max_claim[t].update(j, v)),
        }
    }

    pub open spec fn set_available(self, j: int, v: usize) -> BankerView {
        BankerView {
            total: self.total,
            available: self.available.update(j, v),
            allocation: self.allocation,
            max_claim: self.max_claim,
        }
    }

    /// The claim of `t` on `j` becomes at least `v`.
    pub open spec fn raise_claim(self, t: int, j: int, v: usize) -> BankerView {
        self.set_claim(t, j, if self.claimed(t, j) >= v { self.claimed(t, j) } else { v })
    }

    /// `k` units of `j` move from the free pool to thread `t`.
    pub open spec fn grant(self, t: int, j: int, k: usize) -> BankerView {
        self.set_available(j, (self.available[j] - k) as usize).set_alloc(
            t,
            j,
            (self.held(t, j) + k) as usize,
        )
    }

    /// Thread `t` hands `k` units of `j` back to the free pool.
    pub open spec fn give_back(self, t: int, j: int, k: usize) -> BankerView {
        self.set_alloc(t, j, (self.held(t, j) - k) as usize).set_available(
            j,
            (self.available[j] + k) as usize,
        )
    }

    /// `k` units of `j` pass from thread `from` to thread `to`.
    pub open spec fn hand_over(self, j: int, from: int, to: int, k: usize) -> BankerView {
        let v1 = self.set_alloc(from, j, (self.held(from, j) - k) as usize);
        v1.set_alloc(to, j, (v1.held(to, j) + k) as usize)
    }


    proof fn lemma_returned_nonneg(self, done: Set<int>, j: int, k: int)
        ensures
            self.returned(done, j, k) >= 0,
        decreases k,
    {
        if k > 0 {
            self.lemma_returned_nonneg(done, j, k - 1);
        }
    }


    proof fn lemma_returned_empty(self, j: int, k: int)
        ensures
            self.returned(Set::empty(), j, k) == 0,
        decreases k,
    {
        if k > 0 {
            self.lemma_returned_empty(j, k - 1);
        }
    }

    /// Adding one more finished thread adds what it holds.
    proof fn lemma_returned_insert(self, done: Set<int>, i: int, j: int, k: int)
        requires
            !done.contains(i),
        ensures
            self.returned(done.insert(i), j, k) == self.returned(done, j, k) + if 0 <= i < k {
                self.held(i, j) as int
            } else {
                0
            },
        decreases k,
    {
        if k > 0 {
            self.lemma_returned_insert(done, i, j, k - 1);
        }
    }

    /// More finished threads never return less.
    proof fn lemma_returned_mono(self, s: Set<int>, t: Set<int>, j: int, k: int)
        requires
            s.subset_of(t),
        ensures
            self.returned(s, j, k) <= self.returned(t, j, k),
        decreases k,
    {
        if k > 0 {
            self.lemma_returned_mono(s, t, j, k - 1);
        }
    }

    proof fn lemma_returned_bound(self, done: Set<int>, j: int, k: int)
        requires
            k >= 0,
        ensures
            self.returned(done, j, k) <= k * (usize::MAX as int),
        decreases k,
    {
        if k > 0 {
            self.lemma_returned_bound(done, j, k - 1);
        }
    }

    proof fn lemma_work_mono(self, s: Set<int>, t: Set<int>, i: int)
        requires
            s.subset_of(t),
            self.can_finish(i, s),
        ensures
            self.can_finish(i, t),
    {
        assert forall|j: int| 0 <= j < self.num_resources() implies #[trigger] self.need(i, j)
            <= self.work(t, j) by {
            self.lemma_returned_mono(s, t, j, self.num_threads() as int);
        }
    }

    /// In a safe order, every prefix lies inside any set of threads that no
    /// thread outside it can extend.
    proof fn lemma_prefix_inside(self, order: Seq<int>, done: Set<int>, k: int)
        requires
            self.safe_order(order),
            0 <= k <= order.len(),
            forall|i: int|
                0 <= i < self.num_threads() && !done.contains(i) ==> !#[trigger] self.can_finish(
                    i,
                    done,
                ),
        ensures
            order.take(k).to_set().subset_of(done),
        decreases k,
    {
        if k > 0 {
            self.lemma_prefix_inside(order, done, k - 1);
            let x = order[k - 1];
            assert(self.can_finish(x, order.take(k - 1).to_set()));
            self.lemma_work_mono(order.take(k - 1).to_set(), done, x);
            assert(done.contains(x));
            assert(order.take(k) =~= order.take(k - 1).push(x));
            order.take(k - 1).lemma_push_to_set_commute(x);
        }
    }

    /// If no unfinished thread can extend `done`, and some thread is
    /// unfinished, the state is unsafe.
    proof fn lemma_stuck_unsafe(self, done: Set<int>, missing: int)
        requires
            0 <= missing < self.num_threads(),
            !done.contains(missing),
            forall|i: int|
                0 <= i < self.num_threads() && !done.contains(i) ==> !#[trigger] self.can_finish(
                    i,
                    done,
                ),
        ensures
            !self.safe(),
    {
        if self.safe() {
            let order = choose|order: Seq<int>| self.safe_order(order);
            self.lemma_prefix_inside(order, done, order.len() as int);
            assert(order.take(order.len() as int) =~= order);
            assert(order.contains(missing));
            assert(order.to_set().contains(missing));
        }
    }

    /// When nobody needs anything more, the threads can finish in index order.
    proof fn lemma_identity_order_safe(self)
        requires
            forall|i: int, j: int|
                0 <= i < self.num_threads() && 0 <= j < self.num_resources() ==> self.need(i, j)
                    == 0,
        ensures
            self.safe(),
    {
        let n = self.num_threads();
        let order = Seq::new(n, |i: int| i);
        assert forall|i: int| 0 <= i < n implies #[trigger] order.contains(i) by {
            assert(order[i] == i);
        }
        assert forall|k: int| 0 <= k < order.len() implies #[trigger] self.can_finish(
            order[k],
            order.take(k).to_set(),
        ) by {
            assert forall|j: int| 0 <= j < self.num_resources() implies #[trigger] self.need(order[k], j)
                <= self.work(order.take(k).to_set(), j) by {
                self.lemma_returned_nonneg(order.take(k).to_set(), j, n as int);
            }
        }
        assert(self.safe_order(order));
    }

    /// Thread `t` and resource `j` exist, and `t` would hold no more than
    /// the total after taking `k` more units.
    pub open spec fn acquirable(self, t: int, j: int, k: int) -> bool {
        &&& 0 <= t < self.num_threads()
        &&& 0 <= j < self.num_resources()
        &&& self.held(t, j) + k <= self.total[j]
    }

    /// The answer to a request of thread `t` for `k` units of `j`, and the
    /// state after it, or `None` when the request is refused. The claim is
    /// raised to what `t` would then hold; the units are granted at once when
    /// enough are free and the state stays safe; otherwise the thread may
    /// wait if the raised claim leaves the state safe.
    pub open spec fn acquired(self, t: int, j: int, k: usize) -> Option<(AcquireResult, BankerView)> {
        if k == 0 {
            Some((AcquireResult::Granted, self))
        } else if !self.acquirable(t, j, k as int) {
            None
        } else {
            let raised = self.raise_claim(t, j, (self.held(t, j) + k) as usize);
            if k <= self.available[j] {
                let granted = raised.grant(t, j, k);
                if granted.safe() {
                    Some((AcquireResult::Granted, granted))
                } else {
                    None
                }
            } else if raised.safe() {
                Some((AcquireResult::WillWait, raised))
            } else {
                None
            }
        }
    }


    /// Units of resource `j` held by all threads together.
    pub open spec fn held_total(self, j: int) -> int {
        self.returned(Set::full(), j, self.num_threads() as int)
    }

    /// Units of resource `j` that exist in the system: free plus held.
    pub open spec fn units(self, j: int) -> int {
        self.available[j] + self.held_total(j)
    }

    proof fn lemma_returned_set_alloc(self, done: Set<int>, t: int, j: int, val: usize, jj: int, k: int)
        requires
            self.shaped(),
            0 <= t < self.num_threads(),
            0 <= j < self.num_resources(),
            0 <= jj < self.num_resources(),
            k <= self.num_threads(),
        ensures
            self.set_alloc(t, j, val).returned(done, jj, k) == self.returned(done, jj, k) + if jj == j
                && done.contains(t) && 0 <= t < k {
                val - self.held(t, j)
            } else {
                0
            },
        decreases k,
    {
        if k > 0 {
            self.lemma_returned_set_alloc(done, t, j, val, jj, k - 1);
        }
    }

    pub proof fn lemma_returned_set_available(self, done: Set<int>, j: int, a: usize, jj: int, k: int)
        ensures
            self.set_available(j, a).returned(done, jj, k) == self.returned(done, jj, k),
        decreases k,
    {
        if k > 0 {
            self.lemma_returned_set_available(done, j, a, jj, k - 1);
        }
    }

    /// Handing units back undoes granting them: a release after a grant of
    /// the same units restores the state.
    pub proof fn lemma_give_back_undoes_grant(self, t: int, j: int, k: usize)
        requires
            self.shaped(),
            0 <= t < self.num_threads(),
            0 <= j < self.num_resources(),
            k <= self.available[j],
            self.held(t, j) + k <= usize::MAX,
        ensures
            self.grant(t, j, k).give_back(t, j, k) == self,
    {
        let w = self.grant(t, j, k).give_back(t, j, k);
        assert(w.allocation[t] =~= self.allocation[t]);
        assert(w.allocation =~= self.allocation);
        assert(w.available =~= self.available);
        assert(w.max_claim =~= self.max_claim);
        assert(w =~= self);
    }

    /// Granting, handing back and handing over move units of a resource
    /// around without creating or destroying any.
    pub proof fn lemma_units_conserved(self, t: int, to: int, j: int, k: usize)
        requires
            self.shaped(),
            0 <= t < self.num_threads(),
            0 <= to < self.num_threads(),
            0 <= j < self.num_resources(),
        ensures
            k <= self.available[j] && self.held(t, j) + k <= usize::MAX ==> self.grant(t, j, k).units(j)
                == self.units(j),
            k <= self.held(t, j) && self.available[j] + k <= usize::MAX ==> self.give_back(t, j, k).units(j)
                == self.units(j),
            k <= self.held(t, j) && (t != to ==> self.held(to, j) + k <= usize::MAX) ==> self.hand_over(
                j,
                t,
                to,
                k,
            ).units(j) == self.units(j),
    {
        let n = self.num_threads() as int;
        let all = Set::<int>::full();
        if k <= self.available[j] && self.held(t, j) + k <= usize::MAX {
            let a = self.set_available(j, (self.available[j] - k) as usize);
            self.lemma_returned_set_available(all, j, (self.available[j] - k) as usize, j, n);
            a.lemma_returned_set_alloc(all, t, j, (self.held(t, j) + k) as usize, j, n);
        }
        if k <= self.held(t, j) && self.available[j] + k <= usize::MAX {
            let a = self.set_alloc(t, j, (self.held(t, j) - k) as usize);
            self.lemma_returned_set_alloc(all, t, j, (self.held(t, j) - k) as usize, j, n);
            a.lemma_returned_set_available(all, j, (self.available[j] + k) as usize, j, n);
        }
        if k <= self.held(t, j) && (t != to ==> self.held(to, j) + k <= usize::MAX) {
            let a = self.set_alloc(t, j, (self.held(t, j) - k) as usize);
            self.lemma_returned_set_alloc(all, t, j, (self.held(t, j) - k) as usize, j, n);
            assert(a.shaped());
            a.lemma_returned_set_alloc(all, to, j, (a.held(to, j) + k) as usize, j, n);
        }
    }

    proof fn lemma_returned_same_holdings(self, other: BankerView, done: Set<int>, j: int, k: int)
        requires
            self.allocation == other.allocation,
        ensures
            self.returned(done, j, k) == other.returned(done, j, k),
        decreases k,
    {
        if k > 0 {
            self.lemma_returned_same_holdings(other, done, j, k - 1);
        }
    }

    /// Raising a claim and then granting units leaves every resource with
    /// as many units as before.
    pub proof fn lemma_request_conserves_units(self, t: int, j: int, c: usize, k: usize)
        requires
            self.shaped(),
            0 <= t < self.num_threads(),
            0 <= j < self.num_resources(),
        ensures
            forall|jj: int|
                0 <= jj < self.num_resources() ==> #[trigger] self.set_claim(t, j, c).units(jj)
                    == self.units(jj),
            k <= self.available[j] && self.held(t, j) + k <= usize::MAX ==> forall|jj: int|
                0 <= jj < self.num_resources() ==> #[trigger] self.set_claim(t, j, c).grant(t, j, k).units(
                    jj,
                ) == self.units(jj),
    {
        let n = self.num_threads() as int;
        let all = Set::<int>::full();
        let raised = self.set_claim(t, j, c);
        assert forall|jj: int| 0 <= jj < self.num_resources() implies #[trigger] raised.units(jj)
            == self.units(jj) by {
            raised.lemma_returned_same_holdings(self, all, jj, n);
        }
        if k <= self.available[j] && self.held(t, j) + k <= usize::MAX {
            assert forall|jj: int| 0 <= jj < self.num_resources() implies #[trigger] raised.grant(
                t,
                j,
                k,
            ).units(jj) == self.units(jj) by {
                raised.lemma_returned_same_holdings(self, all, jj, n);
                let a = raised.set_available(j, (raised.available[j] - k) as usize);
                raised.lemma_returned_set_available(all, j, (raised.available[j] - k) as usize, jj, n);
                assert(a.shaped());
                a.lemma_returned_set_alloc(all, t, j, (raised.held(t, j) + k) as usize, jj, n);
            }
        }
    }

    /// What a request can come to. A thread is only told to wait when fewer
    /// units are free than it asks for, and nothing is allocated then. A
    /// grant of `k > 0` units moves exactly `k` free units of `j` to `t`,
    /// touches no other holding or free count, and leaves the state safe.
    /// A refusal only happens for a real request.
    pub proof fn lemma_request_outcomes(self, t: int, j: int, k: usize)
        requires
            self.shaped(),
        ensures
            self.acquired(t, j, k) matches Some((AcquireResult::WillWait, w)) ==> {
                &&& k > 0
                &&& k > self.available[j]
                &&& w.allocation == self.allocation
                &&& w.available == self.available
                &&& w.safe()
            },
            k > 0 && self.acquired(t, j, k) is Some ==> {
                let (a, w) = self.acquired(t, j, k)->0;
                a == AcquireResult::Granted ==> {
                &&& k <= self.available[j]
                &&& w.held(t, j) == self.held(t, j) + k
                &&& w.available[j] == self.available[j] - k
                &&& forall|i: int, jj: int|
                    0 <= i < self.num_threads() && 0 <= jj < self.num_resources() && (i != t || jj != j)
                        ==> #[trigger] w.held(i, jj) == self.held(i, jj)
                &&& forall|jj: int|
                    0 <= jj < self.num_resources() && jj != j ==> #[trigger] w.available[jj]
                        == self.available[jj]
                &&& w.safe()
                }
            },
            k == 0 ==> self.acquired(t, j, k) == Some((AcquireResult::Granted, self)),
            self.acquired(t, j, k) is None ==> k > 0,
            self.acquired(t, j, k) is None && self.acquirable(t, j, k as int) ==> {
                let raised = self.raise_claim(t, j, (self.held(t, j) + k) as usize);
                &&& k <= self.available[j] ==> !raised.grant(t, j, k).safe()
                &&& k > self.available[j] ==> !raised.safe()
            },
            self.acquired(t, j, k) is Some && k > 0 ==> self.acquirable(t, j, k as int),
    {
    }

    /// More free units never make a safe state unsafe.
    pub proof fn lemma_more_free_stays_safe(self, j: int, a: usize)
        requires
            self.shaped(),
            0 <= j < self.num_resources(),
            self.available[j] <= a,
            self.safe(),
        ensures
            self.set_available(j, a).safe(),
    {
        let w = self.set_available(j, a);
        let order = choose|order: Seq<int>| self.safe_order(order);
        assert forall|x: int| 0 <= x < order.len() implies #[trigger] w.can_finish(
            order[x],
            order.take(x).to_set(),
        ) by {
            let p = order.take(x).to_set();
            assert(self.can_finish(order[x], p));
            assert forall|jj: int| 0 <= jj < w.num_resources() implies #[trigger] w.need(order[x], jj)
                <= w.work(p, jj) by {
                self.lemma_returned_set_available(p, j, a, jj, self.num_threads() as int);
                assert(self.need(order[x], jj) <= self.work(p, jj));
            }
        }
        assert(w.safe_order(order));
    }

    /// A thread being given one more unit from outside the pool never makes
    /// a safe state unsafe: it needs no more than before, and hands back more.
    pub proof fn lemma_extra_unit_stays_safe(self, t: int, j: int)
        requires
            self.shaped(),
            0 <= t < self.num_threads(),
            0 <= j < self.num_resources(),
            self.held(t, j) < usize::MAX,
            self.safe(),
        ensures
            self.set_alloc(t, j, (self.held(t, j) + 1) as usize).safe(),
    {
        let n = self.num_threads() as int;
        let w = self.set_alloc(t, j, (self.held(t, j) + 1) as usize);
        let order = choose|order: Seq<int>| self.safe_order(order);
        assert forall|x: int| 0 <= x < order.len() implies #[trigger] w.can_finish(
            order[x],
            order.take(x).to_set(),
        ) by {
            let p = order.take(x).to_set();
            let i = order[x];
            assert(self.can_finish(i, p));
            assert forall|jj: int| 0 <= jj < w.num_resources() implies #[trigger] w.need(i, jj) <= w.work(
                p,
                jj,
            ) by {
                self.lemma_returned_set_alloc(p, t, j, (self.held(t, j) + 1) as usize, jj, n);
                self.lemma_returned_nonneg(p, jj, n);
                assert(self.need(i, jj) <= self.work(p, jj));
                assert(w.need(i, jj) <= self.need(i, jj));
            }
        }
        assert(w.safe_order(order));
    }

    /// A thread handing units back never makes a safe state unsafe: the
    /// order that worked before still works.
    pub proof fn lemma_give_back_stays_safe(self, t: int, j: int, k: usize)
        requires
            self.shaped(),
            0 <= t < self.num_threads(),
            0 <= j < self.num_resources(),
            k <= self.held(t, j),
            self.available[j] + k <= usize::MAX,
            self.safe(),
        ensures
            self.give_back(t, j, k).safe(),
    {
        let n = self.num_threads() as int;
        let a = self.set_alloc(t, j, (self.held(t, j) - k) as usize);
        let w = self.give_back(t, j, k);
        let order = choose|order: Seq<int>| self.safe_order(order);
        assert forall|x: int| 0 <= x < order.len() implies #[trigger] w.can_finish(
            order[x],
            order.take(x).to_set(),
        ) by {
            let p = order.take(x).to_set();
            let i = order[x];
            assert(self.can_finish(i, p));
            if p.contains(t) && i == t {
                let y = choose|y: int| 0 <= y < order.take(x).len() && order.take(x)[y] == t;
                assert(order[y] == order[x]);
            }
            assert forall|jj: int| 0 <= jj < w.num_resources() implies #[trigger] w.need(i, jj) <= w.work(
                p,
                jj,
            ) by {
                self.lemma_returned_set_alloc(p, t, j, (self.held(t, j) - k) as usize, jj, n);
                a.lemma_returned_set_available(p, j, (self.available[j] + k) as usize, jj, n);
                assert(self.need(i, jj) <= self.work(p, jj));
                if i == t && jj == j {
                    assert(w.need(i, jj) <= self.need(i, jj) + k);
                } else {
                    assert(w.need(i, jj) == self.need(i, jj));
                }
            }
        }
        assert(w.safe_order(order));
    }

    /// A fresh row for a thread that holds and claims nothing.
    pub open spec fn zero_row(m: nat) -> Seq<usize> {
        Seq::new(m, |_j: int| 0usize)
    }
}

/// The views of the rows of a matrix.
pub open spec fn rows(mat: Seq<Vec<usize>>) -> Seq<Seq<usize>> {
    mat.map_values(|r: Vec<usize>| r@)
}

/// Resource matrix for deadlock detection using the banker's algorithm.
/// Tracks total and available units per resource, and allocation, maximum
/// claim and need per thread.
pub struct ResourceCheck {
    /// Total instances per resource type (constant).
    pub total: Vec<usize>,
    available: Vec<usize>,
    allocation: Vec<Vec<usize>>,
    max_claim: Vec<Vec<usize>>,
    need: Vec<Vec<usize>>,
}

impl View for ResourceCheck {
    type V = BankerView;

    closed spec fn view(&self) -> BankerView {
        BankerView {
            total: self.total@,
            available: self.available@,
            allocation: rows(self.allocation@),
            max_claim: rows(self.max_claim@),
        }
    }
}

/// Writes `v` into row `i`, column `j` of a matrix.
fn set_cell(mat: &mut Vec<Vec<usize>>, i: usize, j: usize, v: usize)
    requires
        i < old(mat)@.len(),
        j < old(mat)@[i as int]@.len(),
    ensures
        final(mat)@.len() == old(mat)@.len(),
        forall|k: int|
            0 <= k < old(mat)@.len() ==> #[trigger] final(mat)@[k]@.len() == old(mat)@[k]@.len(),
        forall|k: int| 0 <= k < old(mat)@.len() && k != i ==> #[trigger] final(mat)@[k] == old(mat)@[k],
        final(mat)@[i as int]@ == old(mat)@[i as int]@.update(j as int, v),
        rows(final(mat)@) == rows(old(mat)@).update(
            i as int,
            rows(old(mat)@)[i as int].update(j as int, v),
        ),
{
    mat[i].set(j, v);
    assert(rows(mat@) =~= rows(old(mat)@).update(
        i as int,
        rows(old(mat)@)[i as int].update(j as int, v),
    ));
}

/// A sequence of distinct indices below `n` has at most `n` entries.
proof fn lemma_distinct_below(order: Seq<int>, n: int)
    requires
        n >= 0,
        order.no_duplicates(),
        forall|k: int| 0 <= k < order.len() ==> 0 <= #[trigger] order[k] < n,
    ensures
        order.len() <= n,
{
    order.unique_seq_to_set();
    lemma_int_range(0, n);
    assert(order.to_set().subset_of(set_int_range(0, n)));
    lemma_len_subset(order.to_set(), set_int_range(0, n));
}

/// The sum of at most `usize::MAX + 1` values below `usize::MAX` fits in a `u128`.
proof fn lemma_wide_sum_fits(n: int, x: int)
    requires
        0 <= n <= usize::MAX,
        0 <= x <= usize::MAX + n * (usize::MAX as int),
    ensures
        x <= u128::MAX,
{
    assert(usize::MAX <= u64::MAX);
    assert(n * (usize::MAX as int) <= (u64::MAX as int) * (u64::MAX as int)) by (nonlinear_arith)
        requires
            0 <= n <= u64::MAX,
            usize::MAX <= u64::MAX,
    ;
}

/// Appends a zero to every row of a matrix.
fn push_zero_column(mat: &mut Vec<Vec<usize>>)
    ensures
        final(mat)@.len() == old(mat)@.len(),
        forall|i: int| 0 <= i < old(mat)@.len() ==> #[trigger] final(mat)@[i]@ == old(mat)@[i]@.push(0),
{
    let mut i: usize = 0;
    while i < mat.len()
        invariant
            i <= mat@.len(),
            mat@.len() == old(mat)@.len(),
            forall|x: int| 0 <= x < i ==> #[trigger] mat@[x]@ == old(mat)@[x]@.push(0),
            forall|x: int| i <= x < mat@.len() ==> #[trigger] mat@[x] == old(mat)@[x],
        decreases mat@.len() - i,
    {
        mat[i].push(0);
        i = i + 1;
    }
}

/// A row of `m` zeros.
fn zero_row(m: usize) -> (r: Vec<usize>)
    ensures
        r@ == BankerView::zero_row(m as nat),
{
    let mut r: Vec<usize> = Vec::new();
    let mut j: usize = 0;
    while j < m
        invariant
            j <= m,
            r@ == BankerView::zero_row(j as nat),
        decreases m - j,
    {
        r.push(0);
        j = j + 1;
        assert(r@ =~= BankerView::zero_row(j as nat));
    }
    r
}

impl ResourceCheck {
    /// The matrices agree in shape, and `need` is the claim less the
    /// allocation, floored at zero.
    pub closed spec fn wf(&self) -> bool {
        &&& self.dims()
        &&& forall|i: int, j: int|
            0 <= i < self.need@.len() && 0 <= j < self.total@.len()
                ==> #[trigger] self.need@[i]@[j] == self@.need(i, j)
    }

    closed spec fn dims(&self) -> bool {
        &&& self@.shaped()
        &&& forall|i: int|
            0 <= i < self.allocation@.len() ==> #[trigger] self.allocation@[i]@.len() == self.total@.len()
        &&& forall|i: int|
            0 <= i < self.max_claim@.len() ==> #[trigger] self.max_claim@[i]@.len() == self.total@.len()
        &&& self.need@.len() == self.allocation@.len()
        &&& forall|i: int|
            0 <= i < self.need@.len() ==> #[trigger] self.need@[i]@.len() == self.total@.len()
    }

    closed spec fn wf_except(&self, t: int) -> bool {
        &&& self.dims()
        &&& forall|i: int, j: int|
            0 <= i < self.need@.len() && 0 <= j < self.total@.len() && i != t
                ==> #[trigger] self.need@[i]@[j] == self@.need(i, j)
    }

    fn recompute_need_row(&mut self, t: usize)
        requires
            old(self).dims(),
            t < old(self)@.num_threads(),
        ensures
            final(self).dims(),
            final(self)@ == old(self)@,
            old(self).wf_except(t as int) ==> final(self).wf(),
            forall|i: int|
                0 <= i < final(self).need@.len() && i != t ==> #[trigger] final(self).need@[i]
                    == old(self).need@[i],
            forall|j: int|
                0 <= j < final(self).total@.len() ==> #[trigger] final(self).need@[t as int]@[j]
                    == final(self)@.need(t as int, j),
    {
        let m = self.num_resources();
        let mut j: usize = 0;
        while j < m
            invariant
                m == self@.num_resources(),
                t < self@.num_threads(),
                self@ == old(self)@,
                self.dims(),
                old(self).dims(),
                j <= m,
                forall|i: int|
                    0 <= i < self.need@.len() && i != t ==> #[trigger] self.need@[i] == old(self).need@[i],
                forall|x: int| 0 <= x < j ==> #[trigger] self.need@[t as int]@[x] == self@.need(t as int, x),
            decreases m - j,
        {
            let v = self.max_claim[t][j].saturating_sub(self.allocation[t][j]);
            set_cell(&mut self.need, t, j, v);
            j = j + 1;
        }
    }

    /// A well-formed state has one entry per resource in every row.
    pub proof fn lemma_wf_shaped(&self)
        requires
            self.wf(),
        ensures
            self@.shaped(),
    {
    }

    /// Create an empty resource check state (no threads, no resources).
    pub fn empty() -> (r: Self)
        ensures
            r.wf(),
            r@.total == Seq::<usize>::empty(),
            r@.available == Seq::<usize>::empty(),
            r@.allocation == Seq::<Seq<usize>>::empty(),
            r@.max_claim == Seq::<Seq<usize>>::empty(),
    {
        let r = Self {
            total: Vec::new(),
            available: Vec::new(),
            allocation: Vec::new(),
            max_claim: Vec::new(),
            need: Vec::new(),
        };
        assert(r@.allocation =~= Seq::<Seq<usize>>::empty());
        assert(r@.max_claim =~= Seq::<Seq<usize>>::empty());
        r
    }


    /// `totals[j]` = total instances of resource j. Rows indexed by tid (0..num_threads).
    pub fn new(num_threads: usize, totals: Vec<usize>) -> (r: Self)
        ensures
            r.wf(),
            r@.total == totals@,
            r@.available == totals@,
            r@.allocation == Seq::new(num_threads as nat, |_i: int| BankerView::zero_row(totals@.len())),
            r@.max_claim == Seq::new(num_threads as nat, |_i: int| BankerView::zero_row(totals@.len())),
            r@.safe(),
    {
        let m = totals.len();
        let available = totals.clone();
        assert(available@ =~= totals@);
        let mut allocation: Vec<Vec<usize>> = Vec::new();
        let mut max_claim: Vec<Vec<usize>> = Vec::new();
        let mut need: Vec<Vec<usize>> = Vec::new();
        let mut i: usize = 0;
        while i < num_threads
            invariant
                i <= num_threads,
                allocation@.len() == i,
                max_claim@.len() == i,
                need@.len() == i,
                forall|k: int| 0 <= k < i ==> #[trigger] allocation@[k]@ == BankerView::zero_row(m as nat),
                forall|k: int| 0 <= k < i ==> #[trigger] max_claim@[k]@ == BankerView::zero_row(m as nat),
                forall|k: int| 0 <= k < i ==> #[trigger] need@[k]@ == BankerView::zero_row(m as nat),
            decreases num_threads - i,
        {
            allocation.push(zero_row(m));
            max_claim.push(zero_row(m));
            need.push(zero_row(m));
            i = i + 1;
        }
        let r = Self { total: totals, available, allocation, max_claim, need };
        assert(r@.allocation =~= Seq::new(num_threads as nat, |_i: int| BankerView::zero_row(m as nat)));
        assert(r@.max_claim =~= Seq::new(num_threads as nat, |_i: int| BankerView::zero_row(m as nat)));
        proof {
            r@.lemma_identity_order_safe();
        }
        r
    }



    /// Ensure at least `n` thread rows exist.
    pub fn ensure_threads(&mut self, n: usize)
        requires
            old(self).wf(),
        ensures
            final(self).wf(),
            final(self)@.total == old(self)@.total,
            final(self)@.available == old(self)@.available,
            n <= old(self)@.num_threads() ==> final(self)@ == old(self)@,
            n > old(self)@.num_threads() ==> {
                let extra = Seq::new(
                    (n - old(self)@.num_threads()) as nat,
                    |_i: int| BankerView::zero_row(old(self)@.num_resources()),
                );
                &&& final(self)@.allocation == old(self)@.allocation + extra
                &&& final(self)@.max_claim == old(self)@.max_claim + extra
            },
    {
        let m = self.num_resources();
        let ghost n0 = self.allocation@.len();
        while self.allocation.len() < n
            invariant
                self.wf(),
                old(self).wf(),
                m == self@.num_resources(),
                self@.total == old(self)@.total,
                self@.available == old(self)@.available,
                n0 == old(self)@.num_threads(),
                n0 <= self@.num_threads(),
                n > n0 ==> self@.num_threads() <= n,
                n <= n0 ==> self@ == old(self)@,
                forall|i: int| 0 <= i < n0 ==> #[trigger] self.allocation@[i] == old(self).allocation@[i],
                forall|i: int| 0 <= i < n0 ==> #[trigger] self.max_claim@[i] == old(self).max_claim@[i],
                forall|i: int|
                    n0 <= i < self@.num_threads() ==> #[trigger] self.allocation@[i]@
                        == BankerView::zero_row(m as nat),
                forall|i: int|
                    n0 <= i < self@.num_threads() ==> #[trigger] self.max_claim@[i]@
                        == BankerView::zero_row(m as nat),
            decreases n - self@.num_threads(),
        {
            self.allocation.push(zero_row(m));
            self.max_claim.push(zero_row(m));
            self.need.push(zero_row(m));
        }
        proof {
            if n > n0 {
                let extra = Seq::new((n - n0) as nat, |_i: int| BankerView::zero_row(m as nat));
                assert(self@.allocation =~= old(self)@.allocation + extra);
                assert(self@.max_claim =~= old(self)@.max_claim + extra);
            } else {
                assert(self@.allocation =~= old(self)@.allocation);
                assert(self@.max_claim =~= old(self)@.max_claim);
            }
        }
    }

    /// Append a new resource column. `total_j` is its instance count.
    pub fn push_resource(&mut self, total_j: usize)
        requires
            old(self).wf(),
        ensures
            final(self).wf(),
            final(self)@.total == old(self)@.total.push(total_j),
            final(self)@.available == old(self)@.available.push(total_j),
            final(self)@.allocation == old(self)@.allocation.map_values(|r: Seq<usize>| r.push(0)),
            final(self)@.max_claim == old(self)@.max_claim.map_values(|r: Seq<usize>| r.push(0)),
    {
        self.total.push(total_j);
        self.available.push(total_j);
        push_zero_column(&mut self.allocation);
        push_zero_column(&mut self.max_claim);
        push_zero_column(&mut self.need);
        assert(self@.allocation =~= old(self)@.allocation.map_values(|r: Seq<usize>| r.push(0)));
        assert(self@.max_claim =~= old(self)@.max_claim.map_values(|r: Seq<usize>| r.push(0)));
        assert forall|i: int, j: int|
            0 <= i < self.need@.len() && 0 <= j < self.total@.len()
                implies #[trigger] self.need@[i]@[j] == self@.need(i, j) by {
            if j < old(self)@.num_resources() {
                assert(self@.need(i, j) == old(self)@.need(i, j));
            }
        }
    }

    /// Set the available count for resource `j`.
    pub fn set_available(&mut self, j: usize, available: usize)
        requires
            old(self).wf(),
        ensures
            final(self).wf(),
            j < old(self)@.num_resources() ==> final(self)@ == old(self)@.set_available(j as int, available),
            j >= old(self)@.num_resources() ==> final(self)@ == old(self)@,
            j < old(self)@.num_resources() && old(self)@.available[j as int] <= available
                && old(self)@.safe() ==> final(self)@.safe(),
    {
        proof {
            if j < old(self)@.num_resources() && old(self)@.available[j as int] <= available
                && old(self)@.safe() {
                old(self)@.lemma_more_free_stays_safe(j as int, available);
            }
        }
        if j < self.available.len() {
            self.available.set(j, available);
        }
        assert(self.available@.len() == self.total@.len());
    }

    /// Try to acquire `k` units of resource `j` for thread `t`.
    /// On success, either the units are already granted (`Granted`) or the
    /// caller may block (`WillWait`). On failure, the state is unchanged and
    /// the request would be unsafe (deadlock).
    pub fn try_acquire(&mut self, t: usize, j: usize, k: usize) -> (r: Result<AcquireResult, ()>)
        requires
            old(self).wf(),
        ensures
            final(self).wf(),
            match old(self)@.acquired(t as int, j as int, k) {
                Some((a, v)) => r == Ok::<AcquireResult, ()>(a) && final(self)@ == v,
                None => r == Err::<AcquireResult, ()>(()) && final(self)@ == old(self)@,
            },
            r is Ok && k > 0 ==> final(self)@.safe(),
            r is Err ==> final(self)@ == old(self)@,
            r == Ok::<AcquireResult, ()>(AcquireResult::WillWait) ==> k > old(self)@.available[j as int]
                && final(self)@.allocation == old(self)@.allocation
                && final(self)@.available == old(self)@.available,
            final(self)@.total == old(self)@.total,
            final(self)@.num_threads() == old(self)@.num_threads(),
            forall|jj: int|
                0 <= jj < old(self)@.num_resources() ==> #[trigger] final(self)@.units(jj) == old(self)@.units(jj),
    {
        if k == 0 {
            return Ok(AcquireResult::Granted);
        }
        if j >= self.total.len() || t >= self.allocation.len() {
            return Err(());
        }
        let cur = self.allocation[t][j];
        if cur > self.total[j] || k > self.total[j] - cur {
            return Err(());
        }
        let ghost v0 = self@;
        let old_max = self.max_claim[t][j];
        let new_max = if old_max >= cur + k {
            old_max
        } else {
            cur + k
        };
        set_cell(&mut self.max_claim, t, j, new_max);
        self.recompute_need_row(t);
        let ghost raised = self@;
        assert(raised == v0.raise_claim(t as int, j as int, (cur + k) as usize));
        proof {
            v0.lemma_request_outcomes(t as int, j as int, k);
            v0.lemma_request_conserves_units(t as int, j as int, new_max, k);
        }
        if k <= self.available[j] {
            let a = self.available[j] - k;
            self.available.set(j, a);
            set_cell(&mut self.allocation, t, j, cur + k);
            self.recompute_need_row(t);
            assert(self@ =~= raised.grant(t as int, j as int, k));
            if self.is_safe() {
                return Ok(AcquireResult::Granted);
            }
            // rollback grant + max bump
            set_cell(&mut self.allocation, t, j, cur);
            self.available.set(j, a + k);
            set_cell(&mut self.max_claim, t, j, old_max);
            self.recompute_need_row(t);
            assert(self@.allocation[t as int] =~= v0.allocation[t as int]);
            assert(self@.max_claim[t as int] =~= v0.max_claim[t as int]);
            assert(self@.allocation =~= v0.allocation);
            assert(self@.max_claim =~= v0.max_claim);
            assert(self@ =~= v0);
            return Err(());
        }
        // Must wait: no grant yet
        if self.is_safe() {
            return Ok(AcquireResult::WillWait);
        }
        set_cell(&mut self.max_claim, t, j, old_max);
        self.recompute_need_row(t);
        assert(self@.max_claim[t as int] =~= v0.max_claim[t as int]);
        assert(self@.max_claim =~= v0.max_claim);
        assert(self@ =~= v0);
        Err(())
    }

    /// After blocking wait, the kernel object has granted `k` units (pool was non-empty).
    pub fn complete_acquire_after_wait(&mut self, t: usize, j: usize, k: usize)
        requires
            old(self).wf(),
            k > 0 && j < old(self)@.num_resources() && t < old(self)@.num_threads() ==> {
                &&& old(self)@.available[j as int] >= k
                &&& old(self)@.held(t as int, j as int) + k <= usize::MAX
            },
        ensures
            final(self).wf(),
            k > 0 && j < old(self)@.num_resources() && t < old(self)@.num_threads() ==> final(self)@
                == old(self)@.grant(t as int, j as int, k),
            !(k > 0 && j < old(self)@.num_resources() && t < old(self)@.num_threads()) ==> final(self)@
                == old(self)@,
    {
        if k == 0 || j >= self.total.len() || t >= self.allocation.len() {
            return;
        }
        let a = self.available[j] - k;
        self.available.set(j, a);
        let h = self.allocation[t][j] + k;
        set_cell(&mut self.allocation, t, j, h);
        self.recompute_need_row(t);
        assert(self@ =~= old(self)@.grant(t as int, j as int, k));
    }

    /// Thread `t` releases `k` units of resource `j` back to the pool.
    pub fn release(&mut self, t: usize, j: usize, k: usize)
        requires
            old(self).wf(),
            k > 0 && j < old(self)@.num_resources() && t < old(self)@.num_threads() ==> {
                &&& old(self)@.held(t as int, j as int) >= k
                &&& old(self)@.available[j as int] + k <= usize::MAX
            },
        ensures
            final(self).wf(),
            k > 0 && j < old(self)@.num_resources() && t < old(self)@.num_threads() ==> final(self)@
                == old(self)@.give_back(t as int, j as int, k),
            !(k > 0 && j < old(self)@.num_resources() && t < old(self)@.num_threads()) ==> final(self)@
                == old(self)@,
            old(self)@.safe() ==> final(self)@.safe(),
    {
        if k == 0 || j >= self.total.len() || t >= self.allocation.len() {
            return;
        }
        proof {
            if old(self)@.safe() {
                old(self)@.lemma_give_back_stays_safe(t as int, j as int, k);
            }
        }
        let h = self.allocation[t][j] - k;
        set_cell(&mut self.allocation, t, j, h);
        let a = self.available[j] + k;
        self.available.set(j, a);
        self.recompute_need_row(t);
        assert(self@ =~= old(self)@.give_back(t as int, j as int, k));
    }

    /// Mutex unlock handoff: the lock goes from `from` to `to` without a free interval.
    pub fn transfer_allocation(&mut self, j: usize, from: usize, to: usize, k: usize)
        requires
            old(self).wf(),
            k > 0 && j < old(self)@.num_resources() ==> {
                &&& from < old(self)@.num_threads()
                &&& to < old(self)@.num_threads()
                &&& old(self)@.held(from as int, j as int) >= k
                &&& from != to ==> old(self)@.held(to as int, j as int) + k <= usize::MAX
            },
        ensures
            final(self).wf(),
            k > 0 && j < old(self)@.num_resources() ==> final(self)@ == old(self)@.hand_over(
                j as int,
                from as int,
                to as int,
                k,
            ),
            !(k > 0 && j < old(self)@.num_resources()) ==> final(self)@ == old(self)@,
    {
        if k == 0 || j >= self.total.len() {
            return;
        }
        let h = self.allocation[from][j] - k;
        set_cell(&mut self.allocation, from, j, h);
        let h2 = self.allocation[to][j] + k;
        set_cell(&mut self.allocation, to, j, h2);
        self.recompute_need_row(from);
        self.recompute_need_row(to);
        assert(self@ =~= old(self)@.hand_over(j as int, from as int, to as int, k));
    }

    /// Semaphore `up` wakes `waiter_tid`: one instance goes directly to the waiter.
    pub fn semaphore_up_wake(&mut self, j: usize, waiter_tid: usize)
        requires
            old(self).wf(),
            j < old(self)@.num_resources() && waiter_tid < old(self)@.num_threads() ==> old(self)@.held(
                waiter_tid as int,
                j as int,
            ) < usize::MAX,
        ensures
            final(self).wf(),
            j < old(self)@.num_resources() && waiter_tid < old(self)@.num_threads() ==> final(self)@
                == old(self)@.set_alloc(
                waiter_tid as int,
                j as int,
                (old(self)@.held(waiter_tid as int, j as int) + 1) as usize,
            ),
            !(j < old(self)@.num_resources() && waiter_tid < old(self)@.num_threads()) ==> final(self)@
                == old(self)@,
            old(self)@.safe() ==> final(self)@.safe(),
    {
        if j >= self.total.len() || waiter_tid >= self.allocation.len() {
            return;
        }
        proof {
            if old(self)@.safe() {
                old(self)@.lemma_extra_unit_stays_safe(waiter_tid as int, j as int);
            }
        }
        let h = self.allocation[waiter_tid][j] + 1;
        set_cell(&mut self.allocation, waiter_tid, j, h);
        self.recompute_need_row(waiter_tid);
        assert(self@ =~= old(self)@.set_alloc(waiter_tid as int, j as int, h));
    }

    /// Semaphore `up` with no waiter: increment the available pool.
    pub fn semaphore_up_no_waiter(&mut self, j: usize, k: usize)
        requires
            old(self).wf(),
            j < old(self)@.num_resources() ==> old(self)@.available[j as int] + k <= usize::MAX,
        ensures
            final(self).wf(),
            j < old(self)@.num_resources() ==> final(self)@ == old(self)@.set_available(
                j as int,
                (old(self)@.available[j as int] + k) as usize,
            ),
            j >= old(self)@.num_resources() ==> final(self)@ == old(self)@,
            old(self)@.safe() ==> final(self)@.safe(),
    {
        if j >= self.total.len() {
            return;
        }
        proof {
            if old(self)@.safe() {
                old(self)@.lemma_more_free_stays_safe(j as int, (old(self)@.available[j as int] + k) as usize);
            }
        }
        let a = self.available[j] + k;
        self.available.set(j, a);
        assert(self@ =~= old(self)@.set_available(j as int, a));
    }

    /// Get the number of instances of resource `j` currently allocated to thread `t`.
    pub fn allocation(&self, t: usize, j: usize) -> (r: usize)
        requires
            self.wf(),
        ensures
            t < self@.num_threads() && j < self@.num_resources() ==> r == self@.held(t as int, j as int),
            !(t < self@.num_threads() && j < self@.num_resources()) ==> r == 0,
    {
        if t < self.allocation.len() && j < self.total.len() {
            self.allocation[t][j]
        } else {
            0
        }
    }

    /// Banker's safety algorithm: true iff state is safe.
    pub fn is_safe(&self) -> (r: bool)
        requires
            self.wf(),
        ensures
            r == self@.safe(),
    {
        let m = self.num_resources();
        let n = self.num_threads();
        let ghost v = self@;
        if m == 0 || n == 0 {
            proof {
                v.lemma_identity_order_safe();
            }
            return true;
        }
        // `work` is kept in `u128`: the free units plus everything every thread
        // holds always fits there, so handing allocations back cannot overflow.
        let mut work: Vec<u128> = Vec::new();
        let mut j: usize = 0;
        while j < m
            invariant
                self.wf(),
                v == self@,
                m == v.num_resources(),
                n == v.num_threads(),
                j <= m,
                work@.len() == j,
                forall|x: int| 0 <= x < j ==> #[trigger] work@[x] == v.work(Set::empty(), x),
            decreases m - j,
        {
            proof {
                v.lemma_returned_empty(j as int, n as int);
            }
            work.push(self.available[j] as u128);
            j = j + 1;
        }
        let mut finish: Vec<bool> = Vec::new();
        let mut i: usize = 0;
        while i < n
            invariant
                i <= n,
                finish@.len() == i,
                forall|x: int| 0 <= x < i ==> #[trigger] finish@[x] == false,
            decreases n - i,
        {
            finish.push(false);
            i = i + 1;
        }
        let ghost mut order: Seq<int> = Seq::empty();
        assert(order.to_set() =~= Set::<int>::empty());
        loop
            invariant
                self.wf(),
                v == self@,
                m == v.num_resources(),
                n == v.num_threads(),
                work@.len() == m,
                finish@.len() == n,
                forall|x: int| 0 <= x < n ==> #[trigger] finish@[x] == order.contains(x),
                order.no_duplicates(),
                forall|k: int| 0 <= k < order.len() ==> 0 <= #[trigger] order[k] < n,
                order.len() <= n,
                forall|x: int| 0 <= x < m ==> #[trigger] work@[x] == v.work(order.to_set(), x),
                forall|k: int|
                    0 <= k < order.len() ==> #[trigger] v.can_finish(order[k], order.take(k).to_set()),
            ensures
                forall|x: int| 0 <= x < n ==> #[trigger] finish@[x] == order.contains(x),
                order.no_duplicates(),
                forall|k: int| 0 <= k < order.len() ==> 0 <= #[trigger] order[k] < n,
                forall|k: int|
                    0 <= k < order.len() ==> #[trigger] v.can_finish(order[k], order.take(k).to_set()),
                forall|x: int| 0 <= x < n && !finish@[x] ==> !#[trigger] v.can_finish(x, order.to_set()),
            decreases n - order.len(),
        {
            let ghost order0 = order;
            let mut found = false;
            let mut i: usize = 0;
            while i < n
                invariant
                    self.wf(),
                    v == self@,
                    m == v.num_resources(),
                    n == v.num_threads(),
                    work@.len() == m,
                    finish@.len() == n,
                    i <= n,
                    forall|x: int| 0 <= x < n ==> #[trigger] finish@[x] == order.contains(x),
                    order.no_duplicates(),
                    forall|k: int| 0 <= k < order.len() ==> 0 <= #[trigger] order[k] < n,
                    order.len() <= n,
                    forall|x: int| 0 <= x < m ==> #[trigger] work@[x] == v.work(order.to_set(), x),
                    forall|k: int|
                        0 <= k < order.len() ==> #[trigger] v.can_finish(
                            order[k],
                            order.take(k).to_set(),
                        ),
                    !found ==> order == order0,
                    found ==> order.len() > order0.len(),
                    !found ==> forall|x: int|
                        0 <= x < i ==> finish@[x] || !#[trigger] v.can_finish(x, order.to_set()),
                decreases n - i,
            {
                if !finish[i] {
                    let mut ok = true;
                    let mut jj: usize = 0;
                    while jj < m
                        invariant
                            self.wf(),
                            v == self@,
                            m == v.num_resources(),
                            n == v.num_threads(),
                            i < n,
                            work@.len() == m,
                            jj <= m,
                            ok == forall|x: int|
                                0 <= x < jj ==> #[trigger] v.need(i as int, x) <= work@[x],
                        decreases m - jj,
                    {
                        ok = ok && (self.need[i][jj] as u128) <= work[jj];
                        jj = jj + 1;
                    }
                    let ghost done = order.to_set();
                    if ok {
                        assert(v.can_finish(i as int, done));
                        assert(!done.contains(i as int));
                        let mut jj: usize = 0;
                        while jj < m
                            invariant
                                self.wf(),
                                v == self@,
                                m == v.num_resources(),
                                n == v.num_threads(),
                                i < n,
                                !done.contains(i as int),
                                work@.len() == m,
                                jj <= m,
                                forall|x: int|
                                    0 <= x < jj ==> #[trigger] work@[x] == v.work(
                                        done.insert(i as int),
                                        x,
                                    ),
                                forall|x: int| jj <= x < m ==> #[trigger] work@[x] == v.work(done, x),
                            decreases m - jj,
                        {
                            proof {
                                v.lemma_returned_insert(done, i as int, jj as int, n as int);
                                v.lemma_returned_bound(done.insert(i as int), jj as int, n as int);
                                v.lemma_returned_nonneg(done.insert(i as int), jj as int, n as int);
                                lemma_wide_sum_fits(
                                    n as int,
                                    v.work(done.insert(i as int), jj as int),
                                );
                            }
                            let add = self.allocation[i][jj] as u128;
                            let w = work[jj] + add;
                            work.set(jj, w);
                            jj = jj + 1;
                        }
                        finish.set(i, true);
                        proof {
                            let old_order = order;
                            order = order.push(i as int);
                            old_order.lemma_push_to_set_commute(i as int);
                            assert(order.to_set() == done.insert(i as int));
                            assert forall|x: int| 0 <= x < n implies #[trigger] finish@[x]
                                == order.contains(x) by {
                                if x == i {
                                    assert(order[old_order.len() as int] == x);
                                } else if old_order.contains(x) {
                                    let w = choose|w: int| 0 <= w < old_order.len() && old_order[w] == x;
                                    assert(order[w] == x);
                                }
                            }
                            assert forall|k: int|
                                0 <= k < order.len() implies #[trigger] v.can_finish(
                                order[k],
                                order.take(k).to_set(),
                            ) by {
                                if k < old_order.len() {
                                    assert(order.take(k) =~= old_order.take(k));
                                } else {
                                    assert(order.take(k) =~= old_order);
                                }
                            }
                            lemma_distinct_below(order, n as int);
                        }
                        found = true;
                    }
                }
                i = i + 1;
            }
            if !found {
                break;
            }
        }
        let mut all = true;
        let mut i: usize = 0;
        while i < n
            invariant
                i <= n,
                finish@.len() == n,
                all == forall|x: int| 0 <= x < i ==> #[trigger] finish@[x],
            decreases n - i,
        {
            all = all && finish[i];
            i = i + 1;
        }
        proof {
            if all {
                assert forall|x: int| 0 <= x < n implies #[trigger] order.contains(x) by {
                    assert(finish@[x]);
                }
                assert(v.safe_order(order));
            } else {
                let missing = choose|x: int| 0 <= x < n && !#[trigger] finish@[x];
                v.lemma_stuck_unsafe(order.to_set(), missing);
            }
        }
        all
    }

    /// Get the number of threads in this resource matrix.
    pub fn num_threads(&self) -> (r: usize)
        ensures
            r == self@.num_threads(),
    {
        self.allocation.len()
    }

    /// The total instances of resource `j`, or 0 for an unknown resource.
    pub fn total_units(&self, j: usize) -> (r: usize)
        ensures
            j < self@.num_resources() ==> r == self@.total[j as int],
            j >= self@.num_resources() ==> r == 0,
    {
        if j < self.total.len() {
            self.total[j]
        } else {
            0
        }
    }

    /// The free instances of resource `j`, or 0 for an unknown resource.
    pub fn available_units(&self, j: usize) -> (r: usize)
        requires
            self.wf(),
        ensures
            j < self@.num_resources() ==> r == self@.available[j as int],
            j >= self@.num_resources() ==> r == 0,
    {
        if j < self.available.len() {
            self.available[j]
        } else {
            0
        }
    }

    /// Get the number of resource types tracked in this matrix.
    pub fn num_resources(&self) -> (r: usize)
        ensures
            r == self@.num_resources(),
    {
        self.total.len()
    }
}

} // verus!
