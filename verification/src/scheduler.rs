//! The concurrent install scheduler, modelled as a state machine.
//!
//! The scheduler owns the frontier of pending package requests, the set of
//! packages already installed, and the set currently in flight.  A driver
//! repeatedly asks for the next action: either dispatch one install task (the
//! request is atomically checked against the installed and in-flight sets and
//! reserved), wait for an in-flight task, or finish.  The driver reports each
//! task's outcome back through `on_success` / `on_failure`.  All checking and
//! reservation happens inside one call, so two tasks can never both win the
//! race to install the same package name.

use vstd::prelude::*;
use crate::version::{stripped_req, strip_range_markers, Version};
use crate::strutil::str_lt;

verus! {

/// A pending request: a package name and a version request string.
#[derive(Debug)]
pub struct PackageRequest {
    pub name: String,
    pub version_request: String,
}

/// What the driver should do next.
#[derive(Debug)]
pub enum Action {
    /// Run one install task for this request; its name is now reserved.
    Dispatch(PackageRequest),
    /// The frontier holds nothing dispatchable; wait for an in-flight task.
    Wait,
    /// Frontier drained and nothing in flight: the run is complete.
    Done,
}

/// Some entry of `s` is named `n`.
pub open spec fn has_name(s: Seq<(String, Version)>, n: Seq<char>) -> bool {
    exists|i: int| 0 <= i < s.len() && (#[trigger] s[i]).0@ == n
}

/// Some element of `s` reads `n`.
pub open spec fn has_str(s: Seq<String>, n: Seq<char>) -> bool {
    exists|i: int| 0 <= i < s.len() && (#[trigger] s[i])@ == n
}

/// How one `next_action` call relates the state before it, the state after
/// it, and the action it picked.
pub open spec fn next_action_rel(pre: Scheduler, post: Scheduler, a: Action) -> bool {
    &&& post.wf()
    &&& post.installed() == pre.installed()
    &&& post.capacity() == pre.capacity()
    &&& match a {
        Action::Dispatch(req) => {
            let k = post.frontier().len() as int;
            &&& pre.in_flight().len() < pre.capacity()
            &&& k < pre.frontier().len()
            &&& post.frontier() == pre.frontier().subrange(0, k)
            &&& req == pre.frontier()[k]
            &&& forall|m: int|
                k < m < pre.frontier().len() ==> pre.known(
                    (#[trigger] pre.frontier()[m]).name@,
                )
            &&& !pre.known(req.name@)
            &&& post.in_flight().len() == pre.in_flight().len() + 1
            &&& forall|m: int|
                0 <= m < pre.in_flight().len() ==> post.in_flight()[m] == pre.in_flight()[m]
            &&& post.in_flight().last()@ == req.name@
        },
        Action::Wait => {
            &&& post.in_flight() == pre.in_flight()
            &&& pre.in_flight().len() > 0
            &&& if pre.in_flight().len() >= pre.capacity() {
                post.frontier() == pre.frontier()
            } else {
                &&& post.frontier().len() == 0
                &&& forall|m: int|
                    0 <= m < pre.frontier().len() ==> pre.known(
                        (#[trigger] pre.frontier()[m]).name@,
                    )
            }
        },
        Action::Done => {
            &&& post.in_flight() == pre.in_flight()
            &&& pre.in_flight().len() == 0
            &&& post.frontier().len() == 0
            &&& forall|m: int|
                0 <= m < pre.frontier().len() ==> has_name(
                    pre.installed(),
                    (#[trigger] pre.frontier()[m]).name@,
                )
        },
    }
}

/// The bounded-concurrency install scheduler.
pub struct Scheduler {
    frontier: Vec<PackageRequest>,
    in_flight: Vec<String>,
    installed: Vec<(String, Version)>,
    capacity: usize,
}

impl Scheduler {
    /// The frontier of pending requests.
    pub closed spec fn frontier(self) -> Seq<PackageRequest> {
        self.frontier@
    }

    /// Names of the install tasks currently running.
    pub closed spec fn in_flight(self) -> Seq<String> {
        self.in_flight@
    }

    /// The converged name-to-version mapping built so far.
    pub closed spec fn installed(self) -> Seq<(String, Version)> {
        self.installed@
    }

    /// The concurrency bound.
    pub closed spec fn capacity(self) -> nat {
        self.capacity as nat
    }

    /// `n` is already installed or currently being installed.
    pub open spec fn known(self, n: Seq<char>) -> bool {
        has_name(self.installed(), n) || has_str(self.in_flight(), n)
    }

    /// Well-formedness: installed names are unique, in-flight names are
    /// unique and disjoint from installed names, and no more than `capacity`
    /// tasks are in flight.
    pub open spec fn wf(self) -> bool {
        &&& forall|i: int, j: int|
            0 <= i < j < self.installed().len() ==> (#[trigger] self.installed()[i]).0@ != (
            #[trigger] self.installed()[j]).0@
        &&& forall|i: int, j: int|
            0 <= i < j < self.in_flight().len() ==> (#[trigger] self.in_flight()[i])@ != (
            #[trigger] self.in_flight()[j])@
        &&& forall|i: int|
            0 <= i < self.in_flight().len() ==> !has_name(
                self.installed(),
                (#[trigger] self.in_flight()[i])@,
            )
        &&& self.in_flight().len() <= self.capacity()
        &&& self.capacity() >= 1
    }

    /// A fresh scheduler: the frontier holds the root requests, nothing is
    /// installed, nothing is in flight.
    pub fn new(capacity: usize, roots: Vec<PackageRequest>) -> (s: Scheduler)
        requires
            capacity >= 1,
        ensures
            s.wf(),
            s.frontier() == roots@,
            s.in_flight().len() == 0,
            s.installed().len() == 0,
            s.capacity() == capacity as nat,
    {
        Scheduler { frontier: roots, in_flight: Vec::new(), installed: Vec::new(), capacity }
    }

    /// Membership of `n` among the installed names.
    fn installed_contains(&self, n: &String) -> (r: bool)
        ensures
            r == has_name(self.installed(), n@),
    {
        let mut i: usize = 0;
        while i < self.installed.len()
            invariant
                i <= self.installed@.len(),
                forall|k: int| 0 <= k < i ==> (#[trigger] self.installed@[k]).0@ != n@,
            decreases self.installed@.len() - i,
        {
            if self.installed[i].0 == *n {
                return true;
            }
            i += 1;
        }
        false
    }

    /// Membership of `n` among the in-flight names.
    fn in_flight_contains(&self, n: &String) -> (r: bool)
        ensures
            r == has_str(self.in_flight(), n@),
    {
        let mut i: usize = 0;
        while i < self.in_flight.len()
            invariant
                i <= self.in_flight@.len(),
                forall|k: int| 0 <= k < i ==> (#[trigger] self.in_flight@[k])@ != n@,
            decreases self.in_flight@.len() - i,
        {
            if self.in_flight[i] == *n {
                return true;
            }
            i += 1;
        }
        false
    }

    /// Well-formedness depends only on the installed set, the in-flight set
    /// and the capacity, not on the frontier.
    proof fn lemma_wf_transfer(a: Scheduler, b: Scheduler)
        requires
            a.wf(),
            b.installed() == a.installed(),
            b.in_flight() == a.in_flight(),
            b.capacity() == a.capacity(),
        ensures
            b.wf(),
    {
    }

    /// Picks the next action.  Requests whose name is already installed or in
    /// flight are dropped; the first fresh request is reserved and handed out
    /// for dispatch, provided a concurrency slot is free.  The membership
    /// check and the reservation are one atomic step of this state machine:
    /// a dispatched name can never be dispatched a second time while it is in
    /// flight or once it is installed.
    #[verifier::loop_isolation(false)]
    pub fn next_action(&mut self) -> (a: Action)
        requires
            old(self).wf(),
        ensures
            next_action_rel(*old(self), *final(self), a),
    {
        let ghost init = *self;
        if self.in_flight.len() >= self.capacity {
            return Action::Wait;
        }
        loop
            invariant
                self.wf(),
                self.installed == init.installed,
                self.in_flight == init.in_flight,
                self.capacity == init.capacity,
                self.in_flight@.len() < self.capacity,
                self.frontier@.len() <= init.frontier@.len(),
                self.frontier@ == init.frontier@.subrange(0, self.frontier@.len() as int),
                forall|m: int|
                    self.frontier@.len() <= m < init.frontier@.len() ==> init.known(
                        (#[trigger] init.frontier@[m]).name@,
                    ),
            decreases self.frontier@.len(),
        {
            let next = self.frontier.pop();
            proof {
                assert(self.installed() == init.installed());
                assert(self.in_flight() == init.in_flight());
                Self::lemma_wf_transfer(init, *self);
            }
            match next {
                None => {
                    if self.in_flight.len() == 0 {
                        return Action::Done;
                    } else {
                        return Action::Wait;
                    }
                },
                Some(req) => {
                    let inst = self.installed_contains(&req.name);
                    let infl = self.in_flight_contains(&req.name);
                    if !inst && !infl {
                        self.in_flight.push(req.name.clone());
                        proof {
                            let ifl = self.in_flight();
                            let pre = init.in_flight();
                            assert(ifl.len() == pre.len() + 1);
                            assert(ifl.last()@ == req.name@);
                            assert forall|i: int, j: int|
                                0 <= i < j < ifl.len() implies (#[trigger] ifl[i])@ != (
                            #[trigger] ifl[j])@ by {
                                if j < ifl.len() - 1 {
                                    assert(ifl[i] == pre[i]);
                                    assert(ifl[j] == pre[j]);
                                } else {
                                    assert(ifl[i] == pre[i]);
                                    if ifl[i]@ == req.name@ {
                                        assert(has_str(pre, req.name@));
                                    }
                                }
                            }
                            assert forall|i: int| 0 <= i < ifl.len() implies !has_name(
                                self.installed(),
                                (#[trigger] ifl[i])@,
                            ) by {
                                assert(self.installed() == init.installed());
                                if i < ifl.len() - 1 {
                                    assert(ifl[i] == pre[i]);
                                    assert(!has_name(init.installed(), pre[i]@));
                                }
                            }
                            assert(self.wf());
                            let k = self.frontier().len() as int;
                            assert(init.in_flight().len() < init.capacity());
                            assert(k < init.frontier().len());
                            assert(self.frontier() == init.frontier().subrange(0, k));
                            assert(req == init.frontier()[k]);
                            assert(forall|m: int|
                                k < m < init.frontier().len() ==> init.known(
                                    (#[trigger] init.frontier()[m]).name@,
                                ));
                            assert(!init.known(req.name@));
                            assert(self.in_flight().len() == init.in_flight().len() + 1);
                            assert(forall|m: int|
                                0 <= m < init.in_flight().len() ==> self.in_flight()[m]
                                    == init.in_flight()[m]);
                            assert(self.in_flight().last()@ == req.name@);
                            assert(next_action_rel(init, *self, Action::Dispatch(req)));
                        }
                        return Action::Dispatch(req);
                    }
                    proof {
                        assert(self.installed() == init.installed());
                        assert(self.in_flight() == init.in_flight());
                        Self::lemma_wf_transfer(init, *self);
                        assert(init.frontier@[self.frontier@.len() as int] == req);
                    }
                },
            }
        }
    }

    /// Index of `name` among the in-flight names.
    fn find_in_flight(&self, name: &String) -> (idx: usize)
        requires
            has_str(self.in_flight(), name@),
        ensures
            idx < self.in_flight().len(),
            self.in_flight()[idx as int]@ == name@,
    {
        let mut i: usize = 0;
        while i < self.in_flight.len()
            invariant
                i <= self.in_flight@.len(),
                forall|k: int| 0 <= k < i ==> (#[trigger] self.in_flight@[k])@ != name@,
            decreases self.in_flight@.len() - i,
        {
            if self.in_flight[i] == *name {
                return i;
            }
            i += 1;
        }
        proof {
            assert(false);
        }
        0
    }

    /// Records a finished install task: the task leaves the in-flight set,
    /// its name is bound to the exact version that was installed, and the
    /// package's own declared dependencies join the frontier with any leading
    /// `^`/`~` range markers stripped.
    #[verifier::loop_isolation(false)]
    pub fn on_success(&mut self, name: String, version: Version, deps: &Vec<(String, String)>)
        requires
            old(self).wf(),
            has_str(old(self).in_flight(), name@),
        ensures
            final(self).wf(),
            final(self).capacity() == old(self).capacity(),
            final(self).in_flight().len() == old(self).in_flight().len() - 1,
            forall|n: Seq<char>|
                has_str(final(self).in_flight(), n) <==> (has_str(old(self).in_flight(), n) && n
                    != name@),
            final(self).installed().len() == old(self).installed().len() + 1,
            forall|m: int|
                0 <= m < old(self).installed().len() ==> final(self).installed()[m] == old(
                    self,
                ).installed()[m],
            final(self).installed().last().0@ == name@,
            final(self).installed().last().1 == version,
            final(self).frontier().len() == old(self).frontier().len() + deps@.len(),
            forall|m: int|
                0 <= m < old(self).frontier().len() ==> final(self).frontier()[m] == old(
                    self,
                ).frontier()[m],
            forall|m: int|
                0 <= m < deps@.len() ==> (#[trigger] final(self).frontier()[old(
                    self,
                ).frontier().len() + m]).name@ == deps@[m].0@ && final(self).frontier()[old(
                    self,
                ).frontier().len() + m].version_request@ == stripped_req(deps@[m].1@),
    {
        let ghost init = *self;
        let idx = self.find_in_flight(&name);
        let ghost pre = self.in_flight@;
        let _ = self.in_flight.remove(idx);
        proof {
            pre.remove_ensures(idx as int);
            assert forall|n: Seq<char>|
                has_str(self.in_flight@, n) == (has_str(pre, n) && n != name@) by {
                if has_str(self.in_flight@, n) {
                    let k = choose|k: int|
                        0 <= k < self.in_flight@.len() && (#[trigger] self.in_flight@[k])@ == n;
                    if k < idx {
                        assert(pre[k]@ == n);
                        assert(pre[k]@ != pre[idx as int]@);
                    } else {
                        assert(pre[k + 1]@ == n);
                        assert(pre[k + 1]@ != pre[idx as int]@);
                    }
                }
                if has_str(pre, n) && n != name@ {
                    let m = choose|m: int| 0 <= m < pre.len() && (#[trigger] pre[m])@ == n;
                    if m < idx {
                        assert(self.in_flight@[m]@ == n);
                    } else {
                        assert(m > idx);
                        assert(self.in_flight@[m - 1]@ == n);
                    }
                }
            }
        }
        let ghost name_v = name@;
        self.installed.push((name, version));
        proof {
            assert(self.installed@.last().0@ == name_v);
            assert forall|i: int, j: int|
                0 <= i < j < self.installed@.len() implies (#[trigger] self.installed@[i]).0@ != (
            #[trigger] self.installed@[j]).0@ by {
                if j < self.installed@.len() - 1 {
                    assert(self.installed@[i] == init.installed()[i]);
                    assert(self.installed@[j] == init.installed()[j]);
                } else {
                    assert(self.installed@[i] == init.installed()[i]);
                    if self.installed@[i].0@ == name_v {
                        assert(has_name(init.installed(), name_v));
                        assert(!has_name(init.installed(), init.in_flight()[idx as int]@));
                    }
                }
            }
            assert forall|i: int|
                0 <= i < self.in_flight@.len() implies !has_name(
                self.installed@,
                (#[trigger] self.in_flight@[i])@,
            ) by {
                assert(has_str(self.in_flight@, self.in_flight@[i]@));
                assert(has_str(pre, self.in_flight@[i]@) && self.in_flight@[i]@ != name_v);
                assert(!has_name(init.installed(), self.in_flight@[i]@));
                if has_name(self.installed@, self.in_flight@[i]@) {
                    let k = choose|k: int|
                        0 <= k < self.installed@.len() && (#[trigger] self.installed@[k]).0@
                            == self.in_flight@[i]@;
                    if k < self.installed@.len() - 1 {
                        assert(init.installed()[k].0@ == self.in_flight@[i]@);
                    }
                }
            }
        }
        let ghost mid = *self;
        let mut i: usize = 0;
        while i < deps.len()
            invariant
                i <= deps@.len(),
                self.in_flight == mid.in_flight,
                self.installed == mid.installed,
                self.capacity == mid.capacity,
                self.frontier@.len() == mid.frontier().len() + i,
                forall|m: int|
                    0 <= m < mid.frontier().len() ==> self.frontier@[m] == mid.frontier()[m],
                forall|m: int|
                    0 <= m < i ==> (#[trigger] self.frontier@[mid.frontier().len() + m]).name@
                        == deps@[m].0@ && self.frontier@[mid.frontier().len()
                        + m].version_request@ == stripped_req(deps@[m].1@),
            decreases deps@.len() - i,
        {
            let dep_name = deps[i].0.clone();
            let dep_req = strip_range_markers(deps[i].1.as_str());
            self.frontier.push(PackageRequest { name: dep_name, version_request: dep_req });
            i += 1;
        }
        proof {
            assert(self.installed() == mid.installed());
            assert(self.in_flight() == mid.in_flight());
            Self::lemma_wf_transfer(mid, *self);
        }
    }

    /// Records a failed install task: the task leaves the in-flight set and
    /// nothing else changes.  A failure never aborts the run; the package is
    /// simply absent from the final map.
    pub fn on_failure(&mut self, name: &String)
        requires
            old(self).wf(),
            has_str(old(self).in_flight(), name@),
        ensures
            final(self).wf(),
            final(self).capacity() == old(self).capacity(),
            final(self).installed() == old(self).installed(),
            final(self).frontier() == old(self).frontier(),
            final(self).in_flight().len() == old(self).in_flight().len() - 1,
            forall|n: Seq<char>|
                has_str(final(self).in_flight(), n) <==> (has_str(old(self).in_flight(), n) && n
                    != name@),
    {
        let ghost init = *self;
        let idx = self.find_in_flight(name);
        let ghost pre = self.in_flight@;
        let _ = self.in_flight.remove(idx);
        proof {
            pre.remove_ensures(idx as int);
            assert forall|n: Seq<char>|
                has_str(self.in_flight@, n) == (has_str(pre, n) && n != name@) by {
                if has_str(self.in_flight@, n) {
                    let k = choose|k: int|
                        0 <= k < self.in_flight@.len() && (#[trigger] self.in_flight@[k])@ == n;
                    if k < idx {
                        assert(pre[k]@ == n);
                        assert(pre[k]@ != pre[idx as int]@);
                    } else {
                        assert(pre[k + 1]@ == n);
                        assert(pre[k + 1]@ != pre[idx as int]@);
                    }
                }
                if has_str(pre, n) && n != name@ {
                    let m = choose|m: int| 0 <= m < pre.len() && (#[trigger] pre[m])@ == n;
                    if m < idx {
                        assert(self.in_flight@[m]@ == n);
                    } else {
                        assert(m > idx);
                        assert(self.in_flight@[m - 1]@ == n);
                    }
                }
            }
            assert forall|i: int|
                0 <= i < self.in_flight@.len() implies !has_name(
                self.installed@,
                (#[trigger] self.in_flight@[i])@,
            ) by {
                assert(has_str(self.in_flight@, self.in_flight@[i]@));
            }
            assert(self.installed() == init.installed());
            assert(self.frontier() == init.frontier());
        }
    }

    /// The final dependency map: the installed associations, sorted strictly
    /// ascending by package name.  The result is determined by the installed
    /// set alone — see `lemma_final_map_deterministic`.
    #[verifier::loop_isolation(false)]
    pub fn final_map(&self) -> (r: Vec<(String, Version)>)
        requires
            self.wf(),
        ensures
            strictly_sorted(pairs_view(r@)),
            pairs_view(r@).to_multiset() == pairs_view(self.installed()).to_multiset(),
    {
        broadcast use vstd::seq_lib::group_to_multiset_ensures;

        let mut out: Vec<(String, Version)> = Vec::new();
        let mut i: usize = 0;
        proof {
            assert(pairs_view(out@) =~= Seq::<(Seq<char>, Version)>::empty());
            assert(pairs_view(self.installed@.subrange(0, 0)) =~= Seq::<(
                Seq<char>,
                Version,
            )>::empty());
        }
        while i < self.installed.len()
            invariant
                i <= self.installed@.len(),
                strictly_sorted(pairs_view(out@)),
                pairs_view(out@).to_multiset() == pairs_view(
                    self.installed@.subrange(0, i as int),
                ).to_multiset(),
            decreases self.installed@.len() - i,
        {
            let name = self.installed[i].0.clone();
            let ver = self.installed[i].1;
            let ghost pv = (name@, ver);
            proof {
                // The name is fresh: it never occurs in `out`.
                assert forall|j: int| 0 <= j < out@.len() implies (#[trigger] out@[j]).0@
                    != name@ by {
                    if out@[j].0@ == name@ {
                        assert(pairs_view(out@)[j] == (out@[j].0@, out@[j].1));
                        assert(pairs_view(out@).contains((out@[j].0@, out@[j].1)));
                        let pre = pairs_view(self.installed@.subrange(0, i as int));
                        assert(pairs_view(out@).to_multiset().count((out@[j].0@, out@[j].1)) > 0);
                        assert(pre.to_multiset().count((out@[j].0@, out@[j].1)) > 0);
                        assert(pre.contains((out@[j].0@, out@[j].1)));
                        let m = choose|m: int| 0 <= m < pre.len() && pre[m] == (
                        out@[j].0@,
                        out@[j].1,
                        );
                        assert(self.installed@[m].0@ == name@);
                        assert(self.installed@[m].0@ != self.installed@[i as int].0@);
                    }
                }
            }
            let ghost out_pre = out@;
            let mut k: usize = 0;
            while k < out.len() && !crate::strutil::str_lt_str(name.as_str(), out[k].0.as_str())
                invariant
                    k <= out@.len(),
                    forall|m: int| 0 <= m < k ==> !str_lt(name@, (#[trigger] out@[m]).0@),
                decreases out@.len() - k,
            {
                k += 1;
            }
            proof {
                assert forall|m: int| 0 <= m < k implies str_lt((#[trigger] out@[m]).0@, name@) by {
                    crate::strutil::lemma_str_lt_connected(out@[m].0@, name@);
                }
                if k < out@.len() {
                    assert(str_lt(name@, out_pre[k as int].0@));
                }
            }
            out.insert(k, (name, ver));
            proof {
                assert(pairs_view(out@) =~= pairs_view(out_pre).insert(k as int, pv));
                pairs_view(out_pre).insert_ensures(k as int, pv);
                assert forall|p: int, q: int|
                    0 <= p < q < pairs_view(out@).len() implies str_lt(
                    (#[trigger] pairs_view(out@)[p]).0,
                    (#[trigger] pairs_view(out@)[q]).0,
                ) by {
                    let s = pairs_view(out@);
                    let pre = pairs_view(out_pre);
                    if q < k {
                        assert(s[p] == pre[p] && s[q] == pre[q]);
                    } else if q == k {
                        assert(s[p] == pre[p] && s[q] == pv);
                        assert(pre[p].0 == out_pre[p].0@);
                    } else {
                        assert(s[q] == pre[q - 1]);
                        assert(pre[q - 1].0 == out_pre[q - 1].0@);
                        if p < k {
                            assert(s[p] == pre[p]);
                        } else if p == k {
                            assert(s[p] == pv);
                            if k < q - 1 {
                                assert(k < out_pre.len());
                                assert(str_lt(name@, out_pre[k as int].0@));
                                assert(str_lt(pre[k as int].0, pre[q - 1].0));
                                crate::strutil::lemma_str_lt_trans(
                                    name@,
                                    out_pre[k as int].0@,
                                    out_pre[q - 1].0@,
                                );
                            }
                        } else {
                            assert(s[p] == pre[p - 1]);
                        }
                    }
                }
                assert(self.installed@.subrange(0, i as int + 1) =~= self.installed@.subrange(
                    0,
                    i as int,
                ).push(self.installed@[i as int]));
                assert(pairs_view(
                    self.installed@.subrange(0, i as int).push(self.installed@[i as int]),
                ) =~= pairs_view(self.installed@.subrange(0, i as int)).push(pv));
            }
            i += 1;
        }
        proof {
            assert(self.installed@.subrange(0, self.installed@.len() as int) =~= self.installed@);
        }
        out
    }
}

/// The name characters and version of one installed entry.
pub open spec fn pair_view(p: (String, Version)) -> (Seq<char>, Version) {
    (p.0@, p.1)
}

/// The installed associations as plain values.
pub open spec fn pairs_view(s: Seq<(String, Version)>) -> Seq<(Seq<char>, Version)> {
    s.map_values(|p: (String, Version)| pair_view(p))
}

/// Strictly ascending by name.
pub open spec fn strictly_sorted(s: Seq<(Seq<char>, Version)>) -> bool {
    forall|i: int, j: int|
        0 <= i < j < s.len() ==> str_lt((#[trigger] s[i]).0, (#[trigger] s[j]).0)
}

/// The request denoted by one command-line package argument: the text after
/// an `@` past the first character is the version request, the rest the
/// name; with no such `@` the whole argument is the name and the version
/// request is `latest`.  A leading `@` belongs to a scoped name.
pub open spec fn spec_of_arg(arg: Seq<char>, r: PackageRequest) -> bool {
    match crate::strutil::first_index_from(arg, '@', 1) {
        Some(k) => r.name@ == arg.subrange(0, k) && r.version_request@ == arg.skip(k + 1),
        None => r.name@ == arg && r.version_request@ == "latest"@,
    }
}

/// Splits one command-line package argument into a request.
pub fn parse_package_spec(arg: &str) -> (r: PackageRequest)
    ensures
        spec_of_arg(arg@, r),
{
    let len = arg.unicode_len();
    if len == 0 {
        return PackageRequest { name: arg.to_owned(), version_request: "latest".to_owned() };
    }
    match crate::strutil::find_char_from(arg, '@', 1) {
        Some(k) => {
            let name = arg.substring_char(0, k);
            let vr = arg.substring_char(k + 1, len);
            proof {
                assert(name@ =~= arg@.subrange(0, k as int));
                assert(vr@ =~= arg@.skip(k as int + 1));
            }
            PackageRequest { name: name.to_owned(), version_request: vr.to_owned() }
        },
        None => PackageRequest { name: arg.to_owned(), version_request: "latest".to_owned() },
    }
}

/// Determinism of the output: two dependency maps that are strictly sorted
/// by name and hold the same associations are identical, whatever order the
/// associations were produced in.  Together with the contract of
/// `final_map`, the persisted dependency list is the same for every
/// completion interleaving that installs the same packages.
pub proof fn lemma_final_map_deterministic(
    a: Seq<(Seq<char>, Version)>,
    b: Seq<(Seq<char>, Version)>,
)
    requires
        strictly_sorted(a),
        strictly_sorted(b),
        a.to_multiset() == b.to_multiset(),
    ensures
        a == b,
    decreases a.len(),
{
    broadcast use vstd::seq_lib::group_to_multiset_ensures;

    if a.len() == 0 {
        assert(b.to_multiset().len() == 0);
        assert(b =~= a);
    } else {
        assert(a.contains(a[0]));
        assert(a.to_multiset().count(a[0]) > 0);
        assert(b.to_multiset().count(a[0]) > 0);
        assert(b.contains(a[0]));
        let kb = choose|kb: int| 0 <= kb < b.len() && b[kb] == a[0];
        assert(b.contains(b[0]));
        assert(b.to_multiset().count(b[0]) > 0);
        assert(a.to_multiset().count(b[0]) > 0);
        assert(a.contains(b[0]));
        let ka = choose|ka: int| 0 <= ka < a.len() && a[ka] == b[0];
        if kb > 0 && ka > 0 {
            assert(str_lt(b[0].0, b[kb].0));
            assert(str_lt(a[0].0, a[ka].0));
            crate::strutil::lemma_str_lt_trans(a[0].0, b[0].0, a[0].0);
            crate::strutil::lemma_str_lt_irrefl(a[0].0);
        }
        assert(a[0] == b[0]);
        let at = a.drop_first();
        let bt = b.drop_first();
        assert(a =~= seq![a[0]] + at);
        assert(b =~= seq![b[0]] + bt);
        assert(at =~= a.subrange(0, 0) + a.subrange(1, a.len() as int));
        assert(at =~= a.remove(0));
        assert(bt =~= b.remove(0));
        assert(at.to_multiset() == a.to_multiset().remove(a[0]));
        assert(bt.to_multiset() == b.to_multiset().remove(b[0]));
        assert(strictly_sorted(at)) by {
            assert forall|i: int, j: int|
                0 <= i < j < at.len() implies str_lt((#[trigger] at[i]).0, (#[trigger] at[j]).0) by {
                assert(at[i] == a[i + 1] && at[j] == a[j + 1]);
            }
        }
        assert(strictly_sorted(bt)) by {
            assert forall|i: int, j: int|
                0 <= i < j < bt.len() implies str_lt((#[trigger] bt[i]).0, (#[trigger] bt[j]).0) by {
                assert(bt[i] == b[i + 1] && bt[j] == b[j + 1]);
            }
        }
        lemma_final_map_deterministic(at, bt);
        assert(a =~= b);
    }
}

/// De-duplication: in a well-formed scheduler state each package name is
/// bound to at most one installed version, however many dependents asked for
/// it and in whatever order the tasks finished.
pub proof fn lemma_no_duplicate_installs(s: Scheduler, i: int, j: int)
    requires
        s.wf(),
        0 <= i < j < s.installed().len(),
    ensures
        s.installed()[i].0@ != s.installed()[j].0@,
{
}

/// Bounded concurrency: a well-formed scheduler never has more than
/// `capacity` install tasks in flight, and `next_action` dispatches a new
/// task only while a slot is free.
pub proof fn lemma_bounded_concurrency(pre: Scheduler, post: Scheduler, a: Action)
    requires
        pre.wf(),
        next_action_rel(pre, post, a),
    ensures
        post.in_flight().len() <= post.capacity(),
        a is Dispatch ==> pre.in_flight().len() < pre.capacity(),
{
}

/// Idempotence: when every pending request names an already-installed
/// package and no task is in flight — as after re-seeding a completed run
/// with the same root requests against an unchanged registry — the scheduler
/// can only finish: nothing is dispatched, nothing is written again, and the
/// installed map is unchanged.
pub proof fn lemma_reinstall_is_noop(pre: Scheduler, post: Scheduler, a: Action)
    requires
        pre.wf(),
        pre.in_flight().len() == 0,
        forall|m: int|
            0 <= m < pre.frontier().len() ==> has_name(
                pre.installed(),
                (#[trigger] pre.frontier()[m]).name@,
            ),
        next_action_rel(pre, post, a),
    ensures
        a is Done,
        post.installed() == pre.installed(),
{
    match a {
        Action::Dispatch(req) => {
            let k = post.frontier().len() as int;
            assert(req == pre.frontier()[k]);
            assert(has_name(pre.installed(), req.name@));
        },
        Action::Wait => {},
        Action::Done => {},
    }
}

} // verus!
