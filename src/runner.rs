//! The scheduler's decisions. A `StepRunner` holds the status of every step
//! and the dependency graph; polling a step either leaves it waiting, hands
//! it out to run, or fails it because a dependency failed. Running the
//! actions and carrying completion notifications is left to the caller.
use crate::graph::{dependencies, dependency_edges, dependency_graph, dependents, graph_edges, DepGraph};
use crate::status::{dependency_error, Outcome, Status};
use vstd::prelude::*;

verus! {

/// What the caller of a poll has to do next.
#[derive(Clone, Copy, Debug, PartialEq, Eq, Structural)]
pub enum PollAction {
    /// Nothing: the step is finished, running, or still waits on a dependency.
    Idle,
    /// Run the step's action, then report its outcome with `complete`.
    Dispatch,
    /// The step failed because a dependency failed: send its notification.
    DependencyFailed,
}

/// The state of one run of the scheduler.
pub struct StepRunner {
    /// Edges from each dependency to the steps that depend on it.
    pub graph: DepGraph,
    /// The status of each step, by index.
    pub steps: Vec<Status>,
    /// Which steps have been handed out to run.
    pub dispatched: Ghost<Seq<bool>>,
}

/// Whether all steps in `s` are `Completed`.
pub open spec fn all_completed(s: Seq<Status>) -> bool {
    forall|i: int| 0 <= i < s.len() ==> (#[trigger] s[i]) is Completed
}

/// The indices of the completed steps.
pub open spec fn completed_set(s: Seq<Status>) -> Set<int> {
    Set::new(|i: int| 0 <= i < s.len() && s[i] is Completed)
}

/// The steps that a list of poll results failed through a dependency: the
/// ones whose notification the caller sends.
pub open spec fn failed_in(r: Seq<(usize, PollAction)>) -> Set<int> {
    Set::new(|i: int| exists|k: int| 0 <= k < r.len() && (#[trigger] r[k]).0 == i && r[k].1 == PollAction::DependencyFailed)
}

impl StepRunner {
    /// The dependency edges, from each dependency to its dependent.
    pub open spec fn edges(&self) -> Set<(usize, usize)> {
        graph_edges(self.graph)
    }

    /// The status of step `i`.
    pub open spec fn status(&self, i: usize) -> Status {
        self.steps@[i as int]
    }

    /// Every dependency of step `i` has completed and passed.
    pub open spec fn deps_passed(&self, i: usize) -> bool {
        forall|d: usize| #[trigger] self.edges().contains((d, i)) ==> self.status(d).is_passed_spec()
    }

    /// Every dependency of step `i` has completed.
    pub open spec fn deps_settled(&self, i: usize) -> bool {
        forall|d: usize| #[trigger] self.edges().contains((d, i)) ==> self.status(d) is Completed
    }

    /// Some dependency of step `i` has completed and failed.
    pub open spec fn dep_failed(&self, i: usize) -> bool {
        exists|d: usize| #[trigger] self.edges().contains((d, i)) && self.status(d).is_failed_spec()
    }

    /// Step `i` completed with the dependency error without having run.
    pub open spec fn failed_by_dependency(&self, i: usize) -> bool {
        &&& self.status(i) is Completed
        &&& self.status(i)->Completed_0.output is None
        &&& self.status(i)->Completed_0.error is Some
        &&& self.status(i)->Completed_0.error->Some_0@ == dependency_error()
    }

    /// The invariant at step `i`: it has been handed out exactly when it is
    /// no longer outstanding and did not fail through a dependency; when
    /// handed out, all its dependencies had passed; when failed through a
    /// dependency, one of them failed.
    pub open spec fn step_ok(&self, i: usize) -> bool {
        &&& (self.status(i) is InProgress ==> self.dispatched@[i as int])
        &&& (self.status(i) is Outstanding ==> !self.dispatched@[i as int])
        &&& (self.dispatched@[i as int] ==> self.deps_passed(i))
        &&& (self.status(i) is Completed && !self.dispatched@[i as int] ==> {
            &&& self.failed_by_dependency(i)
            &&& self.dep_failed(i)
        })
    }

    /// The state invariant: edges stay among the steps, and every step
    /// meets `step_ok`.
    pub open spec fn wf(&self) -> bool {
        &&& self.dispatched@.len() == self.steps@.len()
        &&& self.steps@.len() <= usize::MAX
        &&& forall|e: (usize, usize)| #[trigger] self.edges().contains(e)
            ==> e.0 < self.steps@.len() && e.1 < self.steps@.len()
        &&& forall|i: usize| i < self.steps@.len() ==> #[trigger] self.step_ok(i)
    }

    /// Changing an unfinished step alone keeps the invariant, as long as
    /// that step meets `step_ok` afterwards: no step handed out or failed
    /// through a dependency can rely on an unfinished one.
    proof fn lemma_change_one(before: &StepRunner, after: &StepRunner, index: usize)
        requires
            before.wf(),
            index < before.steps@.len(),
            !(before.status(index) is Completed),
            after.graph == before.graph,
            after.steps@.len() == before.steps@.len(),
            after.dispatched@.len() == before.dispatched@.len(),
            forall|j: usize| j != index && j < before.steps@.len() ==> #[trigger] after.status(j) == before.status(j),
            forall|j: int| j != index && 0 <= j < before.steps@.len() ==> #[trigger] after.dispatched@[j] == before.dispatched@[j],
            after.step_ok(index),
        ensures
            after.wf(),
    {
        assert forall|i: usize| i < after.steps@.len() implies #[trigger] after.step_ok(i) by {
            if i != index {
                assert(before.step_ok(i));
                if after.dispatched@[i as int] {
                    assert forall|d: usize| #[trigger] after.edges().contains((d, i))
                        implies after.status(d).is_passed_spec() by {
                        assert(before.edges().contains((d, i)));
                    }
                }
                if after.status(i) is Completed && !after.dispatched@[i as int] {
                    let e = choose|e: usize| #[trigger] before.edges().contains((e, i)) && before.status(e).is_failed_spec();
                    assert(after.edges().contains((e, i)) && after.status(e).is_failed_spec());
                }
            }
        }
    }

    /// At step `i`, `next` follows `self`: nothing handed out is taken
    /// back, a completed step keeps its status, a running step does not go
    /// back to outstanding.
    pub open spec fn step_advances(&self, next: &StepRunner, i: usize) -> bool {
        &&& (self.dispatched@[i as int] ==> next.dispatched@[i as int])
        &&& (self.status(i) is Completed ==> next.status(i) == self.status(i))
        &&& (self.status(i) is InProgress ==> !(next.status(i) is Outstanding))
    }

    /// `next` follows `self`: same graph and size, and every step advances.
    pub open spec fn advances_to(&self, next: &StepRunner) -> bool {
        &&& next.graph == self.graph
        &&& next.steps@.len() == self.steps@.len()
        &&& forall|i: usize| i < self.steps@.len() ==> #[trigger] self.step_advances(next, i)
    }

    /// A runner over resolved dependency lists: `deps[s]` holds the indices
    /// of the steps that step `s` depends on. Every step starts outstanding.
    /// `None` when a list names an index that is not a step.
    pub fn new(deps: &Vec<Vec<usize>>) -> (r: Option<StepRunner>)
        ensures
            r is Some <==> forall|s: int, k: int|
                0 <= s < deps@.len() && 0 <= k < deps@[s]@.len() ==> #[trigger] deps@[s]@[k]
                    < deps@.len(),
            r matches Some(runner) ==> {
                &&& runner.wf()
                &&& runner.steps@.len() == deps@.len()
                &&& runner.edges() == dependency_edges(deps@.map_values(|v: Vec<usize>| v@))
                &&& forall|i: int| 0 <= i < deps@.len() ==> #[trigger] runner.steps@[i] is Outstanding
            },
    {
        let n = deps.len();
        let mut s: usize = 0;
        while s < n
            invariant
                n == deps@.len(),
                s <= n,
                forall|t: int, k: int|
                    0 <= t < s && 0 <= k < deps@[t]@.len() ==> #[trigger] deps@[t]@[k] < n,
            decreases n - s,
        {
            let list = &deps[s];
            let mut k: usize = 0;
            while k < list.len()
                invariant
                    n == deps@.len(),
                    s < n,
                    list@ == deps@[s as int]@,
                    k <= list.len(),
                    forall|t: int, m: int|
                        0 <= t < s && 0 <= m < deps@[t]@.len() ==> #[trigger] deps@[t]@[m] < n,
                    forall|m: int| 0 <= m < k ==> #[trigger] list@[m] < n,
                decreases list.len() - k,
            {
                if list[k] >= n {
                    return None;
                }
                k = k + 1;
            }
            s = s + 1;
        }
        let graph = dependency_graph(deps);
        let mut steps: Vec<Status> = Vec::new();
        let mut i: usize = 0;
        while i < n
            invariant
                i <= n,
                steps@.len() == i,
                forall|j: int| 0 <= j < i ==> #[trigger] steps@[j] is Outstanding,
            decreases n - i,
        {
            steps.push(Status::Outstanding);
            i = i + 1;
        }
        let ghost dv = deps@.map_values(|v: Vec<usize>| v@);
        let runner = StepRunner { graph, steps, dispatched: Ghost(Seq::new(n as nat, |j: int| false)) };
        assert forall|e: (usize, usize)| #[trigger] runner.edges().contains(e)
            implies e.0 < n && e.1 < n by {
            let k = choose|k: int| 0 <= k < dv[e.1 as int].len() && dv[e.1 as int][k] == e.0;
            assert(deps@[e.1 as int]@[k] == e.0);
        }
        Some(runner)
    }
    /// Evaluates step `index` once. A completed step is left alone. While a
    /// dependency is unfinished the step waits, unless a failed dependency
    /// is met first; a failed dependency fails the step with the dependency
    /// error; once all dependencies passed, an outstanding step is marked
    /// running and handed out. Polling again changes nothing until a
    /// dependency changes.
    pub fn poll(&mut self, index: usize) -> (r: PollAction)
        requires
            old(self).wf(),
            index < old(self).steps@.len(),
        ensures
            final(self).wf(),
            old(self).advances_to(final(self)),
            old(self).status(index) is Completed ==> r == PollAction::Idle,
            r == PollAction::Dispatch <==> {
                &&& old(self).status(index) is Outstanding
                &&& old(self).deps_passed(index)
            },
            r == PollAction::Dispatch ==> {
                &&& final(self).steps@ == old(self).steps@.update(index as int, Status::InProgress)
                &&& !old(self).dispatched@[index as int]
                &&& final(self).dispatched@ == old(self).dispatched@.update(index as int, true)
            },
            r == PollAction::DependencyFailed ==> {
                &&& !(old(self).status(index) is Completed)
                &&& old(self).dep_failed(index)
                &&& final(self).failed_by_dependency(index)
                &&& final(self).steps@ == old(self).steps@.update(index as int, final(self).status(index))
                &&& final(self).dispatched@ == old(self).dispatched@
            },
            !(old(self).status(index) is Completed) && old(self).deps_settled(index)
                && old(self).dep_failed(index) ==> r == PollAction::DependencyFailed,
            r == PollAction::Idle ==> final(self).steps@ == old(self).steps@
                && final(self).dispatched@ == old(self).dispatched@,
            old(self).status(index) is InProgress ==> r == PollAction::Idle,
            !old(self).deps_passed(index) && !old(self).dep_failed(index) ==> r == PollAction::Idle,
            r == PollAction::DependencyFailed ==> completed_set(final(self).steps@) == completed_set(
                old(self).steps@,
            ).insert(index as int),
            r != PollAction::DependencyFailed ==> completed_set(final(self).steps@) == completed_set(
                old(self).steps@,
            ),
    {
        assert(self.step_ok(index));
        proof {
            if self.status(index) is InProgress {
                assert(!self.dep_failed(index));
            }
        }
        if self.steps[index].is_completed() {
            return PollAction::Idle;
        }
        let deps = dependencies(&self.graph, index);
        let mut k: usize = 0;
        while k < deps.len()
            invariant
                *self == *old(self),
                self.wf(),
                index < self.steps@.len(),
                !(self.status(index) is Completed),
                k <= deps@.len(),
                forall|m: usize| deps@.contains(m) <==> self.edges().contains((m, index)),
                forall|m: int| 0 <= m < k ==> self.status(#[trigger] deps@[m]).is_passed_spec(),
            decreases deps.len() - k,
        {
            let d = deps[k];
            assert(deps@.contains(d));
            let failed = match &self.steps[d] {
                Status::Completed(o) => !o.passed(),
                _ => {
                    assert(!self.deps_settled(index));
                    assert(!self.deps_passed(index));
                    return PollAction::Idle;
                },
            };
            if failed {
                assert(self.dep_failed(index));
                assert(!self.dispatched@[index as int]) by {
                    if self.dispatched@[index as int] {
                        assert(self.step_ok(index));
                        assert(self.edges().contains((d, index)));
                    }
                }
                let ghost before = *self;
                self.steps.set(index, Status::Completed(Outcome::dependency_failure()));
                proof {
                    assert(completed_set(self.steps@) =~= completed_set(before.steps@).insert(index as int));
                    assert(self.edges().contains((d, index)) && self.status(d).is_failed_spec());
                    assert(self.step_ok(index));
                    Self::lemma_change_one(&before, self, index);
                }
                return PollAction::DependencyFailed;
            }
            k = k + 1;
        }
        assert forall|d: usize| #[trigger] self.edges().contains((d, index))
            implies self.status(d).is_passed_spec() by {
            assert(deps@.contains(d));
            let m = choose|m: int| 0 <= m < deps@.len() && deps@[m] == d;
        }
        assert(!self.dep_failed(index));
        if self.steps[index].is_outstanding() {
            let ghost before = *self;
            self.steps.set(index, Status::InProgress);
            self.dispatched = Ghost(self.dispatched@.update(index as int, true));
            proof {
                assert(completed_set(self.steps@) =~= completed_set(before.steps@));
                assert forall|d: usize| #[trigger] self.edges().contains((d, index))
                    implies self.status(d).is_passed_spec() by {
                    assert(before.edges().contains((d, index)));
                    assert(before.status(d).is_passed_spec());
                }
                assert(self.step_ok(index));
                Self::lemma_change_one(&before, self, index);
            }
            PollAction::Dispatch
        } else {
            PollAction::Idle
        }
    }

    /// Records the outcome of step `index`'s action. Accepted, and `true`,
    /// only for a step that is running; otherwise nothing changes. The caller
    /// sends the step's notification after an accepted outcome.
    pub fn complete(&mut self, index: usize, outcome: Outcome) -> (r: bool)
        requires
            old(self).wf(),
        ensures
            final(self).wf(),
            old(self).advances_to(final(self)),
            r == (index < old(self).steps@.len() && old(self).status(index) is InProgress),
            r ==> final(self).steps@ == old(self).steps@.update(index as int, Status::Completed(outcome)),
            !r ==> final(self).steps@ == old(self).steps@,
            final(self).dispatched@ == old(self).dispatched@,
            r ==> completed_set(final(self).steps@) == completed_set(old(self).steps@).insert(index as int),
            r ==> !completed_set(old(self).steps@).contains(index as int),
            !r ==> completed_set(final(self).steps@) == completed_set(old(self).steps@),
    {
        if index >= self.steps.len() {
            return false;
        }
        match &self.steps[index] {
            Status::InProgress => {},
            _ => { return false; },
        }
        let ghost before = *self;
        self.steps.set(index, Status::Completed(outcome));
        proof {
            assert(completed_set(self.steps@) =~= completed_set(before.steps@).insert(index as int));
            assert(before.step_ok(index));
            assert forall|d: usize| #[trigger] self.edges().contains((d, index))
                implies self.status(d).is_passed_spec() by {
                assert(before.edges().contains((d, index)));
                assert(before.status(d).is_passed_spec());
            }
            assert(self.step_ok(index));
            Self::lemma_change_one(&before, self, index);
        }
        true
    }
    /// Step `i` depends on no step.
    pub open spec fn is_root(&self, i: usize) -> bool {
        forall|d: usize| !(#[trigger] self.edges().contains((d, i)))
    }

    /// Polls every step once, in index order, at the start of a run: each
    /// step that depends on nothing is handed out, every other step waits.
    pub fn start(&mut self) -> (r: Vec<PollAction>)
        requires
            old(self).wf(),
            forall|i: int| 0 <= i < old(self).steps@.len() ==> #[trigger] old(self).steps@[i] is Outstanding,
        ensures
            final(self).wf(),
            old(self).advances_to(final(self)),
            r@.len() == old(self).steps@.len(),
            completed_set(final(self).steps@) == completed_set(old(self).steps@),
            forall|i: usize| i < r@.len() ==> {
                &&& (r@[i as int] == PollAction::Dispatch <==> old(self).is_root(i))
                &&& (r@[i as int] == PollAction::Idle <==> !old(self).is_root(i))
                &&& (#[trigger] final(self).status(i) is InProgress <==> old(self).is_root(i))
                &&& (final(self).status(i) is Outstanding <==> !old(self).is_root(i))
            },
    {
        let n = self.steps.len();
        let mut r: Vec<PollAction> = Vec::new();
        let mut i: usize = 0;
        while i < n
            invariant
                n == old(self).steps@.len(),
                i <= n,
                self.wf(),
                old(self).advances_to(self),
                self.graph == old(self).graph,
                r@.len() == i,
                completed_set(self.steps@) == completed_set(old(self).steps@),
                forall|j: usize| i <= j < n ==> #[trigger] self.status(j) is Outstanding,
                forall|j: usize| j < i ==> {
                    &&& (r@[j as int] == PollAction::Dispatch <==> old(self).is_root(j))
                    &&& (r@[j as int] == PollAction::Idle <==> !old(self).is_root(j))
                    &&& (#[trigger] self.status(j) is InProgress <==> old(self).is_root(j))
                    &&& (self.status(j) is Outstanding <==> !old(self).is_root(j))
                },
            decreases n - i,
        {
            proof {
                if !self.is_root(i) {
                    let d = choose|d: usize| #[trigger] self.edges().contains((d, i));
                    assert(d < n);
                    if d < i {
                        assert(self.status(d) is InProgress || self.status(d) is Outstanding);
                    } else {
                        assert(self.status(d) is Outstanding);
                    }
                    assert(!self.deps_passed(i));
                }
                assert forall|d: usize| #[trigger] self.edges().contains((d, i))
                    implies !self.status(d).is_failed_spec() by {
                    assert(d < n);
                    if d < i {
                        assert(self.status(d) is InProgress || self.status(d) is Outstanding);
                    } else {
                        assert(self.status(d) is Outstanding);
                    }
                }
                assert(!self.dep_failed(i));
            }
            let ghost before = *self;
            let a = self.poll(i);
            r.push(a);
            proof {
                lemma_advances_trans(&*old(self), &before, &*self);
                assert forall|j: usize| j < n && j != i implies #[trigger] self.status(j) == before.status(j) by {}
            }
            i = i + 1;
        }
        r
    }

    /// Handles the notification that step `finished` completed: polls each
    /// step that depends on it, once, and returns each such step with what
    /// to do for it. Nothing else changes.
    pub fn on_notification(&mut self, finished: usize) -> (r: Vec<(usize, PollAction)>)
        requires
            old(self).wf(),
            finished < old(self).steps@.len(),
        ensures
            final(self).wf(),
            old(self).advances_to(final(self)),
            r@.map_values(|p: (usize, PollAction)| p.0).no_duplicates(),
            completed_set(final(self).steps@) == completed_set(old(self).steps@).union(failed_in(r@)),
            forall|m: usize| r@.map_values(|p: (usize, PollAction)| p.0).contains(m)
                <==> old(self).edges().contains((finished, m)),
            forall|j: usize| j < old(self).steps@.len() && !old(self).edges().contains((finished, j))
                ==> #[trigger] final(self).status(j) == old(self).status(j)
                && final(self).dispatched@[j as int] == old(self).dispatched@[j as int],
            forall|k: int| 0 <= k < r@.len() ==> {
                let (m, a) = #[trigger] r@[k];
                &&& (a == PollAction::Dispatch <==> {
                    &&& old(self).status(m) is Outstanding
                    &&& old(self).deps_passed(m)
                })
                &&& (a == PollAction::Dispatch ==> {
                    &&& final(self).status(m) is InProgress
                    &&& !old(self).dispatched@[m as int]
                    &&& final(self).dispatched@[m as int]
                })
                &&& (a == PollAction::DependencyFailed ==> {
                    &&& !(old(self).status(m) is Completed)
                    &&& final(self).failed_by_dependency(m)
                    &&& final(self).dispatched@[m as int] == old(self).dispatched@[m as int]
                })
                &&& (!(old(self).status(m) is Completed) && old(self).deps_settled(m)
                    && old(self).dep_failed(m) ==> a == PollAction::DependencyFailed)
                &&& (a == PollAction::Idle ==> final(self).status(m) == old(self).status(m)
                    && final(self).dispatched@[m as int] == old(self).dispatched@[m as int])
            },
    {
        let ds = dependents(&self.graph, finished);
        let ghost n = self.steps@.len();
        let mut r: Vec<(usize, PollAction)> = Vec::new();
        let mut k: usize = 0;
        while k < ds.len()
            invariant
                old(self).wf(),
                n == old(self).steps@.len(),
                k <= ds@.len(),
                self.wf(),
                old(self).advances_to(self),
                self.graph == old(self).graph,
                ds@.no_duplicates(),
                forall|m: usize| ds@.contains(m) <==> old(self).edges().contains((finished, m)),
                r@.len() == k,
                completed_set(self.steps@) == completed_set(old(self).steps@).union(failed_in(r@)),
                forall|t: int| 0 <= t < k ==> (#[trigger] r@[t]).0 == ds@[t],
                forall|j: usize| j < n && !ds@.subrange(0, k as int).contains(j)
                    ==> #[trigger] self.status(j) == old(self).status(j)
                    && self.dispatched@[j as int] == old(self).dispatched@[j as int],
                forall|j: usize| j < n && (#[trigger] self.status(j)).is_passed_spec()
                    ==> self.status(j) == old(self).status(j),
                forall|t: int| 0 <= t < k ==> {
                    let (m, a) = #[trigger] r@[t];
                    &&& (a == PollAction::Dispatch <==> {
                        &&& old(self).status(m) is Outstanding
                        &&& old(self).deps_passed(m)
                    })
                    &&& (a == PollAction::Dispatch ==> {
                        &&& self.status(m) is InProgress
                        &&& !old(self).dispatched@[m as int]
                        &&& self.dispatched@[m as int]
                    })
                    &&& (a == PollAction::DependencyFailed ==> {
                        &&& !(old(self).status(m) is Completed)
                        &&& self.failed_by_dependency(m)
                        &&& self.dispatched@[m as int] == old(self).dispatched@[m as int]
                    })
                    &&& (!(old(self).status(m) is Completed) && old(self).deps_settled(m)
                        && old(self).dep_failed(m) ==> a == PollAction::DependencyFailed)
                    &&& (a == PollAction::Idle ==> self.status(m) == old(self).status(m)
                        && self.dispatched@[m as int] == old(self).dispatched@[m as int])
                },
            decreases ds.len() - k,
        {
            let m = ds[k];
            let ghost before = *self;
            proof {
                assert(ds@.contains(m));
                assert(old(self).edges().contains((finished, m)));
                assert(m < n);
                assert(!ds@.subrange(0, k as int).contains(m)) by {
                    if ds@.subrange(0, k as int).contains(m) {
                        let t = choose|t: int| 0 <= t < k && ds@.subrange(0, k as int)[t] == m;
                        assert(ds@[t] == ds@[k as int]);
                    }
                }
                assert(self.status(m) == old(self).status(m));
                // what poll reads agrees with the state before the loop
                if old(self).deps_passed(m) {
                    assert forall|d: usize| #[trigger] self.edges().contains((d, m))
                        implies self.status(d).is_passed_spec() by {
                        assert(old(self).edges().contains((d, m)));
                        assert(d < n);
                        assert(old(self).step_advances(self, d));
                    }
                }
                if self.deps_passed(m) {
                    assert forall|d: usize| #[trigger] old(self).edges().contains((d, m))
                        implies old(self).status(d).is_passed_spec() by {
                        assert(self.edges().contains((d, m)));
                        assert(d < n);
                    }
                }
                if old(self).deps_settled(m) {
                    assert forall|d: usize| #[trigger] self.edges().contains((d, m))
                        implies self.status(d) is Completed by {
                        assert(old(self).edges().contains((d, m)));
                        assert(d < n);
                        assert(old(self).step_advances(self, d));
                    }
                }
                if old(self).dep_failed(m) {
                    let d = choose|d: usize| #[trigger] old(self).edges().contains((d, m)) && old(self).status(d).is_failed_spec();
                    assert(d < n);
                    assert(old(self).step_advances(self, d));
                    assert(self.edges().contains((d, m)) && self.status(d).is_failed_spec());
                }
            }
            let ghost r0 = r@;
            let a = self.poll(m);
            r.push((m, a));
            proof {
                lemma_advances_trans(&*old(self), &before, &*self);
                let rb = r0;
                assert(r@ == r0.push((m, a)));
                assert(completed_set(before.steps@) == completed_set(old(self).steps@).union(failed_in(rb)));
                if a == PollAction::DependencyFailed {
                    assert(failed_in(r@) =~= failed_in(rb).insert(m as int)) by {
                        assert(r@[k as int] == (m, a));
                        assert forall|i: int| failed_in(r@).contains(i) implies failed_in(rb).insert(m as int).contains(i) by {
                            let q = choose|q: int| 0 <= q < r@.len() && (#[trigger] r@[q]).0 == i && r@[q].1 == PollAction::DependencyFailed;
                            if q < k {
                                assert(rb[q] == r@[q]);
                            }
                        }
                        assert forall|i: int| failed_in(rb).contains(i) implies failed_in(r@).contains(i) by {
                            let q = choose|q: int| 0 <= q < rb.len() && (#[trigger] rb[q]).0 == i && rb[q].1 == PollAction::DependencyFailed;
                            assert(r@[q] == rb[q]);
                        }
                    }
                    assert(completed_set(self.steps@) == completed_set(before.steps@).insert(m as int));
                    assert(completed_set(self.steps@) =~= completed_set(old(self).steps@).union(failed_in(r@)));
                } else {
                    assert(failed_in(r@) =~= failed_in(rb)) by {
                        assert(r@[k as int] == (m, a));
                        assert forall|i: int| failed_in(r@).contains(i) implies failed_in(rb).contains(i) by {
                            let q = choose|q: int| 0 <= q < r@.len() && (#[trigger] r@[q]).0 == i && r@[q].1 == PollAction::DependencyFailed;
                            assert(q < k);
                            assert(rb[q] == r@[q]);
                        }
                        assert forall|i: int| failed_in(rb).contains(i) implies failed_in(r@).contains(i) by {
                            let q = choose|q: int| 0 <= q < rb.len() && (#[trigger] rb[q]).0 == i && rb[q].1 == PollAction::DependencyFailed;
                            assert(r@[q] == rb[q]);
                        }
                    }
                }
                assert forall|j: usize| j < n && (#[trigger] self.status(j)).is_passed_spec()
                    implies self.status(j) == old(self).status(j) by {
                    if j != m {
                        assert(self.status(j) == before.status(j));
                    } else {
                        assert(self.status(j) == before.status(j));
                    }
                }
                assert(ds@.subrange(0, k + 1) == ds@.subrange(0, k as int).push(m));
                assert forall|j: usize| j < n && !ds@.subrange(0, k + 1).contains(j)
                    implies #[trigger] self.status(j) == old(self).status(j)
                    && self.dispatched@[j as int] == old(self).dispatched@[j as int] by {
                    assert(ds@.subrange(0, k + 1)[k as int] == m);
                    if j != m {
                        assert(!ds@.subrange(0, k as int).contains(j)) by {
                            if ds@.subrange(0, k as int).contains(j) {
                                let t = choose|t: int| 0 <= t < k && ds@.subrange(0, k as int)[t] == j;
                                assert(ds@.subrange(0, k + 1)[t] == j);
                            }
                        }
                        assert(before.status(j) == self.status(j));
                    }
                }
                assert forall|t: int| 0 <= t < k + 1 implies (#[trigger] r@[t]).0 == ds@[t] by {}
                assert forall|t: int| 0 <= t < k implies #[trigger] r@[t].0 != m by {
                    assert(r@[t].0 == ds@[t]);
                }
                assert forall|t: int| 0 <= t < k implies
                    self.status(#[trigger] r@[t].0) == before.status(r@[t].0)
                    && self.dispatched@[r@[t].0 as int] == before.dispatched@[r@[t].0 as int] by {
                    assert(r@[t].0 != m);
                    assert(ds@.contains(r@[t].0));
                    assert(r@[t].0 < n);
                }
            }
            k = k + 1;
        }
        proof {
            assert(ds@.subrange(0, k as int) == ds@);
            let idx = r@.map_values(|p: (usize, PollAction)| p.0);
            assert(idx =~= ds@);
        }
        r
    }
}

/// `rank` orders the graph: every edge goes from a lower rank to a higher
/// one. A graph has such a rank exactly when it is acyclic.
pub open spec fn ranked(edges: Set<(usize, usize)>, rank: spec_fn(usize) -> nat) -> bool {
    forall|e: (usize, usize)| #[trigger] edges.contains(e) ==> rank(e.0) < rank(e.1)
}

/// A step that is not completed and whose dependencies have all completed:
/// polling it (when outstanding) hands it out or fails it.
pub open spec fn ready(r: &StepRunner, i: usize) -> bool {
    &&& i < r.steps@.len()
    &&& !(r.status(i) is Completed)
    &&& r.deps_settled(i)
}

proof fn lemma_ready_below(r: &StepRunner, rank: spec_fn(usize) -> nat, i: usize) -> (j: usize)
    requires
        r.wf(),
        ranked(r.edges(), rank),
        i < r.steps@.len(),
        !(r.status(i) is Completed),
    ensures
        ready(r, j),
    decreases rank(i),
{
    if r.deps_settled(i) {
        i
    } else {
        let d = choose|d: usize| #[trigger] r.edges().contains((d, i)) && !(r.status(d) is Completed);
        lemma_ready_below(r, rank, d)
    }
}

/// Progress: in an acyclic graph, while some step is unfinished, some
/// unfinished step has all its dependencies completed. Either it is
/// running, and its action's completion is pending, or a poll of it hands
/// it out or fails it; so a run never stalls before every step completes.
pub proof fn lemma_progress(r: &StepRunner, rank: spec_fn(usize) -> nat)
    requires
        r.wf(),
        ranked(r.edges(), rank),
        !all_completed(r.steps@),
    ensures
        exists|j: usize| ready(r, j),
{
    let i = choose|i: int| 0 <= i < r.steps@.len() && !(r.steps@[i] is Completed);
    let k = i as usize;
    assert(k as int == i);
    let j = lemma_ready_below(r, rank, k);
}

/// Completion: each step makes its notification once, when it becomes
/// completed, so the completed steps are the notified ones. Once as many
/// distinct steps as there are have been notified, every step is completed.
pub proof fn lemma_completion(s: Seq<Status>)
    requires
        completed_set(s).len() == s.len(),
    ensures
        all_completed(s),
{
    let full = Set::new(|i: int| 0 <= i < s.len());
    assert(full =~= vstd::set_lib::set_int_range(0, s.len() as int));
    vstd::set_lib::lemma_int_range(0, s.len() as int);
    assert(completed_set(s).subset_of(full));
    if !all_completed(s) {
        let i = choose|i: int| 0 <= i < s.len() && !(#[trigger] s[i] is Completed);
        assert(completed_set(s).subset_of(full.remove(i)));
        vstd::set_lib::lemma_len_subset(completed_set(s), full.remove(i));
    }
}

/// At most once: a step that has been handed out is never outstanding
/// again, so no later poll hands it out a second time.
pub proof fn lemma_dispatched_once(a: &StepRunner, b: &StepRunner, i: usize)
    requires
        b.wf(),
        a.advances_to(b),
        i < a.steps@.len(),
        a.dispatched@[i as int],
    ensures
        b.dispatched@[i as int],
        !(b.status(i) is Outstanding),
{
    assert(a.step_advances(b, i));
    assert(b.step_ok(i));
}

/// A run's states follow one another: following is transitive.
pub proof fn lemma_advances_trans(a: &StepRunner, b: &StepRunner, c: &StepRunner)
    requires
        a.advances_to(b),
        b.advances_to(c),
    ensures
        a.advances_to(c),
{
    assert forall|i: usize| i < a.steps@.len() implies #[trigger] a.step_advances(c, i) by {
        assert(a.step_advances(b, i));
        assert(b.step_advances(c, i));
    }
}

/// Dependency order: a step that has been handed out had every one of its
/// dependencies completed and passed.
pub proof fn lemma_dependency_order(r: &StepRunner, d: usize, i: usize)
    requires
        r.wf(),
        i < r.steps@.len(),
        r.dispatched@[i as int],
        r.edges().contains((d, i)),
    ensures
        r.status(d) is Completed,
        r.status(d).is_passed_spec(),
{
    assert(r.step_ok(i));
}

/// Failure propagation: when a dependency of step `i` has failed, `i`
/// has not been handed out and never will be, and once completed it holds
/// the dependency error.
pub proof fn lemma_failure_propagates(r: &StepRunner, later: &StepRunner, d: usize, i: usize)
    requires
        r.wf(),
        later.wf(),
        r.advances_to(later),
        i < r.steps@.len(),
        r.edges().contains((d, i)),
        r.status(d).is_failed_spec(),
    ensures
        !later.dispatched@[i as int],
        later.status(i) is Completed ==> later.failed_by_dependency(i),
{
    assert(d < r.steps@.len());
    assert(r.step_advances(later, d));
    assert(later.status(d) == r.status(d));
    assert(later.edges().contains((d, i)));
    assert(later.step_ok(i));
    if later.dispatched@[i as int] {
        assert(later.deps_passed(i));
        assert(later.status(d).is_passed_spec());
    }
}

} // verus!
