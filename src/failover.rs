//! Failover across a prioritized list of equivalent endpoints.
//!
//! The caller performs each attempt and reports its outcome; `Failover`
//! decides which endpoint comes next, or that the call is over. Every call
//! starts from the first endpoint, and no endpoint is tried twice.
use vstd::prelude::*;

verus! {

/// Progress of one call through a list of `count` endpoints.
#[derive(Debug, Clone, Copy, PartialEq, Eq, Structural)]
pub struct Failover {
    /// The number of endpoints.
    pub count: usize,
    /// The index of the endpoint to try now.
    pub current: usize,
}

/// What to do after an attempt.
pub enum Step<T, E> {
    /// Try the endpoint at this index.
    TryNext(usize),
    /// The call is over, with this result.
    Done(Result<T, E>),
}

impl Failover {
    pub open spec fn wf(&self) -> bool {
        self.current < self.count
    }

    /// The state and the step that follow an attempt with outcome `o`:
    /// a success ends the call, a failure moves on to the next endpoint,
    /// and a failure of the last endpoint ends the call with its error.
    pub open spec fn after<T, E>(self, o: Result<T, E>) -> (Failover, Step<T, E>) {
        match o {
            Ok(v) => (self, Step::Done(Ok(v))),
            Err(e) => if self.current + 1 < self.count {
                (
                    Failover { count: self.count, current: (self.current + 1) as usize },
                    Step::TryNext((self.current + 1) as usize),
                )
            } else {
                (self, Step::Done(Err(e)))
            },
        }
    }

    /// Starts a call over `count` endpoints, at the first of them.
    pub fn start(count: usize) -> (f: Failover)
        requires
            count > 0,
        ensures
            f.wf(),
            f.count == count,
            f.current == 0,
    {
        Failover { count, current: 0 }
    }

    /// The index of the endpoint to try now.
    pub fn endpoint(&self) -> (i: usize)
        ensures
            i == self.current,
    {
        self.current
    }

    /// Records the outcome of the attempt at the current endpoint.
    pub fn on_outcome<T, E>(&mut self, outcome: Result<T, E>) -> (s: Step<T, E>)
        requires
            old(self).wf(),
        ensures
            final(self).wf(),
            (*final(self), s) == old(self).after(outcome),
    {
        match outcome {
            Ok(v) => Step::Done(Ok(v)),
            Err(e) => {
                if self.current + 1 < self.count {
                    self.current = self.current + 1;
                    Step::TryNext(self.current)
                } else {
                    Step::Done(Err(e))
                }
            },
        }
    }
}

/// A call driven from state `f`, where `outcomes[k]` is what the `k`-th
/// attempt of this run gives: the endpoints tried, in order, and the result,
/// if the outcomes given suffice to end the call.
pub open spec fn drive<T, E>(f: Failover, outcomes: Seq<Result<T, E>>) -> (Seq<nat>, Option<Result<T, E>>)
    decreases outcomes.len(),
{
    if outcomes.len() == 0 {
        (Seq::empty(), None)
    } else {
        match f.after(outcomes[0]) {
            (_, Step::Done(r)) => (seq![f.current as nat], Some(r)),
            (g, Step::TryNext(_)) => {
                let (tried, r) = drive(g, outcomes.drop_first());
                (seq![f.current as nat] + tried, r)
            },
        }
    }
}

/// The indices `from`, `from + 1`, ..., `to - 1`.
pub open spec fn index_range(from: nat, to: nat) -> Seq<nat> {
    Seq::new((to - from) as nat, |k: int| (from + k) as nat)
}

/// Where every endpoint but the last fails, every endpoint is tried once, in
/// order from the current one, and the call ends with the last endpoint's
/// outcome.
proof fn lemma_all_but_last_fail<T, E>(f: Failover, outcomes: Seq<Result<T, E>>)
    requires
        f.wf(),
        outcomes.len() == f.count - f.current,
        forall|k: int| 0 <= k < outcomes.len() - 1 ==> (#[trigger] outcomes[k]).is_err(),
    ensures
        drive(f, outcomes) == (index_range(f.current as nat, f.count as nat), Some(outcomes.last())),
    decreases outcomes.len(),
{
    if f.current + 1 < f.count {
        assert(outcomes[0].is_err());
        let g = Failover { count: f.count, current: (f.current + 1) as usize };
        let rest = outcomes.drop_first();
        assert forall|k: int| 0 <= k < rest.len() - 1 implies (#[trigger] rest[k]).is_err() by {
            assert(rest[k] == outcomes[k + 1]);
        }
        lemma_all_but_last_fail(g, rest);
        assert(seq![f.current as nat] + index_range(g.current as nat, f.count as nat)
            =~= index_range(f.current as nat, f.count as nat));
    } else {
        assert(outcomes.len() == 1);
        assert(seq![f.current as nat] =~= index_range(f.current as nat, f.count as nat));
    }
}

/// Where only the last endpoint succeeds, the call returns that success, and
/// every endpoint before it was tried exactly once, in order.
pub proof fn lemma_last_endpoint_succeeds<T, E>(count: usize, outcomes: Seq<Result<T, E>>)
    requires
        count > 0,
        outcomes.len() == count,
        forall|k: int| 0 <= k < count - 1 ==> (#[trigger] outcomes[k]).is_err(),
        outcomes[count - 1].is_ok(),
    ensures
        drive(Failover { count, current: 0 }, outcomes).0 == index_range(0, count as nat),
        drive(Failover { count, current: 0 }, outcomes).1 == Some(outcomes[count - 1]),
{
    lemma_all_but_last_fail(Failover { count, current: 0 }, outcomes);
}

/// Where every endpoint fails, the call fails with the last endpoint's error,
/// after trying each endpoint once, in order.
pub proof fn lemma_all_endpoints_fail<T, E>(count: usize, outcomes: Seq<Result<T, E>>)
    requires
        count > 0,
        outcomes.len() == count,
        forall|k: int| 0 <= k < count ==> (#[trigger] outcomes[k]).is_err(),
    ensures
        drive(Failover { count, current: 0 }, outcomes).0 == index_range(0, count as nat),
        drive(Failover { count, current: 0 }, outcomes).1 == Some(outcomes[count - 1]),
        outcomes[count - 1].is_err(),
{
    lemma_all_but_last_fail(Failover { count, current: 0 }, outcomes);
}

} // verus!
