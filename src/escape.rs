use vstd::prelude::*;

verus! {

/// Escape time of an orbit, scanning from iteration `i`: the first iteration
/// `k` with `i <= k < limit` at which the orbit was observed outside the
/// escape radius (`diverged[k]`), or `None` where there is none among the
/// observations.
pub open spec fn first_escape_from(diverged: Seq<bool>, limit: nat, i: nat) -> Option<nat>
    decreases limit - i,
{
    if i < limit && i < diverged.len() {
        if diverged[i as int] {
            Some(i)
        } else {
            first_escape_from(diverged, limit, i + 1)
        }
    } else {
        None
    }
}

/// Escape time of an orbit under an iteration limit: `Some(k)` for the first
/// iteration `k < limit` at which the orbit left the escape radius, `None`
/// ("bounded") where it stayed inside for all `limit` iterations.
pub open spec fn escape_time_of(diverged: Seq<bool>, limit: nat) -> Option<nat> {
    first_escape_from(diverged, limit, 0)
}

/// An escape time as the count type of the executable code.
pub open spec fn as_count(escape: Option<nat>) -> Option<usize> {
    match escape {
        Some(k) => Some(k as usize),
        None => None,
    }
}

/// Observations that all stay inside the radius can be skipped.
pub proof fn lemma_skip_inside(diverged: Seq<bool>, limit: nat, i: nat, m: nat)
    requires
        i <= m,
        forall|j: int| i <= j < m && j < diverged.len() ==> !diverged[j],
    ensures
        first_escape_from(diverged, limit, i) == first_escape_from(diverged, limit, m),
    decreases m - i,
{
    if i < m && i < limit && i < diverged.len() {
        lemma_skip_inside(diverged, limit, i + 1, m);
    } else if i < m {
        assert(!(m < limit && m < diverged.len()));
    }
}

/// What an escape at iteration `k` means: `k` is below the limit, the orbit
/// left the radius at `k`, and at no earlier iteration.
pub proof fn lemma_escape_iff(diverged: Seq<bool>, limit: nat, k: nat)
    ensures
        escape_time_of(diverged, limit) == Some(k) <==> (k < limit && k < diverged.len()
            && diverged[k as int] && forall|j: int| 0 <= j < k ==> !diverged[j]),
{
    if k < limit && k < diverged.len() && diverged[k as int] && forall|j: int|
        0 <= j < k ==> !diverged[j] {
        lemma_skip_inside(diverged, limit, 0, k);
    }
    if escape_time_of(diverged, limit) == Some(k) {
        lemma_escape_is_first(diverged, limit, 0);
    }
}

proof fn lemma_escape_is_first(diverged: Seq<bool>, limit: nat, i: nat)
    ensures
        first_escape_from(diverged, limit, i) matches Some(k) ==> i <= k && k < limit && k
            < diverged.len() && diverged[k as int] && forall|j: int|
            i <= j < k ==> !diverged[j],
    decreases limit - i,
{
    if i < limit && i < diverged.len() && !diverged[i as int] {
        lemma_escape_is_first(diverged, limit, i + 1);
    }
}

/// An orbit that never leaves the escape radius is reported bounded, for
/// every iteration limit.
pub proof fn lemma_inside_orbit_is_bounded(diverged: Seq<bool>, limit: nat)
    requires
        forall|j: int| 0 <= j < diverged.len() ==> !diverged[j],
    ensures
        escape_time_of(diverged, limit) is None,
{
    lemma_skip_inside(diverged, limit, 0, limit);
}

/// The escape time does not depend on the limit once the limit exceeds it,
/// and a limit at or below it turns the result into "bounded".
pub proof fn lemma_escape_stable_in_limit(diverged: Seq<bool>, limit: nat, other: nat, k: nat)
    requires
        escape_time_of(diverged, limit) == Some(k),
    ensures
        k < other ==> escape_time_of(diverged, other) == Some(k),
        other <= k ==> escape_time_of(diverged, other) is None,
{
    lemma_escape_iff(diverged, limit, k);
    lemma_escape_iff(diverged, other, k);
    if other <= k {
        lemma_skip_inside(diverged, other, 0, k);
    }
}

/// Decision logic of the escape-time test. The caller iterates the orbit and
/// reports, at each iteration, whether it has left the escape radius; the
/// tracker counts iterations against the limit and says when the test is
/// decided.
pub struct EscapeTracker {
    limit: usize,
    checked: usize,
    escaped: bool,
    history: Ghost<Seq<bool>>,
}

impl EscapeTracker {
    /// Observations reported so far, one per iteration.
    pub closed spec fn observations(&self) -> Seq<bool> {
        self.history@
    }

    /// The iteration limit.
    pub closed spec fn limit_spec(&self) -> nat {
        self.limit as nat
    }

    /// Whether the test still needs an observation.
    pub open spec fn needs_more(&self) -> bool {
        self.observations().len() < self.limit_spec() && forall|j: int|
            0 <= j < self.observations().len() ==> !self.observations()[j]
    }

    /// Well-formedness: one observation per counted iteration, none past the
    /// limit, and only the last one may be outside the radius.
    pub closed spec fn wf(&self) -> bool {
        &&& self.history@.len() == self.checked
        &&& self.checked <= self.limit
        &&& self.escaped <==> exists|j: int|
            0 <= j < self.history@.len() && self.history@[j]
        &&& self.escaped ==> self.history@[self.checked - 1]
        &&& forall|j: int| 0 <= j < self.history@.len() - 1 ==> !self.history@[j]
    }

    /// A tracker with no observation yet.
    pub fn new(limit: usize) -> (r: Self)
        ensures
            r.wf(),
            r.limit_spec() == limit,
            r.observations() == Seq::<bool>::empty(),
    {
        EscapeTracker { limit, checked: 0, escaped: false, history: Ghost(Seq::empty()) }
    }

    /// Whether the test still needs an observation: the limit is not reached
    /// and the orbit has not left the radius.
    pub fn running(&self) -> (r: bool)
        requires
            self.wf(),
        ensures
            r == self.needs_more(),
    {
        proof {
            if self.escaped {
                assert(self.history@[self.checked - 1]);
            }
        }
        !self.escaped && self.checked < self.limit
    }

    /// Records whether the orbit is outside the radius at the current
    /// iteration. Returns the escape iteration when it is.
    pub fn observe(&mut self, outside: bool) -> (r: Option<usize>)
        requires
            old(self).wf(),
            old(self).needs_more(),
        ensures
            final(self).wf(),
            final(self).limit_spec() == old(self).limit_spec(),
            final(self).observations() == old(self).observations().push(outside),
            outside ==> r == Some(old(self).observations().len() as usize),
            r matches Some(k) ==> k < final(self).limit_spec(),
            !outside ==> r is None,
            r matches Some(k) ==> escape_time_of(final(self).observations(), final(self).limit_spec())
                == Some(k as nat),
    {
        let ghost before = self.history@;
        self.history = Ghost(self.history@.push(outside));
        let at = self.checked;
        self.checked = self.checked + 1;
        proof {
            assert(self.history@[at as int] == outside);
            assert forall|j: int| 0 <= j < self.history@.len() - 1 implies !self.history@[j] by {
                assert(self.history@[j] == before[j]);
            }
            if !self.escaped && outside {
                lemma_escape_iff(self.history@, self.limit as nat, at as nat);
            }
        }
        if outside {
            self.escaped = true;
            Some(at)
        } else {
            proof {
                assert forall|j: int| 0 <= j < self.history@.len() implies !self.history@[j] by {
                    if j < at {
                        assert(self.history@[j] == before[j]);
                    }
                }
            }
            None
        }
    }

    /// The verdict of a test that needs no more observations: `None` where
    /// the orbit stayed inside the radius up to the limit.
    pub fn verdict(&self) -> (r: Option<usize>)
        requires
            self.wf(),
            !self.needs_more(),
        ensures
            r matches Some(k) ==> k as nat == self.observations().len() - 1 && k
                < self.limit_spec(),
            r == as_count(escape_time_of(self.observations(), self.limit_spec())),
    {
        if self.escaped {
            proof {
                lemma_escape_iff(self.history@, self.limit as nat, (self.checked - 1) as nat);
            }
            Some(self.checked - 1)
        } else {
            proof {
                lemma_inside_orbit_is_bounded(self.history@, self.limit as nat);
            }
            None
        }
    }
}

} // verus!
