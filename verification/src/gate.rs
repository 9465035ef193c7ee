use vstd::prelude::*;

verus! {

// ---------------------------------------------------------------------------
// The one-shot guard of the generated configure entry point. The emitted
// text realizes it with an atomically-checked flag; this type carries the
// same transition logic, so its guarantee can be stated and checked here.
// ---------------------------------------------------------------------------

/// A one-shot gate: the first acquisition succeeds, every later one fails.
pub struct LogGate {
    pub fired: bool,
}

impl LogGate {
    /// A fresh, unfired gate.
    pub fn new() -> (r: LogGate)
        ensures
            !r.fired,
    {
        LogGate { fired: false }
    }

    /// Attempts to claim the one-shot right; the claim succeeds exactly
    /// when nobody claimed it before, and afterwards the flag stays set
    /// either way.
    pub fn try_fire(&mut self) -> (r: bool)
        ensures
            final(self).fired,
            r == !old(self).fired,
    {
        let was = self.fired;
        self.fired = true;
        !was
    }
}

/// The one-shot law: in any run of successive acquisitions of a guard that
/// starts unfired, exactly the first succeeds — whatever the number of
/// callers, one of them observes the flag unset and all others find it set.
/// `states[i]` holds the flag before the `i`-th call and `results[i]` what
/// that call returned.
pub proof fn lemma_gate_fires_once(states: Seq<bool>, results: Seq<bool>)
    requires
        states.len() == results.len() + 1,
        results.len() > 0,
        !states[0],
        forall|i: int| 0 <= i < results.len() ==> (#[trigger] results[i]) == !states[i],
        forall|i: int| 0 <= i < results.len() ==> #[trigger] states[i + 1],
    ensures
        forall|i: int| 0 <= i < results.len() ==> ((#[trigger] results[i]) <==> i == 0),
{
    assert forall|i: int| 0 <= i < results.len() implies ((#[trigger] results[i]) <==> i == 0) by {
        if i == 0 {
            assert(results[0] == !states[0]);
        } else {
            assert(states[(i - 1) + 1]);
            assert(results[i] == !states[i]);
        }
    }
}

} // verus!
