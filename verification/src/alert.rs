//! When an alert fires.

use vstd::prelude::*;

verus! {

/// Hold/cooldown state machine. Pure; caller supplies a monotonic clock in ms.
#[derive(Clone, Copy)]
pub struct AlertGate {
    pub hold_ms: u64,
    pub cooldown_ms: u64,
    /// Since when the signal counts as over the threshold, if it is.
    pub over_since: Option<u64>,
    /// No alert fires before this instant.
    pub cooldown_until: u64,
}

/// The later of two instants.
pub open spec fn later(a: u64, b: u64) -> u64 {
    if a >= b {
        a
    } else {
        b
    }
}

impl AlertGate {
    /// An alert is due: over the threshold, out of the cooldown, and over for
    /// the whole hold time.
    pub open spec fn due(self, over: bool, now_ms: u64) -> bool {
        &&& over
        &&& now_ms >= self.cooldown_until
        &&& self.over_since matches Some(start) && now_ms - start >= self.hold_ms
    }

    /// What one reading makes of this gate.
    pub open spec fn next(self, over: bool, now_ms: u64) -> AlertGate {
        let fires = self.due(over, now_ms);
        AlertGate {
            hold_ms: self.hold_ms,
            cooldown_ms: self.cooldown_ms,
            over_since: if !over || fires {
                None
            } else if self.over_since is Some {
                self.over_since
            } else {
                // A signal that stays over through the cooldown starts its hold
                // when the cooldown ends.
                Some(later(now_ms, self.cooldown_until))
            },
            cooldown_until: if fires {
                (now_ms + self.cooldown_ms) as u64
            } else {
                self.cooldown_until
            },
        }
    }

    /// The clock can be read at `now_ms`: it has not run backwards past the
    /// start of a hold, and the end of the next cooldown is an instant.
    pub open spec fn accepts(self, over: bool, now_ms: u64) -> bool {
        over && now_ms >= self.cooldown_until ==> {
            &&& self.over_since matches Some(start) ==> start <= now_ms
            &&& self.due(over, now_ms) ==> now_ms + self.cooldown_ms <= u64::MAX
        }
    }

    /// The state a monotonic clock that last stood at `last_ms` can leave.
    pub open spec fn in_step_with(self, last_ms: u64) -> bool {
        self.over_since matches Some(start) ==> start <= later(last_ms, self.cooldown_until)
    }

    pub fn new(hold_ms: u64, cooldown_ms: u64) -> (r: AlertGate)
        ensures
            r.hold_ms == hold_ms,
            r.cooldown_ms == cooldown_ms,
            r.over_since is None,
            r.cooldown_until == 0,
            r.in_step_with(0),
    {
        AlertGate { hold_ms, cooldown_ms, over_since: None, cooldown_until: 0 }
    }

    /// Feed the current over-threshold flag; returns true when an alert should fire.
    pub fn update(&mut self, over: bool, now_ms: u64) -> (fires: bool)
        requires
            old(self).accepts(over, now_ms),
        ensures
            fires == old(self).due(over, now_ms),
            *final(self) == old(self).next(over, now_ms),
    {
        if !over {
            self.over_since = None;
            return false;
        }
        if now_ms < self.cooldown_until {
            if self.over_since.is_none() {
                self.over_since = Some(self.cooldown_until);
            }
            return false;
        }
        match self.over_since {
            None => {
                self.over_since = Some(now_ms);
                false
            },
            Some(start) => {
                if now_ms - start >= self.hold_ms {
                    self.over_since = None;
                    self.cooldown_until = now_ms + self.cooldown_ms;
                    true
                } else {
                    false
                }
            },
        }
    }

    /// Forget any in-progress hold; keep the cooldown.
    pub fn reset(&mut self)
        ensures
            *final(self) == old(self).without_hold(),
    {
        self.over_since = None;
    }
}

/// A monotonic clock is always accepted, up to the end of time: readings in
/// order keep an alert gate in step with the clock.
pub proof fn law_monotonic_clock_is_accepted(gate: AlertGate, last_ms: u64, over: bool, now_ms: u64)
    requires
        gate.in_step_with(last_ms),
        last_ms <= now_ms,
        now_ms + gate.cooldown_ms <= u64::MAX,
    ensures
        gate.accepts(over, now_ms),
        gate.next(over, now_ms).in_step_with(now_ms),
{
}

/// A reading of the flag and the clock.
pub struct Reading {
    pub over: bool,
    pub now_ms: u64,
}

/// What happens to an alert gate.
pub enum Input {
    Update(Reading),
    Reset,
}

impl AlertGate {
    /// This one with no hold in progress.
    pub open spec fn without_hold(self) -> AlertGate {
        AlertGate { over_since: None, ..self }
    }

    /// What an input makes of this gate.
    pub open spec fn after(self, input: Input) -> AlertGate {
        match input {
            Input::Update(r) => self.next(r.over, r.now_ms),
            Input::Reset => self.without_hold(),
        }
    }
}

/// An alert gate after the first `n` inputs of a trace.
pub open spec fn gate_after(gate: AlertGate, trace: Seq<Input>, n: nat) -> AlertGate
    decreases n,
{
    if n == 0 {
        gate
    } else {
        gate_after(gate, trace, (n - 1) as nat).after(trace[n - 1])
    }
}

/// Input `i` of a trace is a reading that is over the threshold.
pub open spec fn over_at(trace: Seq<Input>, i: int) -> bool {
    trace[i] matches Input::Update(r) && r.over
}

/// When input `i` of a trace was read, if it is a reading.
pub open spec fn time_at(trace: Seq<Input>, i: int) -> int {
    trace[i]->0.now_ms as int
}

/// An alert fires at input `i` of a trace.
pub open spec fn fires_at(gate: AlertGate, trace: Seq<Input>, i: int) -> bool {
    trace[i] matches Input::Update(r) && gate_after(gate, trace, i as nat).due(r.over, r.now_ms)
}

/// The readings come in order and the clock has room for every cooldown.
pub open spec fn orderly(gate: AlertGate, trace: Seq<Input>) -> bool {
    &&& forall|i: int, j: int|
        0 <= i <= j < trace.len() && trace[i] is Update && trace[j] is Update ==> #[trigger] time_at(
            trace,
            i,
        ) <= #[trigger] time_at(trace, j)
    &&& forall|i: int|
        0 <= i < trace.len() && trace[i] is Update ==> #[trigger] time_at(trace, i)
            + gate.cooldown_ms <= u64::MAX
}

/// The settings never change along a trace.
proof fn lemma_settings_kept(gate: AlertGate, trace: Seq<Input>, n: nat)
    ensures
        gate_after(gate, trace, n).hold_ms == gate.hold_ms,
        gate_after(gate, trace, n).cooldown_ms == gate.cooldown_ms,
    decreases n,
{
    if n > 0 {
        lemma_settings_kept(gate, trace, (n - 1) as nat);
    }
}

/// After an alert at `i`, any hold in progress started no earlier than the end
/// of that alert's cooldown.
proof fn lemma_hold_after_cooldown(gate: AlertGate, trace: Seq<Input>, i: int, n: nat)
    requires
        orderly(gate, trace),
        0 <= i < n <= trace.len(),
        fires_at(gate, trace, i),
    ensures
        ({
            let g = gate_after(gate, trace, n);
            let end = time_at(trace, i) + gate.cooldown_ms;
            &&& g.cooldown_until >= end
            &&& g.over_since matches Some(start) ==> start >= end
        }),
    decreases n,
{
    lemma_settings_kept(gate, trace, (n - 1) as nat);
    assert(time_at(trace, i) + gate.cooldown_ms <= u64::MAX);
    if n - 1 > i {
        lemma_hold_after_cooldown(gate, trace, i, (n - 1) as nat);
        if trace[n - 1] is Update {
            assert(time_at(trace, n - 1) + gate.cooldown_ms <= u64::MAX);
            assert(time_at(trace, i) <= time_at(trace, n - 1));
        }
    }
}

/// The cooldown blocks a refire: two alerts are never closer than the cooldown
/// plus a full hold, resets in between or not.
pub proof fn law_alerts_are_spaced(gate: AlertGate, trace: Seq<Input>, i: int, j: int)
    requires
        orderly(gate, trace),
        0 <= i < j < trace.len(),
        fires_at(gate, trace, i),
        fires_at(gate, trace, j),
    ensures
        time_at(trace, j) - time_at(trace, i) >= gate.cooldown_ms + gate.hold_ms,
{
    lemma_hold_after_cooldown(gate, trace, i, j as nat);
    lemma_settings_kept(gate, trace, j as nat);
}

/// From input `k` up to input `n` every one is a reading over the threshold.
pub open spec fn unbroken(trace: Seq<Input>, k: int, n: int) -> bool {
    forall|m: int| k <= m < n ==> #[trigger] over_at(trace, m)
}

/// A hold in progress began at a reading from which on every input was a
/// reading over the threshold.
proof fn lemma_hold_is_unbroken(gate: AlertGate, trace: Seq<Input>, n: nat)
    requires
        orderly(gate, trace),
        gate.over_since is None,
        n <= trace.len(),
        gate_after(gate, trace, n).over_since is Some,
    ensures
        exists|k: int|
            0 <= k < n && #[trigger] unbroken(trace, k, n as int) && time_at(trace, k)
                <= gate_after(gate, trace, n).over_since->0,
    decreases n,
{
    let g = gate_after(gate, trace, (n - 1) as nat);
    assert(over_at(trace, n - 1));
    if g.over_since is Some {
        lemma_hold_is_unbroken(gate, trace, (n - 1) as nat);
        let k = choose|k: int|
            0 <= k < n - 1 && #[trigger] unbroken(trace, k, n - 1) && time_at(trace, k)
                <= g.over_since->0;
        assert(unbroken(trace, k, n as int));
    } else {
        assert(unbroken(trace, n - 1, n as int));
    }
}

/// A dip or a reset starts the hold over: an alert fires only after readings
/// that were over the threshold without a break for at least the hold time.
pub proof fn law_alert_needs_an_unbroken_hold(gate: AlertGate, trace: Seq<Input>, j: int)
    requires
        orderly(gate, trace),
        gate.over_since is None,
        0 <= j < trace.len(),
        fires_at(gate, trace, j),
    ensures
        exists|k: int|
            0 <= k < j && #[trigger] unbroken(trace, k, j + 1) && time_at(trace, j) - time_at(
                trace,
                k,
            ) >= gate.hold_ms,
{
    lemma_settings_kept(gate, trace, j as nat);
    lemma_hold_is_unbroken(gate, trace, j as nat);
    let g = gate_after(gate, trace, j as nat);
    let k = choose|k: int|
        0 <= k < j && #[trigger] unbroken(trace, k, j) && time_at(trace, k) <= g.over_since->0;
    assert(over_at(trace, j));
    assert(unbroken(trace, k, j + 1));
}

/// The cooldown in force is the one an alert gate began with, or that of an
/// alert since.
proof fn lemma_cooldown_is_an_alerts(gate: AlertGate, trace: Seq<Input>, n: nat)
    requires
        orderly(gate, trace),
        n <= trace.len(),
    ensures
        ({
            let end = gate_after(gate, trace, n).cooldown_until;
            ||| end == gate.cooldown_until
            ||| exists|i: int|
                0 <= i < n && #[trigger] fires_at(gate, trace, i) && end == time_at(trace, i)
                    + gate.cooldown_ms
        }),
    decreases n,
{
    if n > 0 {
        let m = (n - 1) as nat;
        lemma_cooldown_is_an_alerts(gate, trace, m);
        lemma_settings_kept(gate, trace, m);
        if fires_at(gate, trace, n - 1) {
            assert(time_at(trace, n - 1) + gate.cooldown_ms <= u64::MAX);
        }
    }
}

/// A hold in progress has begun by any later reading, or begins when the
/// cooldown ends.
proof fn lemma_hold_has_begun(gate: AlertGate, trace: Seq<Input>, n: nat, k: int)
    requires
        orderly(gate, trace),
        gate.over_since is None,
        n <= k < trace.len(),
        trace[k] is Update,
    ensures
        ({
            let g = gate_after(gate, trace, n);
            g.over_since matches Some(start) ==> start <= time_at(trace, k) || start
                <= g.cooldown_until
        }),
    decreases n,
{
    if n > 0 {
        let m = (n - 1) as nat;
        lemma_hold_has_begun(gate, trace, m, k);
        if trace[n - 1] is Update {
            assert(time_at(trace, n - 1) <= time_at(trace, k));
        }
    }
}

/// While readings stay over without an alert, the cooldown stays, and the hold
/// has begun by the first of them or begins when the cooldown ends.
proof fn lemma_hold_goes_on(gate: AlertGate, trace: Seq<Input>, k: int, n: int)
    requires
        orderly(gate, trace),
        gate.over_since is None,
        0 <= k < n <= trace.len(),
        unbroken(trace, k, n),
        forall|i: int| k <= i < n ==> !#[trigger] fires_at(gate, trace, i),
    ensures
        ({
            let g = gate_after(gate, trace, n as nat);
            let first = gate_after(gate, trace, k as nat);
            &&& g.cooldown_until == first.cooldown_until
            &&& g.over_since matches Some(start) && (start <= time_at(trace, k) || start
                <= first.cooldown_until)
        }),
    decreases n,
{
    assert(over_at(trace, n - 1));
    assert(over_at(trace, k));
    assert(!fires_at(gate, trace, n - 1));
    if n - 1 > k {
        assert(unbroken(trace, k, n - 1)) by {
            assert forall|m: int| k <= m < n - 1 implies #[trigger] over_at(trace, m) by {}
        }
        lemma_hold_goes_on(gate, trace, k, n - 1);
    } else {
        lemma_hold_has_begun(gate, trace, k as nat, k);
    }
}

/// A lasting shout is always answered: once readings have been over the
/// threshold without a break for the hold time, and the hold time has also
/// passed since the end of every cooldown, an alert has fired among them,
/// whatever the hold and the cooldown are.
pub proof fn law_a_lasting_shout_fires(gate: AlertGate, trace: Seq<Input>, k: int, j: int)
    requires
        orderly(gate, trace),
        gate.over_since is None,
        0 <= k < j < trace.len(),
        forall|m: int| k <= m <= j ==> #[trigger] over_at(trace, m),
        time_at(trace, j) - time_at(trace, k) >= gate.hold_ms,
        time_at(trace, j) - gate.cooldown_until >= gate.hold_ms,
        forall|i: int|
            0 <= i < k && #[trigger] fires_at(gate, trace, i) ==> time_at(trace, j) - time_at(
                trace,
                i,
            ) >= gate.cooldown_ms + gate.hold_ms,
    ensures
        exists|i: int| k <= i <= j && #[trigger] fires_at(gate, trace, i),
{
    if forall|i: int| k <= i <= j ==> !#[trigger] fires_at(gate, trace, i) {
        assert(unbroken(trace, k, j));
        lemma_hold_goes_on(gate, trace, k, j);
        lemma_cooldown_is_an_alerts(gate, trace, k as nat);
        lemma_settings_kept(gate, trace, j as nat);
        assert(over_at(trace, j));
        assert(fires_at(gate, trace, j));
    }
}

/// An alert is answered by silence first: right after one, whatever the reading,
/// none fires before the cooldown is over, and the settings stay as they are.
pub proof fn law_an_alert_begins_its_cooldown(gate: AlertGate, now_ms: u64, over: bool, then_ms: u64)
    requires
        gate.due(true, now_ms),
        now_ms + gate.cooldown_ms <= u64::MAX,
        now_ms <= then_ms,
    ensures
        gate.next(true, now_ms).cooldown_until == now_ms + gate.cooldown_ms,
        gate.next(true, now_ms).over_since is None,
        !gate.next(true, now_ms).due(over, then_ms),
        gate.next(true, now_ms).hold_ms == gate.hold_ms,
        gate.next(true, now_ms).cooldown_ms == gate.cooldown_ms,
{
}

} // verus!
