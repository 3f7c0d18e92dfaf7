//! Fault simulation as pure policy over a node's load scalar.
//!
//! Every fifth round in which a node holds leadership it spikes its own
//! load, making it lose the following elections — a simulated crash. Once
//! spiked, it sheds the spike again on a round divisible by four, but not
//! within the three rounds right after the spike — a simulated recovery.
//! The exact periods and offsets are fixed design constants; what matters
//! is that a leader eventually cedes and a dropped node becomes re-eligible.
//!
//! Loads are in tenths of a unit, as in the election engine.

use vstd::prelude::*;

verus! {

/// The load swing of a simulated crash or recovery (a thousand whole
/// units, in tenths).
pub const SPIKE_AMOUNT: u64 = 10000;

/// A load at or above this is considered spiked and eligible for recovery.
pub const SPIKE_THRESHOLD: u64 = 10000;

/// A leader spikes on rounds divisible by this.
pub const SPIKE_PERIOD: u64 = 5;

/// A spiked node recovers on rounds divisible by this.
pub const RELOAD_PERIOD: u64 = 4;

/// No recovery within this many rounds right after a spike.
pub const RELOAD_HOLDOFF: u64 = 3;

/// Whether the recovery swing fires this round: the load is spiked, the
/// round number is a non-zero multiple of the recovery period, and the
/// round is not within the hold-off window after the last spike.
pub open spec fn spec_reload_due(load: u64, round: u64, spike_round: u64) -> bool {
    &&& load >= SPIKE_THRESHOLD
    &&& round % RELOAD_PERIOD == 0
    &&& round != 0
    &&& round != spike_round + 1
    &&& round != spike_round + 2
    &&& round != spike_round + 3
}

/// Whether the crash swing fires this round: only a current leader spikes,
/// on a non-zero multiple of the spike period.
pub open spec fn spec_spike_due(round: u64, is_leader: bool) -> bool {
    &&& is_leader
    &&& round % SPIKE_PERIOD == 0
    &&& round != 0
}

/// Applies the recovery swing if it is due this round.
pub fn reload_step(load: u64, round: u64, spike_round: u64) -> (new_load: u64)
    ensures
        spec_reload_due(load, round, spike_round) ==> new_load == load - SPIKE_AMOUNT,
        !spec_reload_due(load, round, spike_round) ==> new_load == load,
{
    let in_holdoff = round > spike_round && round - spike_round <= RELOAD_HOLDOFF;
    if load >= SPIKE_THRESHOLD && round % RELOAD_PERIOD == 0 && round != 0 && !in_holdoff {
        load - SPIKE_AMOUNT
    } else {
        load
    }
}

/// Applies the crash swing if it is due this round; returns the new load
/// and the round of the most recent spike.
pub fn spike_step(load: u64, round: u64, spike_round: u64, is_leader: bool) -> (r: (u64, u64))
    requires
        load + SPIKE_AMOUNT <= u64::MAX,
    ensures
        spec_spike_due(round, is_leader) ==> r.0 == load + SPIKE_AMOUNT && r.1 == round,
        !spec_spike_due(round, is_leader) ==> r == (load, spike_round),
{
    if is_leader && round % SPIKE_PERIOD == 0 && round != 0 {
        (load + SPIKE_AMOUNT, round)
    } else {
        (load, spike_round)
    }
}

/// A node that spiked is offered recovery again within two full recovery
/// periods: some later round within that window clears the hold-off and is
/// divisible by the recovery period, so a dropped node becomes re-eligible.
pub proof fn lemma_recovery_reachable(spike_round: u64)
    requires
        spike_round + 2 * RELOAD_PERIOD <= u64::MAX,
    ensures
        exists|round: u64|
            spike_round < round <= spike_round + 2 * RELOAD_PERIOD && #[trigger] spec_reload_due(
                SPIKE_THRESHOLD,
                round,
                spike_round,
            ),
{
    let base = (spike_round / RELOAD_PERIOD) * RELOAD_PERIOD;
    let candidate = (base + 2 * RELOAD_PERIOD) as u64;
    assert(candidate % RELOAD_PERIOD == 0) by (nonlinear_arith)
        requires
            candidate == (spike_round / RELOAD_PERIOD) * RELOAD_PERIOD + 2 * RELOAD_PERIOD,
            RELOAD_PERIOD == 4,
            candidate <= u64::MAX,
    ;
    assert(base <= spike_round < base + RELOAD_PERIOD) by (nonlinear_arith)
        requires
            base == (spike_round / RELOAD_PERIOD) * RELOAD_PERIOD,
            RELOAD_PERIOD == 4,
    ;
    assert(candidate > spike_round + 3);
    assert(spec_reload_due(SPIKE_THRESHOLD, candidate, spike_round));
}

} // verus!
