use ringrelay::election::{
    adopt_winner, apply_leader_increment, forward_better, leader_sequence, own_candidate, role_of,
    round_winner, ElectionRole, LoadInfo, LEADER_LOAD_INCREMENT,
};
use ringrelay::fault::{reload_step, spike_step, RELOAD_PERIOD, SPIKE_AMOUNT, SPIKE_PERIOD};
use ringrelay::ring::{predecessor, successor, RING_SIZE};

#[test]
fn ring_successor_and_predecessor_cycle() {
    assert_eq!(successor(1, RING_SIZE), 2);
    assert_eq!(successor(2, RING_SIZE), 3);
    assert_eq!(successor(3, RING_SIZE), 1);
    assert_eq!(predecessor(1, RING_SIZE), 3);
    assert_eq!(predecessor(2, RING_SIZE), 1);
    assert_eq!(predecessor(3, RING_SIZE), 2);
}

#[test]
fn roles_follow_ring_order() {
    assert_eq!(role_of(1, 1), ElectionRole::Initiator);
    assert_eq!(role_of(2, 1), ElectionRole::FirstHop);
    assert_eq!(role_of(3, 1), ElectionRole::SecondHop);
    assert_eq!(role_of(1, 3), ElectionRole::FirstHop);
    assert_eq!(role_of(2, 3), ElectionRole::SecondHop);
    assert_eq!(role_of(3, 3), ElectionRole::Initiator);
}

// Scenario: with initial loads 1.0, 2.0 and 2.5 (in tenths: 10, 20, 25) and
// initiator 1, node 1 wins round one; after its load rises to 3.0 node 2's
// load is lower, so round two picks node 2.
#[test]
fn scenario_two_rounds_with_leader_increment() {
    let mut loads: Vec<u64> = vec![10, 20, 25];
    let w1 = round_winner(&loads, 1);
    assert_eq!(w1.id, 1);
    assert_eq!(w1.load, 10);

    loads[0] = apply_leader_increment(loads[0]);
    assert_eq!(loads[0], 10 + LEADER_LOAD_INCREMENT);
    let w2 = round_winner(&loads, 1);
    assert_eq!(w2.id, 2);
    assert_eq!(w2.load, 20);
}

// Every choice of initiator selects the same winner: the three local views
// agree on one leader per round.
#[test]
fn winner_is_consistent_across_initiators() {
    let loads: Vec<u64> = vec![42, 17, 99];
    let w1 = round_winner(&loads, 1);
    let w2 = round_winner(&loads, 2);
    let w3 = round_winner(&loads, 3);
    assert_eq!(w1.id, 2);
    assert_eq!(w2.id, 2);
    assert_eq!(w3.id, 2);
    assert_eq!(adopt_winner(w1), 2);
}

// Determinism: the same loads and initiator give the same outcome again.
#[test]
fn repeated_rounds_are_deterministic() {
    let loads: Vec<u64> = vec![7, 7, 30];
    let first = round_winner(&loads, 2);
    let again = round_winner(&loads, 2);
    assert_eq!(first.id, again.id);
    assert_eq!(first.load, again.load);
}

// On equal loads the smaller identifier wins, whatever the initiator.
#[test]
fn tie_break_prefers_smaller_id() {
    let loads: Vec<u64> = vec![5, 5, 5];
    for initiator in 1..=3 {
        assert_eq!(round_winner(&loads, initiator).id, 1);
    }
    let kept = forward_better(
        LoadInfo { id: 2, load: 5 },
        LoadInfo { id: 1, load: 5 },
    );
    assert_eq!(kept.id, 1);
    let kept = forward_better(
        LoadInfo { id: 1, load: 5 },
        LoadInfo { id: 2, load: 5 },
    );
    assert_eq!(kept.id, 1);
}

#[test]
fn forward_better_prefers_lower_load() {
    let a = own_candidate(3, 12);
    let b = own_candidate(1, 40);
    assert_eq!(forward_better(a, b).id, 3);
    assert_eq!(forward_better(b, a).id, 3);
}

// A leader spikes on round five and is not offered recovery inside the
// three-round hold-off; round twelve sheds the spike again.
#[test]
fn fault_simulator_spike_and_reload_schedule() {
    let (load, spike_round) = spike_step(30, SPIKE_PERIOD, 0, true);
    assert_eq!(load, 30 + SPIKE_AMOUNT);
    assert_eq!(spike_round, SPIKE_PERIOD);

    // Round 8 is divisible by the recovery period but still in hold-off.
    assert_eq!(reload_step(load, 2 * RELOAD_PERIOD, spike_round), load);
    // Round 12 recovers.
    assert_eq!(reload_step(load, 3 * RELOAD_PERIOD, spike_round), 30);
    // A non-leader never spikes.
    let (unchanged, same_round) = spike_step(30, SPIKE_PERIOD, 0, false);
    assert_eq!(unchanged, 30);
    assert_eq!(same_round, 0);
    // Round zero never counts as a spike round.
    let (still, r0) = spike_step(30, 0, 7, true);
    assert_eq!(still, 30);
    assert_eq!(r0, 7);
}

// With fixed initial loads and no simulated faults the leader sequence is
// reproducible exactly: the leader increment makes leadership rotate.
#[test]
fn leader_sequence_is_reproducible() {
    let loads: Vec<u64> = vec![10, 20, 25];
    let leaders = leader_sequence(&loads, 1, 6);
    assert_eq!(leaders, vec![1, 2, 3, 1, 2, 3]);
    assert_eq!(leader_sequence(&loads, 1, 6), leaders);
}
